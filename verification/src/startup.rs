//! What the environment and the command line decide at startup.
use vstd::prelude::*;
use vstd::string::*;

use crate::location;
use crate::location::UrlParts;
use crate::text;

verus! {

/// Whether a variable is unset or blank.
pub open spec fn is_blank(value: Option<Seq<char>>) -> bool {
    match value {
        Some(v) => text::trimmed(v).len() == 0,
        None => true,
    }
}

/// Whether a variable is unset or blank.
pub fn env_missing_or_empty(value: &Option<String>) -> (r: bool)
    ensures
        r == is_blank(text::opt_text(*value)),
{
    match value {
        Some(v) => {
            let t = text::trim(v.as_str());
            text::is_empty(t.as_str())
        },
        None => true,
    }
}

/// Where the configuration is: the argument, or else the variable `LPR_CONFIG_URI`; blank ones
/// count as missing.
pub open spec fn config_location(arg: Option<Seq<char>>, env: Option<Seq<char>>) -> Result<
    Seq<char>,
    Seq<char>,
> {
    if !is_blank(arg) {
        Ok(arg->0)
    } else if !is_blank(env) {
        Ok(env->0)
    } else {
        Err("missing config location: provide --config or set LPR_CONFIG_URI"@)
    }
}

/// Where the configuration is, given the argument and the variable `LPR_CONFIG_URI`.
pub fn resolve_config_location(arg: Option<String>, env: Option<String>) -> (r: Result<
    String,
    String,
>)
    ensures
        match config_location(text::opt_text(arg), text::opt_text(env)) {
            Ok(s) => r matches Ok(x) && x@ == s,
            Err(e) => r matches Err(m) && m@ == e,
        },
{
    if !env_missing_or_empty(&arg) {
        if let Some(v) = arg {
            return Ok(v);
        }
    }
    if !env_missing_or_empty(&env) {
        if let Some(v) = env {
            return Ok(v);
        }
    }
    Err("missing config location: provide --config or set LPR_CONFIG_URI".to_owned())
}

/// Whether responses tell how many requests shared their invocation, given the variable
/// `LPR_INCLUDE_BATCH_SIZE_HEADER`.
pub fn includes_batch_size_header(value: &Option<String>) -> (r: bool)
    ensures
        r == (text::opt_text(*value) == Some("1"@)),
{
    match value {
        Some(v) => text::same_text(v.as_str(), "1"),
        None => false,
    }
}

/// The variables of OpenTelemetry that decide about the defaults.
#[derive(Debug)]
pub struct OtelEnv {
    /// `OTEL_EXPORTER_OTLP_TRACES_ENDPOINT`
    pub traces_endpoint: Option<String>,
    /// `OTEL_EXPORTER_OTLP_ENDPOINT`
    pub endpoint: Option<String>,
    /// `OTEL_PROPAGATORS`
    pub propagators: Option<String>,
    /// `OTEL_METRICS_EXPORTER`
    pub metrics_exporter: Option<String>,
}

/// The variables that get a default, with their values: traces go to the local collector, the
/// trace headers of AWS X-Ray and of W3C are accepted, and metrics are off.
pub open spec fn otel_defaults(env: OtelEnv) -> Seq<(Seq<char>, Seq<char>)> {
    let endpoint = if is_blank(text::opt_text(env.traces_endpoint)) && is_blank(
        text::opt_text(env.endpoint),
    ) {
        seq![("OTEL_EXPORTER_OTLP_ENDPOINT"@, "http://localhost:4317"@)]
    } else {
        Seq::empty()
    };
    let propagators = if is_blank(text::opt_text(env.propagators)) {
        seq![("OTEL_PROPAGATORS"@, "xray,tracecontext,baggage"@)]
    } else {
        Seq::empty()
    };
    let metrics = if is_blank(text::opt_text(env.metrics_exporter)) {
        seq![("OTEL_METRICS_EXPORTER"@, "none"@)]
    } else {
        Seq::empty()
    };
    endpoint + propagators + metrics
}

/// Pairs of string slices, taken by their views.
pub open spec fn variable_texts(vars: Seq<(&'static str, &'static str)>) -> Seq<
    (Seq<char>, Seq<char>),
> {
    Seq::new(vars.len(), |i: int| (vars[i].0@, vars[i].1@))
}

/// The variables of OpenTelemetry that are to be set.
pub fn configure_otel_env_defaults(env: &OtelEnv) -> (r: Vec<(&'static str, &'static str)>)
    ensures
        variable_texts(r@) == otel_defaults(*env),
{
    let mut out: Vec<(&'static str, &'static str)> = Vec::new();
    if env_missing_or_empty(&env.traces_endpoint) && env_missing_or_empty(&env.endpoint) {
        out.push(("OTEL_EXPORTER_OTLP_ENDPOINT", "http://localhost:4317"));
    }
    if env_missing_or_empty(&env.propagators) {
        out.push(("OTEL_PROPAGATORS", "xray,tracecontext,baggage"));
    }
    if env_missing_or_empty(&env.metrics_exporter) {
        out.push(("OTEL_METRICS_EXPORTER", "none"));
    }
    assert(variable_texts(out@) =~= otel_defaults(*env));
    out
}

/// Where traces go: the first of the two variables that is set, unless it is blank.
pub open spec fn traces_endpoint(
    traces: Option<Seq<char>>,
    general: Option<Seq<char>>,
) -> Option<Seq<char>> {
    let first = if traces is Some {
        traces
    } else {
        general
    };
    if is_blank(first) {
        None
    } else {
        Some(text::trimmed(first->0))
    }
}

/// Where traces go, given `OTEL_EXPORTER_OTLP_TRACES_ENDPOINT` and
/// `OTEL_EXPORTER_OTLP_ENDPOINT`.
pub fn otlp_traces_endpoint_env(traces: Option<String>, general: Option<String>) -> (r: Option<
    String,
>)
    ensures
        text::opt_text(r) == traces_endpoint(text::opt_text(traces), text::opt_text(general)),
{
    let first = match traces {
        Some(t) => Some(t),
        None => general,
    };
    match first {
        Some(v) => {
            let t = text::trim(v.as_str());
            if text::is_empty(t.as_str()) {
                None
            } else {
                Some(t)
            }
        },
        None => None,
    }
}

/// Whether URL parts are those of a host and a port: `localhost:4317` is read as a URL without
/// a host, whose scheme is `localhost` and whose path begins with the port.
pub open spec fn is_host_and_port(parts: location::UrlView) -> bool {
    let (_, host, _, path) = parts;
    host is None && path.len() > 0 && '0' <= path[0] <= '9'
}

/// The address of an endpoint with these URL parts: host and port of a URL, or the endpoint
/// itself where it is configured without a scheme (e.g. `localhost:4317`). A URL without a host
/// or a port has none.
pub open spec fn host_port(
    endpoint: Seq<char>,
    parts: Option<location::UrlView>,
) -> Option<Seq<char>> {
    let plain = text::without_trailing(text::trimmed(endpoint), '/');
    match parts {
        Some(p) => if is_host_and_port(p) {
            Some(plain)
        } else {
            match (p.1, p.2) {
                (Some(host), Some(port)) => Some(host + ":"@ + text::decimal_text(port as nat)),
                _ => None,
            }
        },
        None => if plain.contains(':') {
            Some(plain)
        } else {
            None
        },
    }
}

fn begins_with_digit(s: &str) -> (r: bool)
    ensures
        r == (s@.len() > 0 && '0' <= s@[0] <= '9'),
{
    let chars = text::to_chars(s);
    chars.len() > 0 && '0' <= chars[0] && chars[0] <= '9'
}

/// The address of an endpoint with these URL parts.
pub fn host_port_of(endpoint: &str, parts: Option<UrlParts>) -> (r: Option<String>)
    ensures
        text::opt_text(r) == host_port(endpoint@, location::opt_parts(parts)),
{
    let t = text::trim(endpoint);
    let plain = text::trim_end_matches(t.as_str(), '/');
    match parts {
        Some(url) => match url.host {
            Some(host) => match url.port {
                Some(p) => {
                    let mut out = host;
                    out.append(":");
                    let digits = text::decimal(p as u64);
                    out.append(digits.as_str());
                    Some(out)
                },
                None => None,
            },
            None => if begins_with_digit(url.path.as_str()) {
                Some(plain)
            } else {
                None
            },
        },
        None => if text::contains_char(plain.as_str(), ':') {
            Some(plain)
        } else {
            None
        },
    }
}

/// The address of an endpoint.
pub fn resolve_host_port(endpoint: &str) -> (r: Option<String>)
    ensures
        text::opt_text(r) == host_port(endpoint@, location::url_parts(endpoint@)),
{
    host_port_of(endpoint, location::parse_url(endpoint))
}

} // verus!
