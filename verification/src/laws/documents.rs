//! What settings, locations, templates and the environment mean.
use vstd::prelude::*;

use crate::config;
use crate::config::RouterConfig;
use crate::config::RouterManifest;
use crate::config::Setting;
use crate::location;
use crate::outer_batch;
use crate::outer_batch::OuterBatchEnvelope;
use crate::startup;
use crate::startup::OtelEnv;
use crate::template;
use crate::text;

verus! {

/// Whether a text is a sequence of decimal digits.
pub open spec fn all_digits(s: Seq<char>) -> bool {
    forall|i: int| 0 <= i < s.len() ==> '0' <= #[trigger] s[i] <= '9'
}

proof fn lemma_digits(s: Seq<char>)
    ensures
        config::digits_value(s) is Some <==> all_digits(s),
    decreases s.len(),
{
    if s.len() > 0 {
        lemma_digits(s.drop_last());
        if all_digits(s) {
            assert forall|i: int| 0 <= i < s.len() - 1 implies '0' <= #[trigger] s.drop_last()[i]
                <= '9' by {
                assert(s[i] == s.drop_last()[i]);
            }
            assert('0' <= s[s.len() - 1] <= '9');
        } else if all_digits(s.drop_last()) {
            let i = choose|i: int| 0 <= i < s.len() && !('0' <= #[trigger] s[i] <= '9');
            if i < s.len() - 1 {
                assert(s.drop_last()[i] == s[i]);
            }
        }
    }
}

/// A text is read as a number exactly where it consists of digits, with or without a plus sign
/// in front. The notation of a number is read back, and each digit counts ten times the next.
pub proof fn lemma_numbers_are_read(s: Seq<char>, c: char, n: nat)
    ensures
        !s.contains('+') ==> (config::number_value(s) is Some <==> s.len() > 0 && all_digits(s)),
        s.len() > 0 && s[0] != '+' ==> config::number_value(seq!['+'] + s) == config::number_value(s),
        config::number_value(text::decimal_text(n)) == Some(n),
        all_digits(s) && '0' <= c <= '9' && s.len() > 0 ==> config::number_value(s.push(c)) == Some(
            (config::number_value(s)->0 * 10 + (c as int - '0' as int)) as nat,
        ),
{
    config::lemma_decimal_notation_is_read_back(n);
    lemma_digits(s);
    assert((seq!['+'] + s).drop_first() =~= s);
    if s.len() > 0 {
        assert(s.contains(s[0]));
        assert(s.push(c).drop_last() =~= s);
        assert(s.push(c)[0] == s[0]);
    }
}

/// Whether a setting that was read has its value: its number, or its default where it is left out.
pub open spec fn reads(setting: Option<Setting>, default: nat, value: nat) -> bool {
    match setting {
        None => value == default,
        Some(Setting::Number(n)) => value == n,
        Some(Setting::Text(t)) => config::number_value(t@) == Some(value),
    }
}

/// Whether a setting cannot be read: it is not a number, or one that is too large.
pub open spec fn unreadable(setting: Option<Setting>, max: nat) -> bool {
    match setting {
        None => false,
        Some(Setting::Number(n)) => n > max,
        Some(Setting::Text(t)) => match config::number_value(t@) {
            Some(v) => v > max,
            None => true,
        },
    }
}

/// A configuration has what its document says, setting by setting, and a default for each setting
/// that is left out.
pub proof fn lemma_settings_are_taken_over(m: RouterManifest, c: RouterConfig)
    requires
        config::is_configured(m, c),
    ensures
        c.listen_addr == m.listen_addr,
        c.spec == m.spec,
        c.aws_region == m.aws_region,
        c.forward_headers == m.forward_headers,
        reads(m.max_inflight_invocations, 64, c.max_inflight_invocations as nat),
        reads(m.max_inflight_requests, 4096, c.max_inflight_requests as nat),
        reads(m.max_pending_invocations, 256, c.max_pending_invocations as nat),
        reads(m.max_queue_depth_per_key, 1000, c.max_queue_depth_per_key as nat),
        reads(m.idle_ttl_ms, 30_000, c.idle_ttl_ms as nat),
        reads(m.default_timeout_ms, 2_000, c.default_timeout_ms as nat),
        reads(m.max_body_bytes, 1024 * 1024, c.max_body_bytes as nat),
        reads(m.max_invoke_payload_bytes, 6 * 1024 * 1024, c.max_invoke_payload_bytes as nat),
{
}

/// A document is refused only for a setting that cannot be read, and the error names it.
pub proof fn lemma_documents_are_refused_for_a_setting(m: RouterManifest, e: Seq<char>)
    requires
        config::is_first_fault(m, e),
    ensures
        ({
            let size = usize::MAX as nat;
            let time = u64::MAX as nat;
            let fault = " must be a whole number in range"@;
            ||| unreadable(m.max_inflight_invocations, size) && e == "MaxInflightInvocations"@ + fault
            ||| unreadable(m.max_inflight_requests, size) && e == "MaxInflightRequests"@ + fault
            ||| unreadable(m.max_pending_invocations, size) && e == "MaxPendingInvocations"@ + fault
            ||| unreadable(m.max_queue_depth_per_key, size) && e == "MaxQueueDepthPerKey"@ + fault
            ||| unreadable(m.idle_ttl_ms, time) && e == "IdleTtlMs"@ + fault
            ||| unreadable(m.default_timeout_ms, time) && e == "DefaultTimeoutMs"@ + fault
            ||| unreadable(m.max_body_bytes, size) && e == "MaxBodyBytes"@ + fault
            ||| unreadable(m.max_invoke_payload_bytes, size) && e == "MaxInvokePayloadBytes"@ + fault
        }),
{
    let s = config::numeric_settings(m);
    let i = choose|i: int|
        0 <= i < s.len() && config::listed_value(#[trigger] s[i]) is None && e
            == config::setting_fault(s[i].1) && forall|j: int|
            0 <= j < i ==> config::listed_value(#[trigger] s[j]) is Some;
    assert(i == 0 || i == 1 || i == 2 || i == 3 || i == 4 || i == 5 || i == 6 || i == 7);
}

/// The upper case hexadecimal digit of a number below sixteen.
pub open spec fn hex_upper(n: int) -> u8 {
    if n < 10 {
        (48 + n) as u8
    } else {
        (55 + n) as u8
    }
}

/// Bytes with each of them percent-encoded.
pub open spec fn percent_encoded(s: Seq<u8>) -> Seq<u8>
    decreases s.len(),
{
    if s.len() == 0 {
        Seq::empty()
    } else {
        seq![37u8, hex_upper(s[0] as int / 16), hex_upper(s[0] as int % 16)] + percent_encoded(
            s.drop_first(),
        )
    }
}

/// Decoding undoes percent-encoding, and leaves bytes without a percent sign as they are.
pub proof fn lemma_percent_encoding_is_undone(s: Seq<u8>)
    ensures
        location::percent_decoded(percent_encoded(s)) == s,
        !s.contains(37u8) ==> location::percent_decoded(s) == s,
    decreases s.len(),
{
    if s.len() > 0 {
        let rest = s.drop_first();
        lemma_percent_encoding_is_undone(rest);
        let e = percent_encoded(s);
        let hi = s[0] as int / 16;
        let lo = s[0] as int % 16;
        assert(e[0] == 37 && e[1] == hex_upper(hi) && e[2] == hex_upper(lo));
        assert(location::hex_value(e[1]) == Some(hi as u8));
        assert(location::hex_value(e[2]) == Some(lo as u8));
        assert(location::encoded_byte(e) == Some(s[0]));
        assert(e.skip(3) =~= percent_encoded(rest));
        assert(seq![s[0]] + rest =~= s);
        if !s.contains(37u8) {
            assert(s.contains(s[0]));
            assert forall|i: int| 0 <= i < rest.len() implies rest[i] != 37u8 by {
                assert(s.contains(s[i + 1]));
            }
            assert(!rest.contains(37u8));
        }
    } else {
        assert(location::percent_decoded(s) =~= s);
    }
}

/// Both letter cases of hexadecimal digits are read, and what is not percent-encoded stays.
pub proof fn lemma_percent_signs(h: u8, l: u8, rest: Seq<u8>)
    ensures
        ({
            let digit = |b: u8| 48 <= b <= 57 || 65 <= b <= 70 || 97 <= b <= 102;
            let value = |b: u8|
                if b <= 57 {
                    b - 48
                } else if b <= 70 {
                    b - 55
                } else {
                    b - 87
                };
            let out = location::percent_decoded(seq![37u8, h, l] + rest);
            if digit(h) && digit(l) {
                out == seq![(value(h) * 16 + value(l)) as u8] + location::percent_decoded(rest)
            } else {
                out == seq![37u8] + location::percent_decoded(seq![h, l] + rest)
            }
        }),
{
    let s = seq![37u8, h, l] + rest;
    assert(s.skip(3) =~= rest);
    assert(s.drop_first() =~= seq![h, l] + rest);
}

/// Where a text leads: an `s3` URL to its bucket and the key behind the slash, a `file` URL to the
/// file on this machine, and everything else to the file of that name.
pub proof fn lemma_locations(
    s: Seq<char>,
    scheme: Seq<char>,
    host: Option<Seq<char>>,
    port: Option<u16>,
    path: Seq<char>,
    key: Seq<char>,
)
    ensures
        location::location_of(s, None) == Ok::<_, Seq<char>>(location::LocationView::File(s)),
        scheme != "s3"@ && scheme != "file"@ ==> location::location_of(
            s,
            Some((scheme, host, port, path)),
        ) == Ok::<_, Seq<char>>(location::LocationView::File(s)),
        key.len() > 0 && key[0] != '/' ==> (host matches Some(bucket) ==> location::location_of(
            s,
            Some(("s3"@, host, port, seq!['/'] + key)),
        ) == Ok::<_, Seq<char>>(location::LocationView::S3 { bucket, key })),
        location::location_of(s, Some(("s3"@, None, port, path))) is Err,
        location::location_of(s, Some(("s3"@, host, port, seq!['/']))) is Err,
        host is None || host == Some("localhost"@) ==> ({
            let bytes = location::percent_decoded(vstd::utf8::encode_utf8(path));
            let out = location::location_of(s, Some(("file"@, host, port, path)));
            if vstd::utf8::valid_utf8(bytes) {
                out == Ok::<_, Seq<char>>(
                    location::LocationView::File(vstd::utf8::decode_utf8(bytes)),
                )
            } else {
                out is Err
            }
        }),
        host is Some && host != Some("localhost"@) ==> location::location_of(
            s,
            Some(("file"@, host, port, path)),
        ) is Err,
{
    reveal_strlit("s3");
    reveal_strlit("file");
    assert("s3"@.len() != "file"@.len());
    reveal_with_fuel(text::without_leading, 3);
    assert((seq!['/'] + key).drop_first() =~= key);
    assert(seq!['/'].drop_first() =~= Seq::<char>::empty());
}

/// The argument says where the configuration is, unless it is blank; then the variable does.
pub proof fn lemma_the_argument_comes_first(arg: Seq<char>, env: Option<Seq<char>>)
    ensures
        text::trimmed(arg).len() > 0 ==> startup::config_location(Some(arg), env) == Ok::<
            _,
            Seq<char>,
        >(arg),
        text::trimmed(arg).len() == 0 ==> startup::config_location(Some(arg), env)
            == startup::config_location(None, env),
        env matches Some(e) ==> (text::trimmed(e).len() > 0 ==> startup::config_location(None, env)
            == Ok::<_, Seq<char>>(e)),
        env matches Some(e) ==> (text::trimmed(e).len() == 0 ==> startup::config_location(
            None,
            env,
        ) is Err),
        startup::config_location(None, None) is Err,
{
}

/// Whether a variable is set to something that is not blank.
pub open spec fn is_set(v: Option<String>) -> bool {
    v matches Some(s) && text::trimmed(s@).len() > 0
}

/// A variable of OpenTelemetry gets its default exactly where it is not set; that of the endpoint
/// only where neither endpoint is.
pub proof fn lemma_otel_defaults(env: OtelEnv)
    ensures
        ({
            let d = startup::otel_defaults(env);
            let endpoint = ("OTEL_EXPORTER_OTLP_ENDPOINT"@, "http://localhost:4317"@);
            let propagators = ("OTEL_PROPAGATORS"@, "xray,tracecontext,baggage"@);
            let metrics = ("OTEL_METRICS_EXPORTER"@, "none"@);
            &&& !is_set(env.traces_endpoint) && !is_set(env.endpoint) ==> d.contains(endpoint)
            &&& !is_set(env.propagators) ==> d.contains(propagators)
            &&& !is_set(env.metrics_exporter) ==> d.contains(metrics)
            &&& d.len() == (if !is_set(env.traces_endpoint) && !is_set(env.endpoint) {
                1int
            } else {
                0
            }) + (if !is_set(env.propagators) {
                1int
            } else {
                0
            }) + (if !is_set(env.metrics_exporter) {
                1int
            } else {
                0
            })
        }),
{
    let d = startup::otel_defaults(env);
    let a = if !is_set(env.traces_endpoint) && !is_set(env.endpoint) {
        1int
    } else {
        0
    };
    let b = if !is_set(env.propagators) {
        1int
    } else {
        0
    };
    if a == 1 {
        assert(d[0] == ("OTEL_EXPORTER_OTLP_ENDPOINT"@, "http://localhost:4317"@));
    }
    if b == 1 {
        assert(d[a] == ("OTEL_PROPAGATORS"@, "xray,tracecontext,baggage"@));
    }
    if !is_set(env.metrics_exporter) {
        assert(d[a + b] == ("OTEL_METRICS_EXPORTER"@, "none"@));
    }
}

/// Traces go where the variable of traces says, and where it is not there, where the general one
/// says. A blank one says nothing.
pub proof fn lemma_trace_endpoints(traces: Seq<char>, general: Option<Seq<char>>)
    ensures
        startup::traces_endpoint(Some(traces), general) == if text::trimmed(traces).len() > 0 {
            Some(text::trimmed(traces))
        } else {
            None
        },
        startup::traces_endpoint(None, Some(traces)) == if text::trimmed(traces).len() > 0 {
            Some(text::trimmed(traces))
        } else {
            None
        },
        startup::traces_endpoint(None, None) is None,
{
}

/// The address of an endpoint: host and port of a URL, or what stands there where it is no URL
/// but names a port.
pub proof fn lemma_addresses(
    endpoint: Seq<char>,
    scheme: Seq<char>,
    host: Seq<char>,
    port: u16,
    path: Seq<char>,
)
    ensures
        startup::host_port(endpoint, Some((scheme, Some(host), Some(port), path))) == Some(
            host + ":"@ + text::decimal_text(port as nat),
        ),
        startup::host_port(endpoint, Some((scheme, Some(host), None, path))) is None,
        ({
            let plain = text::without_trailing(text::trimmed(endpoint), '/');
            &&& path.len() > 0 && '0' <= path[0] <= '9' ==> startup::host_port(
                endpoint,
                Some((scheme, None, Some(port), path)),
            ) == Some(plain) && startup::host_port(endpoint, Some((scheme, None, None, path)))
                == Some(plain)
            &&& path.len() == 0 || !('0' <= path[0] <= '9') ==> startup::host_port(
                endpoint,
                Some((scheme, None, None, path)),
            ) is None
            &&& startup::host_port(endpoint, None) == if plain.contains(':') {
                Some(plain)
            } else {
                None
            }
        }),
{
}

/// The names of variables: a letter or an underscore, and then letters, digits and underscores.
pub proof fn lemma_names_of_variables(name: Seq<char>)
    ensures
        template::is_env_name(name) <==> {
            &&& name.len() > 0
            &&& !('0' <= name[0] <= '9')
            &&& forall|i: int|
                0 <= i < name.len() ==> ('a' <= #[trigger] name[i] <= 'z' || 'A' <= name[i] <= 'Z'
                    || '0' <= name[i] <= '9' || name[i] == '_')
        },
{
    if template::is_env_name(name) {
        assert(template::continues_name(name[0]));
        assert forall|i: int| 0 <= i < name.len() implies ('a' <= #[trigger] name[i] <= 'z' || 'A'
            <= name[i] <= 'Z' || '0' <= name[i] <= '9' || name[i] == '_') by {
            assert(template::continues_name(name[i]));
        }
    }
}

/// The first placeholder of a template is replaced by the value of its variable, and the text
/// before it stays. Without a value it is an error that names the variable, and so is a
/// placeholder whose name is none or that does not end.
pub proof fn lemma_placeholders_are_replaced(
    before: Seq<char>,
    name: Seq<char>,
    after: Seq<char>,
    value: Seq<char>,
    found: Seq<Option<Seq<char>>>,
)
    requires
        !before.contains('$'),
        !name.contains('}'),
    ensures
        ({
            let s = before + seq!['$', '{'] + name + seq!['}'] + after;
            if template::is_env_name(name) {
                &&& template::rendered(s, seq![Some(value)] + found) == match template::rendered(
                    after,
                    found,
                ) {
                    Ok(r) => Ok::<Seq<char>, Seq<char>>(before + value + r),
                    Err(e) => Err(e),
                }
                &&& template::rendered(s, seq![None] + found) == Err::<Seq<char>, _>(
                    "missing environment variable: "@ + name,
                )
                &&& template::placeholder_names(s) == seq![name] + template::placeholder_names(after)
            } else {
                &&& template::rendered(s, found) is Err
                &&& template::placeholder_names(s).len() == 0
            }
        }),
        template::rendered(before + seq!['$', '{'] + name, found) == Err::<Seq<char>, _>(
            "unterminated placeholder"@,
        ),
        template::placeholder_names(before + seq!['$', '{'] + name).len() == 0,
        template::rendered(before, found) == Ok::<Seq<char>, Seq<char>>(before),
        template::placeholder_names(before).len() == 0,
    decreases before.len(),
{
    let s = before + seq!['$', '{'] + name + seq!['}'] + after;
    let u = before + seq!['$', '{'] + name;
    if before.len() == 0 {
        let t = s.skip(2);
        assert(t =~= name + seq!['}'] + after);
        text::lemma_piece_len(t, '}');
        let k = text::piece_len(t, '}') as int;
        let n = name.len() as int;
        if k < n {
            assert(name.contains(name[k]));
            assert(t[k] == name[k]);
        }
        assert(t[n] == '}');
        assert(k == n);
        assert(s[0] == '$' && s[1] == '{');
        assert(s.subrange(2, n + 2) =~= name);
        assert(s.skip(n + 3) =~= after);
        assert((seq![Some(value)] + found).drop_first() =~= found);
        assert((seq![Some(value)] + found)[0] == Some(value));
        assert((seq![None::<Seq<char>>] + found)[0] is None);
        assert(before + value =~= value);
        let w = u.skip(2);
        assert(w =~= name);
        text::lemma_piece_len(w, '}');
        let j = text::piece_len(w, '}') as int;
        if j < n {
            assert(name.contains(name[j]));
        }
        assert(u[0] == '$' && u[1] == '{');
        assert(before =~= Seq::<char>::empty());
    } else {
        let b = before.drop_first();
        assert(before.contains(before[0]));
        assert forall|i: int| 0 <= i < b.len() implies b[i] != '$' by {
            assert(before.contains(before[i + 1]));
        }
        assert(!b.contains('$'));
        lemma_placeholders_are_replaced(b, name, after, value, found);
        assert(s[0] == before[0] && u[0] == before[0]);
        assert(s.drop_first() =~= b + seq!['$', '{'] + name + seq!['}'] + after);
        assert(u.drop_first() =~= b + seq!['$', '{'] + name);
        assert(seq![before[0]] + b =~= before);
        if let Ok(r) = template::rendered(after, found) {
            assert(seq![before[0]] + (b + value + r) =~= before + value + r);
        }
    }
}

/// A body that is no batch of the first version holds no invocations. One that is holds one for
/// each of its items, in order, exactly where each item has an id and no two have the same.
pub proof fn lemma_outer_batches(env: OuterBatchEnvelope, i: int)
    ensures
        outer_batch::outer_batch(None) == Ok::<
            Option<Seq<outer_batch::InvocationView>>,
            Seq<char>,
        >(None),
        env.v != 1 ==> outer_batch::outer_batch(Some(env)) == Ok::<
            Option<Seq<outer_batch::InvocationView>>,
            Seq<char>,
        >(None),
        env.v == 1 ==> ({
            let out = outer_batch::outer_batch(Some(env));
            let id = |k: int|
                outer_batch::pointer_text(env.batch@[k]@, "/requestContext/requestId"@);
            &&& out is Ok <==> (forall|k: int|
                0 <= k < env.batch@.len() ==> outer_batch::pointer_text(
                    (#[trigger] env.batch@[k])@,
                    "/requestContext/requestId"@,
                ) is Some) && (forall|j: int, k: int|
                0 <= j < k < env.batch@.len() ==> outer_batch::pointer_text(
                    (#[trigger] env.batch@[j])@,
                    "/requestContext/requestId"@,
                ) != outer_batch::pointer_text(
                    (#[trigger] env.batch@[k])@,
                    "/requestContext/requestId"@,
                ))
            &&& out matches Ok(o) ==> {
                &&& o matches Some(all)
                &&& all.len() == env.batch@.len()
                &&& 0 <= i < all.len() ==> all[i].1 == env.batch@[i]@ && Some(all[i].0) == id(i)
            }
        }),
{
    let batch = outer_batch::item_bytes(env.batch@);
    let ids = outer_batch::item_ids(batch);
    outer_batch::lemma_taken_apart(batch, ids, Seq::empty());
    lemma_ids_decide(batch, ids, Seq::empty());
    let all = forall|k: int| 0 <= k < ids.len() ==> (#[trigger] ids[k]) is Some;
    let distinct = forall|j: int, k: int|
        0 <= j < k < ids.len() ==> #[trigger] ids[j] != #[trigger] ids[k];
    assert forall|k: int| 0 <= k < ids.len() implies #[trigger] ids[k] == outer_batch::pointer_text(
        env.batch@[k]@,
        "/requestContext/requestId"@,
    ) by {
        assert(batch[k] == env.batch@[k]@);
    }
    if all {
        assert forall|k: int| 0 <= k < env.batch@.len() implies outer_batch::pointer_text(
            (#[trigger] env.batch@[k])@,
            "/requestContext/requestId"@,
        ) is Some by {
            assert(ids[k] is Some);
        }
    } else {
        let k = choose|k: int| 0 <= k < ids.len() && (#[trigger] ids[k]) is None;
        assert(env.batch@[k] == env.batch@[k]);
    }
    if distinct {
        assert forall|j: int, k: int| 0 <= j < k < env.batch@.len() implies outer_batch::pointer_text(
            (#[trigger] env.batch@[j])@,
            "/requestContext/requestId"@,
        ) != outer_batch::pointer_text(
            (#[trigger] env.batch@[k])@,
            "/requestContext/requestId"@,
        ) by {
            assert(ids[j] != ids[k]);
        }
    } else {
        let (j, k) = choose|j: int, k: int|
            0 <= j < k < ids.len() && #[trigger] ids[j] == #[trigger] ids[k];
        assert(env.batch@[j] == env.batch@[j] && env.batch@[k] == env.batch@[k]);
    }
    if let Ok(out) = outer_batch::taken_apart(batch, ids, Seq::empty()) {
        if env.v == 1 && 0 <= i < out.len() {
            assert(out[0 + i].1 == batch[i]);
        }
    }
}

/// Taking a batch apart fails exactly where an item has no id or one that is there already.
proof fn lemma_ids_decide(
    batch: Seq<Seq<u8>>,
    ids: Seq<Option<Seq<char>>>,
    acc: Seq<outer_batch::InvocationView>,
)
    requires
        ids.len() == batch.len(),
    ensures
        outer_batch::taken_apart(batch, ids, acc) is Ok <==> {
            &&& forall|k: int| 0 <= k < ids.len() ==> (#[trigger] ids[k]) is Some
            &&& forall|j: int, k: int|
                0 <= j < k < ids.len() ==> #[trigger] ids[j] != #[trigger] ids[k]
            &&& forall|k: int|
                0 <= k < ids.len() ==> ((#[trigger] ids[k]) matches Some(id)
                    ==> !outer_batch::has_invocation(acc, id))
        },
    decreases batch.len(),
{
    if batch.len() > 0 {
        let rest = ids.drop_first();
        if let Some(id) = ids[0] {
            let next = acc.push((id, batch[0]));
            lemma_ids_decide(batch.drop_first(), rest, next);
            assert forall|x: Seq<char>| #[trigger] outer_batch::has_invocation(next, x) == (x == id
                || outer_batch::has_invocation(acc, x)) by {
                assert(next[acc.len() as int].0 == id);
                if outer_batch::has_invocation(next, x) && x != id {
                    let i = choose|i: int| 0 <= i < next.len() && (#[trigger] next[i]).0 == x;
                    assert(acc[i].0 == x);
                }
                if outer_batch::has_invocation(acc, x) {
                    let i = choose|i: int| 0 <= i < acc.len() && (#[trigger] acc[i]).0 == x;
                    assert(next[i].0 == x);
                }
            }
            let good = {
                &&& forall|k: int| 0 <= k < ids.len() ==> (#[trigger] ids[k]) is Some
                &&& forall|j: int, k: int|
                    0 <= j < k < ids.len() ==> #[trigger] ids[j] != #[trigger] ids[k]
                &&& forall|k: int|
                    0 <= k < ids.len() ==> ((#[trigger] ids[k]) matches Some(x)
                        ==> !outer_batch::has_invocation(acc, x))
            };
            if good {
                assert(!outer_batch::has_invocation(acc, id));
                assert forall|k: int| 0 <= k < rest.len() implies (#[trigger] rest[k]) is Some by {
                    assert(rest[k] == ids[k + 1]);
                }
                assert forall|j: int, k: int| 0 <= j < k < rest.len() implies #[trigger] rest[j]
                    != #[trigger] rest[k] by {
                    assert(rest[j] == ids[j + 1] && rest[k] == ids[k + 1]);
                }
                assert forall|k: int| 0 <= k < rest.len() implies ((
                #[trigger] rest[k]) matches Some(x) ==> !outer_batch::has_invocation(next, x)) by {
                    assert(rest[k] == ids[k + 1]);
                    assert(ids[0] != ids[k + 1]);
                }
            }
            if outer_batch::taken_apart(batch, ids, acc) is Ok {
                assert forall|k: int| 0 <= k < ids.len() implies (#[trigger] ids[k]) is Some by {
                    if k > 0 {
                        assert(rest[k - 1] == ids[k]);
                    }
                }
                assert forall|j: int, k: int| 0 <= j < k < ids.len() implies #[trigger] ids[j]
                    != #[trigger] ids[k] by {
                    assert(rest[k - 1] == ids[k]);
                    if j > 0 {
                        assert(rest[j - 1] == ids[j]);
                    }
                }
                assert forall|k: int| 0 <= k < ids.len() implies ((
                #[trigger] ids[k]) matches Some(x) ==> !outer_batch::has_invocation(acc, x)) by {
                    if k > 0 {
                        assert(rest[k - 1] == ids[k]);
                    }
                }
            }
        }
    }
}

} // verus!
