//! Router configuration.
//!
//! This config is intentionally small and focused on batching behavior and safe defaults.
use vstd::prelude::*;
use vstd::string::*;

use crate::request::BatchingConfig;
use crate::spec::OpenApiLikeSpec;
use crate::text;

verus! {

pub fn default_max_inflight_invocations() -> (r: usize)
    ensures
        r == 64,
{
    64
}

pub fn default_max_queue_depth_per_key() -> (r: usize)
    ensures
        r == 1000,
{
    1000
}

pub fn default_idle_ttl_ms() -> (r: u64)
    ensures
        r == 30_000,
{
    30_000
}

pub fn default_default_timeout_ms() -> (r: u64)
    ensures
        r == 2_000,
{
    2_000
}

pub fn default_max_body_bytes() -> (r: usize)
    ensures
        r == 1024 * 1024,
{
    1024 * 1024
}

pub fn default_max_invoke_payload_bytes() -> (r: usize)
    ensures
        r == 6 * 1024 * 1024,
{
    6 * 1024 * 1024
}

pub fn default_max_inflight_requests() -> (r: usize)
    ensures
        r == 4096,
{
    4096
}

pub fn default_max_pending_invocations() -> (r: usize)
    ensures
        r == 256,
{
    256
}

/// Header forwarding policy.
///
/// By default (empty `allow` and empty `deny`) the router forwards all headers that can be
/// decoded as UTF-8, except hop-by-hop headers.
#[derive(Debug)]
pub struct ForwardHeadersConfig {
    /// If non-empty, only forward these headers (case-insensitive).
    pub allow: Vec<String>,
    /// Always drop these headers (case-insensitive).
    pub deny: Vec<String>,
}

impl Default for ForwardHeadersConfig {
    fn default() -> (r: Self)
        ensures
            r.allow@.len() == 0,
            r.deny@.len() == 0,
    {
        ForwardHeadersConfig { allow: Vec::new(), deny: Vec::new() }
    }
}

/// A number in a document, which may be written as a string.
#[derive(Debug)]
pub enum Setting {
    Number(u64),
    Text(String),
}

/// The number that some decimal digits denote.
pub open spec fn digits_value(s: Seq<char>) -> Option<nat>
    decreases s.len(),
{
    if s.len() == 0 {
        Some(0)
    } else if '0' <= s.last() <= '9' {
        match digits_value(s.drop_last()) {
            Some(v) => Some((v * 10 + (s.last() as int - 48)) as nat),
            None => None,
        }
    } else {
        None
    }
}

/// The number that a text denotes in decimal notation, with or without a plus sign.
pub open spec fn number_value(s: Seq<char>) -> Option<nat> {
    let digits = if s.len() > 0 && s[0] == '+' {
        s.drop_first()
    } else {
        s
    };
    if digits.len() == 0 {
        None
    } else {
        digits_value(digits)
    }
}

/// The number that a text denotes, where it is not larger than `max`.
pub open spec fn number_up_to(s: Seq<char>, max: nat) -> Option<nat> {
    match number_value(s) {
        Some(v) => if v <= max {
            Some(v)
        } else {
            None
        },
        None => None,
    }
}

proof fn lemma_digits_grow(s: Seq<char>, n: int)
    requires
        0 <= n <= s.len(),
        digits_value(s) is Some,
    ensures
        digits_value(s.take(n)) is Some,
        digits_value(s.take(n))->0 <= digits_value(s)->0,
    decreases s.len(),
{
    if n == s.len() {
        assert(s.take(n) =~= s);
    } else {
        lemma_digits_grow(s.drop_last(), n);
        assert(s.drop_last().take(n) =~= s.take(n));
    }
}

/// The number that a text denotes.
fn parse_number(s: &str) -> (r: Option<u64>)
    ensures
        match r {
            Some(v) => number_value(s@) == Some(v as nat),
            None => number_up_to(s@, u64::MAX as nat) is None,
        },
{
    let chars = text::to_chars(s);
    let start: usize = if chars.len() > 0 && chars[0] == '+' {
        1
    } else {
        0
    };
    let ghost digits = chars@.skip(start as int);
    proof {
        assert(digits =~= if s@.len() > 0 && s@[0] == '+' {
            s@.drop_first()
        } else {
            s@
        });
    }
    if start == chars.len() {
        return None;
    }
    let mut value: u64 = 0;
    let mut i: usize = start;
    assert(digits.take(0) =~= Seq::<char>::empty());
    while i < chars.len()
        invariant
            start <= i <= chars@.len(),
            digits == chars@.skip(start as int),
            start < chars@.len(),
            number_value(s@) == digits_value(digits),
            digits_value(digits.take(i - start)) == Some(value as nat),
        decreases chars@.len() - i,
    {
        let c = chars[i];
        let ghost next = digits.take(i - start + 1);
        proof {
            assert(next.drop_last() =~= digits.take(i - start));
            assert(next.last() == c);
            if digits_value(digits) is Some {
                lemma_digits_grow(digits, i - start + 1);
            }
        }
        if !('0' <= c && c <= '9') {
            return None;
        }
        let d: u64 = (c as u32 - 48) as u64;
        if value > (u64::MAX - d) / 10 {
            return None;
        }
        value = value * 10 + d;
        i = i + 1;
    }
    assert(digits.take(digits.len() as int) =~= digits);
    Some(value)
}

/// Reading the decimal notation of a number gives the number.
pub proof fn lemma_decimal_notation_is_read_back(n: nat)
    ensures
        number_value(text::decimal_text(n)) == Some(n),
{
    lemma_decimal_digits(n);
    let s = text::decimal_text(n);
    if s[0] == '+' {
        lemma_digits_grow(s, 1);
        assert(s.take(1).last() == '+');
    }
}

proof fn lemma_decimal_digits(n: nat)
    ensures
        digits_value(text::decimal_text(n)) == Some(n),
        text::decimal_text(n).len() > 0,
    decreases n,
{
    let s = text::decimal_text(n);
    if n >= 10 {
        lemma_decimal_digits(n / 10);
        assert(s.drop_last() =~= text::decimal_text(n / 10));
    } else {
        assert(s.drop_last() =~= Seq::<char>::empty());
        assert(digits_value(Seq::<char>::empty()) == Some(0nat));
    }
    assert(s.last() == text::digit(n % 10));
    assert(s.last() as int == 48 + n % 10);
}

/// The number of a setting, where it is not larger than `max`; `default` where there is none.
pub open spec fn setting_value(setting: Option<Setting>, default: nat, max: nat) -> Option<nat> {
    match setting {
        None => Some(default),
        Some(Setting::Number(n)) => if n <= max {
            Some(n as nat)
        } else {
            None
        },
        Some(Setting::Text(t)) => number_up_to(t@, max),
    }
}

/// What is said of a setting that is not a number.
pub open spec fn setting_fault(name: Seq<char>) -> Seq<char> {
    name + " must be a whole number in range"@
}

fn read_u64(setting: Option<Setting>, default: u64, name: &str) -> (r: Result<u64, String>)
    ensures
        match setting_value(setting, default as nat, u64::MAX as nat) {
            Some(v) => r matches Ok(x) && x == v,
            None => r matches Err(e) && e@ == setting_fault(name@),
        },
{
    match setting {
        None => Ok(default),
        Some(Setting::Number(n)) => Ok(n),
        Some(Setting::Text(t)) => match parse_number(t.as_str()) {
            Some(v) => Ok(v),
            None => Err(text::concat(name, " must be a whole number in range")),
        },
    }
}

fn read_usize(setting: Option<Setting>, default: usize, name: &str) -> (r: Result<usize, String>)
    ensures
        match setting_value(setting, default as nat, usize::MAX as nat) {
            Some(v) => r matches Ok(x) && x == v,
            None => r matches Err(e) && e@ == setting_fault(name@),
        },
{
    match read_u64(setting, default as u64, name) {
        Ok(v) => if v <= usize::MAX as u64 {
            Ok(v as usize)
        } else {
            Err(text::concat(name, " must be a whole number in range"))
        },
        Err(e) => Err(e),
    }
}

/// The configuration document.
#[derive(Debug)]
pub struct RouterManifest {
    pub listen_addr: String,
    pub spec: Option<OpenApiLikeSpec>,
    pub aws_region: Option<String>,
    pub max_inflight_invocations: Option<Setting>,
    pub max_inflight_requests: Option<Setting>,
    pub max_pending_invocations: Option<Setting>,
    pub max_queue_depth_per_key: Option<Setting>,
    pub idle_ttl_ms: Option<Setting>,
    pub default_timeout_ms: Option<Setting>,
    pub max_body_bytes: Option<Setting>,
    pub max_invoke_payload_bytes: Option<Setting>,
    pub forward_headers: ForwardHeadersConfig,
}

/// Top-level router configuration.
#[derive(Debug)]
pub struct RouterConfig {
    /// Address the router listens on (e.g. `127.0.0.1:3000`).
    pub listen_addr: String,
    /// OpenAPI-like document (only `paths` are used).
    pub spec: Option<OpenApiLikeSpec>,
    /// Optional AWS region override for the Lambda client.
    pub aws_region: Option<String>,
    /// Maximum number of concurrent in-flight Lambda invocations across all routes.
    pub max_inflight_invocations: usize,
    /// Maximum number of in-flight HTTP requests across all routes.
    ///
    /// When exceeded, the router rejects requests with 429.
    pub max_inflight_requests: usize,
    /// Maximum number of queued Lambda invocations waiting for execution.
    ///
    /// When full, the router rejects new batches with 429.
    pub max_pending_invocations: usize,
    /// Per-batch-key enqueue depth. When full, requests are rejected with 429.
    pub max_queue_depth_per_key: usize,
    /// If a batch key sees no traffic for this long, its batching task is evicted.
    pub idle_ttl_ms: u64,
    /// Default per-request timeout (used when an operation doesn't specify `x-lpr.timeoutMs`).
    pub default_timeout_ms: u64,
    /// Maximum accepted request body size.
    pub max_body_bytes: usize,
    /// Maximum JSON payload size sent to Lambda per invocation.
    ///
    /// If a batch exceeds this limit, the router will split it into multiple invocations when
    /// possible; otherwise the affected requests will fail.
    pub max_invoke_payload_bytes: usize,
    /// Header forwarding allow/deny configuration.
    pub forward_headers: ForwardHeadersConfig,
}

/// The numeric settings of a document in order, each with its name, its default and the
/// largest number that it can be.
pub open spec fn numeric_settings(m: RouterManifest) -> Seq<(Option<Setting>, Seq<char>, nat, nat)> {
    seq![
        (m.max_inflight_invocations, "MaxInflightInvocations"@, 64, usize::MAX as nat),
        (m.max_inflight_requests, "MaxInflightRequests"@, 4096, usize::MAX as nat),
        (m.max_pending_invocations, "MaxPendingInvocations"@, 256, usize::MAX as nat),
        (m.max_queue_depth_per_key, "MaxQueueDepthPerKey"@, 1000, usize::MAX as nat),
        (m.idle_ttl_ms, "IdleTtlMs"@, 30_000, u64::MAX as nat),
        (m.default_timeout_ms, "DefaultTimeoutMs"@, 2_000, u64::MAX as nat),
        (m.max_body_bytes, "MaxBodyBytes"@, 1_048_576, usize::MAX as nat),
        (m.max_invoke_payload_bytes, "MaxInvokePayloadBytes"@, 6_291_456, usize::MAX as nat),
    ]
}

/// The number of a setting in the list.
pub open spec fn listed_value(e: (Option<Setting>, Seq<char>, nat, nat)) -> Option<nat> {
    setting_value(e.0, e.2, e.3)
}

/// Whether a configuration is the one that a document gives.
pub open spec fn is_configured(m: RouterManifest, c: RouterConfig) -> bool {
    let s = numeric_settings(m);
    &&& c.listen_addr == m.listen_addr
    &&& c.spec == m.spec
    &&& c.aws_region == m.aws_region
    &&& c.forward_headers == m.forward_headers
    &&& listed_value(s[0]) == Some(c.max_inflight_invocations as nat)
    &&& listed_value(s[1]) == Some(c.max_inflight_requests as nat)
    &&& listed_value(s[2]) == Some(c.max_pending_invocations as nat)
    &&& listed_value(s[3]) == Some(c.max_queue_depth_per_key as nat)
    &&& listed_value(s[4]) == Some(c.idle_ttl_ms as nat)
    &&& listed_value(s[5]) == Some(c.default_timeout_ms as nat)
    &&& listed_value(s[6]) == Some(c.max_body_bytes as nat)
    &&& listed_value(s[7]) == Some(c.max_invoke_payload_bytes as nat)
}

/// Whether an error names the first setting of a document that is not a number.
pub open spec fn is_first_fault(m: RouterManifest, e: Seq<char>) -> bool {
    let s = numeric_settings(m);
    exists|i: int|
        0 <= i < s.len() && listed_value(#[trigger] s[i]) is None && e == setting_fault(s[i].1)
            && forall|j: int| 0 <= j < i ==> listed_value(#[trigger] s[j]) is Some
}

impl RouterConfig {
    /// The configuration that a document gives: settings that are left out have defaults.
    pub fn from_manifest(m: RouterManifest) -> (r: Result<Self, String>)
        ensures
            match r {
                Ok(c) => is_configured(m, c),
                Err(e) => is_first_fault(m, e@),
            },
    {
        let ghost s = numeric_settings(m);
        let max_inflight_invocations = match read_usize(
            m.max_inflight_invocations,
            default_max_inflight_invocations(),
            "MaxInflightInvocations",
        ) {
            Ok(v) => v,
            Err(e) => {
                assert(listed_value(s[0]) is None);
                return Err(e);
            },
        };
        let max_inflight_requests = match read_usize(
            m.max_inflight_requests,
            default_max_inflight_requests(),
            "MaxInflightRequests",
        ) {
            Ok(v) => v,
            Err(e) => {
                assert(listed_value(s[1]) is None);
                return Err(e);
            },
        };
        let max_pending_invocations = match read_usize(
            m.max_pending_invocations,
            default_max_pending_invocations(),
            "MaxPendingInvocations",
        ) {
            Ok(v) => v,
            Err(e) => {
                assert(listed_value(s[2]) is None);
                return Err(e);
            },
        };
        let max_queue_depth_per_key = match read_usize(
            m.max_queue_depth_per_key,
            default_max_queue_depth_per_key(),
            "MaxQueueDepthPerKey",
        ) {
            Ok(v) => v,
            Err(e) => {
                assert(listed_value(s[3]) is None);
                return Err(e);
            },
        };
        let idle_ttl_ms = match read_u64(m.idle_ttl_ms, default_idle_ttl_ms(), "IdleTtlMs") {
            Ok(v) => v,
            Err(e) => {
                assert(listed_value(s[4]) is None);
                return Err(e);
            },
        };
        let default_timeout_ms = match read_u64(
            m.default_timeout_ms,
            default_default_timeout_ms(),
            "DefaultTimeoutMs",
        ) {
            Ok(v) => v,
            Err(e) => {
                assert(listed_value(s[5]) is None);
                return Err(e);
            },
        };
        let max_body_bytes = match read_usize(
            m.max_body_bytes,
            default_max_body_bytes(),
            "MaxBodyBytes",
        ) {
            Ok(v) => v,
            Err(e) => {
                assert(listed_value(s[6]) is None);
                return Err(e);
            },
        };
        let max_invoke_payload_bytes = match read_usize(
            m.max_invoke_payload_bytes,
            default_max_invoke_payload_bytes(),
            "MaxInvokePayloadBytes",
        ) {
            Ok(v) => v,
            Err(e) => {
                assert(listed_value(s[7]) is None);
                return Err(e);
            },
        };
        Ok(
            RouterConfig {
                listen_addr: m.listen_addr,
                spec: m.spec,
                aws_region: m.aws_region,
                max_inflight_invocations,
                max_inflight_requests,
                max_pending_invocations,
                max_queue_depth_per_key,
                idle_ttl_ms,
                default_timeout_ms,
                max_body_bytes,
                max_invoke_payload_bytes,
                forward_headers: m.forward_headers,
            },
        )
    }

    /// The batching limits of a configuration.
    pub fn batching(&self, report_batch_size: bool) -> (r: BatchingConfig)
        ensures
            r.max_inflight_invocations == self.max_inflight_invocations,
            r.max_pending_invocations == self.max_pending_invocations,
            r.max_queue_depth_per_key == self.max_queue_depth_per_key,
            r.idle_ttl_ms == self.idle_ttl_ms,
            r.max_invoke_payload_bytes == self.max_invoke_payload_bytes,
            r.report_batch_size == report_batch_size,
    {
        BatchingConfig {
            max_inflight_invocations: self.max_inflight_invocations,
            max_pending_invocations: self.max_pending_invocations,
            max_queue_depth_per_key: self.max_queue_depth_per_key,
            idle_ttl_ms: self.idle_ttl_ms,
            max_invoke_payload_bytes: self.max_invoke_payload_bytes,
            report_batch_size,
        }
    }
}

} // verus!
