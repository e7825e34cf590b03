//! Tokens for the Titan quote stream: how long an issued token is kept.
use vstd::prelude::*;
use vstd::string::*;
use crate::text::{trim, trim_spec};
use super::{param_views, push_param, push_static_pairs, static_pair_views};

verus! {

/// Seconds taken off a token's life so that it is renewed before it lapses.
pub const EXPIRY_SAFETY_SECS: u64 = 30;

/// The shortest time a token is kept, in seconds.
pub const MIN_TTL_SECS: u64 = 60;

/// Nanoseconds in a second.
pub const NANOS_PER_SEC: i128 = 1_000_000_000;

/// The lowest Unix time in nanoseconds that `time` can report: a whole
/// second of `i64` times a billion.
pub open spec fn min_unix_nanos() -> int {
    -9223372036854775808int * 1_000_000_000
}

/// One past the highest Unix time in nanoseconds that `time` can report.
pub open spec fn max_unix_nanos() -> int {
    9223372036854775808int * 1_000_000_000
}

/// The answer of the token service.
#[derive(Clone, Debug)]
pub struct JwtApiResponse {
    pub token: String,
    pub expires_at: Option<String>,
    pub expires_in: Option<u64>,
}

/// What is wrong with an answer of the token service.
#[derive(PartialEq, Eq, Structural, Clone, Copy, Debug)]
pub enum JwtResponseProblem {
    /// The token is blank.
    MissingToken,
    /// `expires_at` is not an RFC 3339 time.
    MalformedExpiresAt,
    /// `expires_at` is not in the future.
    Expired,
    /// Neither `expires_in` nor `expires_at` is given.
    MissingExpiry,
}

/// Why no token could be had.
#[derive(Clone, Debug)]
pub enum TitanJwtError {
    /// The request failed; the text is the transport's error.
    Http(String),
    /// The HTTP client could not be built; the text is the builder's error.
    Client(String),
    /// The service answered with something unusable.
    InvalidResponse(JwtResponseProblem),
}

/// How long a token is kept when the service says it lives `seconds`: thirty
/// seconds less, but never under a minute.
pub open spec fn ttl_from_expires_in_spec(seconds: nat) -> nat {
    let s: nat = if seconds >= 30 { (seconds - 30) as nat } else { 0 };
    if s >= 60 {
        s
    } else {
        60
    }
}

/// How long a token is kept when it expires `remaining_nanos` from now: its
/// whole remaining seconds, at least a minute, less thirty seconds; nothing
/// when it has already expired.
pub open spec fn ttl_from_remaining_spec(remaining_nanos: int) -> Option<nat> {
    if remaining_nanos > 0 {
        let whole = remaining_nanos / 1_000_000_000;
        let w = if whole >= 60 { whole } else { 60 };
        Some((w - 30) as nat)
    } else {
        None
    }
}

/// Computes the time a token is kept from `expires_in`.
pub fn ttl_from_expires_in(seconds: u64) -> (r: u64)
    ensures
        r == ttl_from_expires_in_spec(seconds as nat),
{
    let s = seconds.saturating_sub(EXPIRY_SAFETY_SECS);
    if s >= MIN_TTL_SECS {
        s
    } else {
        MIN_TTL_SECS
    }
}

/// Computes the time a token is kept from the nanoseconds left until it expires.
pub fn ttl_from_remaining(remaining_nanos: i128) -> (r: Option<u64>)
    requires
        min_unix_nanos() - max_unix_nanos() < remaining_nanos < max_unix_nanos() - min_unix_nanos(),
    ensures
        match r {
            Some(t) => ttl_from_remaining_spec(remaining_nanos as int) == Some(t as nat),
            None => ttl_from_remaining_spec(remaining_nanos as int) is None,
        },
{
    if remaining_nanos <= 0 {
        return None;
    }
    let whole: i128 = remaining_nanos / NANOS_PER_SEC;
    assert(whole <= 18446744073709551615) by (nonlinear_arith)
        requires
            0 < remaining_nanos < 18446744073709551616 * 1_000_000_000,
            whole == remaining_nanos / 1_000_000_000,
    ;
    let w: i128 = if whole >= 60 { whole } else { 60 };
    let t: i128 = w - 30;
    Some(t as u64)
}

/// A time in RFC 3339 form, as nanoseconds since the Unix epoch, if the text is one.
pub uninterp spec fn rfc3339_unix_nanos(text: Seq<char>) -> Option<int>;

/// Parses an RFC 3339 time with `time::OffsetDateTime::parse` and reads it
/// with `unix_timestamp_nanos`. Trusted: the result is named by
/// `rfc3339_unix_nanos`, and, as the source computes it from an `i64` of
/// seconds and a nanosecond below a billion, lies in the range of those.
#[verifier::external_body]
fn parse_rfc3339_unix_nanos(text: &str) -> (r: Option<i128>)
    ensures
        match r {
            Some(n) => rfc3339_unix_nanos(text@) == Some(n as int) && min_unix_nanos() <= n < max_unix_nanos(),
            None => rfc3339_unix_nanos(text@) is None,
        },
{
    time::OffsetDateTime::parse(text, &time::format_description::well_known::Rfc3339)
        .ok()
        .map(|t| t.unix_timestamp_nanos())
}

/// The current time with `time::OffsetDateTime::now_utc`, in nanoseconds
/// since the Unix epoch. Trusted: it lies in the range that
/// `unix_timestamp_nanos` can report; which time it is is not stated.
#[verifier::external_body]
pub(crate) fn now_unix_nanos() -> (r: i128)
    ensures
        min_unix_nanos() <= r < max_unix_nanos(),
{
    time::OffsetDateTime::now_utc().unix_timestamp_nanos()
}

/// How long a token is kept, given the time now: `expires_in` when the
/// service gives it, else the time left until `expires_at`.
pub open spec fn expiry_spec(expires_in: Option<u64>, expires_at: Option<Seq<char>>, now_nanos: int) -> Result<nat, JwtResponseProblem> {
    match expires_in {
        Some(s) => Ok(ttl_from_expires_in_spec(s as nat)),
        None => match expires_at {
            None => Err(JwtResponseProblem::MissingExpiry),
            Some(text) => match rfc3339_unix_nanos(text) {
                None => Err(JwtResponseProblem::MalformedExpiresAt),
                Some(at) => match ttl_from_remaining_spec(at - now_nanos) {
                    None => Err(JwtResponseProblem::Expired),
                    Some(t) => Ok(t),
                },
            },
        },
    }
}

/// The text of an optional string.
pub open spec fn opt_view(o: Option<String>) -> Option<Seq<char>> {
    match o {
        Some(s) => Some(s@),
        None => None,
    }
}

/// Works out how long a token is kept from the service's answer and the time now.
pub fn expiry_at_time(payload: &JwtApiResponse, now_nanos: i128) -> (r: Result<u64, JwtResponseProblem>)
    requires
        min_unix_nanos() <= now_nanos < max_unix_nanos(),
    ensures
        match r {
            Ok(t) => expiry_spec(payload.expires_in, opt_view(payload.expires_at), now_nanos as int) == Ok::<nat, JwtResponseProblem>(t as nat),
            Err(e) => expiry_spec(payload.expires_in, opt_view(payload.expires_at), now_nanos as int) == Err::<nat, JwtResponseProblem>(e),
        },
{
    if let Some(seconds) = payload.expires_in {
        return Ok(ttl_from_expires_in(seconds));
    }
    match &payload.expires_at {
        None => Err(JwtResponseProblem::MissingExpiry),
        Some(text) => match parse_rfc3339_unix_nanos(text.as_str()) {
            None => Err(JwtResponseProblem::MalformedExpiresAt),
            Some(at) => match ttl_from_remaining(at - now_nanos) {
                None => Err(JwtResponseProblem::Expired),
                Some(t) => Ok(t),
            },
        },
    }
}

/// Works out how long a token is kept from the service's answer, reading the
/// clock. With `expires_in` the result does not depend on the clock; a missing
/// or malformed expiry is refused whatever the time.
pub fn compute_expiry(payload: &JwtApiResponse) -> (r: Result<u64, JwtResponseProblem>)
    ensures
        payload.expires_in matches Some(s) ==> r == Ok::<u64, JwtResponseProblem>(ttl_from_expires_in_spec(s as nat) as u64),
        payload.expires_in is None && payload.expires_at is None ==> r == Err::<u64, JwtResponseProblem>(JwtResponseProblem::MissingExpiry),
        payload.expires_in is None ==> (payload.expires_at matches Some(text) ==> (rfc3339_unix_nanos(text@) is None
            ==> r == Err::<u64, JwtResponseProblem>(JwtResponseProblem::MalformedExpiresAt))),
        payload.expires_in is None ==> (payload.expires_at matches Some(text) ==> (rfc3339_unix_nanos(text@) is Some
            ==> (r is Ok && r->Ok_0 >= EXPIRY_SAFETY_SECS) || r == Err::<u64, JwtResponseProblem>(JwtResponseProblem::Expired))),
{
    let now = now_unix_nanos();
    expiry_at_time(payload, now)
}

/// Accepts an answer of the token service at a given time: a blank token is
/// refused, otherwise the token is kept as long as `expiry_spec` says.
pub fn accept_jwt_response(payload: &JwtApiResponse, now_nanos: i128) -> (r: Result<(String, u64), JwtResponseProblem>)
    requires
        min_unix_nanos() <= now_nanos < max_unix_nanos(),
    ensures
        trim_spec(payload.token@).len() == 0 ==> r == Err::<(String, u64), JwtResponseProblem>(JwtResponseProblem::MissingToken),
        trim_spec(payload.token@).len() != 0 ==> match r {
            Ok((tok, t)) => tok@ == payload.token@
                && expiry_spec(payload.expires_in, opt_view(payload.expires_at), now_nanos as int) == Ok::<nat, JwtResponseProblem>(t as nat),
            Err(e) => expiry_spec(payload.expires_in, opt_view(payload.expires_at), now_nanos as int) == Err::<nat, JwtResponseProblem>(e),
        },
{
    let t = trim(payload.token.as_str());
    if t.unicode_len() == 0 {
        return Err(JwtResponseProblem::MissingToken);
    }
    match expiry_at_time(payload, now_nanos) {
        Ok(ttl) => Ok((payload.token.clone(), ttl)),
        Err(e) => Err(e),
    }
}

/// The headers of a token request before its referer and user agent.
pub open spec fn jwt_static_headers() -> Seq<(Seq<char>, Seq<char>)> {
    seq![
        ("accept"@, "*/*"@),
        ("accept-language"@, "zh-CN,zh;q=0.9"@),
        ("content-type"@, "application/json"@),
        ("sec-fetch-dest"@, "empty"@),
        ("sec-fetch-mode"@, "cors"@),
        ("sec-fetch-site"@, "same-origin"@),
        ("sec-ch-ua"@, "\"Google Chrome\";v=\"141\", \"Not?A_Brand\";v=\"8\", \"Chromium\";v=\"141\""@),
        ("sec-ch-ua-platform"@, "\"Windows\""@),
        ("sec-ch-ua-mobile"@, "?0"@),
        ("priority"@, "u=1, i"@),
    ]
}

/// The browser the token requests present themselves as.
pub open spec fn jwt_user_agent() -> Seq<char> {
    "Mozilla/5.0 (Windows NT 10.0; Win64; x64) AppleWebKit/537.36 (KHTML, like Gecko) Chrome/141.0.0.0 Safari/537.36"@
}

/// The headers of a token request, in the order they are set: the static
/// ones, the referer of the pair's page, and the user agent.
pub fn build_headers(referer: &str) -> (r: Vec<(String, String)>)
    ensures
        param_views(r@) == jwt_static_headers() + seq![("referer"@, referer@), ("user-agent"@, jwt_user_agent())],
{
    let pairs: Vec<(&'static str, &'static str)> = vec![
        ("accept", "*/*"),
        ("accept-language", "zh-CN,zh;q=0.9"),
        ("content-type", "application/json"),
        ("sec-fetch-dest", "empty"),
        ("sec-fetch-mode", "cors"),
        ("sec-fetch-site", "same-origin"),
        ("sec-ch-ua", "\"Google Chrome\";v=\"141\", \"Not?A_Brand\";v=\"8\", \"Chromium\";v=\"141\""),
        ("sec-ch-ua-platform", "\"Windows\""),
        ("sec-ch-ua-mobile", "?0"),
        ("priority", "u=1, i"),
    ];
    assert(static_pair_views(pairs@) =~= jwt_static_headers());
    let mut r: Vec<(String, String)> = Vec::new();
    push_static_pairs(&mut r, &pairs);
    push_param(&mut r, "referer", String::from_str(referer));
    push_param(&mut r, "user-agent", String::from_str("Mozilla/5.0 (Windows NT 10.0; Win64; x64) AppleWebKit/537.36 (KHTML, like Gecko) Chrome/141.0.0.0 Safari/537.36"));
    assert(param_views(r@) =~= jwt_static_headers() + seq![("referer"@, referer@), ("user-agent"@, jwt_user_agent())]);
    r
}

} // verus!
