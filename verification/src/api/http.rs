//! What the HTTP clients of the quote and swap services decide around a
//! request: the URL of an endpoint, how an answer's status is classified and
//! recorded, how a failed answer's body is summarized, and how an error is
//! described together with its causes.
use vstd::prelude::*;
use vstd::string::*;
use crate::text::{chars_of, trim, trim_spec, string_from_chars, strip_start_chars, strip_end_chars, strip_start_spec, strip_end_spec, string_views};
use crate::config::same_text;

verus! {

// ---------------------------------------------------------------------------
// Endpoints.

/// The URL of a path under a base URL: the base without its trailing
/// slashes, one slash, and the path without its leading slashes.
pub open spec fn endpoint_spec(base: Seq<char>, path: Seq<char>) -> Seq<char> {
    strip_end_spec(base, '/') + seq!['/'] + strip_start_spec(path, '/')
}

fn append_chars(out: &mut Vec<char>, tail: &Vec<char>)
    ensures
        final(out)@ == old(out)@ + tail@,
{
    for k in 0..tail.len()
        invariant
            out@ == old(out)@ + tail@.subrange(0, k as int),
    {
        out.push(tail[k]);
        assert(out@ =~= old(out)@ + tail@.subrange(0, k + 1));
    }
    assert(tail@.subrange(0, tail@.len() as int) =~= tail@);
}

/// Joins a base URL and a path with exactly one slash between them.
pub fn endpoint(base: &str, path: &str) -> (r: String)
    ensures
        r@ == endpoint_spec(base@, path@),
{
    let mut out = strip_end_chars(&chars_of(base), '/');
    out.push('/');
    let tail = strip_start_chars(&chars_of(path), '/');
    append_chars(&mut out, &tail);
    string_from_chars(&out)
}

/// The path and the query of the URL that `url::Url::parse_with_params`
/// makes of a text and query pairs, if the text parses as a URL.
pub uninterp spec fn url_path_and_query(url: Seq<char>, pairs: Seq<(Seq<char>, Seq<char>)>) -> Option<(Seq<char>, Option<Seq<char>>)>;

/// Builds a URL with its query pairs with `url::Url::parse_with_params` and
/// reads back `path()` and `query()`. Trusted: the result is named by
/// `url_path_and_query`.
#[verifier::external_body]
fn parse_with_params(url: &str, pairs: &Vec<(String, String)>) -> (r: Option<(String, Option<String>)>)
    ensures
        match r {
            Some((p, q)) => url_path_and_query(url@, crate::api::param_views(pairs@)) == Some((p@, match q {
                Some(t) => Some(t@),
                None => None::<Seq<char>>,
            })),
            None => url_path_and_query(url@, crate::api::param_views(pairs@)) is None,
        },
{
    let parsed = url::Url::parse_with_params(url, pairs.iter().map(|p| (p.0.as_str(), p.1.as_str()))).ok()?;
    Some((parsed.path().to_string(), parsed.query().map(|q| q.to_string())))
}

/// The path of a URL with its query pairs, then `?` and the encoded query
/// when there is one: the text a request signature is computed over.
pub open spec fn path_with_query_spec(url: Seq<char>, pairs: Seq<(Seq<char>, Seq<char>)>) -> Option<Seq<char>> {
    match url_path_and_query(url, pairs) {
        None => None,
        Some((p, None)) => Some(p),
        Some((p, Some(q))) => Some(p + seq!['?'] + q),
    }
}

/// Encodes the query pairs onto a URL and gives its path and query.
pub fn path_with_query(url: &str, pairs: &Vec<(String, String)>) -> (r: Option<String>)
    ensures
        match r {
            Some(s) => path_with_query_spec(url@, crate::api::param_views(pairs@)) == Some(s@),
            None => path_with_query_spec(url@, crate::api::param_views(pairs@)) is None,
        },
{
    match parse_with_params(url, pairs) {
        None => None,
        Some((p, None)) => Some(p),
        Some((p, Some(q))) => {
            let mut out = chars_of(p.as_str());
            out.push('?');
            append_chars(&mut out, &chars_of(q.as_str()));
            Some(string_from_chars(&out))
        },
    }
}

// ---------------------------------------------------------------------------
// The body of a failed answer, summarized for the error and the log.

/// The longest summary, in UTF-8 bytes, before it is cut.
pub const ERROR_BODY_MAX_BYTES: usize = 512;

/// The number of bytes UTF-8 takes for a character.
pub open spec fn utf8_width(c: char) -> nat {
    if (c as u32) < 0x80 {
        1
    } else if (c as u32) < 0x800 {
        2
    } else if (c as u32) < 0x10000 {
        3
    } else {
        4
    }
}

/// The number of bytes UTF-8 takes for a text, as `str::len` counts them.
pub open spec fn utf8_len(s: Seq<char>) -> nat
    decreases s.len(),
{
    if s.len() == 0 {
        0
    } else {
        utf8_len(s.drop_last()) + utf8_width(s.last())
    }
}

/// The longest prefix of `s` that takes at most `max` bytes.
pub open spec fn utf8_prefix(s: Seq<char>, max: nat) -> Seq<char>
    decreases s.len(),
{
    if s.len() == 0 || utf8_len(s) <= max {
        s
    } else {
        utf8_prefix(s.drop_last(), max)
    }
}

/// The text on one line: each line feed and carriage return becomes a space.
pub open spec fn single_line(s: Seq<char>) -> Seq<char> {
    s.map_values(|c: char| if c == '\n' || c == '\r' { ' ' } else { c })
}

/// The summary of a failed answer's body: trimmed, on one line, and cut to
/// 512 bytes followed by `…` when longer; a blank body is named as such.
pub open spec fn error_body_summary(body: Seq<char>) -> Seq<char> {
    let t = trim_spec(body);
    if t.len() == 0 {
        "(empty response body)"@
    } else {
        let s = single_line(t);
        if utf8_len(s) <= ERROR_BODY_MAX_BYTES {
            s
        } else {
            utf8_prefix(s, ERROR_BODY_MAX_BYTES as nat).push('…')
        }
    }
}

/// The body can be summarized: when the one-line text is longer than 512
/// bytes, its 512th byte ends a character (`String::truncate` panics otherwise).
pub open spec fn error_body_cuttable(body: Seq<char>) -> bool {
    let s = single_line(trim_spec(body));
    utf8_len(s) <= ERROR_BODY_MAX_BYTES || utf8_len(utf8_prefix(s, ERROR_BODY_MAX_BYTES as nat)) == ERROR_BODY_MAX_BYTES
}

proof fn lemma_utf8_take_step(s: Seq<char>, k: int)
    requires
        0 <= k < s.len(),
    ensures
        utf8_len(s.take(k + 1)) == utf8_len(s.take(k)) + utf8_width(s[k]),
{
    assert(s.take(k + 1).drop_last() =~= s.take(k));
}

proof fn lemma_utf8_mono(s: Seq<char>, a: int, b: int)
    requires
        0 <= a <= b <= s.len(),
    ensures
        utf8_len(s.take(a)) <= utf8_len(s.take(b)),
    decreases b - a,
{
    if a < b {
        lemma_utf8_take_step(s, b - 1);
        lemma_utf8_mono(s, a, b - 1);
    }
}

proof fn lemma_utf8_prefix_is(s: Seq<char>, max: nat, i: int)
    requires
        0 <= i <= s.len(),
        utf8_len(s.take(i)) <= max,
        i == s.len() || utf8_len(s.take(i + 1)) > max,
    ensures
        utf8_prefix(s, max) == s.take(i),
    decreases s.len(),
{
    if i == s.len() {
        assert(s.take(i) =~= s);
    } else {
        lemma_utf8_mono(s, i + 1, s.len() as int);
        assert(s.take(s.len() as int) =~= s);
        let t = s.drop_last();
        assert(t.take(i) =~= s.take(i));
        if i < t.len() {
            assert(t.take(i + 1) =~= s.take(i + 1));
        }
        lemma_utf8_prefix_is(t, max, i);
    }
}

proof fn lemma_utf8_prefix_shape(s: Seq<char>, max: nat)
    ensures
        utf8_prefix(s, max).len() <= s.len(),
        utf8_prefix(s, max) == s.take(utf8_prefix(s, max).len() as int),
        utf8_len(s) > max ==> utf8_len(utf8_prefix(s, max)) <= max,
    decreases s.len(),
{
    if s.len() == 0 || utf8_len(s) <= max {
        assert(s.take(s.len() as int) =~= s);
    } else {
        let t = s.drop_last();
        lemma_utf8_prefix_shape(t, max);
        let p = utf8_prefix(t, max);
        assert(p =~= s.take(p.len() as int));
        if utf8_len(t) <= max {
            assert(p == t);
        }
    }
}

/// A summary is one line of at most 512 bytes, plus the three bytes of `…`
/// when the body was cut.
pub proof fn lemma_error_summary_is_one_short_line(body: Seq<char>)
    requires
        error_body_cuttable(body),
    ensures
        !error_body_summary(body).contains('\n'),
        !error_body_summary(body).contains('\r'),
        utf8_len(error_body_summary(body)) <= ERROR_BODY_MAX_BYTES + 3,
{
    reveal_strlit("(empty response body)");
    let t = trim_spec(body);
    let s = single_line(t);
    assert forall|i: int| 0 <= i < s.len() implies s[i] != '\n' && s[i] != '\r' by {}
    let e = "(empty response body)"@;
    if t.len() == 0 {
        assert(!e.contains('\n'));
        assert(!e.contains('\r'));
        assert(utf8_len(e) <= e.len() * 4) by {
            lemma_utf8_len_bound(e);
        }
    } else if utf8_len(s) <= ERROR_BODY_MAX_BYTES {
    } else {
        lemma_utf8_prefix_shape(s, ERROR_BODY_MAX_BYTES as nat);
        let p = utf8_prefix(s, ERROR_BODY_MAX_BYTES as nat);
        let r = p.push('…');
        assert(r.drop_last() =~= p);
        assert forall|i: int| 0 <= i < r.len() implies r[i] != '\n' && r[i] != '\r' by {
            if i < p.len() {
                assert(r[i] == s[i]);
            }
        }
    }
}

proof fn lemma_utf8_len_bound(s: Seq<char>)
    ensures
        utf8_len(s) <= s.len() * 4,
    decreases s.len(),
{
    if s.len() > 0 {
        lemma_utf8_len_bound(s.drop_last());
    }
}

fn utf8_width_of(c: char) -> (w: usize)
    ensures
        w == utf8_width(c),
        1 <= w <= 4,
{
    let v = c as u32;
    if v < 0x80 {
        1
    } else if v < 0x800 {
        2
    } else if v < 0x10000 {
        3
    } else {
        4
    }
}

/// Summarizes the body of a failed answer for its error.
pub fn summarize_error_body(body: &str) -> (r: String)
    requires
        error_body_cuttable(body@),
    ensures
        r@ == error_body_summary(body@),
{
    let t = trim(body);
    if t.unicode_len() == 0 {
        proof {
            reveal_strlit("(empty response body)");
        }
        return String::from_str("(empty response body)");
    }
    let chars = chars_of(t.as_str());
    let n = chars.len();
    let mut line: Vec<char> = Vec::new();
    for k in 0..n
        invariant
            n == chars@.len(),
            chars@ == t@,
            line@ == single_line(t@.take(k as int)),
    {
        let c = chars[k];
        line.push(if c == '\n' || c == '\r' { ' ' } else { c });
        assert(line@ =~= single_line(t@.take(k + 1)));
    }
    assert(t@.take(n as int) =~= t@);
    let ghost s = line@;
    let mut acc: usize = 0;
    let mut i: usize = 0;
    while i < n && acc + utf8_width_of(line[i]) <= ERROR_BODY_MAX_BYTES
        invariant
            n == line@.len(),
            s == line@,
            i <= n,
            acc == utf8_len(s.take(i as int)),
            acc <= ERROR_BODY_MAX_BYTES,
        decreases n - i,
    {
        proof {
            lemma_utf8_take_step(s, i as int);
        }
        acc = acc + utf8_width_of(line[i]);
        i = i + 1;
    }
    if i < n {
        proof {
            lemma_utf8_take_step(s, i as int);
        }
    }
    proof {
        lemma_utf8_prefix_is(s, ERROR_BODY_MAX_BYTES as nat, i as int);
    }
    if i == n {
        assert(s.take(n as int) =~= s);
        return string_from_chars(&line);
    }
    proof {
        lemma_utf8_mono(s, i + 1, n as int);
        assert(s.take(n as int) =~= s);
    }
    let mut out: Vec<char> = Vec::new();
    for k in 0..i
        invariant
            i < n,
            n == line@.len(),
            out@ == line@.take(k as int),
    {
        out.push(line[k]);
        assert(out@ =~= line@.take(k + 1));
    }
    out.push('…');
    string_from_chars(&out)
}

// ---------------------------------------------------------------------------
// The status of an answer.

/// What a client makes of an answer's status.
#[derive(PartialEq, Eq, Structural, Clone, Copy, Debug)]
pub enum StatusClass {
    /// A 2xx status: the body is decoded.
    Success,
    /// 429 Too Many Requests, for the clients that tell it apart.
    RateLimited,
    /// Any other status: the request failed.
    Failed,
}

/// A status from 200 to 299 is a success; 429 is a rate limit where the
/// client tells it apart; anything else is a failure.
pub open spec fn status_class_spec(status: u16, tells_rate_limit: bool) -> StatusClass {
    if 200 <= status <= 299 {
        StatusClass::Success
    } else if tells_rate_limit && status == 429 {
        StatusClass::RateLimited
    } else {
        StatusClass::Failed
    }
}

/// Classifies an answer's status.
pub fn classify_status(status: u16, tells_rate_limit: bool) -> (c: StatusClass)
    ensures
        c == status_class_spec(status, tells_rate_limit),
{
    if 200 <= status && status <= 299 {
        StatusClass::Success
    } else if tells_rate_limit && status == 429 {
        StatusClass::RateLimited
    } else {
        StatusClass::Failed
    }
}

/// The outcome a request of this class is counted under in the metrics.
pub fn outcome_label(class: StatusClass) -> (r: &'static str)
    ensures
        r@ == (match class {
            StatusClass::Success => "success"@,
            StatusClass::RateLimited => "rate_limited"@,
            StatusClass::Failed => "http_error"@,
        }),
{
    match class {
        StatusClass::Success => "success",
        StatusClass::RateLimited => "rate_limited",
        StatusClass::Failed => "http_error",
    }
}

/// Why an answer was refused, with the endpoint, the status and the body.
#[derive(Clone, Debug)]
pub enum ApiFailure {
    RateLimited { endpoint: String, status: u16, body: String },
    ApiStatus { endpoint: String, status: u16, body: String },
}

/// The error for an answer that is not a success: the body is summarized
/// where the client summarizes it and kept as it came otherwise.
pub fn answer_failure(endpoint: String, status: u16, body: &str, tells_rate_limit: bool, summarize: bool) -> (r: Option<ApiFailure>)
    requires
        summarize ==> error_body_cuttable(body@),
    ensures
        ({
            let text = if summarize { error_body_summary(body@) } else { body@ };
            match status_class_spec(status, tells_rate_limit) {
                StatusClass::Success => r is None,
                StatusClass::RateLimited => r matches Some(ApiFailure::RateLimited { endpoint: e, status: s, body: b })
                    && e@ == endpoint@ && s == status && b@ == text,
                StatusClass::Failed => r matches Some(ApiFailure::ApiStatus { endpoint: e, status: s, body: b })
                    && e@ == endpoint@ && s == status && b@ == text,
            }
        }),
{
    let class = classify_status(status, tells_rate_limit);
    if class == StatusClass::Success {
        return None;
    }
    let text = if summarize { summarize_error_body(body) } else { String::from_str(body) };
    if class == StatusClass::RateLimited {
        Some(ApiFailure::RateLimited { endpoint, status, body: text })
    } else {
        Some(ApiFailure::ApiStatus { endpoint, status, body: text })
    }
}

// ---------------------------------------------------------------------------
// An error and its causes, in one line.

/// The texts without a repetition of the text just before.
pub open spec fn dedup_consecutive(s: Seq<Seq<char>>) -> Seq<Seq<char>>
    decreases s.len(),
{
    if s.len() == 0 {
        s
    } else {
        let d = dedup_consecutive(s.drop_last());
        if d.len() > 0 && d.last() == s.last() {
            d
        } else {
            d.push(s.last())
        }
    }
}

/// In a described chain no cause repeats the text just before it, and every
/// text described is one of the chain's texts.
pub proof fn lemma_dedup_has_no_adjacent_repeats(s: Seq<Seq<char>>)
    ensures
        forall|i: int| 0 <= i < dedup_consecutive(s).len() - 1 ==> #[trigger] dedup_consecutive(s)[i] != dedup_consecutive(s)[i + 1],
        forall|i: int| 0 <= i < dedup_consecutive(s).len() ==> s.contains(#[trigger] dedup_consecutive(s)[i]),
        dedup_consecutive(s).len() <= s.len(),
        s.len() > 0 ==> dedup_consecutive(s).len() > 0 && dedup_consecutive(s)[0] == s[0],
    decreases s.len(),
{
    if s.len() > 0 {
        let t = s.drop_last();
        lemma_dedup_has_no_adjacent_repeats(t);
        let d = dedup_consecutive(t);
        assert forall|i: int| 0 <= i < d.len() implies s.contains(#[trigger] d[i]) by {
            let j = choose|j: int| 0 <= j < t.len() && t[j] == d[i];
            assert(s[j] == d[i]);
        }
        if !(d.len() > 0 && d.last() == s.last()) {
            let e = d.push(s.last());
            assert(e[e.len() - 1] == s[s.len() - 1]);
            if t.len() > 0 {
                assert(t[0] == s[0]);
            }
        } else {
            assert(t[0] == s[0]);
        }
    }
}

/// The parts joined with a separator.
pub open spec fn join_with(parts: Seq<Seq<char>>, sep: Seq<char>) -> Seq<char>
    decreases parts.len(),
{
    if parts.len() == 0 {
        Seq::<char>::empty()
    } else if parts.len() == 1 {
        parts[0]
    } else {
        join_with(parts.drop_last(), sep) + sep + parts.last()
    }
}

/// The separator between an error and its cause.
pub open spec fn cause_separator() -> Seq<char> {
    " | caused by: "@
}

/// Describes an error from its text and the texts of its causes, outermost
/// first: a text equal to the one just before is left out, the rest are
/// joined with ` | caused by: `.
pub fn describe_error_chain(texts: &Vec<String>) -> (r: String)
    ensures
        r@ == join_with(dedup_consecutive(string_views(texts@)), cause_separator()),
{
    let ghost v = string_views(texts@);
    let sep = chars_of(" | caused by: ");
    proof {
        reveal_strlit(" | caused by: ");
    }
    let mut kept: Vec<String> = Vec::new();
    let mut out: Vec<char> = Vec::new();
    for i in 0..texts.len()
        invariant
            v == string_views(texts@),
            sep@ == cause_separator(),
            string_views(kept@) == dedup_consecutive(v.take(i as int)),
            out@ == join_with(string_views(kept@), cause_separator()),
    {
        let ghost before = kept@;
        assert(v.take(i + 1).drop_last() =~= v.take(i as int));
        assert(v[i as int] == texts@[i as int]@);
        let k = kept.len();
        let repeat = k > 0 && same_text(kept[k - 1].as_str(), texts[i].as_str());
        if repeat {
            assert(string_views(kept@).last() == kept@[k - 1]@);
        } else {
            let piece = chars_of(texts[i].as_str());
            if k > 0 {
                append_chars(&mut out, &sep);
            }
            append_chars(&mut out, &piece);
            kept.push(texts[i].clone());
            proof {
                assert(string_views(kept@) =~= string_views(before).push(v[i as int]));
                assert(string_views(kept@).drop_last() =~= string_views(before));
                if k == 0 {
                    assert(out@ =~= v[i as int]);
                }
            }
        }
    }
    assert(v.take(texts@.len() as int) =~= v);
    string_from_chars(&out)
}

} // verus!
