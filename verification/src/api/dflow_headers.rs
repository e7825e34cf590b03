//! The `x-client-*` headers that the DFlow API expects: a timestamp and a
//! request id derived from a SHA-256 digest of the request and the timestamp.
use vstd::prelude::*;
use vstd::string::*;
use vstd::utf8::*;
use crate::text::{chars_of, string_from_chars, u64_to_dec, dec_spec, lower_seq, lower_char, char_from_ascii};
use super::param_views;
use sha2::Digest;

verus! {

/// The SHA-256 digest of a message.
pub uninterp spec fn sha256_digest(message: Seq<u8>) -> Seq<u8>;

/// Hashes with `sha2::Sha256::digest`. Trusted: the result is named by
/// `sha256_digest` and, as SHA-256 always gives, is 32 bytes long.
#[verifier::external_body]
fn sha256(message: &Vec<u8>) -> (d: Vec<u8>)
    ensures
        d@ == sha256_digest(message@),
        d@.len() == 32,
{
    sha2::Sha256::digest(message.as_slice()).to_vec()
}

/// The eight little-endian bytes of `n`, lowest first.
pub open spec fn le_bytes(n: nat, count: nat) -> Seq<u8>
    decreases count,
{
    if count == 0 {
        Seq::empty()
    } else {
        seq![(n % 256) as u8] + le_bytes(n / 256, (count - 1) as nat)
    }
}

/// The message that is hashed: `<path>5_<body>k` in UTF-8, then the timestamp
/// as eight little-endian bytes.
pub open spec fn header_message(timestamp_ms: u64, path: Seq<char>, body: Seq<char>) -> Seq<u8> {
    encode_utf8(path + "5_"@ + body + "k"@) + le_bytes(timestamp_ms as nat, 8)
}

/// The lowercase hexadecimal digit for `d < 16`.
pub open spec fn hex_digit(d: nat) -> char {
    if d < 10 {
        ((d + 48) as u32) as char
    } else {
        ((d + 87) as u32) as char
    }
}

/// Two lowercase hexadecimal digits per byte.
pub open spec fn hex_spec(bytes: Seq<u8>) -> Seq<char>
    decreases bytes.len(),
{
    if bytes.len() == 0 {
        Seq::empty()
    } else {
        hex_spec(bytes.drop_last()) + seq![hex_digit((bytes.last() / 16) as nat), hex_digit((bytes.last() % 16) as nat)]
    }
}

/// The request id: the hex of the digest's first 15 bytes, cut 8-4-4-4-12, the
/// third and fourth groups led by the 15th and 20th characters of the UUID,
/// all in lower case.
pub open spec fn request_id_spec(digest: Seq<u8>, uuid: Seq<char>) -> Seq<char> {
    let h = hex_spec(digest.subrange(0, 15));
    lower_seq(
        h.subrange(0, 8) + "-"@ + h.subrange(8, 12) + "-"@ + seq![uuid[14]] + h.subrange(12, 15) + "-"@
            + seq![uuid[19]] + h.subrange(15, 18) + "-"@ + h.subrange(18, 30),
    )
}

/// The header values of one request.
pub struct XClientHeaderValues {
    pub timestamp: String,
    pub request_id: String,
}

fn le_bytes_exec(n: u64) -> (v: Vec<u8>)
    ensures
        v@ == le_bytes(n as nat, 8),
{
    let mut v: Vec<u8> = Vec::new();
    let mut m: u64 = n;
    let mut k: u64 = 0;
    while k < 8
        invariant
            k <= 8,
            v@ + le_bytes(m as nat, (8 - k) as nat) == le_bytes(n as nat, 8),
        decreases 8 - k,
    {
        let b = (m % 256) as u8;
        let ghost before = v@;
        proof {
            assert(le_bytes(m as nat, (8 - k) as nat) == seq![(m as nat % 256) as u8] + le_bytes(m as nat / 256, (8 - k - 1) as nat));
        }
        v.push(b);
        assert(v@ + le_bytes((m / 256) as nat, (8 - k - 1) as nat) =~= before + le_bytes(m as nat, (8 - k) as nat));
        m = m / 256;
        k = k + 1;
    }
    assert(le_bytes(m as nat, 0) =~= Seq::<u8>::empty());
    assert(v@ =~= v@ + le_bytes(m as nat, 0));
    v
}

fn hex_char(d: u8) -> (c: char)
    requires
        d < 16,
    ensures
        c == hex_digit(d as nat),
{
    if d < 10 {
        char_from_ascii((d + 48) as u32)
    } else {
        char_from_ascii((d + 87) as u32)
    }
}

fn hex_exec(bytes: &Vec<u8>, count: usize) -> (v: Vec<char>)
    requires
        count <= bytes@.len(),
    ensures
        v@ == hex_spec(bytes@.subrange(0, count as int)),
{
    let mut v: Vec<char> = Vec::new();
    for i in 0..count
        invariant
            count <= bytes@.len(),
            v@ == hex_spec(bytes@.subrange(0, i as int)),
    {
        let b = bytes[i];
        let ghost pre = bytes@.subrange(0, i + 1);
        assert(pre.drop_last() =~= bytes@.subrange(0, i as int));
        v.push(hex_char(b / 16));
        v.push(hex_char(b % 16));
        assert(v@ =~= hex_spec(pre));
    }
    v
}

fn utf8_bytes(s: &str) -> (v: Vec<u8>)
    ensures
        v@ == encode_utf8(s@),
{
    let b = s.as_bytes();
    let mut v: Vec<u8> = Vec::new();
    for i in 0..b.len()
        invariant
            b@ == s.spec_bytes(),
            v@ == b@.subrange(0, i as int),
    {
        v.push(b[i]);
        assert(v@ =~= b@.subrange(0, i + 1));
    }
    assert(b@.subrange(0, b@.len() as int) =~= b@);
    v
}

fn push_all(out: &mut Vec<char>, src: &Vec<char>, from: usize, to: usize)
    requires
        from <= to <= src@.len(),
    ensures
        final(out)@ == old(out)@ + src@.subrange(from as int, to as int),
{
    for i in from..to
        invariant
            to <= src@.len(),
            out@ == old(out)@ + src@.subrange(from as int, i as int),
    {
        out.push(src[i]);
        assert(out@ =~= old(out)@ + src@.subrange(from as int, i + 1));
    }
}

/// Computes the timestamp and request id headers of a request.
pub fn compute_values(timestamp_ms: u64, uuid: &str, path: &str, body: &str) -> (r: XClientHeaderValues)
    requires
        uuid@.len() >= 20,
    ensures
        r.timestamp@ == dec_spec(timestamp_ms as nat),
        r.request_id@ == request_id_spec(sha256_digest(header_message(timestamp_ms, path@, body@)), uuid@),
{
    let mut payload = String::from_str(path);
    payload.append("5_");
    payload.append(body);
    payload.append("k");
    let mut message = utf8_bytes(payload.as_str());
    let le = le_bytes_exec(timestamp_ms);
    for i in 0..le.len()
        invariant
            message@ == encode_utf8(payload@) + le@.subrange(0, i as int),
    {
        message.push(le[i]);
        assert(message@ =~= encode_utf8(payload@) + le@.subrange(0, i + 1));
    }
    assert(le@.subrange(0, le@.len() as int) =~= le@);
    proof {
        reveal_strlit("5_");
        reveal_strlit("k");
        assert(payload@ =~= path@ + "5_"@ + body@ + "k"@);
    }
    let digest = sha256(&message);
    let hex = hex_exec(&digest, 15);
    let ghost h = hex_spec(digest@.subrange(0, 15));
    proof {
        lemma_hex_len(digest@.subrange(0, 15));
    }
    let u = chars_of(uuid);
    let mut id: Vec<char> = Vec::new();
    push_all(&mut id, &hex, 0, 8);
    id.push('-');
    push_all(&mut id, &hex, 8, 12);
    id.push('-');
    id.push(u[14]);
    push_all(&mut id, &hex, 12, 15);
    id.push('-');
    id.push(u[19]);
    push_all(&mut id, &hex, 15, 18);
    id.push('-');
    push_all(&mut id, &hex, 18, 30);
    proof {
        reveal_strlit("-");
        assert(id@ =~= h.subrange(0, 8) + "-"@ + h.subrange(8, 12) + "-"@ + seq![uuid@[14]] + h.subrange(12, 15) + "-"@
            + seq![uuid@[19]] + h.subrange(15, 18) + "-"@ + h.subrange(18, 30));
    }
    let mut lowered: Vec<char> = Vec::new();
    for i in 0..id.len()
        invariant
            lowered@ == lower_seq(id@).subrange(0, i as int),
    {
        lowered.push(lower_char(id[i]));
        assert(lowered@ =~= lower_seq(id@).subrange(0, i + 1));
    }
    assert(lower_seq(id@).subrange(0, id@.len() as int) =~= lower_seq(id@));
    XClientHeaderValues { timestamp: u64_to_dec(timestamp_ms), request_id: string_from_chars(&lowered) }
}

proof fn lemma_hex_len(bytes: Seq<u8>)
    ensures
        hex_spec(bytes).len() == 2 * bytes.len(),
    decreases bytes.len(),
{
    if bytes.len() > 0 {
        lemma_hex_len(bytes.drop_last());
    }
}

/// The browser-like headers sent with every DFlow request.
pub open spec fn static_headers() -> Seq<(Seq<char>, Seq<char>)> {
    seq![
        ("accept"@, "*/*"@),
        ("accept-language"@, "zh-CN,zh;q=0.9"@),
        ("origin"@, "https://dflow.net"@),
        ("referer"@, "https://dflow.net/"@),
        ("sec-fetch-dest"@, "empty"@),
        ("sec-fetch-mode"@, "cors"@),
        ("sec-fetch-site"@, "cross-site"@),
        ("sec-ch-ua"@, "\"Google Chrome\";v=\"141\", \"Not?A_Brand\";v=\"8\", \"Chromium\";v=\"141\""@),
        ("sec-ch-ua-platform"@, "\"Windows\""@),
        ("sec-ch-ua-mobile"@, "?0"@),
        ("priority"@, "u=1, i"@),
        ("user-agent"@, "Mozilla/5.0 (Windows NT 10.0; Win64; x64) AppleWebKit/537.36 (KHTML, like Gecko) Chrome/141.0.0.0 Safari/537.36"@),
    ]
}

/// Appends the browser-like headers.
pub fn append_static_headers(headers: &mut Vec<(String, String)>)
    ensures
        param_views(final(headers)@) == param_views(old(headers)@) + static_headers(),
{
    let pairs: Vec<(&'static str, &'static str)> = vec![
        ("accept", "*/*"),
        ("accept-language", "zh-CN,zh;q=0.9"),
        ("origin", "https://dflow.net"),
        ("referer", "https://dflow.net/"),
        ("sec-fetch-dest", "empty"),
        ("sec-fetch-mode", "cors"),
        ("sec-fetch-site", "cross-site"),
        ("sec-ch-ua", "\"Google Chrome\";v=\"141\", \"Not?A_Brand\";v=\"8\", \"Chromium\";v=\"141\""),
        ("sec-ch-ua-platform", "\"Windows\""),
        ("sec-ch-ua-mobile", "?0"),
        ("priority", "u=1, i"),
        ("user-agent", "Mozilla/5.0 (Windows NT 10.0; Win64; x64) AppleWebKit/537.36 (KHTML, like Gecko) Chrome/141.0.0.0 Safari/537.36"),
    ];
    let ghost pv = pairs@.map_values(|p: (&'static str, &'static str)| (p.0@, p.1@));
    assert(pv =~= static_headers());
    for i in 0..pairs.len()
        invariant
            pv == pairs@.map_values(|p: (&'static str, &'static str)| (p.0@, p.1@)),
            pv == static_headers(),
            param_views(headers@) == param_views(old(headers)@) + pv.subrange(0, i as int),
    {
        let (name, value) = pairs[i];
        super::push_param(headers, name, String::from_str(value));
        assert(param_views(headers@) =~= param_views(old(headers)@) + pv.subrange(0, i + 1));
    }
    assert(pv.subrange(0, pv.len() as int) =~= pv);
}

/// All headers of a request: the timestamp, the request id, then the static ones.
pub fn build_header_values_with_parts(timestamp_ms: u64, uuid: &str, path: &str, body: &str) -> (r: Vec<(String, String)>)
    requires
        uuid@.len() >= 20,
    ensures
        param_views(r@) == seq![
            ("x-client-timestamp"@, dec_spec(timestamp_ms as nat)),
            ("x-client-request-id"@, request_id_spec(sha256_digest(header_message(timestamp_ms, path@, body@)), uuid@)),
        ] + static_headers(),
{
    let values = compute_values(timestamp_ms, uuid, path, body);
    let mut headers: Vec<(String, String)> = Vec::new();
    super::push_param(&mut headers, "x-client-timestamp", values.timestamp);
    super::push_param(&mut headers, "x-client-request-id", values.request_id);
    append_static_headers(&mut headers);
    headers
}


/// A fresh random request id with `uuid::Uuid::new_v4` written with
/// `to_string`. Trusted: as the crate's source shows, the text is the
/// hyphenated form of 36 characters; which id it is is random.
#[verifier::external_body]
fn new_uuid_v4() -> (s: String)
    ensures
        s@.len() == 36,
{
    uuid::Uuid::new_v4().to_string()
}

/// The `x-client` headers and the browser headers of a request, signed at
/// the current time with a fresh random id, as `build_header_map` builds
/// them; none when the clock reads a time before the Unix epoch. Which time
/// and which id were used is not stated: they come from the clock and from chance.
pub fn build_header_values(path: &str, body: &str) -> (r: Option<Vec<(String, String)>>)
    ensures
        r matches Some(v) ==> exists|timestamp_ms: u64, uuid: Seq<char>| uuid.len() == 36
            && #[trigger] param_views(v@) == seq![
                ("x-client-timestamp"@, dec_spec(timestamp_ms as nat)),
                ("x-client-request-id"@, request_id_spec(sha256_digest(header_message(timestamp_ms, path@, body@)), uuid)),
            ] + static_headers(),
{
    let now = super::titan_jwt::now_unix_nanos();
    if now < 0 {
        return None;
    }
    let millis: i128 = now / 1_000_000;
    #[verifier::truncate]
    let timestamp_ms = millis as u64;
    let uuid = new_uuid_v4();
    let v = build_header_values_with_parts(timestamp_ms, uuid.as_str(), path, body);
    assert(param_views(v@) == seq![
        ("x-client-timestamp"@, dec_spec(timestamp_ms as nat)),
        ("x-client-request-id"@, request_id_spec(sha256_digest(header_message(timestamp_ms, path@, body@)), uuid@)),
    ] + static_headers());
    Some(v)
}

} // verus!
