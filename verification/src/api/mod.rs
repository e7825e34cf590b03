//! Requests to the quote and swap services: query parameters, request headers
//! and the decoding of their answers.
use vstd::prelude::*;
use vstd::string::*;
use crate::text::{u64_to_dec, dec_spec};

pub mod jupiter_quote;
pub mod kamino_quote;
pub mod kamino_tables;
pub mod ultra_order;
pub mod dflow_headers;
pub mod dflow_quote;
pub mod http;
pub mod swap_instructions;
pub mod titan;
pub mod titan_jwt;

verus! {

/// The views of query parameters.
pub open spec fn param_views(v: Seq<(String, String)>) -> Seq<(Seq<char>, Seq<char>)> {
    v.map_values(|p: (String, String)| (p.0@, p.1@))
}

/// Appends one query parameter.
pub fn push_param(params: &mut Vec<(String, String)>, key: &str, value: String)
    ensures
        param_views(final(params)@) == param_views(old(params)@).push((key@, value@)),
{
    params.push((String::from_str(key), value));
    assert(param_views(params@) =~= param_views(old(params)@).push((key@, value@)));
}

/// `true` or `false`, as `bool::to_string` writes it.
pub open spec fn bool_text(b: bool) -> Seq<char> {
    if b {
        "true"@
    } else {
        "false"@
    }
}

/// Writes a boolean as `bool::to_string` does.
pub fn bool_string(b: bool) -> (s: String)
    ensures
        s@ == bool_text(b),
{
    if b {
        String::from_str("true")
    } else {
        String::from_str("false")
    }
}

/// Writes a number in decimal.
pub fn dec_string(n: u64) -> (s: String)
    ensures
        s@ == dec_spec(n as nat),
{
    u64_to_dec(n)
}

/// The views of pairs of static texts.
pub open spec fn static_pair_views(v: Seq<(&'static str, &'static str)>) -> Seq<(Seq<char>, Seq<char>)> {
    v.map_values(|p: (&'static str, &'static str)| (p.0@, p.1@))
}

/// Appends pairs of static texts as headers or parameters, in order.
pub fn push_static_pairs(params: &mut Vec<(String, String)>, pairs: &Vec<(&'static str, &'static str)>)
    ensures
        param_views(final(params)@) == param_views(old(params)@) + static_pair_views(pairs@),
{
    for i in 0..pairs.len()
        invariant
            param_views(params@) == param_views(old(params)@) + static_pair_views(pairs@).subrange(0, i as int),
    {
        let (name, value) = pairs[i];
        push_param(params, name, String::from_str(value));
        assert(param_views(params@) =~= param_views(old(params)@) + static_pair_views(pairs@).subrange(0, i + 1));
    }
    assert(static_pair_views(pairs@).subrange(0, pairs@.len() as int) =~= static_pair_views(pairs@));
}

/// The browser-like headers of Kamino requests.
pub open spec fn kamino_headers_spec() -> Seq<(Seq<char>, Seq<char>)> {
    seq![
        ("accept"@, "*/*"@),
        ("accept-language"@, "zh-CN,zh;q=0.9"@),
        ("origin"@, "https://kamino.com"@),
        ("referer"@, "https://kamino.com/"@),
        ("host"@, "api.kamino.finance"@),
        ("user-agent"@, "Mozilla/5.0 (Windows NT 10.0; Win64; x64) AppleWebKit/537.36 (KHTML, like Gecko) Chrome/141.0.0.0 Safari/537.36"@),
        ("Sec-Ch-Ua"@, "\"Google Chrome\";v=\"141\", \"Not?A_Brand\";v=\"8\", \"Chromium\";v=\"141\""@),
        ("Sec-Ch-Ua-Mobile"@, "?0"@),
        ("Sec-Ch-Ua-Platform"@, "\"Windows\""@),
        ("Sec-Fetch-Dest"@, "empty"@),
        ("Sec-Fetch-Mode"@, "cors"@),
        ("Sec-Fetch-Site"@, "cross-site"@),
        ("Priority"@, "u=1, i"@),
    ]
}

/// The headers every Kamino request carries, in the order they are set.
pub fn apply_kamino_headers() -> (r: Vec<(String, String)>)
    ensures
        param_views(r@) == kamino_headers_spec(),
{
    let pairs: Vec<(&'static str, &'static str)> = vec![
        ("accept", "*/*"),
        ("accept-language", "zh-CN,zh;q=0.9"),
        ("origin", "https://kamino.com"),
        ("referer", "https://kamino.com/"),
        ("host", "api.kamino.finance"),
        ("user-agent", "Mozilla/5.0 (Windows NT 10.0; Win64; x64) AppleWebKit/537.36 (KHTML, like Gecko) Chrome/141.0.0.0 Safari/537.36"),
        ("Sec-Ch-Ua", "\"Google Chrome\";v=\"141\", \"Not?A_Brand\";v=\"8\", \"Chromium\";v=\"141\""),
        ("Sec-Ch-Ua-Mobile", "?0"),
        ("Sec-Ch-Ua-Platform", "\"Windows\""),
        ("Sec-Fetch-Dest", "empty"),
        ("Sec-Fetch-Mode", "cors"),
        ("Sec-Fetch-Site", "cross-site"),
        ("Priority", "u=1, i"),
    ];
    assert(static_pair_views(pairs@) =~= kamino_headers_spec());
    let mut r: Vec<(String, String)> = Vec::new();
    push_static_pairs(&mut r, &pairs);
    assert(param_views(r@) =~= kamino_headers_spec());
    r
}

} // verus!
