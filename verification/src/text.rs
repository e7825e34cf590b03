//! Character-level helpers shared by the configuration and request code:
//! Unicode whitespace trimming, ASCII case folding and decimal numbers.
use vstd::prelude::*;
use vstd::string::*;

verus! {

/// Unicode `White_Space`, the set that `char::is_whitespace` (and so `str::trim`) uses.
pub open spec fn is_ws(c: char) -> bool {
    let v = c as u32;
    ||| 0x09 <= v <= 0x0d
    ||| v == 0x20
    ||| v == 0x85
    ||| v == 0xa0
    ||| v == 0x1680
    ||| 0x2000 <= v <= 0x200a
    ||| v == 0x2028
    ||| v == 0x2029
    ||| v == 0x202f
    ||| v == 0x205f
    ||| v == 0x3000
}

/// `s` without its leading whitespace.
pub open spec fn trim_start_spec(s: Seq<char>) -> Seq<char>
    decreases s.len(),
{
    if s.len() > 0 && is_ws(s[0]) {
        trim_start_spec(s.drop_first())
    } else {
        s
    }
}

/// `s` without its trailing whitespace.
pub open spec fn trim_end_spec(s: Seq<char>) -> Seq<char>
    decreases s.len(),
{
    if s.len() > 0 && is_ws(s.last()) {
        trim_end_spec(s.drop_last())
    } else {
        s
    }
}

/// `s` without leading and trailing whitespace, as `str::trim` gives it.
pub open spec fn trim_spec(s: Seq<char>) -> Seq<char> {
    trim_end_spec(trim_start_spec(s))
}

proof fn lemma_trim_start_shape(s: Seq<char>)
    ensures
        trim_start_spec(s).len() > 0 ==> !is_ws(trim_start_spec(s)[0]),
    decreases s.len(),
{
    if s.len() > 0 && is_ws(s[0]) {
        lemma_trim_start_shape(s.drop_first());
    }
}

proof fn lemma_trim_end_shape(s: Seq<char>)
    ensures
        trim_end_spec(s).len() <= s.len(),
        trim_end_spec(s) == s.subrange(0, trim_end_spec(s).len() as int),
        trim_end_spec(s).len() > 0 ==> !is_ws(trim_end_spec(s).last()),
    decreases s.len(),
{
    if s.len() > 0 && is_ws(s.last()) {
        lemma_trim_end_shape(s.drop_last());
        let t = trim_end_spec(s.drop_last());
        assert(s.drop_last().subrange(0, t.len() as int) =~= s.subrange(0, t.len() as int));
    } else {
        assert(s.subrange(0, s.len() as int) =~= s);
    }
}

/// Trimming a trimmed text changes nothing.
pub proof fn lemma_trim_idempotent(s: Seq<char>)
    ensures
        trim_spec(trim_spec(s)) == trim_spec(s),
{
    let a = trim_start_spec(s);
    let t = trim_end_spec(a);
    lemma_trim_start_shape(s);
    lemma_trim_end_shape(a);
    if t.len() > 0 {
        assert(t[0] == a[0]);
        assert(!is_ws(t[0]));
        assert(trim_start_spec(t) == t);
        assert(trim_end_spec(t) == t);
    } else {
        assert(trim_start_spec(t) == t);
        assert(trim_end_spec(t) == t);
    }
}

pub fn is_ws_char(c: char) -> (r: bool)
    ensures
        r == is_ws(c),
{
    let v = c as u32;
    (0x09 <= v && v <= 0x0d) || v == 0x20 || v == 0x85 || v == 0xa0 || v == 0x1680 || (0x2000
        <= v && v <= 0x200a) || v == 0x2028 || v == 0x2029 || v == 0x202f || v == 0x205f || v
        == 0x3000
}

pub proof fn lemma_trim_start_skip(s: Seq<char>, i: int)
    requires
        0 <= i <= s.len(),
        forall|k: int| 0 <= k < i ==> is_ws(#[trigger] s[k]),
    ensures
        trim_start_spec(s) == trim_start_spec(s.subrange(i, s.len() as int)),
    decreases i,
{
    if i > 0 {
        assert(s.drop_first() =~= s.subrange(1, s.len() as int));
        let t = s.drop_first();
        assert forall|k: int| 0 <= k < i - 1 implies is_ws(#[trigger] t[k]) by {
            assert(t[k] == s[k + 1]);
        }
        lemma_trim_start_skip(t, i - 1);
        assert(t.subrange(i - 1, t.len() as int) =~= s.subrange(i, s.len() as int));
    } else {
        assert(s.subrange(0, s.len() as int) =~= s);
    }
}

proof fn lemma_trim_end_skip(s: Seq<char>, j: int)
    requires
        0 <= j <= s.len(),
        forall|k: int| j <= k < s.len() ==> is_ws(#[trigger] s[k]),
    ensures
        trim_end_spec(s) == trim_end_spec(s.subrange(0, j)),
    decreases s.len() - j,
{
    if j < s.len() {
        let t = s.drop_last();
        assert forall|k: int| j <= k < t.len() implies is_ws(#[trigger] t[k]) by {
            assert(t[k] == s[k]);
        }
        lemma_trim_end_skip(t, j);
        assert(t.subrange(0, j) =~= s.subrange(0, j));
    } else {
        assert(s.subrange(0, j) =~= s);
    }
}

/// The characters of `s`, in order.
pub fn chars_of(s: &str) -> (v: Vec<char>)
    ensures
        v@ == s@,
{
    let n = s.unicode_len();
    let mut v: Vec<char> = Vec::new();
    for i in 0..n
        invariant
            n == s@.len(),
            v@ == s@.subrange(0, i as int),
    {
        v.push(s.get_char(i));
        assert(v@ =~= s@.subrange(0, i + 1));
    }
    assert(v@ =~= s@);
    v
}

/// `s` with leading and trailing whitespace removed, as `str::trim` gives it.
pub fn trim(s: &str) -> (r: String)
    ensures
        r@ == trim_spec(s@),
{
    let n = s.unicode_len();
    let mut i: usize = 0;
    while i < n && is_ws_char(s.get_char(i))
        invariant
            n == s@.len(),
            i <= n,
            forall|k: int| 0 <= k < i ==> is_ws(#[trigger] s@[k]),
        decreases n - i,
    {
        i = i + 1;
    }
    proof {
        lemma_trim_start_skip(s@, i as int);
        let rest = s@.subrange(i as int, n as int);
        if i < n {
            assert(rest[0] == s@[i as int]);
            assert(!is_ws(rest[0]));
            assert(trim_start_spec(rest) == rest);
        } else {
            assert(rest.len() == 0);
        }
    }
    let mut j: usize = n;
    while j > i && is_ws_char(s.get_char(j - 1))
        invariant
            n == s@.len(),
            i <= j <= n,
            forall|k: int| j <= k < n ==> is_ws(#[trigger] s@[k]),
        decreases j,
    {
        j = j - 1;
    }
    proof {
        let rest = s@.subrange(i as int, n as int);
        assert forall|k: int| (j - i) <= k < rest.len() implies is_ws(#[trigger] rest[k]) by {
            assert(rest[k] == s@[k + i]);
        }
        lemma_trim_end_skip(rest, j - i);
        let mid = rest.subrange(0, (j - i) as int);
        assert(mid =~= s@.subrange(i as int, j as int));
        if j > i {
            assert(mid.last() == s@[j - 1]);
            assert(!is_ws(mid.last()));
        }
    }
    let sub = s.substring_char(i, j);
    String::from_str(sub)
}


/// `c` with `A`..`Z` mapped to `a`..`z`, as `char::to_ascii_lowercase` gives it.
pub open spec fn lower_spec(c: char) -> char {
    if 'A' <= c <= 'Z' {
        ((c as u32) + 32) as char
    } else {
        c
    }
}

/// `s` with every ASCII upper-case letter lowered.
pub open spec fn lower_seq(s: Seq<char>) -> Seq<char> {
    Seq::new(s.len(), |i: int| lower_spec(s[i]))
}

/// Equality up to ASCII case, as `str::eq_ignore_ascii_case` decides it.
pub open spec fn eq_ignore_case_spec(a: Seq<char>, b: Seq<char>) -> bool {
    a.len() == b.len() && forall|i: int| 0 <= i < a.len() ==> lower_spec(#[trigger] a[i]) == lower_spec(b[i])
}

pub fn lower_char(c: char) -> (r: char)
    ensures
        r == lower_spec(c),
{
    if 'A' <= c && c <= 'Z' {
        let v = (c as u32) + 32;
        assert(0x61 <= v <= 0x7a);
        char_from_ascii(v)
    } else {
        c
    }
}

/// The character whose code is `v`, for a code in the ASCII range.
pub fn char_from_ascii(v: u32) -> (c: char)
    requires
        v < 128,
    ensures
        c == v as char,
        c as u32 == v,
{
    let b = v as u8;
    b as char
}

/// A `String` holding exactly the characters of `v`.
#[verifier::external_body]
pub fn string_from_chars(v: &Vec<char>) -> (s: String)
    ensures
        s@ == v@,
{
    v.iter().collect()
}

/// `s` lowered as `str::to_ascii_lowercase` lowers it.
pub fn to_ascii_lowercase(s: &str) -> (r: String)
    ensures
        r@ == lower_seq(s@),
{
    let v = chars_of(s);
    let mut out: Vec<char> = Vec::new();
    for i in 0..v.len()
        invariant
            v@ == s@,
            out@ =~= lower_seq(s@).subrange(0, i as int),
    {
        out.push(lower_char(v[i]));
        assert(out@ =~= lower_seq(s@).subrange(0, i + 1));
    }
    assert(out@ =~= lower_seq(s@));
    string_from_chars(&out)
}

pub fn eq_ignore_ascii_case(a: &str, b: &str) -> (r: bool)
    ensures
        r == eq_ignore_case_spec(a@, b@),
{
    let n = a.unicode_len();
    if n != b.unicode_len() {
        return false;
    }
    let mut i: usize = 0;
    while i < n
        invariant
            n == a@.len() == b@.len(),
            i <= n,
            forall|k: int| 0 <= k < i ==> lower_spec(#[trigger] a@[k]) == lower_spec(b@[k]),
        decreases n - i,
    {
        if lower_char(a.get_char(i)) != lower_char(b.get_char(i)) {
            return false;
        }
        i = i + 1;
    }
    true
}

/// The ASCII digit for `d < 10`.
pub open spec fn digit_char(d: nat) -> char {
    ((d + 48) as u32) as char
}

/// Decimal digits of `n` without leading zeros, as `u64::to_string` writes them.
pub open spec fn dec_spec(n: nat) -> Seq<char>
    decreases n,
{
    if n < 10 {
        seq![digit_char(n)]
    } else {
        dec_spec(n / 10).push(digit_char(n % 10))
    }
}

proof fn lemma_dec_len_pos(n: nat)
    ensures
        dec_spec(n).len() >= 1,
    decreases n,
{
    if n >= 10 {
        lemma_dec_len_pos(n / 10);
    }
}

/// `n` written in decimal.
pub fn u64_to_dec(n: u64) -> (s: String)
    ensures
        s@ == dec_spec(n as nat),
{
    let mut digits: Vec<char> = Vec::new();
    let mut m: u64 = n;
    // digits are collected lowest first
    while m >= 10
        invariant
            m <= n,
            dec_spec(n as nat) == dec_spec(m as nat) + digits@.reverse(),
        decreases m,
    {
        let d = m % 10;
        let c = char_from_ascii((d + 48) as u32);
        proof {
            assert(dec_spec(m as nat) == dec_spec((m / 10) as nat).push(c));
        }
        let ghost before = digits@;
        digits.push(c);
        proof {
            assert(digits@.reverse() =~= seq![c] + before.reverse());
            assert(dec_spec(n as nat) =~= dec_spec((m / 10) as nat) + digits@.reverse());
        }
        m = m / 10;
    }
    let c = char_from_ascii((m + 48) as u32);
    let ghost before = digits@;
    digits.push(c);
    proof {
        assert(dec_spec(m as nat) =~= seq![c]);
        assert(digits@.reverse() =~= seq![c] + before.reverse());
    }
    let mut out: Vec<char> = Vec::new();
    let len = digits.len();
    for k in 0..len
        invariant
            len == digits.len(),
            out@ =~= digits@.reverse().subrange(0, k as int),
    {
        out.push(digits[len - 1 - k]);
        assert(out@ =~= digits@.reverse().subrange(0, k + 1));
    }
    assert(out@ =~= digits@.reverse());
    string_from_chars(&out)
}

pub open spec fn is_digit(c: char) -> bool {
    '0' <= c <= '9'
}

/// The number that a string of ASCII digits spells.
pub open spec fn digits_value(s: Seq<char>) -> nat
    decreases s.len(),
{
    if s.len() == 0 {
        0
    } else {
        digits_value(s.drop_last()) * 10 + ((s.last() as u32) - 48) as nat
    }
}

/// What `str::parse` of an unsigned integer type reads, before the range check:
/// an optional `+` and then one or more ASCII digits.
pub open spec fn unsigned_text_value(s: Seq<char>) -> Option<nat> {
    let d = sign_stripped(s);
    if d.len() > 0 && all_digits(d) {
        Some(digits_value(d))
    } else {
        None
    }
}

/// `s` without one leading `+`.
pub open spec fn sign_stripped(s: Seq<char>) -> Seq<char> {
    if s.len() > 0 && s[0] == '+' {
        s.drop_first()
    } else {
        s
    }
}

pub open spec fn all_digits(d: Seq<char>) -> bool {
    forall|i: int| 0 <= i < d.len() ==> is_digit(#[trigger] d[i])
}

/// What `str::parse::<T>()` returns for an unsigned `T` whose largest value is `max`.
pub open spec fn parse_unsigned_spec(s: Seq<char>, max: nat) -> Option<nat> {
    match unsigned_text_value(s) {
        Some(v) => if v <= max {
            Some(v)
        } else {
            None
        },
        None => None,
    }
}

proof fn lemma_digits_value_monotone(s: Seq<char>, i: int)
    requires
        0 <= i <= s.len(),
        forall|k: int| 0 <= k < s.len() ==> is_digit(#[trigger] s[k]),
    ensures
        digits_value(s.subrange(0, i)) <= digits_value(s),
    decreases s.len() - i,
{
    if i < s.len() {
        lemma_digits_value_monotone(s.drop_last(), i);
        assert(s.drop_last().subrange(0, i) =~= s.subrange(0, i));
        assert forall|k: int| 0 <= k < s.drop_last().len() implies is_digit(#[trigger] s.drop_last()[k]) by {
            assert(s.drop_last()[k] == s[k]);
        }
    } else {
        assert(s.subrange(0, i) =~= s);
    }
}

/// Reads `s` as `str::parse` reads an unsigned integer no larger than `max`.
pub fn parse_unsigned(s: &str, max: u64) -> (r: Option<u64>)
    ensures
        match r {
            Some(v) => parse_unsigned_spec(s@, max as nat) == Some(v as nat),
            None => parse_unsigned_spec(s@, max as nat).is_none(),
        },
{
    let v = chars_of(s);
    let n = v.len();
    let mut start: usize = 0;
    if n > 0 && v[0] == '+' {
        start = 1;
    }
    let ghost d = sign_stripped(s@);
    assert(d =~= s@.subrange(start as int, n as int));
    if start >= n {
        assert(d.len() == 0);
        return None;
    }
    let mut acc: u64 = 0;
    let mut i: usize = start;
    while i < n
        invariant
            v@ == s@,
            n == v.len(),
            start <= i <= n,
            start < n,
            d =~= s@.subrange(start as int, n as int),
            d == sign_stripped(s@),
            forall|k: int| 0 <= k < i - start ==> is_digit(#[trigger] d[k]),
            acc as nat == digits_value(d.subrange(0, i - start)),
            acc <= max,
        decreases n - i,
    {
        let c = v[i];
        if !('0' <= c && c <= '9') {
            proof {
                assert(d[i - start] == c);
                assert(!is_digit(d[i - start]));
                assert(!all_digits(d));
                assert(unsigned_text_value(s@).is_none());
            }
            return None;
        }
        let digit = (c as u32 - 48) as u64;
        proof {
            let pre = d.subrange(0, i - start + 1);
            assert(pre.drop_last() =~= d.subrange(0, i - start));
            assert(pre.last() == c);
        }
        if digit > max || acc > (max - digit) / 10 {
            proof {
                let pre = d.subrange(0, i - start + 1);
                assert(digits_value(pre) == acc * 10 + digit);
                if digit <= max {
                    assert(acc * 10 + digit > max) by (nonlinear_arith)
                        requires
                            acc > (max - digit) / 10,
                            digit <= max,
                    ;
                }
                assert forall|k: int| 0 <= k < i - start + 1 implies is_digit(#[trigger] d[k]) by {
                    if k == i - start {
                        assert(d[k] == c);
                    }
                }
                // the remaining characters can only make the value larger, or fail to be digits
                if all_digits(d) {
                    lemma_digits_value_monotone(d, i - start + 1);
                    assert(digits_value(d) > max);
                    assert(unsigned_text_value(s@) == Some(digits_value(d)));
                } else {
                    assert(unsigned_text_value(s@).is_none());
                }
            }
            return None;
        }
        proof {
            assert(acc * 10 + digit <= max) by (nonlinear_arith)
                requires
                    acc <= (max - digit) / 10,
                    digit <= max,
            ;
        }
        acc = acc * 10 + digit;
        i = i + 1;
    }
    assert(d.subrange(0, n - start) =~= d);
    Some(acc)
}

/// The pieces of `s` between occurrences of `c`, as `str::split` gives them:
/// always at least one piece, empty pieces included.
pub open spec fn split_on(s: Seq<char>, c: char) -> Seq<Seq<char>>
    decreases s.len(),
{
    if s.len() == 0 {
        seq![Seq::<char>::empty()]
    } else {
        let rest = split_on(s.drop_first(), c);
        if s[0] == c {
            seq![Seq::<char>::empty()] + rest
        } else {
            rest.update(0, seq![s[0]] + rest[0])
        }
    }
}

pub proof fn lemma_split_on_nonempty(s: Seq<char>, c: char)
    ensures
        split_on(s, c).len() >= 1,
    decreases s.len(),
{
    if s.len() > 0 {
        lemma_split_on_nonempty(s.drop_first(), c);
    }
}

/// Splitting `a`, one separator and `b` gives the pieces of `a` followed by
/// the pieces of `b`.
pub proof fn lemma_split_on_concat(a: Seq<char>, b: Seq<char>, c: char)
    ensures
        split_on(a + seq![c] + b, c) == split_on(a, c) + split_on(b, c),
    decreases a.len(),
{
    let s = a + seq![c] + b;
    if a.len() == 0 {
        assert(s.drop_first() =~= b);
        assert(s[0] == c);
        assert(split_on(s, c) =~= split_on(a, c) + split_on(b, c));
    } else {
        let a1 = a.drop_first();
        assert(s.drop_first() =~= a1 + seq![c] + b);
        assert(s[0] == a[0]);
        lemma_split_on_concat(a1, b, c);
        lemma_split_on_nonempty(a1, c);
        let rest = split_on(a1, c) + split_on(b, c);
        assert(split_on(s.drop_first(), c) == rest);
        if a[0] == c {
            assert(split_on(s, c) =~= split_on(a, c) + split_on(b, c));
        } else {
            assert(rest[0] == split_on(a1, c)[0]);
            assert(split_on(s, c) == rest.update(0, seq![a[0]] + rest[0]));
            assert(split_on(a, c) == split_on(a1, c).update(0, seq![a[0]] + split_on(a1, c)[0]));
            assert(rest.update(0, seq![a[0]] + rest[0]) =~= split_on(a, c) + split_on(b, c));
        }
    }
}

/// The views of a vector of character vectors.
pub open spec fn char_views(v: Seq<Vec<char>>) -> Seq<Seq<char>> {
    v.map_values(|p: Vec<char>| p@)
}

/// The views of a vector of strings.
pub open spec fn string_views(v: Seq<String>) -> Seq<Seq<char>> {
    v.map_values(|p: String| p@)
}

fn prepend_char(c: char, v: &Vec<char>) -> (r: Vec<char>)
    ensures
        r@ == seq![c] + v@,
{
    let mut r: Vec<char> = Vec::new();
    r.push(c);
    for i in 0..v.len()
        invariant
            r@ == seq![c] + v@.subrange(0, i as int),
    {
        r.push(v[i]);
        assert(r@ =~= seq![c] + v@.subrange(0, i + 1));
    }
    assert(v@.subrange(0, v@.len() as int) =~= v@);
    r
}

/// Splits `s` at every `c`, as `str::split` does.
pub fn split_char(s: &str, c: char) -> (v: Vec<String>)
    ensures
        string_views(v@) == split_on(s@, c),
{
    let chars = chars_of(s);
    let n = chars.len();
    let mut pieces: Vec<Vec<char>> = Vec::new();
    pieces.push(Vec::new());
    assert(char_views(pieces@) =~= split_on(s@.subrange(n as int, n as int), c));
    let mut i: usize = n;
    while i > 0
        invariant
            chars@ == s@,
            n == s@.len(),
            i <= n,
            char_views(pieces@) == split_on(s@.subrange(i as int, n as int), c),
        decreases i,
    {
        let ch = chars[i - 1];
        let ghost tail = s@.subrange(i as int, n as int);
        let ghost whole = s@.subrange(i - 1, n as int);
        assert(whole.drop_first() =~= tail);
        assert(whole[0] == ch);
        proof { lemma_split_on_nonempty(tail, c); }
        if ch == c {
            pieces.insert(0, Vec::new());
            assert(char_views(pieces@) =~= seq![Seq::<char>::empty()] + split_on(tail, c));
        } else {
            let first = prepend_char(ch, &pieces[0]);
            pieces.set(0, first);
            assert(char_views(pieces@) =~= split_on(tail, c).update(0, seq![ch] + split_on(tail, c)[0]));
        }
        i = i - 1;
    }
    assert(s@.subrange(0, n as int) =~= s@);
    let mut out: Vec<String> = Vec::new();
    for k in 0..pieces.len()
        invariant
            string_views(out@) == char_views(pieces@).subrange(0, k as int),
    {
        let st = string_from_chars(&pieces[k]);
        assert(st@ == char_views(pieces@)[k as int]);
        let ghost before = out@;
        out.push(st);
        assert(string_views(out@) =~= string_views(before).push(st@));
        assert(string_views(out@) =~= char_views(pieces@).subrange(0, k + 1));
    }
    assert(char_views(pieces@).subrange(0, pieces@.len() as int) =~= char_views(pieces@));
    out
}

/// Position of the last `c` in `s`.
pub open spec fn last_index_of(s: Seq<char>, c: char) -> Option<int>
    decreases s.len(),
{
    if s.len() == 0 {
        None
    } else if s.last() == c {
        Some(s.len() - 1)
    } else {
        last_index_of(s.drop_last(), c)
    }
}

pub proof fn lemma_last_index_of_bounds(s: Seq<char>, c: char)
    ensures
        last_index_of(s, c) matches Some(i) ==> 0 <= i < s.len() && s[i] == c,
        last_index_of(s, c).is_none() ==> !s.contains(c),
    decreases s.len(),
{
    if s.len() > 0 && s.last() != c {
        lemma_last_index_of_bounds(s.drop_last(), c);
        if last_index_of(s, c).is_none() {
            assert forall|k: int| 0 <= k < s.len() implies s[k] != c by {
                if k < s.len() - 1 {
                    assert(s.drop_last()[k] == s[k]);
                }
            }
        }
    }
}

/// Index of the last `c` in `s`, as `str::rfind` finds it (in characters).
pub fn find_last(s: &str, c: char) -> (r: Option<usize>)
    ensures
        match r {
            Some(i) => last_index_of(s@, c) == Some(i as int),
            None => last_index_of(s@, c).is_none(),
        },
{
    let n = s.unicode_len();
    let mut j: usize = n;
    assert(s@.subrange(0, n as int) =~= s@);
    while j > 0
        invariant
            n == s@.len(),
            j <= n,
            last_index_of(s@, c) == last_index_of(s@.subrange(0, j as int), c),
        decreases j,
    {
        let ghost pre = s@.subrange(0, j as int);
        if s.get_char(j - 1) == c {
            assert(pre.last() == c);
            return Some(j - 1);
        }
        assert(pre.drop_last() =~= s@.subrange(0, j - 1));
        j = j - 1;
    }
    None
}

/// `s` without every leading `c`, as `str::trim_start_matches` with a character gives it.
pub open spec fn strip_start_spec(s: Seq<char>, c: char) -> Seq<char>
    decreases s.len(),
{
    if s.len() > 0 && s[0] == c {
        strip_start_spec(s.drop_first(), c)
    } else {
        s
    }
}

/// What is left after the leading `c`s are removed does not start with `c`.
pub proof fn lemma_strip_start_head(s: Seq<char>, c: char)
    ensures
        strip_start_spec(s, c).len() > 0 ==> strip_start_spec(s, c)[0] != c,
    decreases s.len(),
{
    if s.len() > 0 && s[0] == c {
        lemma_strip_start_head(s.drop_first(), c);
    }
}

/// `s` without every trailing `c`, as `str::trim_end_matches` with a character gives it.
pub open spec fn strip_end_spec(s: Seq<char>, c: char) -> Seq<char>
    decreases s.len(),
{
    if s.len() > 0 && s.last() == c {
        strip_end_spec(s.drop_last(), c)
    } else {
        s
    }
}

/// `s` with every leading `c` removed.
pub fn strip_start_chars(s: &Vec<char>, c: char) -> (r: Vec<char>)
    ensures
        r@ == strip_start_spec(s@, c),
{
    let n = s.len();
    let mut i: usize = 0;
    assert(s@.subrange(0, n as int) =~= s@);
    while i < n && s[i] == c
        invariant
            n == s@.len(),
            i <= n,
            strip_start_spec(s@, c) == strip_start_spec(s@.subrange(i as int, n as int), c),
        decreases n - i,
    {
        let ghost rest = s@.subrange(i as int, n as int);
        assert(rest.drop_first() =~= s@.subrange(i + 1, n as int));
        i = i + 1;
    }
    let mut r: Vec<char> = Vec::new();
    for k in i..n
        invariant
            n == s@.len(),
            i <= n,
            r@ == s@.subrange(i as int, k as int),
    {
        r.push(s[k]);
        assert(r@ =~= s@.subrange(i as int, k + 1));
    }
    r
}

/// `s` with every trailing `c` removed.
pub fn strip_end_chars(s: &Vec<char>, c: char) -> (r: Vec<char>)
    ensures
        r@ == strip_end_spec(s@, c),
{
    let n = s.len();
    let mut j: usize = n;
    assert(s@.subrange(0, n as int) =~= s@);
    while j > 0 && s[j - 1] == c
        invariant
            n == s@.len(),
            j <= n,
            strip_end_spec(s@, c) == strip_end_spec(s@.subrange(0, j as int), c),
        decreases j,
    {
        let ghost pre = s@.subrange(0, j as int);
        assert(pre.drop_last() =~= s@.subrange(0, j - 1));
        j = j - 1;
    }
    let mut r: Vec<char> = Vec::new();
    for k in 0..j
        invariant
            j <= n,
            n == s@.len(),
            r@ == s@.subrange(0, k as int),
    {
        r.push(s[k]);
        assert(r@ =~= s@.subrange(0, k + 1));
    }
    r
}

/// `s` holds the character `c`.
pub fn contains_char(s: &str, c: char) -> (r: bool)
    ensures
        r == s@.contains(c),
{
    let n = s.unicode_len();
    let mut i: usize = 0;
    while i < n
        invariant
            n == s@.len(),
            i <= n,
            forall|k: int| 0 <= k < i ==> s@[k] != c,
        decreases n - i,
    {
        if s.get_char(i) == c {
            assert(s@[i as int] == c);
            return true;
        }
        i = i + 1;
    }
    false
}

/// The lines of `s`, as `str::lines` gives them: split at `\n`, a `\r` before
/// the `\n` dropped, and no empty line after a final `\n`.
pub open spec fn lines_of(s: Seq<char>) -> Seq<Seq<char>>
    decreases s.len(),
{
    if s.len() == 0 {
        Seq::<Seq<char>>::empty()
    } else {
        proof {
            lemma_first_index_of(s, '\n');
        }
        match first_index_of(s, '\n') {
            None => seq![s],
            Some(i) => seq![strip_cr(s.subrange(0, i))] + lines_of(s.subrange(i + 1, s.len() as int)),
        }
    }
}

/// A line without the `\r` of a `\r\n` ending.
pub open spec fn strip_cr(line: Seq<char>) -> Seq<char> {
    if line.len() > 0 && line.last() == '\r' {
        line.drop_last()
    } else {
        line
    }
}

/// Position of the first `c` in `s`.
pub open spec fn first_index_of(s: Seq<char>, c: char) -> Option<int>
    decreases s.len(),
{
    if s.len() == 0 {
        None
    } else if s[0] == c {
        Some(0)
    } else {
        match first_index_of(s.drop_first(), c) {
            None => None,
            Some(i) => Some(i + 1),
        }
    }
}

pub proof fn lemma_first_index_of(s: Seq<char>, c: char)
    ensures
        first_index_of(s, c) matches Some(i) ==> 0 <= i < s.len() && s[i] == c
            && forall|k: int| 0 <= k < i ==> s[k] != c,
        first_index_of(s, c).is_none() ==> forall|k: int| 0 <= k < s.len() ==> s[k] != c,
    decreases s.len(),
{
    if s.len() > 0 && s[0] != c {
        lemma_first_index_of(s.drop_first(), c);
        assert forall|k: int| 0 < k < s.len() implies s[k] == s.drop_first()[k - 1] by {}
    }
}

proof fn lemma_first_index_of_skip(s: Seq<char>, c: char, j: int)
    requires
        0 <= j <= s.len(),
        forall|k: int| 0 <= k < j ==> s[k] != c,
    ensures
        first_index_of(s, c) == (match first_index_of(s.subrange(j, s.len() as int), c) {
            None => None,
            Some(i) => Some(i + j),
        }),
    decreases j,
{
    if j > 0 {
        let t = s.drop_first();
        assert forall|k: int| 0 <= k < j - 1 implies t[k] != c by {
            assert(t[k] == s[k + 1]);
        }
        lemma_first_index_of_skip(t, c, j - 1);
        assert(t.subrange(j - 1, t.len() as int) =~= s.subrange(j, s.len() as int));
    } else {
        assert(s.subrange(0, s.len() as int) =~= s);
    }
}

/// The lines of `s`, as `str::lines` gives them.
pub fn text_lines(s: &str) -> (v: Vec<String>)
    ensures
        string_views(v@) == lines_of(s@),
{
    let chars = chars_of(s);
    let n = chars.len();
    let mut out: Vec<String> = Vec::new();
    let mut start: usize = 0;
    assert(s@.subrange(0, n as int) =~= s@);
    assert(string_views(out@) + lines_of(s@) =~= lines_of(s@));
    while start < n
        invariant
            chars@ == s@,
            n == s@.len(),
            start <= n,
            string_views(out@) + lines_of(s@.subrange(start as int, n as int)) == lines_of(s@),
        decreases n - start,
    {
        let ghost rest = s@.subrange(start as int, n as int);
        let mut j: usize = start;
        while j < n && chars[j] != '\n'
            invariant
                chars@ == s@,
                n == s@.len(),
                start <= j <= n,
                forall|k: int| start <= k < j ==> s@[k] != '\n',
            decreases n - j,
        {
            j = j + 1;
        }
        proof {
            assert forall|k: int| 0 <= k < j - start implies rest[k] != '\n' by {
                assert(rest[k] == s@[k + start]);
            }
            lemma_first_index_of_skip(rest, '\n', j - start);
        }
        let mut line: Vec<char> = Vec::new();
        for k in start..j
            invariant
                chars@ == s@,
                start <= j <= n,
                n == s@.len(),
                line@ == s@.subrange(start as int, k as int),
        {
            line.push(chars[k]);
            assert(line@ =~= s@.subrange(start as int, k + 1));
        }
        let ghost before = out@;
        if j < n {
            proof {
                let tail = rest.subrange(j - start, rest.len() as int);
                assert(tail[0] == '\n');
                assert(first_index_of(tail, '\n') == Some(0int));
                assert(rest.subrange(0, j - start) =~= line@);
                assert(rest.subrange(j - start + 1, rest.len() as int) =~= s@.subrange(j + 1, n as int));
            }
            if line.len() > 0 && line[line.len() - 1] == '\r' {
                line.pop();
            }
            out.push(string_from_chars(&line));
            assert(string_views(out@) =~= string_views(before).push(line@));
            assert(string_views(out@) + lines_of(s@.subrange(j + 1, n as int)) =~= string_views(before) + lines_of(rest));
            start = j + 1;
        } else {
            proof {
                let tail = rest.subrange(j - start, rest.len() as int);
                assert(tail.len() == 0);
                assert(first_index_of(tail, '\n').is_none());
                assert(rest =~= line@);
                assert(rest.len() > 0);
            }
            out.push(string_from_chars(&line));
            assert(string_views(out@) =~= string_views(before).push(line@));
            assert(lines_of(s@.subrange(n as int, n as int)) =~= Seq::<Seq<char>>::empty());
            assert(string_views(out@) + lines_of(s@.subrange(n as int, n as int)) =~= string_views(before) + lines_of(rest));
            start = n;
        }
    }
    assert(lines_of(s@.subrange(n as int, n as int)) =~= Seq::<Seq<char>>::empty());
    assert(string_views(out@) + Seq::<Seq<char>>::empty() =~= string_views(out@));
    out
}

/// Appends the characters of `s` as one more line.
pub fn push_chars_of(out: &mut Vec<Vec<char>>, s: &str)
    ensures
        char_views(final(out)@) == char_views(old(out)@).push(s@),
{
    let v = chars_of(s);
    out.push(v);
    assert(char_views(out@) =~= char_views(old(out)@).push(s@));
}

} // verus!
