//! The byte order of strings (which is the code-point order of their
//! characters) and sorted, duplicate-free collections built on it, standing
//! where the scheduler keeps ordered sets of mints and mint pairs.
use vstd::prelude::*;
use vstd::string::*;

verus! {

/// `a` sorts strictly before `b` in lexicographic code-point order.
pub open spec fn seq_lt(a: Seq<char>, b: Seq<char>) -> bool
    decreases a.len(),
{
    if a.len() == 0 {
        b.len() > 0
    } else if b.len() == 0 {
        false
    } else if (a[0] as u32) < (b[0] as u32) {
        true
    } else if (a[0] as u32) > (b[0] as u32) {
        false
    } else {
        seq_lt(a.drop_first(), b.drop_first())
    }
}

pub proof fn lemma_lt_irreflexive(a: Seq<char>)
    ensures
        !seq_lt(a, a),
    decreases a.len(),
{
    if a.len() > 0 {
        lemma_lt_irreflexive(a.drop_first());
    }
}

pub proof fn lemma_lt_asymmetric(a: Seq<char>, b: Seq<char>)
    ensures
        seq_lt(a, b) ==> !seq_lt(b, a),
    decreases a.len(),
{
    if a.len() > 0 && b.len() > 0 && a[0] as u32 == b[0] as u32 {
        lemma_lt_asymmetric(a.drop_first(), b.drop_first());
    }
}

proof fn lemma_char_eq(x: char, y: char)
    requires
        x as u32 == y as u32,
    ensures
        x == y,
{
}

pub proof fn lemma_lt_total(a: Seq<char>, b: Seq<char>)
    ensures
        seq_lt(a, b) || seq_lt(b, a) || a == b,
    decreases a.len(),
{
    if a.len() > 0 && b.len() > 0 && a[0] as u32 == b[0] as u32 {
        lemma_char_eq(a[0], b[0]);
        lemma_lt_total(a.drop_first(), b.drop_first());
        if a.drop_first() == b.drop_first() {
            assert(a =~= seq![a[0]] + a.drop_first());
            assert(b =~= seq![b[0]] + b.drop_first());
        }
    } else if a.len() == 0 && b.len() == 0 {
        assert(a =~= b);
    }
}

pub proof fn lemma_lt_transitive(a: Seq<char>, b: Seq<char>, c: Seq<char>)
    requires
        seq_lt(a, b),
        seq_lt(b, c),
    ensures
        seq_lt(a, c),
    decreases a.len(),
{
    if a.len() > 0 && b.len() > 0 && c.len() > 0 && a[0] as u32 == b[0] as u32 && b[0] as u32
        == c[0] as u32 {
        lemma_lt_transitive(a.drop_first(), b.drop_first(), c.drop_first());
    }
}

/// How two strings compare.
#[derive(PartialEq, Eq, Structural, Clone, Copy, Debug)]
pub enum Rel {
    Less,
    Equal,
    Greater,
}

/// The relation of `a` to `b` in lexicographic code-point order, which is the
/// order `String`'s `Ord` gives.
pub open spec fn rel_spec(a: Seq<char>, b: Seq<char>) -> Rel {
    if seq_lt(a, b) {
        Rel::Less
    } else if a == b {
        Rel::Equal
    } else {
        Rel::Greater
    }
}

pub fn compare_text(a: &str, b: &str) -> (r: Rel)
    ensures
        r == rel_spec(a@, b@),
{
    let n = a.unicode_len();
    let m = b.unicode_len();
    let mut i: usize = 0;
    while i < n && i < m
        invariant
            n == a@.len(),
            m == b@.len(),
            i <= n,
            i <= m,
            a@.subrange(0, i as int) =~= b@.subrange(0, i as int),
        decreases n - i,
    {
        let x = a.get_char(i);
        let y = b.get_char(i);
        if (x as u32) < (y as u32) || (x as u32) > (y as u32) {
            proof {
                lemma_prefix_decides(a@, b@, i as int);
                lemma_lt_asymmetric(a@, b@);
            }
            if (x as u32) < (y as u32) {
                return Rel::Less;
            } else {
                return Rel::Greater;
            }
        }
        proof {
            lemma_char_eq(x, y);
            assert(a@.subrange(0, i + 1) =~= a@.subrange(0, i as int).push(x));
            assert(b@.subrange(0, i + 1) =~= b@.subrange(0, i as int).push(y));
        }
        i = i + 1;
    }
    proof {
        lemma_prefix_decides(a@, b@, i as int);
        lemma_lt_asymmetric(a@, b@);
        if n == m {
            assert(a@ =~= a@.subrange(0, i as int));
            assert(b@ =~= b@.subrange(0, i as int));
        }
    }
    if n < m {
        Rel::Less
    } else if n == m {
        Rel::Equal
    } else {
        Rel::Greater
    }
}

/// With a common prefix of length `i`, the order is decided at position `i`.
proof fn lemma_prefix_decides(a: Seq<char>, b: Seq<char>, i: int)
    requires
        0 <= i <= a.len(),
        i <= b.len(),
        a.subrange(0, i) =~= b.subrange(0, i),
    ensures
        i == a.len() && i < b.len() ==> seq_lt(a, b),
        i == a.len() && i == b.len() ==> !seq_lt(a, b),
        i < a.len() && i == b.len() ==> !seq_lt(a, b) && seq_lt(b, a),
        i < a.len() && i < b.len() && (a[i] as u32) < (b[i] as u32) ==> seq_lt(a, b),
        i < a.len() && i < b.len() && (a[i] as u32) > (b[i] as u32) ==> !seq_lt(a, b) && seq_lt(b, a),
    decreases i,
{
    if i > 0 {
        assert(a[0] == a.subrange(0, i)[0]);
        assert(b[0] == b.subrange(0, i)[0]);
        assert(a.drop_first().subrange(0, i - 1) =~= a.subrange(0, i).drop_first());
        assert(b.drop_first().subrange(0, i - 1) =~= b.subrange(0, i).drop_first());
        lemma_prefix_decides(a.drop_first(), b.drop_first(), i - 1);
    } else {
        lemma_lt_irreflexive(a);
    }
}

/// `s` is strictly increasing, so it holds no value twice.
pub open spec fn strictly_sorted(s: Seq<Seq<char>>) -> bool {
    forall|i: int, j: int| 0 <= i < j < s.len() ==> seq_lt(#[trigger] s[i], #[trigger] s[j])
}

/// The views of a vector of strings.
pub open spec fn views(v: Seq<String>) -> Seq<Seq<char>> {
    v.map_values(|s: String| s@)
}

/// Inserts `x` into the strictly sorted `v` unless it is already there.
pub fn insert_sorted(v: &mut Vec<String>, x: String)
    requires
        strictly_sorted(views(old(v)@)),
    ensures
        strictly_sorted(views(final(v)@)),
        views(final(v)@).to_set() == views(old(v)@).to_set().insert(x@),
{
    let n = v.len();
    let mut i: usize = 0;
    while i < n
        invariant
            n == v.len(),
            i <= n,
            v@ == old(v)@,
            strictly_sorted(views(v@)),
            forall|k: int| 0 <= k < i ==> seq_lt(#[trigger] views(v@)[k], x@),
        ensures
            i <= n,
            v@ == old(v)@,
            forall|k: int| 0 <= k < i ==> seq_lt(#[trigger] views(v@)[k], x@),
            i < n ==> seq_lt(x@, views(v@)[i as int]),
        decreases n - i,
    {
        let r = compare_text(v[i].as_str(), x.as_str());
        match r {
            Rel::Less => {
                i = i + 1;
            },
            Rel::Equal => {
                proof {
                    assert(views(v@)[i as int] == x@);
                    assert(views(v@).to_set().insert(x@) =~= views(v@).to_set());
                }
                return;
            },
            Rel::Greater => {
                proof {
                    lemma_lt_total(views(v@)[i as int], x@);
                }
                break;
            },
        }
    }
    let ghost before = views(v@);
    v.insert(i, x.clone());
    proof {
        let after = views(v@);
        assert(after =~= before.insert(i as int, x@));
        assert forall|p: int, q: int| 0 <= p < q < after.len() implies seq_lt(#[trigger] after[p], #[trigger] after[q]) by {
            if q == i {
                assert(after[p] == before[p]);
            } else if p == i {
                assert(after[q] == before[q - 1]);
                if q - 1 > i {
                    assert(seq_lt(before[i as int], before[q - 1]));
                    lemma_lt_transitive(x@, before[i as int], before[q - 1]);
                }
            } else if p < i && q > i {
                assert(after[p] == before[p]);
                assert(after[q] == before[q - 1]);
            } else if p > i {
                assert(after[p] == before[p - 1]);
                assert(after[q] == before[q - 1]);
            } else {
                assert(after[p] == before[p]);
                assert(after[q] == before[q]);
            }
        }
        assert forall|e: Seq<char>| after.to_set().contains(e) <==> before.to_set().insert(x@).contains(e) by {
            if after.to_set().contains(e) {
                let k = choose|k: int| 0 <= k < after.len() && after[k] == e;
                if k < i {
                    assert(before[k] == e);
                } else if k > i {
                    assert(before[k - 1] == e);
                }
            }
            if before.to_set().contains(e) {
                let k = choose|k: int| 0 <= k < before.len() && before[k] == e;
                if k < i {
                    assert(after[k] == e);
                } else {
                    assert(after[k + 1] == e);
                }
            }
            if e == x@ {
                assert(after[i as int] == e);
            }
        }
        assert(after.to_set() =~= before.to_set().insert(x@));
    }
}

/// Order of pairs of strings: by the first, then by the second, as tuples of
/// `String` compare.
pub open spec fn pair_lt(a: (Seq<char>, Seq<char>), b: (Seq<char>, Seq<char>)) -> bool {
    seq_lt(a.0, b.0) || (a.0 == b.0 && seq_lt(a.1, b.1))
}

pub proof fn lemma_pair_lt_order(a: (Seq<char>, Seq<char>), b: (Seq<char>, Seq<char>), c: (Seq<char>, Seq<char>))
    ensures
        !pair_lt(a, a),
        pair_lt(a, b) ==> !pair_lt(b, a),
        pair_lt(a, b) || pair_lt(b, a) || a == b,
        pair_lt(a, b) && pair_lt(b, c) ==> pair_lt(a, c),
{
    lemma_lt_irreflexive(a.0);
    lemma_lt_irreflexive(a.1);
    lemma_lt_asymmetric(a.0, b.0);
    lemma_lt_asymmetric(a.1, b.1);
    lemma_lt_total(a.0, b.0);
    lemma_lt_total(a.1, b.1);
    if seq_lt(a.0, b.0) && seq_lt(b.0, c.0) {
        lemma_lt_transitive(a.0, b.0, c.0);
    }
    if seq_lt(a.1, b.1) && seq_lt(b.1, c.1) {
        lemma_lt_transitive(a.1, b.1, c.1);
    }
}

/// The views of a vector of string pairs.
pub open spec fn pair_views(v: Seq<(String, String)>) -> Seq<(Seq<char>, Seq<char>)> {
    v.map_values(|p: (String, String)| (p.0@, p.1@))
}

/// Strictly increasing pairs, so no pair occurs twice.
pub open spec fn pairs_sorted(s: Seq<(Seq<char>, Seq<char>)>) -> bool {
    forall|i: int, j: int| 0 <= i < j < s.len() ==> pair_lt(#[trigger] s[i], #[trigger] s[j])
}

fn compare_pair(a: &(String, String), b: &(String, String)) -> (r: Rel)
    ensures
        r == Rel::Less <==> pair_lt((a.0@, a.1@), (b.0@, b.1@)),
        r == Rel::Equal <==> (a.0@, a.1@) == (b.0@, b.1@),
        r == Rel::Greater <==> pair_lt((b.0@, b.1@), (a.0@, a.1@)),
{
    proof {
        lemma_pair_lt_order((a.0@, a.1@), (b.0@, b.1@), (a.0@, a.1@));
    }
    match compare_text(a.0.as_str(), b.0.as_str()) {
        Rel::Less => {
            Rel::Less
        },
        Rel::Greater => {
            proof {
                lemma_lt_asymmetric(b.0@, a.0@);
            }
            Rel::Greater
        },
        Rel::Equal => {
            let r = compare_text(a.1.as_str(), b.1.as_str());
            proof {
                lemma_lt_irreflexive(a.0@);
                if r == Rel::Greater {
                    lemma_lt_total(a.1@, b.1@);
                }
            }
            r
        },
    }
}

/// Inserts `x` into the strictly sorted pairs `v` unless it is already there.
pub fn insert_sorted_pair(v: &mut Vec<(String, String)>, x: (String, String))
    requires
        pairs_sorted(pair_views(old(v)@)),
    ensures
        pairs_sorted(pair_views(final(v)@)),
        pair_views(final(v)@).to_set() == pair_views(old(v)@).to_set().insert((x.0@, x.1@)),
{
    let ghost xv = (x.0@, x.1@);
    let n = v.len();
    let mut i: usize = 0;
    while i < n
        invariant
            n == v.len(),
            i <= n,
            v@ == old(v)@,
            xv == (x.0@, x.1@),
            pairs_sorted(pair_views(v@)),
            forall|k: int| 0 <= k < i ==> pair_lt(#[trigger] pair_views(v@)[k], xv),
        ensures
            i <= n,
            v@ == old(v)@,
            forall|k: int| 0 <= k < i ==> pair_lt(#[trigger] pair_views(v@)[k], xv),
            i < n ==> pair_lt(xv, pair_views(v@)[i as int]),
        decreases n - i,
    {
        let r = compare_pair(&v[i], &x);
        assert(pair_views(v@)[i as int] == (v@[i as int].0@, v@[i as int].1@));
        match r {
            Rel::Less => {
                i = i + 1;
            },
            Rel::Equal => {
                proof {
                    assert(pair_views(v@)[i as int] == xv);
                    assert(pair_views(v@).to_set().insert(xv) =~= pair_views(v@).to_set());
                }
                return;
            },
            Rel::Greater => {
                break;
            },
        }
    }
    let ghost before = pair_views(v@);
    v.insert(i, x);
    proof {
        let after = pair_views(v@);
        assert(after =~= before.insert(i as int, xv));
        assert forall|p: int, q: int| 0 <= p < q < after.len() implies pair_lt(#[trigger] after[p], #[trigger] after[q]) by {
            if q == i {
                assert(after[p] == before[p]);
            } else if p == i {
                assert(after[q] == before[q - 1]);
                if q - 1 > i {
                    assert(pair_lt(before[i as int], before[q - 1]));
                    lemma_pair_lt_order(xv, before[i as int], before[q - 1]);
                }
            } else if p < i && q > i {
                assert(after[p] == before[p]);
                assert(after[q] == before[q - 1]);
            } else if p > i {
                assert(after[p] == before[p - 1]);
                assert(after[q] == before[q - 1]);
            } else {
                assert(after[p] == before[p]);
                assert(after[q] == before[q]);
            }
        }
        assert forall|e: (Seq<char>, Seq<char>)| after.to_set().contains(e) <==> before.to_set().insert(xv).contains(e) by {
            if after.to_set().contains(e) {
                let k = choose|k: int| 0 <= k < after.len() && after[k] == e;
                if k < i {
                    assert(before[k] == e);
                } else if k > i {
                    assert(before[k - 1] == e);
                }
            }
            if before.to_set().contains(e) {
                let k = choose|k: int| 0 <= k < before.len() && before[k] == e;
                if k < i {
                    assert(after[k] == e);
                } else {
                    assert(after[k + 1] == e);
                }
            }
            if e == xv {
                assert(after[i as int] == e);
            }
        }
        assert(after.to_set() =~= before.to_set().insert(xv));
    }
}

/// Strictly increasing numbers, so none occurs twice.
pub open spec fn u64_sorted(s: Seq<u64>) -> bool {
    forall|i: int, j: int| 0 <= i < j < s.len() ==> #[trigger] s[i] < #[trigger] s[j]
}

/// Inserts `x` into the strictly increasing `v` unless it is already there,
/// as a `BTreeSet<u64>` keeps its items.
pub fn insert_sorted_u64(v: &mut Vec<u64>, x: u64)
    requires
        u64_sorted(old(v)@),
    ensures
        u64_sorted(final(v)@),
        final(v)@.to_set() == old(v)@.to_set().insert(x),
{
    let n = v.len();
    let mut i: usize = 0;
    while i < n && v[i] < x
        invariant
            n == v.len(),
            i <= n,
            v@ == old(v)@,
            forall|k: int| 0 <= k < i ==> #[trigger] v@[k] < x,
        decreases n - i,
    {
        i = i + 1;
    }
    if i < n && v[i] == x {
        assert(v@.to_set().insert(x) =~= v@.to_set());
        return;
    }
    let ghost before = v@;
    v.insert(i, x);
    proof {
        let after = v@;
        assert(after =~= before.insert(i as int, x));
        assert forall|p: int, q: int| 0 <= p < q < after.len() implies #[trigger] after[p] < #[trigger] after[q] by {
            if q == i {
                assert(after[p] == before[p]);
            } else if p == i {
                assert(after[q] == before[q - 1]);
                assert(before[i as int] <= before[q - 1]);
            } else if p < i && q > i {
                assert(after[p] == before[p]);
                assert(after[q] == before[q - 1]);
            } else if p > i {
                assert(after[p] == before[p - 1]);
                assert(after[q] == before[q - 1]);
            } else {
                assert(after[p] == before[p]);
                assert(after[q] == before[q]);
            }
        }
        assert forall|e: u64| after.to_set().contains(e) <==> before.to_set().insert(x).contains(e) by {
            if after.to_set().contains(e) {
                let k = choose|k: int| 0 <= k < after.len() && after[k] == e;
                if k < i {
                    assert(before[k] == e);
                } else if k > i {
                    assert(before[k - 1] == e);
                }
            }
            if before.to_set().contains(e) {
                let k = choose|k: int| 0 <= k < before.len() && before[k] == e;
                if k < i {
                    assert(after[k] == e);
                } else {
                    assert(after[k + 1] == e);
                }
            }
            if e == x {
                assert(after[i as int] == e);
            }
        }
        assert(after.to_set() =~= before.to_set().insert(x));
    }
}

/// Lexicographic order of byte strings, the order of `[u8; N]` and of public keys.
pub open spec fn bytes_lt(a: Seq<u8>, b: Seq<u8>) -> bool
    decreases a.len(),
{
    if a.len() == 0 {
        b.len() > 0
    } else if b.len() == 0 {
        false
    } else if a[0] < b[0] {
        true
    } else if a[0] > b[0] {
        false
    } else {
        bytes_lt(a.drop_first(), b.drop_first())
    }
}

pub proof fn lemma_bytes_lt_order(a: Seq<u8>, b: Seq<u8>, c: Seq<u8>)
    ensures
        !bytes_lt(a, a),
        bytes_lt(a, b) ==> !bytes_lt(b, a),
        bytes_lt(a, b) || bytes_lt(b, a) || a == b,
        bytes_lt(a, b) && bytes_lt(b, c) ==> bytes_lt(a, c),
    decreases a.len(),
{
    if a.len() > 0 && b.len() > 0 && c.len() > 0 {
        lemma_bytes_lt_order(a.drop_first(), b.drop_first(), c.drop_first());
    } else if a.len() > 0 && b.len() > 0 {
        lemma_bytes_lt_order(a.drop_first(), b.drop_first(), b.drop_first());
    } else if a.len() > 0 {
        lemma_bytes_lt_order(a.drop_first(), a.drop_first(), a.drop_first());
    }
    if a.len() > 0 && b.len() > 0 && a[0] == b[0] && a.drop_first() == b.drop_first() {
        assert(a =~= seq![a[0]] + a.drop_first());
        assert(b =~= seq![b[0]] + b.drop_first());
    }
    if a.len() == 0 && b.len() == 0 {
        assert(a =~= b);
    }
}

/// How two byte strings compare.
pub fn compare_bytes(a: &Vec<u8>, b: &Vec<u8>) -> (r: Rel)
    ensures
        r == Rel::Less <==> bytes_lt(a@, b@),
        r == Rel::Equal <==> a@ == b@,
        r == Rel::Greater <==> bytes_lt(b@, a@),
{
    proof {
        lemma_bytes_lt_order(a@, b@, a@);
    }
    let n = a.len();
    let m = b.len();
    let mut i: usize = 0;
    assert(a@.subrange(0, n as int) =~= a@);
    assert(b@.subrange(0, m as int) =~= b@);
    while i < n && i < m
        invariant
            n == a@.len(),
            m == b@.len(),
            i <= n,
            i <= m,
            bytes_lt(a@, b@) == bytes_lt(a@.subrange(i as int, n as int), b@.subrange(i as int, m as int)),
            bytes_lt(b@, a@) == bytes_lt(b@.subrange(i as int, m as int), a@.subrange(i as int, n as int)),
            (a@ == b@) == (a@.subrange(i as int, n as int) == b@.subrange(i as int, m as int)),
        decreases n - i,
    {
        let ghost sa = a@.subrange(i as int, n as int);
        let ghost sb = b@.subrange(i as int, m as int);
        assert(sa.drop_first() =~= a@.subrange(i + 1, n as int));
        assert(sb.drop_first() =~= b@.subrange(i + 1, m as int));
        if a[i] < b[i] {
            assert(sa != sb) by {
                assert(sa[0] != sb[0]);
            }
            return Rel::Less;
        }
        if a[i] > b[i] {
            assert(sa != sb) by {
                assert(sa[0] != sb[0]);
            }
            return Rel::Greater;
        }
        proof {
            if sa.drop_first() == sb.drop_first() {
                assert(sa =~= seq![sa[0]] + sa.drop_first());
                assert(sb =~= seq![sb[0]] + sb.drop_first());
            }
        }
        i = i + 1;
    }
    let ghost sa = a@.subrange(i as int, n as int);
    let ghost sb = b@.subrange(i as int, m as int);
    if i < m {
        assert(sa.len() == 0);
        assert(sa != sb);
        Rel::Less
    } else if i < n {
        assert(sb.len() == 0);
        assert(sa != sb);
        Rel::Greater
    } else {
        assert(sa =~= sb);
        Rel::Equal
    }
}

/// The two byte strings are equal.
pub fn bytes_equal(a: &Vec<u8>, b: &Vec<u8>) -> (r: bool)
    ensures
        r == (a@ == b@),
{
    let r = compare_bytes(a, b);
    match r {
        Rel::Equal => true,
        _ => false,
    }
}

} // verus!
