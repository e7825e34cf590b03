//! Planning of the blind strategies: the mint pairs to quote, the trade sizes
//! per base mint and the quote, profit and compute-unit-price settings that
//! the engine is started with.
use vstd::prelude::*;
use vstd::string::*;
use crate::text::{trim, trim_spec, string_views, to_ascii_lowercase, lower_seq};
use crate::order::{
    pair_lt, pair_views, pairs_sorted, insert_sorted_pair, lemma_pair_lt_order, u64_sorted,
    insert_sorted_u64, bytes_lt, compare_bytes, Rel, lemma_bytes_lt_order,
};
use crate::keys::{parse_pubkey, pubkey_from_text};
use rand::Rng;
use crate::config::{same_text, TradeRangeStrategy, LanderSettings, EngineTimeoutConfig, LightHouseBotConfig, EngineBackend};

verus! {

/// Whether the strategy sends transactions or only simulates them.
#[derive(PartialEq, Eq, Structural, Clone, Copy, Debug)]
pub enum StrategyMode {
    Live,
    DryRun,
}

/// Why a strategy configuration was refused.
#[derive(Clone, Debug)]
pub enum StrategyError {
    /// No base mint is configured.
    NoBaseMints,
    /// No usable intermediate mint is left.
    NoIntermediates,
    /// No pair of a base and an intermediate mint is left.
    NoPairs,
    /// A mint of this pair is not a public key.
    InvalidPair { input: String, output: String },
    /// A base mint is not a public key.
    InvalidMint(String),
    /// A base mint has no lanes.
    NoLanes(String),
    /// A lane of a base mint has a count of zero.
    ZeroLaneCount(String),
    /// A lane of a base mint has zero for both its minimum and its maximum.
    ZeroLaneRange(String),
    /// No base mint is usable.
    NoValidBaseMint,
    /// No trade size is left.
    NoTradeSize,
    /// The same base mint occurs twice.
    DuplicateBaseMint(String),
    /// The Marginfi account is not a public key.
    InvalidMarginfiAccount,
}

/// A pair of mints to quote, with their public keys.
pub struct TradePair {
    pub input_mint: String,
    pub output_mint: String,
    pub input_key: Vec<u8>,
    pub output_key: Vec<u8>,
}

/// Some item of `items`, trimmed, is `t`.
pub open spec fn listed(items: Seq<Seq<char>>, t: Seq<char>) -> bool {
    exists|i: int| 0 <= i < items.len() && trim_spec(#[trigger] items[i]) == t
}

/// An intermediate mint that is configured, not blank and not excluded.
pub open spec fn usable_intermediate(mints: Seq<Seq<char>>, excluded: Seq<Seq<char>>, t: Seq<char>) -> bool {
    t.len() > 0 && listed(mints, t) && !listed(excluded, t)
}

/// A base mint that is configured, not blank and, where bases are filtered too, not excluded.
pub open spec fn usable_base(bases: Seq<Seq<char>>, excluded: Seq<Seq<char>>, filter_bases: bool, t: Seq<char>) -> bool {
    t.len() > 0 && listed(bases, t) && !(filter_bases && listed(excluded, t))
}

/// The pairs from a usable base to a usable intermediate other than itself.
pub open spec fn pair_set(
    bases: Seq<Seq<char>>,
    mints: Seq<Seq<char>>,
    excluded: Seq<Seq<char>>,
    filter_bases: bool,
) -> Set<(Seq<char>, Seq<char>)> {
    Set::new(|p: (Seq<char>, Seq<char>)|
        usable_base(bases, excluded, filter_bases, p.0) && usable_intermediate(mints, excluded, p.1) && p.0 != p.1)
}

/// Both mints of the pair are public keys.
pub open spec fn pair_parses(p: (Seq<char>, Seq<char>)) -> bool {
    pubkey_from_text(p.0).is_some() && pubkey_from_text(p.1).is_some()
}

/// What `plan_trade_pairs` returns: the pairs in order, each with its keys,
/// or the reason there are none.
pub open spec fn trade_pairs_ok(
    v: Seq<TradePair>,
    bases: Seq<Seq<char>>,
    mints: Seq<Seq<char>>,
    excluded: Seq<Seq<char>>,
    filter_bases: bool,
) -> bool {
    let views = v.map_values(|t: TradePair| (t.input_mint@, t.output_mint@));
    &&& pairs_sorted(views)
    &&& views.to_set() == pair_set(bases, mints, excluded, filter_bases)
    &&& forall|i: int| 0 <= i < v.len() ==> pubkey_from_text(#[trigger] v[i].input_mint@) == Some(v[i].input_key@)
            && pubkey_from_text(v[i].output_mint@) == Some(v[i].output_key@)
}

/// What `plan_trade_pairs` returns for the configured lists.
pub open spec fn trade_pairs_outcome(
    b: Seq<Seq<char>>,
    m: Seq<Seq<char>>,
    x: Seq<Seq<char>>,
    filter_bases: bool,
    r: Result<Vec<TradePair>, StrategyError>,
) -> bool {
    let ps = pair_set(b, m, x, filter_bases);
    match r {
        Ok(v) => b.len() > 0 && trade_pairs_ok(v@, b, m, x, filter_bases)
            && ps.len() > 0 && forall|p| ps.contains(p) ==> pair_parses(p),
        Err(StrategyError::NoBaseMints) => b.len() == 0,
        Err(StrategyError::NoIntermediates) => b.len() > 0
            && forall|t: Seq<char>| !usable_intermediate(m, x, t),
        Err(StrategyError::NoPairs) => b.len() > 0
            && (exists|t: Seq<char>| usable_intermediate(m, x, t)) && ps == Set::<(Seq<char>, Seq<char>)>::empty(),
        Err(StrategyError::InvalidPair { input, output }) => b.len() > 0
            && ps.contains((input@, output@)) && !pair_parses((input@, output@))
            && forall|q| ps.contains(q) && pair_lt(q, (input@, output@)) ==> pair_parses(q),
        Err(_) => false,
    }
}

fn listed_exec(items: &Vec<String>, t: &String) -> (r: bool)
    ensures
        r == listed(string_views(items@), t@),
{
    let mut i: usize = 0;
    while i < items.len()
        invariant
            i <= items@.len(),
            forall|k: int| 0 <= k < i ==> trim_spec(#[trigger] string_views(items@)[k]) != t@,
        decreases items@.len() - i,
    {
        let u = trim(items[i].as_str());
        if same_text(u.as_str(), t.as_str()) {
            assert(trim_spec(string_views(items@)[i as int]) == t@);
            return true;
        }
        i = i + 1;
    }
    false
}

/// Lists the mint pairs to quote, sorted and without repeats: every usable
/// base mint with every usable intermediate mint other than itself. Every
/// mint of a pair must be a public key.
pub fn plan_trade_pairs(
    bases: &Vec<String>,
    mints: &Vec<String>,
    excluded: &Vec<String>,
    filter_bases: bool,
) -> (r: Result<Vec<TradePair>, StrategyError>)
    ensures
        trade_pairs_outcome(string_views(bases@), string_views(mints@), string_views(excluded@), filter_bases, r),
{
    let ghost b = string_views(bases@);
    let ghost m = string_views(mints@);
    let ghost x = string_views(excluded@);
    if bases.len() == 0 {
        return Err(StrategyError::NoBaseMints);
    }
    // the usable intermediates, in their configured order
    let mut inter: Vec<String> = Vec::new();
    for k in 0..mints.len()
        invariant
            m == string_views(mints@),
            x == string_views(excluded@),
            forall|t: Seq<char>| #[trigger] string_views(inter@).contains(t) <==>
                (t.len() > 0 && !listed(x, t) && exists|i: int| 0 <= i < k && trim_spec(#[trigger] m[i]) == t),
    {
        let t = trim(mints[k].as_str());
        assert(m[k as int] == mints@[k as int]@);
        if t.unicode_len() > 0 && !listed_exec(excluded, &t) {
            let ghost before = string_views(inter@);
            inter.push(t);
            assert(string_views(inter@) =~= before.push(t@));
            assert forall|u: Seq<char>| #[trigger] string_views(inter@).contains(u) <==>
                (u.len() > 0 && !listed(x, u) && exists|i: int| 0 <= i < k + 1 && trim_spec(#[trigger] m[i]) == u) by {
                if string_views(inter@).contains(u) && u != t@ {
                    let j = choose|j: int| 0 <= j < string_views(inter@).len() && string_views(inter@)[j] == u;
                    assert(before[j] == u);
                    assert(before.contains(u));
                    let i = choose|i: int| 0 <= i < k && trim_spec(#[trigger] m[i]) == u;
                    assert(trim_spec(m[i]) == u);
                }
                if u == t@ {
                    assert(string_views(inter@)[before.len() as int] == u);
                    assert(trim_spec(m[k as int]) == u);
                }
                if u.len() > 0 && !listed(x, u) && exists|i: int| 0 <= i < k + 1 && trim_spec(#[trigger] m[i]) == u {
                    let i = choose|i: int| 0 <= i < k + 1 && trim_spec(#[trigger] m[i]) == u;
                    if i < k {
                        assert(before.contains(u));
                        let j = choose|j: int| 0 <= j < before.len() && before[j] == u;
                        assert(string_views(inter@)[j] == u);
                    } else {
                        assert(string_views(inter@)[before.len() as int] == u);
                    }
                }
            }
        } else {
            assert forall|u: Seq<char>| #[trigger] string_views(inter@).contains(u) <==>
                (u.len() > 0 && !listed(x, u) && exists|i: int| 0 <= i < k + 1 && trim_spec(#[trigger] m[i]) == u) by {
                if u.len() > 0 && !listed(x, u) && exists|i: int| 0 <= i < k + 1 && trim_spec(#[trigger] m[i]) == u {
                    let i = choose|i: int| 0 <= i < k + 1 && trim_spec(#[trigger] m[i]) == u;
                    if i == k {
                        assert(u == t@);
                    }
                }
            }
        }
    }
    assert forall|t: Seq<char>| #[trigger] string_views(inter@).contains(t) <==> usable_intermediate(m, x, t) by {}
    if inter.len() == 0 {
        assert forall|t: Seq<char>| !usable_intermediate(m, x, t) by {
            if usable_intermediate(m, x, t) {
                assert(string_views(inter@).contains(t));
            }
        }
        return Err(StrategyError::NoIntermediates);
    }
    assert(string_views(inter@).contains(string_views(inter@)[0]));
    assert(usable_intermediate(m, x, string_views(inter@)[0]));
    let ghost iv = string_views(inter@);
    let mut pairs: Vec<(String, String)> = Vec::new();
    for k in 0..bases.len()
        invariant
            b == string_views(bases@),
            m == string_views(mints@),
            x == string_views(excluded@),
            iv == string_views(inter@),
            forall|t: Seq<char>| #[trigger] iv.contains(t) <==> usable_intermediate(m, x, t),
            pairs_sorted(pair_views(pairs@)),
            forall|p: (Seq<char>, Seq<char>)| #[trigger] pair_views(pairs@).to_set().contains(p) <==>
                (pair_set(b, m, x, filter_bases).contains(p) && exists|i: int| 0 <= i < k && trim_spec(#[trigger] b[i]) == p.0),
    {
        let t = trim(bases[k].as_str());
        assert(b[k as int] == bases@[k as int]@);
        let skip = t.unicode_len() == 0 || (filter_bases && listed_exec(excluded, &t));
        if !skip {
            for j in 0..inter.len()
                invariant
                    b == string_views(bases@),
                    m == string_views(mints@),
                    x == string_views(excluded@),
                    iv == string_views(inter@),
                    forall|u: Seq<char>| #[trigger] iv.contains(u) <==> usable_intermediate(m, x, u),
                    t@ == trim_spec(b[k as int]),
                    usable_base(b, x, filter_bases, t@),
                    pairs_sorted(pair_views(pairs@)),
                    forall|p: (Seq<char>, Seq<char>)| #[trigger] pair_views(pairs@).to_set().contains(p) <==>
                        ((pair_set(b, m, x, filter_bases).contains(p) && exists|i: int| 0 <= i < k && trim_spec(#[trigger] b[i]) == p.0)
                        || (p.0 == t@ && p.1 != t@ && exists|q: int| 0 <= q < j && #[trigger] iv[q] == p.1)),
            {
                if !same_text(inter[j].as_str(), t.as_str()) {
                    let ghost before = pair_views(pairs@).to_set();
                    insert_sorted_pair(&mut pairs, (t.clone(), inter[j].clone()));
                    assert(iv[j as int] == inter@[j as int]@);
                    assert forall|p: (Seq<char>, Seq<char>)| #[trigger] pair_views(pairs@).to_set().contains(p) <==>
                        ((pair_set(b, m, x, filter_bases).contains(p) && exists|i: int| 0 <= i < k && trim_spec(#[trigger] b[i]) == p.0)
                        || (p.0 == t@ && p.1 != t@ && exists|q: int| 0 <= q < j + 1 && #[trigger] iv[q] == p.1)) by {
                        if p == (t@, iv[j as int]) {
                            assert(before.insert((t@, iv[j as int])).contains(p));
                        }
                        if p.0 == t@ && p.1 != t@ && exists|q: int| 0 <= q < j + 1 && #[trigger] iv[q] == p.1 {
                            let q = choose|q: int| 0 <= q < j + 1 && #[trigger] iv[q] == p.1;
                            if q == j {
                                assert(p == (t@, iv[j as int]));
                            }
                        }
                    }
                } else {
                    assert forall|p: (Seq<char>, Seq<char>)| #[trigger] pair_views(pairs@).to_set().contains(p) <==>
                        ((pair_set(b, m, x, filter_bases).contains(p) && exists|i: int| 0 <= i < k && trim_spec(#[trigger] b[i]) == p.0)
                        || (p.0 == t@ && p.1 != t@ && exists|q: int| 0 <= q < j + 1 && #[trigger] iv[q] == p.1)) by {
                        if p.0 == t@ && p.1 != t@ && exists|q: int| 0 <= q < j + 1 && #[trigger] iv[q] == p.1 {
                            let q = choose|q: int| 0 <= q < j + 1 && #[trigger] iv[q] == p.1;
                            if q == j {
                                assert(iv[j as int] == t@);
                            }
                        }
                    }
                }
            }
            assert forall|p: (Seq<char>, Seq<char>)| #[trigger] pair_views(pairs@).to_set().contains(p) <==>
                (pair_set(b, m, x, filter_bases).contains(p) && exists|i: int| 0 <= i < k + 1 && trim_spec(#[trigger] b[i]) == p.0) by {
                if pair_set(b, m, x, filter_bases).contains(p) && p.0 == t@ {
                    assert(iv.contains(p.1));
                    let q = choose|q: int| 0 <= q < iv.len() && iv[q] == p.1;
                }
                if pair_set(b, m, x, filter_bases).contains(p) && exists|i: int| 0 <= i < k + 1 && trim_spec(#[trigger] b[i]) == p.0 {
                    let i = choose|i: int| 0 <= i < k + 1 && trim_spec(#[trigger] b[i]) == p.0;
                }
                if p.0 == t@ && p.1 != t@ && exists|q: int| 0 <= q < iv.len() && #[trigger] iv[q] == p.1 {
                    let q = choose|q: int| 0 <= q < iv.len() && #[trigger] iv[q] == p.1;
                    assert(iv.contains(p.1));
                    assert(listed(b, p.0));
                }
            }
        } else {
            assert forall|p: (Seq<char>, Seq<char>)| #[trigger] pair_views(pairs@).to_set().contains(p) <==>
                (pair_set(b, m, x, filter_bases).contains(p) && exists|i: int| 0 <= i < k + 1 && trim_spec(#[trigger] b[i]) == p.0) by {
                if pair_set(b, m, x, filter_bases).contains(p) && exists|i: int| 0 <= i < k + 1 && trim_spec(#[trigger] b[i]) == p.0 {
                    let i = choose|i: int| 0 <= i < k + 1 && trim_spec(#[trigger] b[i]) == p.0;
                    if i == k {
                        assert(p.0 == t@);
                    }
                }
            }
        }
    }
    let ghost ps = pair_set(b, m, x, filter_bases);
    assert(pair_views(pairs@).to_set() =~= ps) by {
        assert forall|p: (Seq<char>, Seq<char>)| ps.contains(p) implies #[trigger] pair_views(pairs@).to_set().contains(p) by {
            let i = choose|i: int| 0 <= i < b.len() && trim_spec(#[trigger] b[i]) == p.0;
        }
    }
    if pairs.len() == 0 {
        assert(ps =~= Set::<(Seq<char>, Seq<char>)>::empty()) by {
            assert forall|p| !ps.contains(p) by {
                if ps.contains(p) {
                    assert(pair_views(pairs@).to_set().contains(p));
                    let q = choose|q: int| 0 <= q < pair_views(pairs@).len() && pair_views(pairs@)[q] == p;
                }
            }
        }
        return Err(StrategyError::NoPairs);
    }
    let ghost pv = pair_views(pairs@);
    let mut out: Vec<TradePair> = Vec::new();
    for k in 0..pairs.len()
        invariant
            pv == pair_views(pairs@),
            pairs_sorted(pv),
            pv.to_set() == ps,
            b.len() > 0,
            b == string_views(bases@),
            m == string_views(mints@),
            x == string_views(excluded@),
            ps == pair_set(b, m, x, filter_bases),
            out@.len() == k,
            forall|i: int| 0 <= i < k ==> pair_parses(#[trigger] pv[i]),
            forall|i: int| 0 <= i < k ==> (#[trigger] out@[i]).input_mint@ == pv[i].0 && out@[i].output_mint@ == pv[i].1
                && pubkey_from_text(out@[i].input_mint@) == Some(out@[i].input_key@)
                && pubkey_from_text(out@[i].output_mint@) == Some(out@[i].output_key@),
    {
        let input = &pairs[k].0;
        let output = &pairs[k].1;
        assert(pv[k as int] == (input@, output@));
        let ik = parse_pubkey(input.as_str());
        let ok = parse_pubkey(output.as_str());
        if ik.is_none() || ok.is_none() {
            proof {
                assert(ps.contains(pv[k as int]));
                assert forall|q| ps.contains(q) && pair_lt(q, (input@, output@)) implies pair_parses(q) by {
                    assert(pv.to_set().contains(q));
                    let i = choose|i: int| 0 <= i < pv.len() && pv[i] == q;
                    if i >= k {
                        if i > k {
                            assert(pair_lt(pv[k as int], pv[i]));
                        }
                        lemma_pair_lt_order(q, pv[k as int], q);
                    }
                }
            }
            return Err(StrategyError::InvalidPair { input: input.clone(), output: output.clone() });
        }
        out.push(TradePair {
            input_mint: input.clone(),
            output_mint: output.clone(),
            input_key: ik.unwrap(),
            output_key: ok.unwrap(),
        });
    }
    proof {
        let views = out@.map_values(|t: TradePair| (t.input_mint@, t.output_mint@));
        assert(views =~= pv);
        assert forall|p| ps.contains(p) implies pair_parses(p) by {
            assert(pv.to_set().contains(p));
            let i = choose|i: int| 0 <= i < pv.len() && pv[i] == p;
        }
        assert(pv.to_set().contains(pv[0]));
        assert(ps.len() > 0) by {
            assert(ps.contains(pv[0]));
            if ps.len() == 0 {
                assert(ps =~= Set::<(Seq<char>, Seq<char>)>::empty());
            }
        }
    }
    Ok(out)
}

/// The pairs of the blind strategy: each base mint with each intermediate
/// mint that is not disabled.
pub fn build_blind_trade_pairs(base_mints: &Vec<String>, intermediate_mints: &Vec<String>, disable_mints: &Vec<String>) -> (r: Result<Vec<TradePair>, StrategyError>)
    ensures
        trade_pairs_outcome(string_views(base_mints@), string_views(intermediate_mints@), string_views(disable_mints@), false, r),
{
    plan_trade_pairs(base_mints, intermediate_mints, disable_mints, false)
}

/// The pairs of the pure blind strategy: each base mint that is not
/// blacklisted with each intermediate mint that is not blacklisted.
pub fn build_pure_trade_pairs(base_mints: &Vec<String>, intermediates: &Vec<String>, blacklist_mints: &Vec<String>) -> (r: Result<Vec<TradePair>, StrategyError>)
    ensures
        trade_pairs_outcome(string_views(base_mints@), string_views(intermediates@), string_views(blacklist_mints@), true, r),
{
    plan_trade_pairs(base_mints, intermediates, blacklist_mints, true)
}

// ---------------------------------------------------------------------------
// Trade sizes: lanes per base mint, scaled up towards the number of IPs.

/// A lane of trade sizes as configured. `scaled_count` is the lane's count
/// multiplied by the auto-scale multiplier and rounded up, which the caller
/// computes in floating point.
pub struct LaneSpec {
    pub min: u64,
    pub max: u64,
    pub count: u32,
    pub strategy: TradeRangeStrategy,
    pub scaled_count: usize,
}

/// A base mint and its lanes as configured.
pub struct BaseLanes {
    pub mint: String,
    pub lanes: Vec<LaneSpec>,
}

/// How many sizes a lane will produce and how far it may grow.
pub struct LanePlan {
    pub min: u64,
    pub max: u64,
    pub strategy: TradeRangeStrategy,
    pub final_count: usize,
    pub max_count: usize,
    pub allow_scale: bool,
}

/// A usable base mint, its key, and the run of lanes that belong to it.
pub struct BasePlan {
    pub mint: String,
    pub key: Vec<u8>,
    pub first_lane: usize,
    pub lane_count: usize,
}

/// The plan of all base mints and their lanes.
pub struct LanePlanSet {
    pub bases: Vec<BasePlan>,
    pub lanes: Vec<LanePlan>,
}

/// The base mints whose trimmed text is not blank, in order.
pub open spec fn usable_bases(bases: Seq<BaseLanes>) -> Seq<BaseLanes>
    decreases bases.len(),
{
    if bases.len() == 0 {
        Seq::<BaseLanes>::empty()
    } else {
        let acc = usable_bases(bases.drop_last());
        if trim_spec(bases.last().mint@).len() > 0 {
            acc.push(bases.last())
        } else {
            acc
        }
    }
}

/// Every base mint of `u` is accepted.
pub open spec fn all_bases_ok(u: Seq<BaseLanes>) -> bool {
    forall|j: int| 0 <= j < u.len() ==> base_ok(#[trigger] u[j])
}

/// A lane is accepted: a positive count and not zero at both ends.
pub open spec fn lane_ok(l: LaneSpec) -> bool {
    l.count > 0 && !(l.min == 0 && l.max == 0)
}

/// A usable base mint is accepted: a public key with at least one lane, all accepted.
pub open spec fn base_ok(b: BaseLanes) -> bool {
    &&& pubkey_from_text(trim_spec(b.mint@)).is_some()
    &&& b.lanes@.len() > 0
    &&& forall|q: int| 0 <= q < b.lanes@.len() ==> lane_ok(#[trigger] b.lanes@[q])
}

/// The plan of a configured lane: the maximum raised to the minimum, scaling
/// allowed only for a real range, and the count it may grow to.
pub open spec fn lane_plan_matches(p: LanePlan, l: LaneSpec, auto_scale: bool) -> bool {
    let max = if l.max < l.min { l.min } else { l.max };
    let allow = l.min < max;
    &&& p.min == l.min
    &&& p.max == max
    &&& p.strategy == l.strategy
    &&& p.final_count == l.count
    &&& p.allow_scale == allow
    &&& p.max_count == if auto_scale && allow {
            if l.scaled_count > l.count { l.scaled_count } else { l.count as usize }
        } else {
            l.count as usize
        }
}

/// How many lanes the base mints have together.
pub open spec fn total_lanes(u: Seq<BaseLanes>) -> nat
    decreases u.len(),
{
    if u.len() == 0 {
        0
    } else {
        total_lanes(u.drop_last()) + u.last().lanes@.len()
    }
}

/// The plan lays out the usable base mints in order, each with its key and
/// the run of its lane plans, one run after the other.
pub open spec fn plan_matches(plan: LanePlanSet, bases: Seq<BaseLanes>, auto_scale: bool) -> bool {
    plan_lays_out(plan, usable_bases(bases), auto_scale)
}

/// The plan lays out the given base mints, each with its key and its lanes.
pub open spec fn plan_lays_out(plan: LanePlanSet, u: Seq<BaseLanes>, auto_scale: bool) -> bool {
    &&& plan.bases@.len() == u.len()
    &&& plan.lanes@.len() == total_lanes(u)
    &&& forall|j: int| 0 <= j < u.len() ==> {
            let bp = #[trigger] plan.bases@[j];
            &&& bp.mint@ == trim_spec(u[j].mint@)
            &&& pubkey_from_text(bp.mint@) == Some(bp.key@)
            &&& bp.lane_count == u[j].lanes@.len()
            &&& bp.first_lane == total_lanes(u.subrange(0, j))
        }
    &&& forall|j: int, q: int| #![trigger u[j].lanes@[q]] 0 <= j < u.len() && 0 <= q < u[j].lanes@.len()
            ==> lane_plan_matches(plan.lanes@[total_lanes(u.subrange(0, j)) + q], u[j].lanes@[q], auto_scale)
}

proof fn lemma_total_lanes_prefix(u: Seq<BaseLanes>, j: int)
    requires
        0 <= j < u.len(),
    ensures
        total_lanes(u.subrange(0, j)) + u[j].lanes@.len() <= total_lanes(u),
        total_lanes(u.subrange(0, j + 1)) == total_lanes(u.subrange(0, j)) + u[j].lanes@.len(),
    decreases u.len(),
{
    let pre = u.subrange(0, j + 1);
    assert(pre.drop_last() =~= u.subrange(0, j));
    if j < u.len() - 1 {
        lemma_total_lanes_prefix(u.drop_last(), j);
        assert(u.drop_last().subrange(0, j) =~= u.subrange(0, j));
        assert(u.drop_last()[j] == u[j]);
    } else {
        assert(u.subrange(0, j) =~= u.drop_last());
    }
}

proof fn lemma_usable_bases_prefix(bases: Seq<BaseLanes>, k: int)
    requires
        0 <= k <= bases.len(),
    ensures
        usable_bases(bases.subrange(0, k)).len() <= usable_bases(bases).len(),
        usable_bases(bases).subrange(0, usable_bases(bases.subrange(0, k)).len() as int) == usable_bases(bases.subrange(0, k)),
    decreases bases.len() - k,
{
    if k < bases.len() {
        lemma_usable_bases_prefix(bases, k + 1);
        lemma_usable_bases_push(bases, k);
        let a = usable_bases(bases.subrange(0, k));
        let b = usable_bases(bases.subrange(0, k + 1));
        let all = usable_bases(bases);
        assert(all.subrange(0, a.len() as int) =~= b.subrange(0, a.len() as int));
        assert(b.subrange(0, a.len() as int) =~= a);
    } else {
        assert(bases.subrange(0, k) =~= bases);
        assert(usable_bases(bases).subrange(0, usable_bases(bases).len() as int) =~= usable_bases(bases));
    }
}

/// A usable base mint at position `k` is in the list of usable base mints.
proof fn lemma_usable_bases_all(bases: Seq<BaseLanes>, k: int)
    requires
        0 <= k < bases.len(),
        trim_spec(bases[k].mint@).len() > 0,
    ensures
        ({
            let i = usable_bases(bases.subrange(0, k)).len() as int;
            i < usable_bases(bases).len() && usable_bases(bases)[i] == bases[k]
        }),
{
    lemma_usable_bases_push(bases, k);
    lemma_usable_bases_prefix(bases, k + 1);
    let i = usable_bases(bases.subrange(0, k)).len() as int;
    let b = usable_bases(bases.subrange(0, k + 1));
    assert(b[i] == bases[k]);
    assert(usable_bases(bases).subrange(0, b.len() as int)[i] == b[i]);
}

proof fn lemma_usable_bases_push(bases: Seq<BaseLanes>, k: int)
    requires
        0 <= k < bases.len(),
    ensures
        usable_bases(bases.subrange(0, k + 1)) == if trim_spec(bases[k].mint@).len() > 0 {
            usable_bases(bases.subrange(0, k)).push(bases[k])
        } else {
            usable_bases(bases.subrange(0, k))
        },
{
    let pre = bases.subrange(0, k + 1);
    assert(pre.drop_last() =~= bases.subrange(0, k));
}

/// `e` is the error for base mint `b`, refused at its first fault: a mint
/// that is not a public key, no lanes, or the first lane that is not
/// accepted, with a count of zero or zero at both ends.
pub open spec fn base_error_matches(e: StrategyError, b: BaseLanes) -> bool {
    let t = trim_spec(b.mint@);
    match e {
        StrategyError::InvalidMint(m) => m@ == t && pubkey_from_text(t) is None,
        StrategyError::NoLanes(m) => m@ == t && pubkey_from_text(t) is Some && b.lanes@.len() == 0,
        StrategyError::ZeroLaneCount(m) => m@ == t && pubkey_from_text(t) is Some
            && exists|q: int| 0 <= q < b.lanes@.len() && (forall|p: int| 0 <= p < q ==> lane_ok(#[trigger] b.lanes@[p]))
                && (#[trigger] b.lanes@[q]).count == 0,
        StrategyError::ZeroLaneRange(m) => m@ == t && pubkey_from_text(t) is Some
            && exists|q: int| 0 <= q < b.lanes@.len() && (forall|p: int| 0 <= p < q ==> lane_ok(#[trigger] b.lanes@[p]))
                && (#[trigger] b.lanes@[q]).count > 0 && b.lanes@[q].min == 0 && b.lanes@[q].max == 0,
        _ => false,
    }
}

/// The error of a plan: with no usable base mint, `NoValidBaseMint`;
/// otherwise the error of the first usable base mint that is not accepted.
pub open spec fn plan_error_matches(e: StrategyError, u: Seq<BaseLanes>) -> bool {
    ||| u.len() == 0 && e is NoValidBaseMint
    ||| exists|j: int| 0 <= j < u.len() && (forall|i: int| 0 <= i < j ==> base_ok(#[trigger] u[i]))
            && #[trigger] base_error_matches(e, u[j])
}

proof fn lemma_first_bad_base(bases: Seq<BaseLanes>, k: int, e: StrategyError)
    requires
        0 <= k < bases.len(),
        trim_spec(bases[k].mint@).len() > 0,
        all_bases_ok(usable_bases(bases.subrange(0, k))),
        base_error_matches(e, bases[k]),
    ensures
        plan_error_matches(e, usable_bases(bases)),
{
    lemma_usable_bases_all(bases, k);
    lemma_usable_bases_prefix(bases, k);
    let u = usable_bases(bases);
    let u0 = usable_bases(bases.subrange(0, k));
    let j = u0.len() as int;
    assert forall|i: int| 0 <= i < j implies base_ok(#[trigger] u[i]) by {
        assert(u.subrange(0, j)[i] == u0[i]);
        assert(base_ok(u0[i]));
    }
    assert(base_error_matches(e, u[j]));
}

/// A lane plan keeps the configured range: its minimum is the configured
/// minimum, its maximum is the larger of the configured maximum and minimum,
/// so the sizes spread over the whole configured range; its count is the
/// configured count, and it may scale only when the range is real.
pub proof fn lemma_lane_plan_keeps_range(p: LanePlan, l: LaneSpec, auto_scale: bool)
    requires
        lane_plan_matches(p, l, auto_scale),
    ensures
        p.min == l.min,
        p.max >= l.max,
        p.max >= l.min,
        p.max == l.max || p.max == l.min,
        p.final_count == l.count,
        p.allow_scale == (l.min < l.max),
        p.max_count >= p.final_count,
{
}

/// Every lane of a laid-out plan keeps its configured range: the `q`-th lane
/// of the `j`-th usable base mint sits at that mint's first lane plus `q`.
pub proof fn lemma_planned_lanes_keep_ranges(plan: LanePlanSet, bases: Seq<BaseLanes>, auto_scale: bool)
    requires
        plan_matches(plan, bases, auto_scale),
    ensures
        forall|j: int, q: int| #![trigger usable_bases(bases)[j].lanes@[q]]
            0 <= j < usable_bases(bases).len() && 0 <= q < usable_bases(bases)[j].lanes@.len() ==> {
                let l = usable_bases(bases)[j].lanes@[q];
                let p = plan.lanes@[plan.bases@[j].first_lane + q];
                &&& plan.bases@[j].first_lane + q < plan.lanes@.len()
                &&& p.min == l.min
                &&& p.max >= l.max && p.max >= l.min
                &&& (p.max == l.max || p.max == l.min)
                &&& p.final_count == l.count
            },
{
    let u = usable_bases(bases);
    assert forall|j: int, q: int| #![trigger u[j].lanes@[q]]
        0 <= j < u.len() && 0 <= q < u[j].lanes@.len() implies {
            let l = u[j].lanes@[q];
            let p = plan.lanes@[plan.bases@[j].first_lane + q];
            &&& plan.bases@[j].first_lane + q < plan.lanes@.len()
            &&& p.min == l.min
            &&& p.max >= l.max && p.max >= l.min
            &&& (p.max == l.max || p.max == l.min)
            &&& p.final_count == l.count
        } by {
        let bp = plan.bases@[j];
        assert(bp.first_lane == total_lanes(u.subrange(0, j)));
        lemma_total_lanes_prefix(u, j);
        lemma_lane_plan_keeps_range(plan.lanes@[total_lanes(u.subrange(0, j)) + q], u[j].lanes@[q], auto_scale);
    }
}

/// Checks the base mints and their lanes and lays out the lane plans: blank
/// mints are skipped; a mint must be a public key with lanes, each with a
/// positive count and not zero at both ends.
#[verifier::loop_isolation(false)]
pub fn plan_blind_lanes(bases: &Vec<BaseLanes>, auto_scale: bool) -> (r: Result<LanePlanSet, StrategyError>)
    ensures
        r.is_ok() == (all_bases_ok(usable_bases(bases@)) && usable_bases(bases@).len() > 0),
        r matches Ok(plan) ==> plan_matches(plan, bases@, auto_scale),
        r matches Err(e) ==> plan_error_matches(e, usable_bases(bases@)),
{
    let mut plan = LanePlanSet { bases: Vec::new(), lanes: Vec::new() };
    assert(bases@.subrange(0, 0) =~= Seq::<BaseLanes>::empty());
    for k in 0..bases.len()
        invariant
            plan_matches(plan, bases@.subrange(0, k as int), auto_scale),
            all_bases_ok(usable_bases(bases@.subrange(0, k as int))),
    {
        let ghost u0 = usable_bases(bases@.subrange(0, k as int));
        proof { lemma_usable_bases_push(bases@, k as int); }
        let base = &bases[k];
        let mint = trim(base.mint.as_str());
        if mint.unicode_len() == 0 {
            assert(usable_bases(bases@.subrange(0, k + 1)) == u0);
        } else {
            let ghost u1 = usable_bases(bases@.subrange(0, k + 1));
            assert(u1 == u0.push(bases@[k as int]));
            let key = match parse_pubkey(mint.as_str()) {
                Some(key) => key,
                None => {
                    proof {
                        lemma_usable_bases_all(bases@, k as int);
                        lemma_first_bad_base(bases@, k as int, StrategyError::InvalidMint(mint));
                    }
                    return Err(StrategyError::InvalidMint(mint));
                },
            };
            if base.lanes.len() == 0 {
                proof {
                    lemma_usable_bases_all(bases@, k as int);
                    lemma_first_bad_base(bases@, k as int, StrategyError::NoLanes(mint));
                }
                return Err(StrategyError::NoLanes(mint));
            }
            let first_lane = plan.lanes.len();
            let ghost old_lanes = plan.lanes@;
            let ghost old_bases = plan.bases@;
            for q in 0..base.lanes.len()
                invariant
                    base == &bases@[k as int],
                    u0 == usable_bases(bases@.subrange(0, k as int)),
                    u1 == u0.push(bases@[k as int]),
                    all_bases_ok(u0),
                    mint@ == trim_spec(base.mint@),
                    pubkey_from_text(mint@) == Some(key@),
                    first_lane == old_lanes.len(),
                    plan.lanes@.len() == first_lane + q,
                    plan.lanes@.subrange(0, first_lane as int) == old_lanes,
                    plan.bases@ == old_bases,
                    forall|p: int| 0 <= p < q ==> lane_ok(#[trigger] base.lanes@[p]),
                    forall|p: int| 0 <= p < q ==> lane_plan_matches(#[trigger] plan.lanes@[first_lane + p], base.lanes@[p], auto_scale),
            {
                let lane = &base.lanes[q];
                if lane.count == 0 {
                    proof {
                        lemma_usable_bases_all(bases@, k as int);
                        assert(base.lanes@[q as int].count == 0);
                        lemma_first_bad_base(bases@, k as int, StrategyError::ZeroLaneCount(mint));
                    }
                    return Err(StrategyError::ZeroLaneCount(mint));
                }
                let min = lane.min;
                let max = if lane.max < min { min } else { lane.max };
                if min == 0 && max == 0 {
                    proof {
                        lemma_usable_bases_all(bases@, k as int);
                        assert(base.lanes@[q as int].max == 0);
                        lemma_first_bad_base(bases@, k as int, StrategyError::ZeroLaneRange(mint));
                    }
                    return Err(StrategyError::ZeroLaneRange(mint));
                }
                let allow_scale = min < max;
                let base_count = lane.count as usize;
                let max_count = if auto_scale && allow_scale {
                    if lane.scaled_count > base_count { lane.scaled_count } else { base_count }
                } else {
                    base_count
                };
                let ghost before = plan.lanes@;
                plan.lanes.push(LanePlan {
                    min,
                    max,
                    strategy: lane.strategy,
                    final_count: base_count,
                    max_count,
                    allow_scale,
                });
                assert(plan.lanes@.subrange(0, first_lane as int) =~= before.subrange(0, first_lane as int));
                assert forall|p: int| 0 <= p < q + 1 implies lane_plan_matches(#[trigger] plan.lanes@[first_lane + p], base.lanes@[p], auto_scale) by {
                    if p < q {
                        assert(plan.lanes@[first_lane + p] == before[first_lane + p]);
                    }
                }
            }
            let lane_count = base.lanes.len();
            plan.bases.push(BasePlan { mint, key, first_lane, lane_count });
            proof {
                lemma_total_lanes_prefix(u1, u0.len() as int);
                assert(u1.subrange(0, u0.len() as int) =~= u0);
                assert(u1.subrange(0, u0.len() as int + 1) =~= u1);
                assert forall|j: int| 0 <= j < u1.len() implies {
                    let bp = #[trigger] plan.bases@[j];
                    &&& bp.mint@ == trim_spec(u1[j].mint@)
                    &&& pubkey_from_text(bp.mint@) == Some(bp.key@)
                    &&& bp.lane_count == u1[j].lanes@.len()
                    &&& bp.first_lane == total_lanes(u1.subrange(0, j))
                } by {
                    if j < u0.len() {
                        assert(u1.subrange(0, j) =~= u0.subrange(0, j));
                        assert(plan.bases@[j] == old_bases[j]);
                    }
                }
                assert forall|j: int, q: int| #![trigger u1[j].lanes@[q]] 0 <= j < u1.len() && 0 <= q < u1[j].lanes@.len()
                    implies lane_plan_matches(plan.lanes@[total_lanes(u1.subrange(0, j)) + q], u1[j].lanes@[q], auto_scale) by {
                    if j < u0.len() {
                        assert(u1.subrange(0, j) =~= u0.subrange(0, j));
                        assert(u0[j].lanes@[q] == u1[j].lanes@[q]);
                        lemma_total_lanes_prefix(u0, j);
                        assert(plan.lanes@[total_lanes(u0.subrange(0, j)) + q] == old_lanes[total_lanes(u0.subrange(0, j)) + q]);
                    }
                }
                assert(forall|p: int| 0 <= p < base.lanes@.len() ==> lane_ok(#[trigger] base.lanes@[p]));
                assert(pubkey_from_text(trim_spec(base.mint@)).is_some());
                assert(base_ok(bases@[k as int]));
                assert(u1.len() == u0.len() + 1);
                assert forall|j: int| 0 <= j < u1.len() implies base_ok(#[trigger] u1[j]) by {
                    if j < u0.len() {
                        assert(u1[j] == u0[j]);
                        assert(base_ok(u0[j]));
                    } else {
                        assert(u1[j] == bases@[k as int]);
                    }
                }
            }
        }
    }
    assert(bases@.subrange(0, bases@.len() as int) =~= bases@);
    assert(usable_bases(bases@.subrange(0, bases@.len() as int)) == usable_bases(bases@));
    if plan.bases.len() == 0 {
        return Err(StrategyError::NoValidBaseMint);
    }
    Ok(plan)
}

/// The sum of a sequence of integers.
pub open spec fn sum_ints(s: Seq<int>) -> int
    decreases s.len(),
{
    if s.len() == 0 {
        0
    } else {
        sum_ints(s.drop_last()) + s.last()
    }
}

proof fn lemma_sum_update(s: Seq<int>, i: int, v: int)
    requires
        0 <= i < s.len(),
    ensures
        sum_ints(s.update(i, v)) == sum_ints(s) - s[i] + v,
    decreases s.len(),
{
    if i < s.len() - 1 {
        lemma_sum_update(s.drop_last(), i, v);
        assert(s.update(i, v).drop_last() =~= s.drop_last().update(i, v));
    } else {
        assert(s.update(i, v).drop_last() =~= s.drop_last());
    }
}

proof fn lemma_sum_nonneg(s: Seq<int>)
    requires
        forall|i: int| 0 <= i < s.len() ==> s[i] >= 0,
    ensures
        sum_ints(s) >= 0,
    decreases s.len(),
{
    if s.len() > 0 {
        lemma_sum_nonneg(s.drop_last());
    }
}

proof fn lemma_sum_zero(s: Seq<int>)
    requires
        forall|i: int| 0 <= i < s.len() ==> s[i] == 0,
    ensures
        sum_ints(s) == 0,
    decreases s.len(),
{
    if s.len() > 0 {
        lemma_sum_zero(s.drop_last());
    }
}

proof fn lemma_sum_positive(s: Seq<int>, i: int)
    requires
        forall|k: int| 0 <= k < s.len() ==> s[k] >= 0,
        0 <= i < s.len(),
        s[i] > 0,
    ensures
        sum_ints(s) > 0,
    decreases s.len(),
{
    lemma_sum_nonneg(s.drop_last());
    if i < s.len() - 1 {
        lemma_sum_positive(s.drop_last(), i);
    }
}

/// The counts the lanes will produce.
pub open spec fn final_counts(lanes: Seq<LanePlan>) -> Seq<int> {
    lanes.map_values(|l: LanePlan| l.final_count as int)
}

/// The counts the lanes may grow to.
pub open spec fn max_counts(lanes: Seq<LanePlan>) -> Seq<int> {
    lanes.map_values(|l: LanePlan| l.max_count as int)
}

/// How much a lane may still grow: only a scalable lane below its maximum grows.
pub open spec fn lane_spare(l: LanePlan) -> int {
    if l.allow_scale && l.final_count < l.max_count {
        l.max_count - l.final_count
    } else {
        0
    }
}

/// How much the lanes may still grow together.
pub open spec fn spare_counts(lanes: Seq<LanePlan>) -> Seq<int> {
    lanes.map_values(|l: LanePlan| lane_spare(l))
}

/// The number of trade sizes to aim for: with auto-scaling and more IPs than
/// sizes, as many as there are IPs, within what the lanes may grow to, and
/// never fewer than configured.
pub open spec fn scale_target_spec(total: int, max_total: int, hint: int, auto_scale: bool) -> int {
    if auto_scale && hint > total {
        let capped = if hint < max_total { hint } else { max_total };
        if capped < total { total } else { capped }
    } else {
        total
    }
}

/// Sums the lanes' counts and works out the number of sizes to aim for.
pub fn scale_target(lanes: &Vec<LanePlan>, ip_capacity_hint: usize, auto_scale: bool) -> (r: usize)
    requires
        sum_ints(final_counts(lanes@)) <= usize::MAX,
        sum_ints(max_counts(lanes@)) <= usize::MAX,
    ensures
        r == scale_target_spec(sum_ints(final_counts(lanes@)), sum_ints(max_counts(lanes@)), ip_capacity_hint as int, auto_scale),
{
    let mut total: usize = 0;
    let mut max_total: usize = 0;
    for i in 0..lanes.len()
        invariant
            sum_ints(final_counts(lanes@)) <= usize::MAX,
            sum_ints(max_counts(lanes@)) <= usize::MAX,
            total == sum_ints(final_counts(lanes@).subrange(0, i as int)),
            max_total == sum_ints(max_counts(lanes@).subrange(0, i as int)),
    {
        proof {
            let f = final_counts(lanes@);
            let m = max_counts(lanes@);
            assert(f.subrange(0, i + 1).drop_last() =~= f.subrange(0, i as int));
            assert(m.subrange(0, i + 1).drop_last() =~= m.subrange(0, i as int));
            lemma_sum_prefix_le(f, i + 1);
            lemma_sum_prefix_le(m, i + 1);
        }
        total = total + lanes[i].final_count;
        max_total = max_total + lanes[i].max_count;
    }
    assert(final_counts(lanes@).subrange(0, lanes@.len() as int) =~= final_counts(lanes@));
    assert(max_counts(lanes@).subrange(0, lanes@.len() as int) =~= max_counts(lanes@));
    if auto_scale && ip_capacity_hint > total {
        let capped = if ip_capacity_hint < max_total { ip_capacity_hint } else { max_total };
        if capped < total { total } else { capped }
    } else {
        total
    }
}

proof fn lemma_sum_prefix_le(s: Seq<int>, k: int)
    requires
        0 <= k <= s.len(),
        forall|i: int| 0 <= i < s.len() ==> s[i] >= 0,
    ensures
        sum_ints(s.subrange(0, k)) <= sum_ints(s),
    decreases s.len() - k,
{
    if k < s.len() {
        lemma_sum_prefix_le(s, k + 1);
        assert(s.subrange(0, k + 1).drop_last() =~= s.subrange(0, k));
    } else {
        assert(s.subrange(0, k) =~= s);
    }
}

fn total_final(lanes: &Vec<LanePlan>) -> (t: usize)
    requires
        sum_ints(final_counts(lanes@)) <= usize::MAX,
    ensures
        t == sum_ints(final_counts(lanes@)),
{
    let mut total: usize = 0;
    for i in 0..lanes.len()
        invariant
            sum_ints(final_counts(lanes@)) <= usize::MAX,
            total == sum_ints(final_counts(lanes@).subrange(0, i as int)),
    {
        proof {
            let f = final_counts(lanes@);
            assert(f.subrange(0, i + 1).drop_last() =~= f.subrange(0, i as int));
            lemma_sum_prefix_le(f, i + 1);
        }
        total = total + lanes[i].final_count;
    }
    assert(final_counts(lanes@).subrange(0, lanes@.len() as int) =~= final_counts(lanes@));
    total
}

/// The sum of the lanes' final counts (or of their maxima), when it fits a `usize`.
fn checked_lane_total(lanes: &Vec<LanePlan>, of_max: bool) -> (t: Option<usize>)
    ensures
        ({
            let s = if of_max { max_counts(lanes@) } else { final_counts(lanes@) };
            match t {
                Some(v) => v == sum_ints(s),
                None => sum_ints(s) > usize::MAX,
            }
        }),
{
    let ghost s = if of_max { max_counts(lanes@) } else { final_counts(lanes@) };
    let mut total: usize = 0;
    let mut i: usize = 0;
    while i < lanes.len()
        invariant
            i <= lanes@.len(),
            s == (if of_max { max_counts(lanes@) } else { final_counts(lanes@) }),
            total == sum_ints(s.subrange(0, i as int)),
        decreases lanes@.len() - i,
    {
        assert(s.subrange(0, i + 1).drop_last() =~= s.subrange(0, i as int));
        let v = if of_max { lanes[i].max_count } else { lanes[i].final_count };
        match total.checked_add(v) {
            Some(t) => {
                total = t;
            },
            None => {
                proof {
                    lemma_sum_prefix_le(s, i + 1);
                }
                return None;
            },
        }
        i = i + 1;
    }
    assert(s.subrange(0, lanes@.len() as int) =~= s);
    Some(total)
}

/// The number of sizes auto-scaling aims at, when it grows the plan at all:
/// auto-scaling is on, the totals fit a `usize`, there are more request
/// slots than sizes, and the target lies above the current total.
pub fn scaling_target(lanes: &Vec<LanePlan>, ip_capacity_hint: usize, auto_scale: bool) -> (r: Option<usize>)
    ensures
        ({
            let total = sum_ints(final_counts(lanes@));
            let max_total = sum_ints(max_counts(lanes@));
            let grows = auto_scale && total <= usize::MAX && max_total <= usize::MAX && ip_capacity_hint > total
                && scale_target_spec(total, max_total, ip_capacity_hint as int, true) > total;
            match r {
                Some(t) => grows && t == scale_target_spec(total, max_total, ip_capacity_hint as int, true),
                None => !grows,
            }
        }),
{
    if !auto_scale {
        return None;
    }
    let total = match checked_lane_total(lanes, false) {
        Some(t) => t,
        None => return None,
    };
    if checked_lane_total(lanes, true).is_none() || ip_capacity_hint <= total {
        return None;
    }
    let target = scale_target(lanes, ip_capacity_hint, auto_scale);
    if target > total { Some(target) } else { None }
}

/// After the weighted share, hands out what is still missing one size at a
/// time; a plan already at or above the target, or whose total does not fit
/// a `usize`, is left as it is.
pub fn complete_scaling(lanes: &mut Vec<LanePlan>, target: usize)
    ensures
        ({
            let total = sum_ints(final_counts(old(lanes)@));
            if total < target {
                &&& grown_from(final(lanes)@, old(lanes)@)
                &&& sum_ints(final_counts(final(lanes)@)) == if target - total < sum_ints(spare_counts(old(lanes)@)) {
                    target as int
                } else {
                    total + sum_ints(spare_counts(old(lanes)@))
                }
            } else {
                final(lanes)@ == old(lanes)@
            }
        }),
{
    match checked_lane_total(lanes, false) {
        Some(t) => if t < target {
            top_up_round_robin(lanes, target);
        },
        None => {},
    }
}

/// The lanes are the same except for their counts, which only grew, and only
/// where a lane was scalable and below its maximum, never beyond it.
pub open spec fn grown_from(new: Seq<LanePlan>, old: Seq<LanePlan>) -> bool {
    &&& new.len() == old.len()
    &&& forall|i: int| 0 <= i < old.len() ==> {
            let a = #[trigger] old[i];
            let b = new[i];
            &&& b.min == a.min && b.max == a.max && b.strategy == a.strategy
            &&& b.max_count == a.max_count && b.allow_scale == a.allow_scale
            &&& a.final_count <= b.final_count
            &&& b.final_count - a.final_count <= lane_spare(a)
        }
}

proof fn lemma_grown_transitive(a: Seq<LanePlan>, b: Seq<LanePlan>, c: Seq<LanePlan>)
    requires
        grown_from(b, a),
        grown_from(c, b),
    ensures
        grown_from(c, a),
{
    assert forall|i: int| 0 <= i < a.len() implies c[i].final_count - a[i].final_count <= lane_spare(a[i]) by {
        assert(b[i].final_count - a[i].final_count <= lane_spare(a[i]));
        assert(c[i].final_count - b[i].final_count <= lane_spare(b[i]));
    }
}

/// Hands out the missing sizes one at a time, lane after lane in order and
/// round after round, to scalable lanes that are below their maximum, until
/// the target is met or no lane can take more.
pub fn top_up_round_robin(lanes: &mut Vec<LanePlan>, target: usize)
    requires
        sum_ints(final_counts(old(lanes)@)) <= target,
    ensures
        grown_from(final(lanes)@, old(lanes)@),
        sum_ints(final_counts(final(lanes)@)) == if target - sum_ints(final_counts(old(lanes)@)) < sum_ints(spare_counts(old(lanes)@)) {
            target as int
        } else {
            sum_ints(final_counts(old(lanes)@)) + sum_ints(spare_counts(old(lanes)@))
        },
{
    let ghost start = lanes@;
    proof {
        assert(grown_from(lanes@, start));
        lemma_sum_nonneg(spare_counts(start));
    }
    let n = lanes.len();
    let current = total_final(lanes);
    let mut remaining: usize = target - current;
    let ghost mut total: int = sum_ints(final_counts(lanes@));
    loop
        invariant_except_break
            n == lanes@.len(),
            grown_from(lanes@, start),
            total == sum_ints(final_counts(lanes@)),
            remaining == target - total,
            sum_ints(spare_counts(lanes@)) == sum_ints(spare_counts(start)) - (total - sum_ints(final_counts(start))),
            forall|i: int| 0 <= i < n ==> lane_spare(#[trigger] lanes@[i]) >= 0,
        ensures
            grown_from(lanes@, start),
            total == sum_ints(final_counts(lanes@)),
            remaining == target - total,
            sum_ints(spare_counts(lanes@)) == sum_ints(spare_counts(start)) - (total - sum_ints(final_counts(start))),
            remaining == 0 || sum_ints(spare_counts(lanes@)) == 0,
        decreases sum_ints(spare_counts(lanes@)),
    {
        if remaining == 0 {
            break;
        }
        let mut progressed = false;
        let ghost spare_before = sum_ints(spare_counts(lanes@));
        let mut i: usize = 0;
        while i < n && remaining > 0
            invariant
                n == lanes@.len(),
                i <= n,
                grown_from(lanes@, start),
                total == sum_ints(final_counts(lanes@)),
                remaining == target - total,
                sum_ints(spare_counts(lanes@)) == sum_ints(spare_counts(start)) - (total - sum_ints(final_counts(start))),
                progressed ==> sum_ints(spare_counts(lanes@)) < spare_before,
                !progressed ==> sum_ints(spare_counts(lanes@)) == spare_before,
                !progressed ==> forall|k: int| 0 <= k < i ==> lane_spare(#[trigger] lanes@[k]) == 0,
            decreases n - i,
        {
            let lane = &lanes[i];
            if lane.allow_scale && lane.final_count < lane.max_count {
                let ghost before = lanes@;
                let updated = LanePlan {
                    min: lane.min,
                    max: lane.max,
                    strategy: lane.strategy,
                    final_count: lane.final_count + 1,
                    max_count: lane.max_count,
                    allow_scale: lane.allow_scale,
                };
                lanes.set(i, updated);
                proof {
                    assert(final_counts(lanes@) =~= final_counts(before).update(i as int, before[i as int].final_count + 1));
                    lemma_sum_update(final_counts(before), i as int, before[i as int].final_count + 1);
                    assert(spare_counts(lanes@) =~= spare_counts(before).update(i as int, lane_spare(before[i as int]) - 1));
                    lemma_sum_update(spare_counts(before), i as int, lane_spare(before[i as int]) - 1);
                    assert(grown_from(lanes@, before));
                    lemma_grown_transitive(start, before, lanes@);
                    total = total + 1;
                }
                remaining = remaining - 1;
                progressed = true;
            }
            i = i + 1;
        }
        proof {
            lemma_sum_nonneg(spare_counts(lanes@));
        }
        if !progressed {
            proof {
                if remaining > 0 {
                    assert(i == n);
                    lemma_sum_zero(spare_counts(lanes@));
                }
            }
            break;
        }
    }
    proof {
        lemma_sum_nonneg(spare_counts(lanes@));
    }
}

/// Adds the positive values to a sorted set of sizes, as a `BTreeSet<u64>` collects them.
pub fn collect_positive(set: &mut Vec<u64>, values: &Vec<u64>)
    requires
        u64_sorted(old(set)@),
    ensures
        u64_sorted(final(set)@),
        final(set)@.to_set() == old(set)@.to_set().union(values@.to_set().filter(|v: u64| v > 0)),
{
    for i in 0..values.len()
        invariant
            u64_sorted(set@),
            set@.to_set() == old(set)@.to_set().union(values@.subrange(0, i as int).to_set().filter(|v: u64| v > 0)),
    {
        let ghost before = set@.to_set();
        if values[i] > 0 {
            insert_sorted_u64(set, values[i]);
        }
        proof {
            let pre = values@.subrange(0, i + 1);
            let old_pre = values@.subrange(0, i as int);
            assert(pre =~= old_pre.push(values@[i as int]));
            assert(pre.to_set() =~= old_pre.to_set().insert(values@[i as int])) by {
                assert forall|x: u64| pre.to_set().contains(x) <==> old_pre.to_set().insert(values@[i as int]).contains(x) by {
                    if pre.to_set().contains(x) {
                        let k = choose|k: int| 0 <= k < pre.len() && #[trigger] pre[k] == x;
                        if k < i {
                            assert(old_pre[k] == x);
                        }
                    }
                    if old_pre.to_set().contains(x) {
                        let k = choose|k: int| 0 <= k < old_pre.len() && #[trigger] old_pre[k] == x;
                        assert(pre[k] == x);
                    }
                    if x == values@[i as int] {
                        assert(pre[i as int] == x);
                    }
                }
            }
        }
        assert(set@.to_set() =~= old(set)@.to_set().union(values@.subrange(0, i + 1).to_set().filter(|v: u64| v > 0)));
    }
    assert(values@.subrange(0, values@.len() as int) =~= values@);
}

/// An amount shaved to `bps` thousandths, rounded up and never below one.
pub open spec fn tweak_spec(amount: u64, bps: u16) -> u64 {
    let adjusted = (amount as int * bps as int + 999) / 1000;
    if adjusted < 1 {
        1
    } else if adjusted > u64::MAX {
        u64::MAX
    } else {
        adjusted as u64
    }
}

/// Shaves an amount to `bps` thousandths, rounding up, never below one.
pub fn tweak_amount(amount: u64, bps: u16) -> (r: u64)
    requires
        bps < 1000,
    ensures
        r == tweak_spec(amount, bps),
        r <= amount || amount == 0,
{
    assert((amount as int) * (bps as int) <= 0xffff_ffff_ffff_ffffu64 as int * 1000) by (nonlinear_arith)
        requires bps < 1000, amount <= 0xffff_ffff_ffff_ffffu64;
    let product: u128 = (amount as u128) * (bps as u128);
    let adjusted: u128 = (product + 999) / 1000;
    proof {
        assert((amount as int) * (bps as int) <= (amount as int) * 999) by (nonlinear_arith)
            requires bps < 1000;
        assert(adjusted <= amount as int || amount == 0) by (nonlinear_arith)
            requires
                adjusted == ((amount as int) * (bps as int) + 999) / 1000,
                (amount as int) * (bps as int) <= (amount as int) * 999;
    }
    if adjusted < 1 {
        1
    } else if adjusted > u64::MAX as u128 {
        u64::MAX
    } else {
        adjusted as u64
    }
}

/// The fewest thousandths a size keeps when it is shaved.
pub const SHAVE_MIN_PER_MILLE: u16 = 930;
/// The most thousandths a size keeps when it is shaved.
pub const SHAVE_MAX_PER_MILLE: u16 = 999;

/// Draws a number from `low` to `high`, both included, with
/// `rand::rng().random_range`, which panics on an empty range. Trusted for
/// the range only: the number is random.
#[verifier::external_body]
fn random_in_range(low: u16, high: u16) -> (r: u16)
    requires
        low <= high,
    ensures
        low <= r <= high,
{
    rand::rng().random_range(low..=high)
}

/// The shaved sizes, each amount with its own number of thousandths, as a sorted set.
pub fn tweak_amounts_with(amounts: &Vec<u64>, bps: &Vec<u16>) -> (r: Vec<u64>)
    requires
        amounts@.len() == bps@.len(),
        forall|i: int| 0 <= i < bps@.len() ==> #[trigger] bps@[i] < 1000,
    ensures
        u64_sorted(r@),
        forall|x: u64| r@.contains(x) <==> exists|i: int| 0 <= i < amounts@.len() && x == #[trigger] tweak_spec(amounts@[i], bps@[i]),
{
    let mut out: Vec<u64> = Vec::new();
    for i in 0..amounts.len()
        invariant
            amounts@.len() == bps@.len(),
            forall|i: int| 0 <= i < bps@.len() ==> #[trigger] bps@[i] < 1000,
            u64_sorted(out@),
            forall|x: u64| out@.to_set().contains(x) <==> exists|k: int| 0 <= k < i && x == #[trigger] tweak_spec(amounts@[k], bps@[k]),
    {
        let t = tweak_amount(amounts[i], bps[i]);
        insert_sorted_u64(&mut out, t);
        assert forall|x: u64| out@.to_set().contains(x) <==> exists|k: int| 0 <= k < i + 1 && x == #[trigger] tweak_spec(amounts@[k], bps@[k]) by {
            if x == t {
                assert(x == tweak_spec(amounts@[i as int], bps@[i as int]));
            }
        }
    }
    assert forall|x: u64| out@.contains(x) <==> out@.to_set().contains(x) by {}
    out
}

/// `r` holds the sizes shaved with one draw of 930 to 999 thousandths per amount.
pub open spec fn tweaked_with(r: Seq<u64>, amounts: Seq<u64>, bps: Seq<u16>) -> bool {
    &&& bps.len() == amounts.len()
    &&& forall|i: int| 0 <= i < bps.len() ==> 930 <= #[trigger] bps[i] <= 999
    &&& forall|x: u64| r.contains(x) <==> exists|i: int| 0 <= i < amounts.len() && x == #[trigger] tweak_spec(amounts[i], bps[i])
}

/// Shaves every size by a random 0.1% to 7%, as the engine varies its sizes:
/// each amount with its own draw of 930 to 999 thousandths.
pub fn tweak_amounts(amounts: &Vec<u64>) -> (r: Vec<u64>)
    ensures
        u64_sorted(r@),
        exists|bps: Seq<u16>| #[trigger] tweaked_with(r@, amounts@, bps),
{
    let mut bps: Vec<u16> = Vec::new();
    for i in 0..amounts.len()
        invariant
            bps@.len() == i,
            forall|k: int| 0 <= k < i ==> 930 <= #[trigger] bps@[k] <= 999,
    {
        bps.push(random_in_range(SHAVE_MIN_PER_MILLE, SHAVE_MAX_PER_MILLE));
    }
    let r = tweak_amounts_with(amounts, &bps);
    assert(tweaked_with(r@, amounts@, bps@));
    r
}

/// The sizes traded from one base mint.
pub struct TradeProfile {
    pub mint: String,
    pub key: Vec<u8>,
    pub amounts: Vec<u64>,
}

/// The keys of profiles.
pub open spec fn profile_keys(v: Seq<TradeProfile>) -> Seq<Seq<u8>> {
    v.map_values(|p: TradeProfile| p.key@)
}

/// Strictly increasing keys, as a `BTreeMap` keyed by public key keeps them.
pub open spec fn keys_sorted(s: Seq<Seq<u8>>) -> bool {
    forall|i: int, j: int| 0 <= i < j < s.len() ==> bytes_lt(#[trigger] s[i], #[trigger] s[j])
}

/// Adds a profile under its key, or reports that the key is taken.
pub fn insert_profile(profiles: &mut Vec<TradeProfile>, profile: TradeProfile) -> (inserted: bool)
    requires
        keys_sorted(profile_keys(old(profiles)@)),
    ensures
        keys_sorted(profile_keys(final(profiles)@)),
        inserted == !profile_keys(old(profiles)@).contains(profile.key@),
        inserted ==> final(profiles)@.to_set() == old(profiles)@.to_set().insert(profile),
        !inserted ==> final(profiles)@ == old(profiles)@,
{
    let n = profiles.len();
    let mut i: usize = 0;
    while i < n
        invariant
            n == profiles@.len(),
            i <= n,
            profiles@ == old(profiles)@,
            keys_sorted(profile_keys(profiles@)),
            forall|k: int| 0 <= k < i ==> bytes_lt(#[trigger] profile_keys(profiles@)[k], profile.key@),
        ensures
            i <= n,
            profiles@ == old(profiles)@,
            forall|k: int| 0 <= k < i ==> bytes_lt(#[trigger] profile_keys(profiles@)[k], profile.key@),
            i < n ==> bytes_lt(profile.key@, profile_keys(profiles@)[i as int]) || profile_keys(profiles@)[i as int] == profile.key@,
        decreases n - i,
    {
        let r = compare_bytes(&profiles[i].key, &profile.key);
        assert(profile_keys(profiles@)[i as int] == profiles@[i as int].key@);
        match r {
            Rel::Less => {
                i = i + 1;
            },
            _ => {
                proof {
                    lemma_bytes_lt_order(profiles@[i as int].key@, profile.key@, profile.key@);
                }
                break;
            },
        }
    }
    let ghost keys = profile_keys(profiles@);
    if i < n && compare_bytes(&profiles[i].key, &profile.key) == Rel::Equal {
        assert(keys[i as int] == profile.key@);
        return false;
    }
    proof {
        assert forall|k: int| 0 <= k < n implies keys[k] != profile.key@ by {
            if k < i {
                lemma_bytes_lt_order(keys[k], profile.key@, profile.key@);
            } else {
                assert(bytes_lt(profile.key@, keys[i as int]));
                if k > i {
                    assert(bytes_lt(keys[i as int], keys[k]));
                    lemma_bytes_lt_order(profile.key@, keys[i as int], keys[k]);
                }
                lemma_bytes_lt_order(profile.key@, keys[k], profile.key@);
            }
        }
    }
    let ghost before = profiles@;
    let ghost pk = profile.key@;
    profiles.insert(i, profile);
    proof {
        let after = profile_keys(profiles@);
        assert(after =~= keys.insert(i as int, pk));
        assert forall|p: int, q: int| 0 <= p < q < after.len() implies bytes_lt(#[trigger] after[p], #[trigger] after[q]) by {
            if q == i {
                assert(after[p] == keys[p]);
            } else if p == i {
                assert(after[q] == keys[q - 1]);
                if q - 1 > i {
                    assert(bytes_lt(keys[i as int], keys[q - 1]));
                    lemma_bytes_lt_order(pk, keys[i as int], keys[q - 1]);
                }
            } else if p < i && q > i {
                assert(after[p] == keys[p]);
                assert(after[q] == keys[q - 1]);
            } else if p > i {
                assert(after[p] == keys[p - 1]);
                assert(after[q] == keys[q - 1]);
            } else {
                assert(after[p] == keys[p]);
                assert(after[q] == keys[q]);
            }
        }
        assert(profiles@ =~= before.insert(i as int, profiles@[i as int]));
        assert forall|e: TradeProfile| profiles@.to_set().contains(e) <==> before.to_set().insert(profiles@[i as int]).contains(e) by {
            if profiles@.to_set().contains(e) {
                let k = choose|k: int| 0 <= k < profiles@.len() && profiles@[k] == e;
                if k < i {
                    assert(before[k] == e);
                } else if k > i {
                    assert(before[k - 1] == e);
                }
            }
            if before.to_set().contains(e) {
                let k = choose|k: int| 0 <= k < before.len() && before[k] == e;
                if k < i {
                    assert(profiles@[k] == e);
                } else {
                    assert(profiles@[k + 1] == e);
                }
            }
        }
        assert(profiles@.to_set() =~= before.to_set().insert(profiles@[i as int]));
    }
    true
}

/// No two candidates with sizes share a key.
pub open spec fn distinct_sized_keys(c: Seq<TradeProfile>) -> bool {
    forall|i: int, j: int| 0 <= i < j < c.len() && (#[trigger] c[i]).amounts@.len() > 0
        && (#[trigger] c[j]).amounts@.len() > 0 ==> c[i].key@ != c[j].key@
}

/// Extending the taken prefix by one candidate: the sized candidates of the
/// longer prefix are those of the shorter one, plus the new one if it has sizes.
proof fn lemma_prefix_sized_set(all: Seq<TradeProfile>, taken: int, out: Set<TradeProfile>)
    requires
        0 <= taken < all.len(),
        out == all.subrange(0, taken).to_set().filter(|p: TradeProfile| p.amounts@.len() > 0)
            || (all[taken].amounts@.len() > 0 && out == all.subrange(0, taken).to_set().filter(|p: TradeProfile| p.amounts@.len() > 0).insert(all[taken])),
        all[taken].amounts@.len() > 0 ==> out.contains(all[taken]),
        all[taken].amounts@.len() == 0 ==> out == all.subrange(0, taken).to_set().filter(|p: TradeProfile| p.amounts@.len() > 0),
    ensures
        out == all.subrange(0, taken + 1).to_set().filter(|p: TradeProfile| p.amounts@.len() > 0),
{
    let prefix = all.subrange(0, taken + 1);
    let before = all.subrange(0, taken);
    assert(prefix =~= before.push(all[taken]));
    assert forall|e: TradeProfile| out.contains(e) <==> prefix.to_set().filter(|p: TradeProfile| p.amounts@.len() > 0).contains(e) by {
        if prefix.to_set().contains(e) {
            let i = choose|i: int| 0 <= i < prefix.len() && prefix[i] == e;
            if i < taken {
                assert(before[i] == e);
            }
        }
        if before.to_set().contains(e) {
            let i = choose|i: int| 0 <= i < taken && before[i] == e;
            assert(prefix[i] == e);
        }
        if e == all[taken] {
            assert(prefix[taken] == e);
        }
    }
    assert(out =~= prefix.to_set().filter(|p: TradeProfile| p.amounts@.len() > 0));
}

/// Collects the profiles of the base mints, keyed and ordered by public key:
/// mints without sizes are left out; the same mint twice, or no sizes at all,
/// is refused.
pub fn assemble_profiles(candidates: Vec<TradeProfile>) -> (r: Result<Vec<TradeProfile>, StrategyError>)
    ensures
        match r {
            Ok(v) => keys_sorted(profile_keys(v@)) && v@.len() > 0
                && v@.to_set() == candidates@.to_set().filter(|p: TradeProfile| p.amounts@.len() > 0)
                && distinct_sized_keys(candidates@),
            Err(StrategyError::DuplicateBaseMint(m)) => exists|i: int, j: int|
                0 <= i < j < candidates@.len() && (#[trigger] candidates@[i]).amounts@.len() > 0
                && (#[trigger] candidates@[j]).amounts@.len() > 0 && candidates@[i].key@ == candidates@[j].key@
                && candidates@[j].mint@ == m@,
            Err(StrategyError::NoTradeSize) => forall|i: int| 0 <= i < candidates@.len() ==> (#[trigger] candidates@[i]).amounts@.len() == 0,
            Err(_) => false,
        },
{
    let mut out: Vec<TradeProfile> = Vec::new();
    let total_len = candidates.len();
    let ghost all = candidates@;
    let mut rest = candidates;
    let mut taken: usize = 0;
    while rest.len() > 0
        invariant
            all == candidates@,
            all.len() == total_len,
            rest@ == all.subrange(taken as int, all.len() as int),
            taken <= all.len(),
            keys_sorted(profile_keys(out@)),
            out@.to_set() == all.subrange(0, taken as int).to_set().filter(|p: TradeProfile| p.amounts@.len() > 0),
            forall|k: int| 0 <= k < out@.len() ==> (#[trigger] out@[k]).amounts@.len() > 0,
            forall|k: int| 0 <= k < out@.len() ==> exists|i: int| 0 <= i < taken && #[trigger] all[i] == #[trigger] out@[k],
            distinct_sized_keys(all.subrange(0, taken as int)),
        decreases rest@.len(),
    {
        let c = rest.remove(0);
        assert(c == all[taken as int]);
        assert(rest@ =~= all.subrange(taken + 1, all.len() as int));
        let ghost prefix = all.subrange(0, taken + 1);
        assert(prefix =~= all.subrange(0, taken as int).push(c));
        if c.amounts.len() > 0 {
            let ghost ckey = c.key@;
            let ghost cval = c;
            let mint = c.mint.clone();
            let ghost before_out = out@;
            if !insert_profile(&mut out, c) {
                proof {
                    let k = choose|k: int| 0 <= k < profile_keys(before_out).len() && profile_keys(before_out)[k] == ckey;
                    let i = choose|i: int| 0 <= i < taken && #[trigger] all[i] == before_out[k];
                    assert(all[i].amounts@.len() > 0);
                    assert(all[taken as int] == cval);
                }
                return Err(StrategyError::DuplicateBaseMint(mint));
            }
            proof {
                assert(out@.to_set().contains(cval)) by {
                    assert(out@.to_set() == before_out.to_set().insert(cval));
                }
                lemma_prefix_sized_set(all, taken as int, out@.to_set());
                assert forall|i: int, j: int| 0 <= i < j < prefix.len() && (#[trigger] prefix[i]).amounts@.len() > 0
                    && (#[trigger] prefix[j]).amounts@.len() > 0 implies prefix[i].key@ != prefix[j].key@ by {
                    if j < taken {
                        assert(all.subrange(0, taken as int)[i] == prefix[i]);
                        assert(all.subrange(0, taken as int)[j] == prefix[j]);
                    } else {
                        assert(prefix[j] == cval);
                        assert(all.subrange(0, taken as int)[i] == prefix[i]);
                        assert(all.subrange(0, taken as int).to_set().contains(prefix[i]));
                        assert(before_out.to_set().contains(prefix[i]));
                        let k = choose|k: int| 0 <= k < before_out.len() && before_out[k] == prefix[i];
                        assert(profile_keys(before_out)[k] == prefix[i].key@);
                    }
                }
                assert forall|k: int| 0 <= k < out@.len() implies (#[trigger] out@[k]).amounts@.len() > 0 by {
                    assert(out@.to_set().contains(out@[k]));
                    if before_out.to_set().contains(out@[k]) {
                        let j = choose|j: int| 0 <= j < before_out.len() && before_out[j] == out@[k];
                    }
                }
                assert forall|k: int| 0 <= k < out@.len() implies exists|i: int| 0 <= i < taken + 1 && #[trigger] all[i] == #[trigger] out@[k] by {
                    assert(out@.to_set().contains(out@[k]));
                    if out@[k] == cval {
                        assert(all[taken as int] == out@[k]);
                    } else {
                        assert(before_out.to_set().contains(out@[k]));
                        let j = choose|j: int| 0 <= j < before_out.len() && before_out[j] == out@[k];
                        let i = choose|i: int| 0 <= i < taken && #[trigger] all[i] == before_out[j];
                    }
                }
            }
        } else {
            proof {
                lemma_prefix_sized_set(all, taken as int, out@.to_set());
                assert forall|i: int, j: int| 0 <= i < j < prefix.len() && (#[trigger] prefix[i]).amounts@.len() > 0
                    && (#[trigger] prefix[j]).amounts@.len() > 0 implies prefix[i].key@ != prefix[j].key@ by {
                    assert(all.subrange(0, taken as int)[i] == prefix[i]);
                    assert(all.subrange(0, taken as int)[j] == prefix[j]);
                }
            }
        }
        taken = taken + 1;
    }
    assert(all.subrange(0, all.len() as int) =~= all);
    if out.len() == 0 {
        proof {
            assert forall|i: int| 0 <= i < all.len() implies (#[trigger] all[i]).amounts@.len() == 0 by {
                if all[i].amounts@.len() > 0 {
                    assert(all.to_set().contains(all[i]));
                    assert(out@.to_set().contains(all[i]));
                }
            }
        }
        return Err(StrategyError::NoTradeSize);
    }
    Ok(out)
}

/// The positive sizes of `n` lanes starting at `first`, as a set.
pub open spec fn lanes_union(amounts: Seq<Vec<u64>>, first: int, n: nat) -> Set<u64>
    decreases n,
{
    if n == 0 {
        Set::<u64>::empty()
    } else {
        lanes_union(amounts, first, (n - 1) as nat).union(amounts[first + n - 1]@.to_set().filter(|v: u64| v > 0))
    }
}

/// The positive sizes that the lanes of base mint `j` produce.
pub open spec fn base_sizes(plan: LanePlanSet, amounts: Seq<Vec<u64>>, j: int) -> Set<u64> {
    lanes_union(amounts, plan.bases@[j].first_lane as int, plan.bases@[j].lane_count as nat)
}

/// Base mint `j` has at least one size.
pub open spec fn has_sizes(plan: LanePlanSet, amounts: Seq<Vec<u64>>, j: int) -> bool {
    base_sizes(plan, amounts, j) != Set::<u64>::empty()
}

/// `p` is the profile of base mint `j`: its mint, its key, and its sizes, in
/// order and shaved by a draw per size.
pub open spec fn profile_of_base(p: TradeProfile, plan: LanePlanSet, amounts: Seq<Vec<u64>>, j: int) -> bool {
    &&& p.mint@ == plan.bases@[j].mint@
    &&& p.key@ == plan.bases@[j].key@
    &&& exists|s: Seq<u64>, bps: Seq<u16>|
            u64_sorted(s) && s.to_set() == base_sizes(plan, amounts, j) && #[trigger] tweaked_with(p.amounts@, s, bps)
}

/// `p` is the profile of some base mint of `plan` that has sizes.
pub open spec fn from_base_with_sizes(p: TradeProfile, plan: LanePlanSet, amounts: Seq<Vec<u64>>) -> bool {
    exists|j: int| 0 <= j < plan.bases@.len() && has_sizes(plan, amounts, j) && #[trigger] profile_of_base(p, plan, amounts, j)
}

/// `v` holds, keyed and ordered by public key, exactly the profiles of the
/// base mints of `plan` that have sizes, and at least one.
pub open spec fn profiles_of_plan(v: Seq<TradeProfile>, plan: LanePlanSet, amounts: Seq<Vec<u64>>) -> bool {
    &&& keys_sorted(profile_keys(v))
    &&& v.len() > 0
    &&& forall|k: int| 0 <= k < v.len() ==> #[trigger] from_base_with_sizes(v[k], plan, amounts)
    &&& forall|j: int| 0 <= j < plan.bases@.len() && #[trigger] has_sizes(plan, amounts, j)
            ==> exists|k: int| 0 <= k < v.len() && profile_of_base(#[trigger] v[k], plan, amounts, j)
}

/// The lanes of every base mint lie within the lane plans.
pub open spec fn plan_indexes_ok(plan: LanePlanSet, lane_count: nat) -> bool {
    forall|j: int| 0 <= j < plan.bases@.len() ==>
        (#[trigger] plan.bases@[j]).first_lane + plan.bases@[j].lane_count <= lane_count
}

/// Shaving keeps a list of sizes empty or not empty.
proof fn lemma_tweaked_nonempty(r: Seq<u64>, s: Seq<u64>, bps: Seq<u16>)
    requires
        tweaked_with(r, s, bps),
    ensures
        r.len() > 0 <==> s.len() > 0,
        s.len() > 0 <==> s.to_set() != Set::<u64>::empty(),
{
    if s.len() > 0 {
        let x = tweak_spec(s[0], bps[0]);
        assert(r.contains(x));
        assert(s.to_set().contains(s[0]));
    } else {
        assert(s.to_set() =~= Set::<u64>::empty());
        if r.len() > 0 {
            assert(r.contains(r[0]));
        }
    }
}

/// The profiles kept from the candidates, one per base mint, are the
/// profiles of the base mints that have sizes.
proof fn lemma_assembled_profiles(v: Seq<TradeProfile>, cands: Seq<TradeProfile>, plan: LanePlanSet, amounts: Seq<Vec<u64>>)
    requires
        cands.len() == plan.bases@.len(),
        forall|k: int| 0 <= k < cands.len() ==> #[trigger] profile_of_base(cands[k], plan, amounts, k),
        forall|k: int| 0 <= k < cands.len() ==> ((#[trigger] cands[k]).amounts@.len() > 0 <==> has_sizes(plan, amounts, k)),
        keys_sorted(profile_keys(v)),
        v.len() > 0,
        v.to_set() == cands.to_set().filter(|p: TradeProfile| p.amounts@.len() > 0),
    ensures
        profiles_of_plan(v, plan, amounts),
{
    assert forall|k: int| 0 <= k < v.len() implies #[trigger] from_base_with_sizes(v[k], plan, amounts) by {
        assert(v.to_set().contains(v[k]));
        assert(cands.to_set().contains(v[k]));
        let i = choose|i: int| 0 <= i < cands.len() && cands[i] == v[k];
        assert(profile_of_base(cands[i], plan, amounts, i));
        assert(cands[i].amounts@.len() > 0);
    }
    assert forall|j: int| 0 <= j < plan.bases@.len() && #[trigger] has_sizes(plan, amounts, j)
        implies exists|k: int| 0 <= k < v.len() && profile_of_base(#[trigger] v[k], plan, amounts, j) by {
        assert(cands[j].amounts@.len() > 0);
        assert(cands.to_set().contains(cands[j]));
        assert(v.to_set().contains(cands[j]));
        let k = choose|k: int| 0 <= k < v.len() && v[k] == cands[j];
        assert(profile_of_base(cands[j], plan, amounts, j));
    }
}

/// The sizes of the base mints of a lane plan, given the sizes each lane
/// produced: per base mint the positive sizes of its lanes, shaved; mints
/// without sizes are left out, the same mint twice, or no sizes at all, is refused.
pub fn build_blind_trade_profiles(plan: &LanePlanSet, lane_amounts: &Vec<Vec<u64>>) -> (r: Result<Vec<TradeProfile>, StrategyError>)
    requires
        lane_amounts@.len() == plan.lanes@.len(),
        plan_indexes_ok(*plan, plan.lanes@.len()),
    ensures
        match r {
            Ok(v) => profiles_of_plan(v@, *plan, lane_amounts@)
                && forall|i: int, j: int| 0 <= i < j < plan.bases@.len() && #[trigger] has_sizes(*plan, lane_amounts@, i)
                    && #[trigger] has_sizes(*plan, lane_amounts@, j) ==> plan.bases@[i].key@ != plan.bases@[j].key@,
            Err(StrategyError::DuplicateBaseMint(m)) => exists|i: int, j: int|
                0 <= i < j < plan.bases@.len() && #[trigger] has_sizes(*plan, lane_amounts@, i)
                && #[trigger] has_sizes(*plan, lane_amounts@, j)
                && plan.bases@[i].key@ == plan.bases@[j].key@ && plan.bases@[j].mint@ == m@,
            Err(StrategyError::NoTradeSize) => forall|j: int| 0 <= j < plan.bases@.len() ==> !#[trigger] has_sizes(*plan, lane_amounts@, j),
            Err(_) => false,
        },
{
    let mut candidates: Vec<TradeProfile> = Vec::new();
    let n = plan.bases.len();
    for j in 0..n
        invariant
            n == plan.bases@.len(),
            lane_amounts@.len() == plan.lanes@.len(),
            plan_indexes_ok(*plan, plan.lanes@.len()),
            candidates@.len() == j,
            forall|k: int| 0 <= k < j ==> #[trigger] profile_of_base(candidates@[k], *plan, lane_amounts@, k),
            forall|k: int| 0 <= k < j ==> ((#[trigger] candidates@[k]).amounts@.len() > 0 <==> has_sizes(*plan, lane_amounts@, k)),
    {
        let b = &plan.bases[j];
        assert(b.first_lane + b.lane_count <= lane_amounts@.len());
        let mut set: Vec<u64> = Vec::new();
        let first = b.first_lane;
        let count = b.lane_count;
        let mut q: usize = 0;
        while q < count
            invariant
                first + count <= lane_amounts.len(),
                q <= count,
                u64_sorted(set@),
                set@.to_set() == lanes_union(lane_amounts@, first as int, q as nat),
            decreases count - q,
        {
            collect_positive(&mut set, &lane_amounts[first + q]);
            assert(set@.to_set() =~= lanes_union(lane_amounts@, first as int, (q + 1) as nat));
            q = q + 1;
        }
        let tweaked = tweak_amounts(&set);
        let ghost bps = choose|bps: Seq<u16>| #[trigger] tweaked_with(tweaked@, set@, bps);
        proof {
            lemma_tweaked_nonempty(tweaked@, set@, bps);
        }
        let p = TradeProfile { mint: b.mint.clone(), key: b.key.clone(), amounts: tweaked };
        assert(profile_of_base(p, *plan, lane_amounts@, j as int)) by {
            assert(u64_sorted(set@) && set@.to_set() == base_sizes(*plan, lane_amounts@, j as int) && tweaked_with(p.amounts@, set@, bps));
        }
        candidates.push(p);
    }
    let ghost cands = candidates@;
    let r = assemble_profiles(candidates);
    match r {
        Ok(v) => {
            proof {
                lemma_assembled_profiles(v@, cands, *plan, lane_amounts@);
                assert forall|i: int, j: int| 0 <= i < j < plan.bases@.len() && #[trigger] has_sizes(*plan, lane_amounts@, i)
                    && #[trigger] has_sizes(*plan, lane_amounts@, j) implies plan.bases@[i].key@ != plan.bases@[j].key@ by {
                    assert(profile_of_base(cands[i], *plan, lane_amounts@, i));
                    assert(profile_of_base(cands[j], *plan, lane_amounts@, j));
                    assert(cands[i].amounts@.len() > 0);
                    assert(cands[j].amounts@.len() > 0);
                }
            }
            Ok(v)
        },
        Err(e) => {
            proof {
                match e {
                    StrategyError::DuplicateBaseMint(ref m) => {
                        let (i, j) = choose|i: int, j: int|
                            0 <= i < j < cands.len() && (#[trigger] cands[i]).amounts@.len() > 0
                            && (#[trigger] cands[j]).amounts@.len() > 0 && cands[i].key@ == cands[j].key@
                            && cands[j].mint@ == m@;
                        assert(profile_of_base(cands[i], *plan, lane_amounts@, i));
                        assert(profile_of_base(cands[j], *plan, lane_amounts@, j));
                        assert(has_sizes(*plan, lane_amounts@, i) && has_sizes(*plan, lane_amounts@, j));
                    },
                    StrategyError::NoTradeSize => {
                        assert forall|j: int| 0 <= j < plan.bases@.len() implies !#[trigger] has_sizes(*plan, lane_amounts@, j) by {
                            assert(cands[j].amounts@.len() == 0);
                        }
                    },
                    _ => {},
                }
            }
            Err(e)
        },
    }
}

/// Profiles with keys in increasing order hold each key once.
proof fn lemma_sorted_keys_unique(v: Seq<TradeProfile>, i: int, k: int)
    requires
        keys_sorted(profile_keys(v)),
        0 <= i < v.len(),
        0 <= k < v.len(),
        v[i].key@ == v[k].key@,
    ensures
        i == k,
{
    let keys = profile_keys(v);
    assert(keys[i] == v[i].key@ && keys[k] == v[k].key@);
    if i < k {
        assert(bytes_lt(keys[i], keys[k]));
        lemma_bytes_lt_order(keys[i], keys[i], keys[i]);
    } else if k < i {
        assert(bytes_lt(keys[k], keys[i]));
        lemma_bytes_lt_order(keys[k], keys[k], keys[k]);
    }
}

/// Where a profile with a key is, if there is one.
fn find_profile(profiles: &Vec<TradeProfile>, key: &Vec<u8>) -> (r: Option<usize>)
    ensures
        match r {
            Some(i) => i < profiles@.len() && profiles@[i as int].key@ == key@,
            None => forall|k: int| 0 <= k < profiles@.len() ==> (#[trigger] profiles@[k]).key@ != key@,
        },
{
    let mut i: usize = 0;
    while i < profiles.len()
        invariant
            i <= profiles@.len(),
            forall|k: int| 0 <= k < i ==> (#[trigger] profiles@[k]).key@ != key@,
        decreases profiles@.len() - i,
    {
        if compare_bytes(&profiles[i].key, key) == Rel::Equal {
            return Some(i);
        }
        i = i + 1;
    }
    None
}

/// Puts a profile under its key, replacing the profile that had the key, as
/// `BTreeMap::insert` does.
pub fn upsert_profile(profiles: &mut Vec<TradeProfile>, profile: TradeProfile)
    requires
        keys_sorted(profile_keys(old(profiles)@)),
    ensures
        keys_sorted(profile_keys(final(profiles)@)),
        final(profiles)@.to_set() == old(profiles)@.to_set().filter(|e: TradeProfile| e.key@ != profile.key@).insert(profile),
{
    let ghost before = profiles@;
    let ghost p = profile;
    match find_profile(profiles, &profile.key) {
        Some(i) => {
            profiles.set(i, profile);
            proof {
                assert(profile_keys(profiles@) =~= profile_keys(before));
                assert forall|e: TradeProfile| profiles@.to_set().contains(e) <==> before.to_set().filter(|e: TradeProfile| e.key@ != p.key@).insert(p).contains(e) by {
                    if profiles@.to_set().contains(e) {
                        let k = choose|k: int| 0 <= k < profiles@.len() && profiles@[k] == e;
                        if k != i {
                            assert(before[k] == e);
                            assert(before.to_set().contains(e));
                            if e.key@ == p.key@ {
                                lemma_sorted_keys_unique(before, i as int, k);
                            }
                        }
                    }
                    if before.to_set().contains(e) && e.key@ != p.key@ {
                        let k = choose|k: int| 0 <= k < before.len() && before[k] == e;
                        assert(k != i);
                        assert(profiles@[k] == e);
                    }
                    if e == p {
                        assert(profiles@[i as int] == e);
                    }
                }
                assert(profiles@.to_set() =~= before.to_set().filter(|e: TradeProfile| e.key@ != p.key@).insert(p));
            }
        },
        None => {
            let inserted = insert_profile(profiles, profile);
            proof {
                assert(before.to_set().filter(|e: TradeProfile| e.key@ != p.key@) =~= before.to_set()) by {
                    assert forall|e: TradeProfile| before.to_set().contains(e) implies e.key@ != p.key@ by {
                        let k = choose|k: int| 0 <= k < before.len() && before[k] == e;
                    }
                }
                assert(!profile_keys(before).contains(p.key@)) by {
                    if profile_keys(before).contains(p.key@) {
                        let k = choose|k: int| 0 <= k < profile_keys(before).len() && profile_keys(before)[k] == p.key@;
                        assert(before[k].key@ == p.key@);
                    }
                }
            }
        },
    }
}

/// A base mint of the pure blind strategy, with the sizes each of its lanes produced.
pub struct PureBase {
    pub mint: String,
    pub lane_amounts: Vec<Vec<u64>>,
}

/// A base mint is used when its trimmed text is not blank and not blacklisted.
pub open spec fn pure_usable(b: PureBase, blacklist: Seq<Seq<char>>) -> bool {
    trim_spec(b.mint@).len() > 0 && !listed(blacklist, trim_spec(b.mint@))
}

/// The trimmed text of a base mint names a public key.
pub open spec fn pure_parses(b: PureBase) -> bool {
    pubkey_from_text(trim_spec(b.mint@)).is_some()
}

/// The public key of a base mint.
pub open spec fn pure_key(b: PureBase) -> Seq<u8> {
    pubkey_from_text(trim_spec(b.mint@)).unwrap()
}

/// The positive sizes of all lanes of a base mint.
pub open spec fn pure_sizes(b: PureBase) -> Set<u64> {
    lanes_union(b.lane_amounts@, 0, b.lane_amounts@.len())
}

/// A base mint is used and has sizes.
pub open spec fn pure_counts(b: PureBase, blacklist: Seq<Seq<char>>) -> bool {
    pure_usable(b, blacklist) && pure_sizes(b) != Set::<u64>::empty()
}

/// `p` is the profile of base mint `b`: its trimmed mint, its key and its
/// sizes, in order and shaved by a draw per size.
pub open spec fn pure_profile_of(p: TradeProfile, b: PureBase) -> bool {
    &&& p.mint@ == trim_spec(b.mint@)
    &&& p.key@ == pure_key(b)
    &&& exists|s: Seq<u64>, bps: Seq<u16>| u64_sorted(s) && s.to_set() == pure_sizes(b) && #[trigger] tweaked_with(p.amounts@, s, bps)
}

/// `p` is the profile of the last of the first `n` base mints that is used,
/// has sizes, and has its key.
pub open spec fn last_profile_upto(p: TradeProfile, bases: Seq<PureBase>, blacklist: Seq<Seq<char>>, n: int) -> bool {
    exists|j: int| 0 <= j < n && pure_counts(bases[j], blacklist) && #[trigger] pure_profile_of(p, bases[j])
        && forall|q: int| j < q < n && pure_counts(#[trigger] bases[q], blacklist) ==> pure_key(bases[q]) != p.key@
}

/// Some profile of `v` has the key of base mint `b`.
pub open spec fn key_covered(v: Seq<TradeProfile>, b: PureBase) -> bool {
    exists|k: int| 0 <= k < v.len() && (#[trigger] v[k]).key@ == pure_key(b)
}

/// What the profiles built from the first `n` base mints satisfy.
pub open spec fn pure_profiles_upto(v: Seq<TradeProfile>, bases: Seq<PureBase>, blacklist: Seq<Seq<char>>, n: int) -> bool {
    &&& keys_sorted(profile_keys(v))
    &&& forall|k: int| 0 <= k < v.len() ==> #[trigger] last_profile_upto(v[k], bases, blacklist, n)
    &&& forall|j: int| 0 <= j < n && #[trigger] pure_counts(bases[j], blacklist) ==> key_covered(v, bases[j])
}

/// Taking a base mint without sizes, or not used, changes nothing.
proof fn lemma_pure_skip(v: Seq<TradeProfile>, bases: Seq<PureBase>, blacklist: Seq<Seq<char>>, i: int)
    requires
        0 <= i < bases.len(),
        !pure_counts(bases[i], blacklist),
        pure_profiles_upto(v, bases, blacklist, i),
    ensures
        pure_profiles_upto(v, bases, blacklist, i + 1),
{
    assert forall|k: int| 0 <= k < v.len() implies #[trigger] last_profile_upto(v[k], bases, blacklist, i + 1) by {
        assert(last_profile_upto(v[k], bases, blacklist, i));
        let j = choose|j: int| 0 <= j < i && pure_counts(bases[j], blacklist) && #[trigger] pure_profile_of(v[k], bases[j])
            && forall|q: int| j < q < i && pure_counts(#[trigger] bases[q], blacklist) ==> pure_key(bases[q]) != v[k].key@;
        assert(pure_profile_of(v[k], bases[j]));
    }
}

/// Putting the profile of base mint `i` under its key keeps what the
/// profiles satisfy, now for the first `i + 1` base mints.
proof fn lemma_pure_upsert(v: Seq<TradeProfile>, w: Seq<TradeProfile>, p: TradeProfile, bases: Seq<PureBase>, blacklist: Seq<Seq<char>>, i: int)
    requires
        0 <= i < bases.len(),
        pure_counts(bases[i], blacklist),
        pure_profile_of(p, bases[i]),
        pure_profiles_upto(v, bases, blacklist, i),
        keys_sorted(profile_keys(w)),
        w.to_set() == v.to_set().filter(|e: TradeProfile| e.key@ != p.key@).insert(p),
    ensures
        pure_profiles_upto(w, bases, blacklist, i + 1),
        w.len() > 0,
{
    assert(w.to_set().contains(p));
    assert forall|k: int| 0 <= k < w.len() implies #[trigger] last_profile_upto(w[k], bases, blacklist, i + 1) by {
        let e = w[k];
        assert(w.to_set().contains(e));
        if e == p {
            assert(pure_profile_of(e, bases[i]));
        } else {
            assert(v.to_set().contains(e) && e.key@ != p.key@);
            let kk = choose|kk: int| 0 <= kk < v.len() && v[kk] == e;
            assert(last_profile_upto(v[kk], bases, blacklist, i));
            let j = choose|j: int| 0 <= j < i && pure_counts(bases[j], blacklist) && #[trigger] pure_profile_of(e, bases[j])
                && forall|q: int| j < q < i && pure_counts(#[trigger] bases[q], blacklist) ==> pure_key(bases[q]) != e.key@;
            assert(pure_profile_of(e, bases[j]));
            assert forall|q: int| j < q < i + 1 && pure_counts(#[trigger] bases[q], blacklist) implies pure_key(bases[q]) != e.key@ by {
                if q == i {
                    assert(pure_key(bases[i]) == p.key@);
                }
            }
        }
    }
    assert forall|j: int| 0 <= j < i + 1 && #[trigger] pure_counts(bases[j], blacklist) implies key_covered(w, bases[j]) by {
        if j == i {
            let k = choose|k: int| 0 <= k < w.len() && w[k] == p;
            assert(w[k].key@ == pure_key(bases[j]));
        } else {
            assert(key_covered(v, bases[j]));
            let k = choose|k: int| 0 <= k < v.len() && (#[trigger] v[k]).key@ == pure_key(bases[j]);
            assert(v.to_set().contains(v[k]));
            if v[k].key@ != p.key@ {
                assert(w.to_set().contains(v[k]));
                let kw = choose|kw: int| 0 <= kw < w.len() && w[kw] == v[k];
                assert(w[kw].key@ == pure_key(bases[j]));
            } else {
                let kw = choose|kw: int| 0 <= kw < w.len() && w[kw] == p;
                assert(w[kw].key@ == pure_key(bases[j]));
            }
        }
    }
}

/// The profiles of the pure blind strategy: per base mint that is not blank
/// and not blacklisted, the positive sizes of its lanes, shaved; a later base
/// mint with the same key replaces an earlier one. A used base mint that is
/// not a public key is refused, the first one in order, and so is a
/// configuration without sizes.
pub fn build_pure_trade_profiles(bases: &Vec<PureBase>, blacklist: &Vec<String>) -> (r: Result<Vec<TradeProfile>, StrategyError>)
    ensures
        match r {
            Ok(v) => {
                &&& forall|j: int| 0 <= j < bases@.len() && pure_usable(#[trigger] bases@[j], string_views(blacklist@)) ==> pure_parses(bases@[j])
                &&& v@.len() > 0
                &&& pure_profiles_upto(v@, bases@, string_views(blacklist@), bases@.len() as int)
            },
            Err(StrategyError::InvalidMint(m)) => exists|i: int| 0 <= i < bases@.len()
                && pure_usable(#[trigger] bases@[i], string_views(blacklist@)) && !pure_parses(bases@[i])
                && m@ == trim_spec(bases@[i].mint@)
                && forall|j: int| 0 <= j < i && pure_usable(#[trigger] bases@[j], string_views(blacklist@)) ==> pure_parses(bases@[j]),
            Err(StrategyError::NoTradeSize) => {
                &&& forall|j: int| 0 <= j < bases@.len() && pure_usable(#[trigger] bases@[j], string_views(blacklist@)) ==> pure_parses(bases@[j])
                &&& forall|j: int| 0 <= j < bases@.len() ==> !pure_counts(#[trigger] bases@[j], string_views(blacklist@))
            },
            Err(_) => false,
        },
{
    let ghost bl = string_views(blacklist@);
    let mut out: Vec<TradeProfile> = Vec::new();
    let n = bases.len();
    for i in 0..n
        invariant
            n == bases@.len(),
            bl == string_views(blacklist@),
            forall|j: int| 0 <= j < i && pure_usable(#[trigger] bases@[j], bl) ==> pure_parses(bases@[j]),
            pure_profiles_upto(out@, bases@, bl, i as int),
            out@.len() == 0 ==> forall|j: int| 0 <= j < i ==> !pure_counts(#[trigger] bases@[j], bl),
    {
        let b = &bases[i];
        let mint = trim(b.mint.as_str());
        if mint.unicode_len() == 0 || listed_exec(blacklist, &mint) {
            proof {
                lemma_pure_skip(out@, bases@, bl, i as int);
            }
        } else {
            let key = match parse_pubkey(mint.as_str()) {
                Some(k) => k,
                None => {
                    return Err(StrategyError::InvalidMint(mint));
                },
            };
            let mut set: Vec<u64> = Vec::new();
            let lanes = b.lane_amounts.len();
            for q in 0..lanes
                invariant
                    lanes == b.lane_amounts@.len(),
                    u64_sorted(set@),
                    set@.to_set() == lanes_union(b.lane_amounts@, 0, q as nat),
            {
                collect_positive(&mut set, &b.lane_amounts[q]);
                assert(set@.to_set() =~= lanes_union(b.lane_amounts@, 0, (q + 1) as nat));
            }
            if set.len() == 0 {
                proof {
                    assert(set@.to_set() =~= Set::<u64>::empty());
                    lemma_pure_skip(out@, bases@, bl, i as int);
                }
            } else {
                let tweaked = tweak_amounts(&set);
                let ghost bps = choose|bps: Seq<u16>| #[trigger] tweaked_with(tweaked@, set@, bps);
                proof {
                    lemma_tweaked_nonempty(tweaked@, set@, bps);
                }
                let p = TradeProfile { mint, key, amounts: tweaked };
                assert(pure_profile_of(p, bases@[i as int])) by {
                    assert(u64_sorted(set@) && set@.to_set() == pure_sizes(bases@[i as int]) && tweaked_with(p.amounts@, set@, bps));
                }
                let ghost before = out@;
                upsert_profile(&mut out, p);
                proof {
                    lemma_pure_upsert(before, out@, p, bases@, bl, i as int);
                }
            }
        }
    }
    if out.len() == 0 {
        return Err(StrategyError::NoTradeSize);
    }
    Ok(out)
}

/// How the compute unit price of a transaction is chosen.
#[derive(PartialEq, Eq, Structural, Clone, Copy, Debug)]
pub enum ComputeUnitPriceMode {
    Fixed(u64),
    Random { min: u64, max: u64 },
}

/// The compute unit price mode the lander settings ask for: `fixed` with a
/// price, `random` with at least two bounds; anything else, or an incomplete
/// setting, asks for none.
pub open spec fn compute_unit_price_mode_spec(strategy: Seq<char>, fixed: Option<u64>, range: Seq<u64>) -> Option<ComputeUnitPriceMode> {
    let k = lower_seq(trim_spec(strategy));
    if k == "fixed"@ {
        match fixed {
            Some(v) => Some(ComputeUnitPriceMode::Fixed(v)),
            None => None,
        }
    } else if k == "random"@ {
        if range.len() >= 2 {
            Some(ComputeUnitPriceMode::Random { min: range[0], max: range[1] })
        } else {
            None
        }
    } else {
        None
    }
}

/// Reads the compute unit price mode from the lander settings.
pub fn derive_compute_unit_price_mode(settings: &LanderSettings) -> (r: Option<ComputeUnitPriceMode>)
    ensures
        r == compute_unit_price_mode_spec(
            settings.compute_unit_price_strategy@,
            settings.fixed_compute_unit_price,
            settings.random_compute_unit_price_range@,
        ),
{
    let k = to_ascii_lowercase(trim(settings.compute_unit_price_strategy.as_str()).as_str());
    let ks = k.as_str();
    if same_text(ks, "fixed") {
        match settings.fixed_compute_unit_price {
            Some(value) => Some(ComputeUnitPriceMode::Fixed(value)),
            None => None,
        }
    } else if same_text(ks, "random") {
        let range = &settings.random_compute_unit_price_range;
        if range.len() >= 2 {
            Some(ComputeUnitPriceMode::Random { min: range[0], max: range[1] })
        } else {
            None
        }
    } else {
        None
    }
}

/// Profit requirements of a strategy.
pub struct ProfitSettings {
    pub min_profit_threshold_lamports: u64,
    pub max_tip_lamports: u64,
}

/// The smallest configured profit, or zero when none is configured.
pub open spec fn min_profit_spec(profits: Seq<Option<u64>>) -> u64
    decreases profits.len(),
{
    if profits.len() == 0 {
        0
    } else {
        let rest = min_profit_spec(profits.drop_last());
        let has_rest = exists|i: int| 0 <= i < profits.len() - 1 && (#[trigger] profits[i]) is Some;
        match profits.last() {
            Some(v) => if !has_rest || v < rest { v } else { rest },
            None => rest,
        }
    }
}

/// The blind strategy's profit floor: the smallest `min_quote_profit` of its base mints, or zero.
pub fn build_blind_profit_config(min_quote_profits: &Vec<Option<u64>>) -> (r: ProfitSettings)
    ensures
        r.max_tip_lamports == 0,
        (forall|i: int| 0 <= i < min_quote_profits@.len() ==> (#[trigger] min_quote_profits@[i]) is None) ==> r.min_profit_threshold_lamports == 0,
        forall|i: int| 0 <= i < min_quote_profits@.len() ==> (#[trigger] min_quote_profits@[i] matches Some(v) ==> r.min_profit_threshold_lamports <= v),
        (exists|i: int| 0 <= i < min_quote_profits@.len() && (#[trigger] min_quote_profits@[i]) is Some) ==>
            exists|i: int| 0 <= i < min_quote_profits@.len() && #[trigger] min_quote_profits@[i] == Some(r.min_profit_threshold_lamports),
{
    let mut best: Option<u64> = None;
    for i in 0..min_quote_profits.len()
        invariant
            best is None ==> forall|k: int| 0 <= k < i ==> (#[trigger] min_quote_profits@[k]) is None,
            best matches Some(b) ==> (forall|k: int| 0 <= k < i ==> (#[trigger] min_quote_profits@[k] matches Some(v) ==> b <= v))
                && exists|k: int| 0 <= k < i && #[trigger] min_quote_profits@[k] == Some(b),
    {
        match min_quote_profits[i] {
            Some(v) => {
                match best {
                    None => {
                        best = Some(v);
                    },
                    Some(b) => {
                        if v < b {
                            best = Some(v);
                        }
                    },
                }
            },
            None => {},
        }
    }
    let threshold = match best {
        Some(b) => b,
        None => 0,
    };
    ProfitSettings { min_profit_threshold_lamports: threshold, max_tip_lamports: 0 }
}

/// The pure blind strategy asks for no profit floor.
pub fn build_pure_profit_config() -> (r: ProfitSettings)
    ensures
        r.min_profit_threshold_lamports == 0,
        r.max_tip_lamports == 0,
{
    ProfitSettings { min_profit_threshold_lamports: 0, max_tip_lamports: 0 }
}

/// Quote options of a strategy.
pub struct QuoteSettings {
    pub slippage_bps: u16,
    pub only_direct_routes: bool,
    pub dex_whitelist: Vec<String>,
    pub dex_blacklist: Vec<String>,
}

/// The blind strategy quotes with no slippage, its DEX lists and the engine's
/// direct-route default.
pub fn build_blind_quote_config(enable_dexs: &Vec<String>, exclude_dexes: &Vec<String>, only_direct_routes_default: bool) -> (r: QuoteSettings)
    ensures
        r.slippage_bps == 0,
        r.only_direct_routes == only_direct_routes_default,
        r.dex_whitelist@ == enable_dexs@,
        r.dex_blacklist@ == exclude_dexes@,
{
    QuoteSettings {
        slippage_bps: 0,
        only_direct_routes: only_direct_routes_default,
        dex_whitelist: enable_dexs.clone(),
        dex_blacklist: exclude_dexes.clone(),
    }
}

/// The pure blind strategy quotes direct routes only, with no slippage and no DEX lists.
pub fn build_pure_quote_config() -> (r: QuoteSettings)
    ensures
        r.slippage_bps == 0,
        r.only_direct_routes,
        r.dex_whitelist@.len() == 0,
        r.dex_blacklist@.len() == 0,
{
    QuoteSettings { slippage_bps: 0, only_direct_routes: true, dex_whitelist: Vec::new(), dex_blacklist: Vec::new() }
}

/// The landing timeout in milliseconds: the configured one, at least one.
pub fn resolve_landing_timeout(timeouts: &EngineTimeoutConfig) -> (ms: u64)
    ensures
        ms == if timeouts.landing_ms < 1 { 1 } else { timeouts.landing_ms },
{
    if timeouts.landing_ms < 1 { 1 } else { timeouts.landing_ms }
}

/// The default Marginfi account: none when unset or blank, otherwise its public key.
pub fn parse_marginfi_accounts(marginfi_account: &Option<String>) -> (r: Result<Option<Vec<u8>>, StrategyError>)
    ensures
        match marginfi_account {
            None => r matches Ok(None),
            Some(a) => if trim_spec(a@).len() == 0 {
                r matches Ok(None)
            } else {
                match pubkey_from_text(trim_spec(a@)) {
                    Some(k) => (r matches Ok(Some(v)) && v@ == k),
                    None => r matches Err(StrategyError::InvalidMarginfiAccount),
                }
            },
        },
{
    match marginfi_account {
        None => Ok(None),
        Some(a) => {
            let t = trim(a.as_str());
            if t.unicode_len() == 0 {
                return Ok(None);
            }
            match parse_pubkey(t.as_str()) {
                Some(k) => Ok(Some(k)),
                None => Err(StrategyError::InvalidMarginfiAccount),
            }
        },
    }
}

/// The SOL price feed the profit guard reads.
pub struct SolPriceFeedSettings {
    pub url: String,
    pub refresh_ms: u64,
}

/// The Lighthouse profit guard as the engine uses it.
pub struct LighthouseSettings {
    pub enable: bool,
    pub profit_guard_mints: Vec<Vec<u8>>,
    pub memory_slots: Option<u8>,
    pub sol_price_feed: Option<SolPriceFeedSettings>,
}

impl LighthouseSettings {
    /// The guard switched off.
    pub fn disabled() -> (s: Self)
        ensures
            !s.enable,
            s.profit_guard_mints@.len() == 0,
            s.memory_slots is None,
            s.sol_price_feed is None,
    {
        LighthouseSettings { enable: false, profit_guard_mints: Vec::new(), memory_slots: None, sol_price_feed: None }
    }
}

/// The keys of the non-blank guard mints, in order, if they all parse.
pub open spec fn guard_keys_spec(mints: Seq<Seq<char>>) -> Option<Seq<Seq<u8>>>
    decreases mints.len(),
{
    if mints.len() == 0 {
        Some(Seq::<Seq<u8>>::empty())
    } else {
        match guard_keys_spec(mints.drop_last()) {
            None => None,
            Some(acc) => {
                let t = trim_spec(mints.last());
                if t.len() == 0 {
                    Some(acc)
                } else {
                    match pubkey_from_text(t) {
                        None => None,
                        Some(k) => Some(acc.push(k)),
                    }
                }
            },
        }
    }
}

/// The views of a vector of byte vectors.
pub open spec fn byte_views(v: Seq<Vec<u8>>) -> Seq<Seq<u8>> {
    v.map_values(|b: Vec<u8>| b@)
}

/// Reads the Lighthouse settings: switched off unless enabled and some guard
/// mint is configured; every non-blank mint must be a public key; a memory
/// slot count of zero means none; a price feed with a blank URL means none.
pub fn parse_lighthouse_settings(cfg: &LightHouseBotConfig) -> (r: Result<LighthouseSettings, StrategyError>)
    ensures
        !cfg.enable ==> (r matches Ok(s) && !s.enable),
        cfg.enable ==> match guard_keys_spec(string_views(cfg.profit_guard_mints@)) {
            None => r matches Err(StrategyError::InvalidMint(_)),
            Some(keys) => if keys.len() == 0 {
                r matches Ok(s) && !s.enable
            } else {
                r matches Ok(s) && s.enable && byte_views(s.profit_guard_mints@) == keys
                    && s.memory_slots == (match cfg.memory_slots {
                        Some(v) => if v == 0 { None } else { Some(v) },
                        None => None,
                    })
                    && match cfg.sol_price_feed {
                        None => s.sol_price_feed is None,
                        Some(feed) => if trim_spec(feed.url@).len() == 0 {
                            s.sol_price_feed is None
                        } else {
                            s.sol_price_feed matches Some(f) && f.url@ == trim_spec(feed.url@)
                                && f.refresh_ms == if feed.refresh_ms < 1 { 1 } else { feed.refresh_ms }
                        },
                    }
            },
        },
{
    if !cfg.enable {
        return Ok(LighthouseSettings::disabled());
    }
    let ghost ms = string_views(cfg.profit_guard_mints@);
    let mut keys: Vec<Vec<u8>> = Vec::new();
    for i in 0..cfg.profit_guard_mints.len()
        invariant
            ms == string_views(cfg.profit_guard_mints@),
            cfg.enable,
            guard_keys_spec(ms.subrange(0, i as int)) == Some(byte_views(keys@)),
    {
        let ghost pre = ms.subrange(0, i + 1);
        assert(pre.drop_last() =~= ms.subrange(0, i as int));
        assert(pre.last() == cfg.profit_guard_mints@[i as int]@);
        let t = trim(cfg.profit_guard_mints[i].as_str());
        if t.unicode_len() > 0 {
            match parse_pubkey(t.as_str()) {
                Some(k) => {
                    let ghost before = keys@;
                    keys.push(k);
                    assert(byte_views(keys@) =~= byte_views(before).push(keys@.last()@));
                },
                None => {
                    proof {
                        lemma_guard_keys_none_extends(ms, i + 1);
                        assert(ms.subrange(0, ms.len() as int) =~= ms);
                    }
                    return Err(StrategyError::InvalidMint(t));
                },
            }
        }
    }
    assert(ms.subrange(0, ms.len() as int) =~= ms);
    if keys.len() == 0 {
        return Ok(LighthouseSettings::disabled());
    }
    let memory_slots = match cfg.memory_slots {
        Some(v) => if v == 0 { None } else { Some(v) },
        None => None,
    };
    let sol_price_feed = match &cfg.sol_price_feed {
        None => None,
        Some(feed) => {
            let url = trim(feed.url.as_str());
            if url.unicode_len() == 0 {
                None
            } else {
                let refresh_ms = if feed.refresh_ms < 1 { 1 } else { feed.refresh_ms };
                Some(SolPriceFeedSettings { url, refresh_ms })
            }
        },
    };
    Ok(LighthouseSettings { enable: true, profit_guard_mints: keys, memory_slots, sol_price_feed })
}

proof fn lemma_guard_keys_none_extends(mints: Seq<Seq<char>>, k: int)
    requires
        0 <= k <= mints.len(),
        guard_keys_spec(mints.subrange(0, k)).is_none(),
    ensures
        guard_keys_spec(mints.subrange(0, mints.len() as int)).is_none(),
    decreases mints.len() - k,
{
    if k < mints.len() {
        let pre = mints.subrange(0, k + 1);
        assert(pre.drop_last() =~= mints.subrange(0, k));
        lemma_guard_keys_none_extends(mints, k + 1);
    }
}

/// The strategy engine a run starts.
#[derive(PartialEq, Eq, Structural, Clone, Copy, Debug)]
pub enum StrategyChoice {
    /// The copy strategy, which takes precedence over the others.
    Copy,
    /// The blind strategy, on the multi-leg engine or not.
    Blind { multi_legs: bool },
    /// The pure blind strategy.
    PureBlind,
    /// Nothing is enabled; the run ends at once.
    Idle,
}

/// Why a run cannot start.
#[derive(PartialEq, Eq, Structural, Clone, Copy, Debug)]
pub enum StrategyChoiceError {
    /// The multi-leg engine takes its pairs from the blind strategy, which is off.
    MultiLegsNeedsBlind,
    /// Without a quote backend only the pure blind and copy strategies run.
    BlindNeedsBackend,
    /// The blind and the pure blind strategy cannot run together.
    BlindAndPureTogether,
}

/// The strategy a run starts, from the backend and the strategies enabled:
/// copy first; the multi-leg engine needs the blind strategy; without a
/// backend the blind strategy is refused and the pure blind one runs if on;
/// otherwise exactly one of the blind strategies runs.
pub open spec fn strategy_choice_spec(backend: EngineBackend, blind: bool, pure: bool, copy: bool) -> Result<StrategyChoice, StrategyChoiceError> {
    if copy {
        Ok(StrategyChoice::Copy)
    } else {
        match backend {
            EngineBackend::MultiLegs => if blind {
                Ok(StrategyChoice::Blind { multi_legs: true })
            } else {
                Err(StrategyChoiceError::MultiLegsNeedsBlind)
            },
            EngineBackend::Disabled => if blind {
                Err(StrategyChoiceError::BlindNeedsBackend)
            } else if pure {
                Ok(StrategyChoice::PureBlind)
            } else {
                Ok(StrategyChoice::Idle)
            },
            _ => if blind && pure {
                Err(StrategyChoiceError::BlindAndPureTogether)
            } else if blind {
                Ok(StrategyChoice::Blind { multi_legs: false })
            } else if pure {
                Ok(StrategyChoice::PureBlind)
            } else {
                Ok(StrategyChoice::Idle)
            },
        }
    }
}

/// Chooses the strategy a run starts.
pub fn choose_strategy(backend: EngineBackend, blind: bool, pure: bool, copy: bool) -> (r: Result<StrategyChoice, StrategyChoiceError>)
    ensures
        r == strategy_choice_spec(backend, blind, pure, copy),
{
    if copy {
        return Ok(StrategyChoice::Copy);
    }
    match backend {
        EngineBackend::MultiLegs => if blind {
            Ok(StrategyChoice::Blind { multi_legs: true })
        } else {
            Err(StrategyChoiceError::MultiLegsNeedsBlind)
        },
        EngineBackend::Disabled => if blind {
            Err(StrategyChoiceError::BlindNeedsBackend)
        } else if pure {
            Ok(StrategyChoice::PureBlind)
        } else {
            Ok(StrategyChoice::Idle)
        },
        _ => if blind && pure {
            Err(StrategyChoiceError::BlindAndPureTogether)
        } else if blind {
            Ok(StrategyChoice::Blind { multi_legs: false })
        } else if pure {
            Ok(StrategyChoice::PureBlind)
        } else {
            Ok(StrategyChoice::Idle)
        },
    }
}

/// The landers a strategy asks for: in dry-run mode the RPC lander when
/// none is configured, otherwise those configured.
pub fn requested_landers(dry_run: bool, enable_landers: &Vec<String>) -> (r: Vec<String>)
    ensures
        dry_run && enable_landers@.len() == 0 ==> string_views(r@) == seq!["rpc"@],
        !(dry_run && enable_landers@.len() == 0) ==> r@ == enable_landers@,
{
    if dry_run && enable_landers.len() == 0 {
        let mut v: Vec<String> = Vec::new();
        v.push(String::from_str("rpc"));
        proof {
            reveal_strlit("rpc");
        }
        assert(string_views(v@) =~= seq!["rpc"@]);
        v
    } else {
        enable_landers.clone()
    }
}


/// How many requests the IP allocator can have in flight: its slots, at least
/// one, times the limit per address, at least one and one when unset; the
/// product saturates at `usize::MAX`.
pub open spec fn ip_capacity_spec(total_slots: usize, per_ip_inflight_limit: Option<usize>) -> int {
    let slots: int = if total_slots == 0 { 1 } else { total_slots as int };
    let per_ip: int = match per_ip_inflight_limit {
        Some(l) => if l == 0 { 1 } else { l as int },
        None => 1,
    };
    if slots * per_ip > usize::MAX { usize::MAX as int } else { slots * per_ip }
}

/// The number of trade sizes auto-scaling aims at, from the IP allocator.
pub fn ip_capacity_hint(total_slots: usize, per_ip_inflight_limit: Option<usize>) -> (r: usize)
    ensures
        r == ip_capacity_spec(total_slots, per_ip_inflight_limit),
{
    let per_ip = match per_ip_inflight_limit {
        Some(l) => if l == 0 { 1 } else { l },
        None => 1,
    };
    let slots = if total_slots == 0 { 1 } else { total_slots };
    match slots.checked_mul(per_ip) {
        Some(v) => v,
        None => usize::MAX,
    }
}

} // verus!
