//! A cache of shared values keyed by public-key bytes, whose entries may
//! lapse after a time to live. Times are milliseconds on a clock the caller
//! reads.
use vstd::prelude::*;
use std::sync::Arc;
use crate::order::bytes_equal;
use crate::api::swap_instructions::LookupTableAccount;

verus! {

/// Another pointer to a shared value, with `Arc::clone`. Trusted: it points
/// to the same value, as the documentation of `Arc` says.
#[verifier::external_body]
fn share<V>(a: &Arc<V>) -> (r: Arc<V>)
    ensures
        r == *a,
{
    Arc::clone(a)
}

/// What a fetch brings back: the value and how long it may be kept.
pub struct FetchOutcome<V> {
    pub value: V,
    pub ttl_ms: Option<u64>,
}

impl<V> FetchOutcome<V> {
    pub fn new(value: V, ttl_ms: Option<u64>) -> (r: Self)
        ensures
            r.value == value,
            r.ttl_ms == ttl_ms,
    {
        FetchOutcome { value, ttl_ms }
    }
}

/// A value kept until `expires_at_ms`, or for good.
pub type Stored<V> = (V, Option<u64>);

/// An entry is still good at `now` when it has no deadline or `now` is before it.
pub open spec fn fresh(expires_at_ms: Option<u64>, now_ms: u64) -> bool {
    match expires_at_ms {
        Some(d) => now_ms < d,
        None => true,
    }
}

/// The deadline of an entry stored at `now` for `ttl`.
pub open spec fn deadline_of(ttl_ms: Option<u64>, now_ms: u64) -> Option<u64> {
    match ttl_ms {
        Some(t) => Some((now_ms + t) as u64),
        None => None,
    }
}

/// The deadline fits the clock.
pub open spec fn ttl_fits(ttl_ms: Option<u64>, now_ms: u64) -> bool {
    match ttl_ms {
        Some(t) => now_ms + t <= u64::MAX,
        None => true,
    }
}

/// What the cache answers for `key` at `now`: the value, if it holds one that is still good.
pub open spec fn cached_value<V>(m: Map<Seq<u8>, Stored<V>>, key: Seq<u8>, now_ms: u64) -> Option<V> {
    if m.contains_key(key) && fresh(m[key].1, now_ms) {
        Some(m[key].0)
    } else {
        None
    }
}

/// What a lookup leaves behind: a lapsed entry is dropped.
pub open spec fn after_lookup<V>(m: Map<Seq<u8>, Stored<V>>, key: Seq<u8>, now_ms: u64) -> Map<Seq<u8>, Stored<V>> {
    if m.contains_key(key) && !fresh(m[key].1, now_ms) {
        m.remove(key)
    } else {
        m
    }
}

/// A store of cached values: look up, put, remove.
pub trait CacheBackend {
    type Value;

    /// The store is in order.
    spec fn wf(&self) -> bool;

    /// What the store holds: per key, the value and its deadline.
    spec fn contents(&self) -> Map<Seq<u8>, Stored<Self::Value>>;

    /// The value under `key` if it is still good at `now`; a lapsed one is dropped.
    fn get(&mut self, key: &Vec<u8>, now_ms: u64) -> (r: Option<Arc<Self::Value>>)
        requires
            old(self).wf(),
        ensures
            final(self).wf(),
            match cached_value(old(self).contents(), key@, now_ms) {
                Some(v) => r matches Some(a) && *a == v,
                None => r is None,
            },
            final(self).contents() == after_lookup(old(self).contents(), key@, now_ms),
    ;

    /// Puts a value under `key`, kept for `ttl` from `now` or for good.
    fn insert(&mut self, key: Vec<u8>, value: Arc<Self::Value>, ttl_ms: Option<u64>, now_ms: u64)
        requires
            old(self).wf(),
            ttl_fits(ttl_ms, now_ms),
        ensures
            final(self).wf(),
            final(self).contents() == old(self).contents().insert(key@, (*value, deadline_of(ttl_ms, now_ms))),
    ;

    /// Drops what is under `key`.
    fn remove(&mut self, key: &Vec<u8>)
        requires
            old(self).wf(),
        ensures
            final(self).wf(),
            final(self).contents() == old(self).contents().remove(key@),
    ;
}

/// The store kept in memory: one entry per key.
pub struct InMemoryBackend<V> {
    entries: Vec<(Vec<u8>, Arc<V>, Option<u64>)>,
}

/// No key occurs twice.
pub open spec fn keys_unique<V>(s: Seq<(Vec<u8>, Arc<V>, Option<u64>)>) -> bool {
    forall|i: int, j: int| 0 <= i < j < s.len() ==> (#[trigger] s[i]).0@ != (#[trigger] s[j]).0@
}

/// Where `key` is held.
pub open spec fn key_at<V>(s: Seq<(Vec<u8>, Arc<V>, Option<u64>)>, key: Seq<u8>, i: int) -> bool {
    0 <= i < s.len() && s[i].0@ == key
}

/// The map that a list of entries with distinct keys stands for.
pub open spec fn entries_map<V>(s: Seq<(Vec<u8>, Arc<V>, Option<u64>)>) -> Map<Seq<u8>, Stored<V>> {
    Map::new(
        |k: Seq<u8>| exists|i: int| #[trigger] key_at(s, k, i),
        |k: Seq<u8>| {
            let i = choose|i: int| #[trigger] key_at(s, k, i);
            (*s[i].1, s[i].2)
        },
    )
}

/// With distinct keys, the entry at `i` is what the map holds under its key.
proof fn lemma_entries_map_at<V>(s: Seq<(Vec<u8>, Arc<V>, Option<u64>)>, i: int)
    requires
        keys_unique(s),
        0 <= i < s.len(),
    ensures
        entries_map(s).contains_key(s[i].0@),
        entries_map(s)[s[i].0@] == (*s[i].1, s[i].2),
{
    assert(key_at(s, s[i].0@, i));
    let j = choose|j: int| #[trigger] key_at(s, s[i].0@, j);
    if j != i {
        if i < j {
            assert(s[i].0@ != s[j].0@);
        } else {
            assert(s[j].0@ != s[i].0@);
        }
    }
}

impl<V> InMemoryBackend<V> {
    /// An empty store.
    pub fn new() -> (b: Self)
        ensures
            b.wf(),
            b.contents() == Map::<Seq<u8>, Stored<V>>::empty(),
    {
        let b = InMemoryBackend { entries: Vec::new() };
        assert(entries_map(b.entries@) =~= Map::<Seq<u8>, Stored<V>>::empty());
        b
    }

    /// Where `key` is held, if it is.
    fn find(&self, key: &Vec<u8>) -> (r: Option<usize>)
        ensures
            match r {
                Some(i) => key_at(self.entries@, key@, i as int),
                None => forall|i: int| !#[trigger] key_at(self.entries@, key@, i),
            },
    {
        let mut i: usize = 0;
        while i < self.entries.len()
            invariant
                i <= self.entries@.len(),
                forall|k: int| 0 <= k < i ==> !#[trigger] key_at(self.entries@, key@, k),
            decreases self.entries@.len() - i,
        {
            if bytes_equal(&self.entries[i].0, key) {
                return Some(i);
            }
            i = i + 1;
        }
        None
    }

    /// Drops the entry at `i`.
    fn drop_at(&mut self, i: usize)
        requires
            keys_unique(old(self).entries@),
            i < old(self).entries@.len(),
        ensures
            keys_unique(final(self).entries@),
            entries_map(final(self).entries@) == entries_map(old(self).entries@).remove(old(self).entries@[i as int].0@),
    {
        let ghost s = self.entries@;
        let ghost k = s[i as int].0@;
        self.entries.remove(i);
        let ghost t = self.entries@;
        assert(t =~= s.remove(i as int));
        assert forall|a: int, b: int| 0 <= a < b < t.len() implies (#[trigger] t[a]).0@ != (#[trigger] t[b]).0@ by {
            let a2 = if a < i { a } else { a + 1 };
            let b2 = if b < i { b } else { b + 1 };
            assert(t[a] == s[a2] && t[b] == s[b2]);
            assert(s[a2].0@ != s[b2].0@);
        }
        assert forall|key: Seq<u8>| #[trigger] entries_map(t).contains_key(key) <==> entries_map(s).remove(k).contains_key(key) by {
            if entries_map(t).contains_key(key) {
                let j = choose|j: int| #[trigger] key_at(t, key, j);
                let j2 = if j < i { j } else { j + 1 };
                assert(key_at(s, key, j2));
                assert(s[j2].0@ != s[i as int].0@);
            }
            if entries_map(s).remove(k).contains_key(key) {
                let j = choose|j: int| #[trigger] key_at(s, key, j);
                assert(j != i);
                let j2 = if j < i { j } else { j - 1 };
                assert(key_at(t, key, j2));
            }
        }
        assert forall|key: Seq<u8>| #[trigger] entries_map(t).contains_key(key) implies entries_map(t)[key] == entries_map(s).remove(k)[key] by {
            let j = choose|j: int| #[trigger] key_at(t, key, j);
            let j2 = if j < i { j } else { j + 1 };
            assert(t[j] == s[j2]);
            lemma_entries_map_at(t, j);
            lemma_entries_map_at(s, j2);
        }
        assert(entries_map(t) =~= entries_map(s).remove(k));
    }
}

impl<V> CacheBackend for InMemoryBackend<V> {
    type Value = V;

    closed spec fn wf(&self) -> bool {
        keys_unique(self.entries@)
    }

    closed spec fn contents(&self) -> Map<Seq<u8>, Stored<V>> {
        entries_map(self.entries@)
    }

    fn get(&mut self, key: &Vec<u8>, now_ms: u64) -> (r: Option<Arc<V>>) {
        match self.find(key) {
            None => {
                assert(!entries_map(self.entries@).contains_key(key@));
                None
            },
            Some(i) => {
                proof {
                    lemma_entries_map_at(self.entries@, i as int);
                }
                let expired = match self.entries[i].2 {
                    Some(d) => now_ms >= d,
                    None => false,
                };
                if expired {
                    self.drop_at(i);
                    None
                } else {
                    Some(share(&self.entries[i].1))
                }
            },
        }
    }

    fn insert(&mut self, key: Vec<u8>, value: Arc<V>, ttl_ms: Option<u64>, now_ms: u64) {
        let deadline = match ttl_ms {
            Some(t) => Some(now_ms + t),
            None => None,
        };
        let ghost s = self.entries@;
        let ghost k = key@;
        let ghost vv: Arc<V> = value;
        assert(deadline == deadline_of(ttl_ms, now_ms));
        match self.find(&key) {
            Some(i) => {
                self.entries.set(i, (key, value, deadline));
                let ghost t = self.entries@;
                assert forall|a: int, b: int| 0 <= a < b < t.len() implies (#[trigger] t[a]).0@ != (#[trigger] t[b]).0@ by {
                    assert(s[a].0@ != s[b].0@);
                }
                assert forall|q: Seq<u8>| #[trigger] entries_map(t).contains_key(q) <==> entries_map(s).insert(k, (*vv, deadline)).contains_key(q) by {
                    if entries_map(t).contains_key(q) {
                        let j = choose|j: int| #[trigger] key_at(t, q, j);
                        if j != i {
                            assert(key_at(s, q, j));
                        }
                    }
                    if entries_map(s).contains_key(q) {
                        let j = choose|j: int| #[trigger] key_at(s, q, j);
                        assert(key_at(t, q, j));
                    }
                    if q == k {
                        assert(key_at(t, q, i as int));
                    }
                }
                assert forall|q: Seq<u8>| #[trigger] entries_map(t).contains_key(q) implies entries_map(t)[q] == entries_map(s).insert(k, (*vv, deadline))[q] by {
                    let j = choose|j: int| #[trigger] key_at(t, q, j);
                    lemma_entries_map_at(t, j);
                    if j != i {
                        lemma_entries_map_at(s, j);
                        assert(s[j].0@ != s[i as int].0@);
                    }
                }
                assert(entries_map(t) =~= entries_map(s).insert(k, (*vv, deadline)));
            },
            None => {
                self.entries.push((key, value, deadline));
                let ghost t = self.entries@;
                assert(t =~= s.push(t[s.len() as int]));
                assert forall|a: int, b: int| 0 <= a < b < t.len() implies (#[trigger] t[a]).0@ != (#[trigger] t[b]).0@ by {
                    if b < s.len() {
                        assert(s[a].0@ != s[b].0@);
                    } else {
                        assert(!key_at(s, k, a));
                    }
                }
                assert forall|q: Seq<u8>| #[trigger] entries_map(t).contains_key(q) <==> entries_map(s).insert(k, (*vv, deadline)).contains_key(q) by {
                    if entries_map(t).contains_key(q) {
                        let j = choose|j: int| #[trigger] key_at(t, q, j);
                        if j < s.len() {
                            assert(key_at(s, q, j));
                        }
                    }
                    if entries_map(s).contains_key(q) {
                        let j = choose|j: int| #[trigger] key_at(s, q, j);
                        assert(key_at(t, q, j));
                    }
                    if q == k {
                        assert(key_at(t, q, s.len() as int));
                    }
                }
                assert forall|q: Seq<u8>| #[trigger] entries_map(t).contains_key(q) implies entries_map(t)[q] == entries_map(s).insert(k, (*vv, deadline))[q] by {
                    let j = choose|j: int| #[trigger] key_at(t, q, j);
                    lemma_entries_map_at(t, j);
                    if j < s.len() {
                        lemma_entries_map_at(s, j);
                        assert(s[j].0@ != k);
                    }
                }
                assert(entries_map(t) =~= entries_map(s).insert(k, (*vv, deadline)));
            },
        }
    }

    fn remove(&mut self, key: &Vec<u8>) {
        match self.find(key) {
            Some(i) => {
                self.drop_at(i);
            },
            None => {
                assert(entries_map(self.entries@).remove(key@) =~= entries_map(self.entries@));
            },
        }
    }
}

/// A cached value is read back until it lapses: right after it is put under
/// a key, that key answers it while the time to live lasts and nothing after;
/// other keys answer what they did; a removed key answers nothing.
pub proof fn lemma_read_after_write<V>(m: Map<Seq<u8>, Stored<V>>, key: Seq<u8>, other: Seq<u8>, v: V, ttl_ms: Option<u64>, written_ms: u64, read_ms: u64)
    requires
        ttl_fits(ttl_ms, written_ms),
        other != key,
    ensures
        cached_value(m.insert(key, (v, deadline_of(ttl_ms, written_ms))), key, read_ms) == (match ttl_ms {
            Some(t) => if read_ms < written_ms + t { Some(v) } else { None },
            None => Some(v),
        }),
        cached_value(m.insert(key, (v, deadline_of(ttl_ms, written_ms))), other, read_ms) == cached_value(m, other, read_ms),
        cached_value(m.remove(key), key, read_ms) is None,
        cached_value(m.remove(key), other, read_ms) == cached_value(m, other, read_ms),
{
}

/// What loading a key asks of the caller.
pub enum LoadStep<V> {
    /// The cache holds a good value.
    Hit(Arc<V>),
    /// The value must be fetched and handed to `finish_load`.
    Fetch,
}

/// The cache in front of a store, as the engine uses it.
pub struct Cache<V> {
    pub backend: InMemoryBackend<V>,
}

impl<V> Cache<V> {
    pub fn new() -> (c: Self)
        ensures
            c.backend.wf(),
            c.backend.contents() == Map::<Seq<u8>, Stored<V>>::empty(),
    {
        Cache { backend: InMemoryBackend::new() }
    }

    /// The first half of `load_or_fetch`: a good cached value is a hit, anything else needs a fetch.
    pub fn begin_load(&mut self, key: &Vec<u8>, now_ms: u64) -> (r: LoadStep<V>)
        requires
            old(self).backend.wf(),
        ensures
            final(self).backend.wf(),
            match cached_value(old(self).backend.contents(), key@, now_ms) {
                Some(v) => r matches LoadStep::Hit(a) && *a == v,
                None => r is Fetch,
            },
            final(self).backend.contents() == after_lookup(old(self).backend.contents(), key@, now_ms),
    {
        match self.backend.get(key, now_ms) {
            Some(a) => LoadStep::Hit(a),
            None => LoadStep::Fetch,
        }
    }

    /// The second half of `load_or_fetch`: the fetched value is stored for its
    /// time to live and handed back.
    pub fn finish_load(&mut self, key: Vec<u8>, outcome: FetchOutcome<V>, now_ms: u64) -> (r: Arc<V>)
        requires
            old(self).backend.wf(),
            ttl_fits(outcome.ttl_ms, now_ms),
        ensures
            final(self).backend.wf(),
            *r == outcome.value,
            final(self).backend.contents() == old(self).backend.contents().insert(key@, (outcome.value, deadline_of(outcome.ttl_ms, now_ms))),
    {
        let a = Arc::new(outcome.value);
        let b = share(&a);
        self.backend.insert(key, b, outcome.ttl_ms, now_ms);
        a
    }
}


/// A lookup at `now` does not change what any key answers at `now`.
proof fn lemma_after_lookup_same_answers<V>(m: Map<Seq<u8>, Stored<V>>, key: Seq<u8>, other: Seq<u8>, now_ms: u64)
    ensures
        cached_value(after_lookup(m, key, now_ms), other, now_ms) == cached_value(m, other, now_ms),
{
}

/// The values that the cache holds, still good at `now`, for the keys in order.
pub open spec fn hits_of<V>(m: Map<Seq<u8>, Stored<V>>, keys: Seq<Seq<u8>>, now_ms: u64) -> Seq<V>
    decreases keys.len(),
{
    if keys.len() == 0 {
        Seq::<V>::empty()
    } else {
        let rest = hits_of(m, keys.drop_last(), now_ms);
        match cached_value(m, keys.last(), now_ms) {
            Some(v) => rest.push(v),
            None => rest,
        }
    }
}

/// The keys, in order, that the cache holds nothing good for at `now`.
pub open spec fn misses_of<V>(m: Map<Seq<u8>, Stored<V>>, keys: Seq<Seq<u8>>, now_ms: u64) -> Seq<Seq<u8>>
    decreases keys.len(),
{
    if keys.len() == 0 {
        Seq::<Seq<u8>>::empty()
    } else {
        let rest = misses_of(m, keys.drop_last(), now_ms);
        match cached_value(m, keys.last(), now_ms) {
            Some(v) => rest,
            None => rest.push(keys.last()),
        }
    }
}

/// The byte views of keys.
pub open spec fn key_views(v: Seq<Vec<u8>>) -> Seq<Seq<u8>> {
    v.map_values(|k: Vec<u8>| k@)
}

/// The values of shared pointers.
pub open spec fn arc_values<V>(v: Seq<Arc<V>>) -> Seq<V> {
    v.map_values(|a: Arc<V>| *a)
}

/// Splits lookup-table keys into those the cache answers and those to fetch,
/// as the first step of `fetch_many`.
pub fn split_cached<V>(cache: &mut Cache<V>, keys: &Vec<Vec<u8>>, now_ms: u64) -> (r: (Vec<Arc<V>>, Vec<Vec<u8>>))
    requires
        old(cache).backend.wf(),
    ensures
        final(cache).backend.wf(),
        arc_values(r.0@) == hits_of(old(cache).backend.contents(), key_views(keys@), now_ms),
        key_views(r.1@) == misses_of(old(cache).backend.contents(), key_views(keys@), now_ms),
        forall|k: Seq<u8>| cached_value(#[trigger] final(cache).backend.contents(), k, now_ms) == cached_value(old(cache).backend.contents(), k, now_ms),
{
    let ghost m0 = cache.backend.contents();
    let mut hits: Vec<Arc<V>> = Vec::new();
    let mut missing: Vec<Vec<u8>> = Vec::new();
    for i in 0..keys.len()
        invariant
            cache.backend.wf(),
            forall|k: Seq<u8>| cached_value(#[trigger] cache.backend.contents(), k, now_ms) == cached_value(m0, k, now_ms),
            arc_values(hits@) == hits_of(m0, key_views(keys@.subrange(0, i as int)), now_ms),
            key_views(missing@) == misses_of(m0, key_views(keys@.subrange(0, i as int)), now_ms),
    {
        let ghost before = cache.backend.contents();
        let ghost pre = key_views(keys@.subrange(0, i + 1));
        proof {
            assert(keys@.subrange(0, i + 1) =~= keys@.subrange(0, i as int).push(keys@[i as int]));
            assert(pre =~= key_views(keys@.subrange(0, i as int)).push(keys@[i as int]@));
            assert(pre.drop_last() =~= key_views(keys@.subrange(0, i as int)));
        }
        let ghost ans = cached_value(before, keys@[i as int]@, now_ms);
        assert(ans == cached_value(m0, keys@[i as int]@, now_ms));
        match cache.backend.get(&keys[i], now_ms) {
            Some(a) => {
                let ghost h = hits@;
                hits.push(a);
                assert(arc_values(hits@) =~= arc_values(h).push(*a));
            },
            None => {
                let ghost ms = missing@;
                missing.push(keys[i].clone());
                assert(key_views(missing@) =~= key_views(ms).push(keys@[i as int]@));
            },
        }
        proof {
            assert forall|k: Seq<u8>| cached_value(#[trigger] cache.backend.contents(), k, now_ms) == cached_value(m0, k, now_ms) by {
                lemma_after_lookup_same_answers(before, keys@[i as int]@, k, now_ms);
            }
        }
    }
    assert(keys@.subrange(0, keys@.len() as int) =~= keys@);
    (hits, missing)
}

/// At most this many lookup tables are fetched in one request.
pub const ALT_BATCH_LIMIT: usize = 100;

/// The batches joined back together.
pub open spec fn joined(batches: Seq<Vec<Vec<u8>>>) -> Seq<Vec<u8>>
    decreases batches.len(),
{
    if batches.len() == 0 {
        Seq::<Vec<u8>>::empty()
    } else {
        joined(batches.drop_last()) + batches.last()@
    }
}

/// Splits keys into batches of `ALT_BATCH_LIMIT`, the last one possibly
/// shorter, as `refresh_many` fetches them: joined back, they are the keys.
pub fn batch_keys(keys: &Vec<Vec<u8>>) -> (batches: Vec<Vec<Vec<u8>>>)
    ensures
        key_views(joined(batches@)) == key_views(keys@),
        forall|b: int| 0 <= b < batches@.len() ==> 0 < (#[trigger] batches@[b])@.len() <= ALT_BATCH_LIMIT,
        forall|b: int| 0 <= b < batches@.len() - 1 ==> (#[trigger] batches@[b])@.len() == ALT_BATCH_LIMIT,
{
    let mut batches: Vec<Vec<Vec<u8>>> = Vec::new();
    let mut current: Vec<Vec<u8>> = Vec::new();
    for i in 0..keys.len()
        invariant
            key_views(joined(batches@) + current@) == key_views(keys@.subrange(0, i as int)),
            current@.len() < ALT_BATCH_LIMIT,
            forall|b: int| 0 <= b < batches@.len() ==> (#[trigger] batches@[b])@.len() == ALT_BATCH_LIMIT,
    {
        let ghost before = joined(batches@) + current@;
        let c = keys[i].clone();
        assert(c@ == keys@[i as int]@);
        current.push(c);
        assert(key_views(joined(batches@) + current@) =~= key_views(keys@.subrange(0, i + 1))) by {
            assert(joined(batches@) + current@ =~= before.push(c));
            assert(key_views(before.push(c)) =~= key_views(before).push(c@));
            assert(keys@.subrange(0, i + 1) =~= keys@.subrange(0, i as int).push(keys@[i as int]));
            assert(key_views(keys@.subrange(0, i + 1)) =~= key_views(keys@.subrange(0, i as int)).push(keys@[i as int]@));
        }
        if current.len() == ALT_BATCH_LIMIT {
            let ghost bs = batches@;
            let full = current;
            current = Vec::new();
            batches.push(full);
            assert(batches@.drop_last() =~= bs);
            assert(joined(batches@) + current@ =~= joined(bs) + full@);
        }
    }
    if current.len() > 0 {
        let ghost bs = batches@;
        let last = current;
        batches.push(last);
        assert(batches@.drop_last() =~= bs);
    } else {
        assert(joined(batches@) + current@ =~= joined(batches@));
    }
    assert(keys@.subrange(0, keys@.len() as int) =~= keys@);
    batches
}


// ---------------------------------------------------------------------------
// Address lookup tables fetched into the cache.

/// The addresses that `AddressLookupTable::deserialize` reads from the data
/// of a lookup table account, or none when it refuses the data.
pub uninterp spec fn lookup_table_addresses(data: Seq<u8>) -> Option<Seq<Seq<u8>>>;

/// Reads the addresses of a lookup table account with
/// `solana_address_lookup_table_interface::state::AddressLookupTable::deserialize`.
/// Trusted: the result is named by `lookup_table_addresses`, each address
/// given by its 32 bytes.
#[verifier::external_body]
fn decode_lookup_table_addresses(data: &Vec<u8>) -> (r: Option<Vec<Vec<u8>>>)
    ensures
        match r {
            Some(v) => lookup_table_addresses(data@) == Some(key_views(v@)),
            None => lookup_table_addresses(data@) is None,
        },
{
    solana_address_lookup_table_interface::state::AddressLookupTable::deserialize(data)
        .ok()
        .map(|table| table.addresses.iter().map(|a| a.to_bytes().to_vec()).collect())
}

/// A lookup table as plain values: its key and its addresses.
pub open spec fn table_view(t: LookupTableAccount) -> (Seq<u8>, Seq<Seq<u8>>) {
    (t.key@, key_views(t.addresses@))
}

/// The table under `address` given its account data, or none.
pub fn deserialize_lookup_table(address: &Vec<u8>, data: &Vec<u8>) -> (r: Option<LookupTableAccount>)
    ensures
        match r {
            Some(t) => lookup_table_addresses(data@) == Some(key_views(t.addresses@)) && t.key@ == address@,
            None => lookup_table_addresses(data@) is None,
        },
{
    match decode_lookup_table_addresses(data) {
        Some(addresses) => Some(LookupTableAccount { key: address.clone(), addresses }),
        None => None,
    }
}

fn clone_table(t: &LookupTableAccount) -> (r: LookupTableAccount)
    ensures
        table_view(r) == table_view(*t),
{
    let mut addresses: Vec<Vec<u8>> = Vec::new();
    for i in 0..t.addresses.len()
        invariant
            key_views(addresses@) == key_views(t.addresses@.take(i as int)),
    {
        let ghost before = addresses@;
        let a = t.addresses[i].clone();
        addresses.push(a);
        assert(key_views(addresses@) =~= key_views(before).push(a@));
        assert(t.addresses@.take(i + 1) =~= t.addresses@.take(i as int).push(t.addresses@[i as int]));
        assert(key_views(t.addresses@.take(i + 1)) =~= key_views(t.addresses@.take(i as int)).push(t.addresses@[i as int]@));
    }
    assert(t.addresses@.take(t.addresses@.len() as int) =~= t.addresses@);
    LookupTableAccount { key: t.key.clone(), addresses }
}

/// What a fetched account yields: the table's addresses when the account
/// exists and reads as a lookup table.
pub open spec fn table_of(account: Option<Seq<u8>>) -> Option<Seq<Seq<u8>>> {
    match account {
        Some(d) => lookup_table_addresses(d),
        None => None,
    }
}

/// Stores what was fetched for one address, as `decode_and_store` and the
/// empty-account case of `collect_accounts` do: a readable table is cached
/// for good under its address and handed back; otherwise the address is
/// dropped from the cache.
pub fn store_fetched_table(cache: &mut Cache<LookupTableAccount>, address: &Vec<u8>, account: Option<&Vec<u8>>, now_ms: u64) -> (r: Option<LookupTableAccount>)
    requires
        old(cache).backend.wf(),
    ensures
        final(cache).backend.wf(),
        match table_of(match account { Some(d) => Some(d@), None => None }) {
            Some(addrs) => {
                &&& r matches Some(t) && table_view(t) == (address@, addrs)
                &&& final(cache).backend.contents().contains_key(address@)
                &&& table_view(final(cache).backend.contents()[address@].0) == (address@, addrs)
                &&& final(cache).backend.contents()[address@].1 is None
                &&& final(cache).backend.contents().remove(address@) == old(cache).backend.contents().remove(address@)
            },
            None => r is None && final(cache).backend.contents() == old(cache).backend.contents().remove(address@),
        },
{
    let decoded = match account {
        Some(data) => deserialize_lookup_table(address, data),
        None => None,
    };
    match decoded {
        Some(table) => {
            let stored = clone_table(&table);
            let ghost m0 = cache.backend.contents();
            cache.backend.insert(address.clone(), Arc::new(stored), None, now_ms);
            assert(cache.backend.contents().remove(address@) =~= m0.remove(address@));
            Some(table)
        },
        None => {
            cache.backend.remove(address);
            None
        },
    }
}

/// The account views of fetched accounts.
pub open spec fn account_views(v: Seq<Option<Vec<u8>>>) -> Seq<Option<Seq<u8>>> {
    v.map_values(|o: Option<Vec<u8>>| match o {
        Some(d) => Some(d@),
        None => None,
    })
}

/// The last of the first `n` addresses that equals `k`.
pub open spec fn last_at(addrs: Seq<Seq<u8>>, k: Seq<u8>, n: int) -> Option<int>
    decreases n,
{
    if n <= 0 {
        None
    } else if addrs[n - 1] == k {
        Some(n - 1)
    } else {
        last_at(addrs, k, n - 1)
    }
}

/// After the first `n` fetched accounts are stored, the cache entry of `k`
/// is settled by the last of them under `k`: the table it yields, or no
/// entry; a key not fetched keeps its entry.
pub open spec fn entry_settled(
    cur: Map<Seq<u8>, Stored<LookupTableAccount>>,
    start: Map<Seq<u8>, Stored<LookupTableAccount>>,
    addrs: Seq<Seq<u8>>,
    accounts: Seq<Option<Seq<u8>>>,
    n: int,
    k: Seq<u8>,
) -> bool {
    match last_at(addrs, k, n) {
        None => cur.contains_key(k) == start.contains_key(k) && (start.contains_key(k) ==> cur[k] == start[k]),
        Some(j) => match table_of(accounts[j]) {
            Some(a) => cur.contains_key(k) && table_view(cur[k].0) == (k, a) && cur[k].1 is None,
            None => !cur.contains_key(k),
        },
    }
}

/// The tables the first `n` fetched accounts yield, in order, each with its address.
pub open spec fn found_tables(addrs: Seq<Seq<u8>>, accounts: Seq<Option<Seq<u8>>>, n: int) -> Seq<(Seq<u8>, Seq<Seq<u8>>)>
    decreases n,
{
    if n <= 0 {
        Seq::empty()
    } else {
        let rest = found_tables(addrs, accounts, n - 1);
        match table_of(accounts[n - 1]) {
            Some(a) => rest.push((addrs[n - 1], a)),
            None => rest,
        }
    }
}

/// The tables as plain values.
pub open spec fn table_views(v: Seq<LookupTableAccount>) -> Seq<(Seq<u8>, Seq<Seq<u8>>)> {
    v.map_values(|t: LookupTableAccount| table_view(t))
}

/// How many address and account pairs a zip of the two lists makes.
pub open spec fn paired_len(a: nat, b: nat) -> int {
    if a < b { a as int } else { b as int }
}

/// Stores a batch of fetched accounts, address by address, as
/// `collect_accounts` does, and gives back the tables that were read.
pub fn collect_accounts(cache: &mut Cache<LookupTableAccount>, addresses: &Vec<Vec<u8>>, accounts: &Vec<Option<Vec<u8>>>, now_ms: u64) -> (r: Vec<LookupTableAccount>)
    requires
        old(cache).backend.wf(),
    ensures
        final(cache).backend.wf(),
        table_views(r@) == found_tables(key_views(addresses@), account_views(accounts@), paired_len(addresses@.len(), accounts@.len())),
        forall|k: Seq<u8>| #[trigger] entry_settled(final(cache).backend.contents(), old(cache).backend.contents(),
            key_views(addresses@), account_views(accounts@), paired_len(addresses@.len(), accounts@.len()), k),
{
    let ghost m0 = cache.backend.contents();
    let ghost av = key_views(addresses@);
    let ghost accv = account_views(accounts@);
    let n = if addresses.len() < accounts.len() { addresses.len() } else { accounts.len() };
    let mut collected: Vec<LookupTableAccount> = Vec::new();
    let mut i: usize = 0;
    while i < n
        invariant
            i <= n,
            n == paired_len(addresses@.len(), accounts@.len()),
            n <= addresses@.len(),
            n <= accounts@.len(),
            av == key_views(addresses@),
            accv == account_views(accounts@),
            cache.backend.wf(),
            table_views(collected@) == found_tables(av, accv, i as int),
            forall|k: Seq<u8>| #[trigger] entry_settled(cache.backend.contents(), m0, av, accv, i as int, k),
        decreases n - i,
    {
        let ghost before = cache.backend.contents();
        let ghost c0 = collected@;
        let account = match &accounts[i] {
            Some(d) => Some(d),
            None => None,
        };
        assert(accv[i as int] == match account { Some(d) => Some(d@), None => None::<Seq<u8>> });
        assert(av[i as int] == addresses@[i as int]@);
        let found = store_fetched_table(cache, &addresses[i], account, now_ms);
        match found {
            Some(t) => {
                collected.push(t);
                assert(table_views(collected@) =~= table_views(c0).push(table_view(t)));
            },
            None => {},
        }
        proof {
            let after = cache.backend.contents();
            assert forall|k: Seq<u8>| #[trigger] entry_settled(after, m0, av, accv, i + 1, k) by {
                assert(entry_settled(before, m0, av, accv, i as int, k));
                if k != av[i as int] {
                    assert(last_at(av, k, i + 1) == last_at(av, k, i as int));
                    assert(after.contains_key(k) == before.contains_key(k)) by {
                        assert(after.remove(av[i as int]).contains_key(k) == after.contains_key(k));
                        assert(before.remove(av[i as int]).contains_key(k) == before.contains_key(k));
                    }
                    if before.contains_key(k) {
                        assert(after.remove(av[i as int])[k] == after[k]);
                        assert(before.remove(av[i as int])[k] == before[k]);
                    }
                } else {
                    assert(last_at(av, k, i + 1) == Some(i as int));
                }
            }
        }
        i = i + 1;
    }
    collected
}


/// The tables behind shared pointers, as plain values.
pub open spec fn arc_table_views(v: Seq<Arc<LookupTableAccount>>) -> Seq<(Seq<u8>, Seq<Seq<u8>>)> {
    v.map_values(|a: Arc<LookupTableAccount>| table_view(*a))
}

/// The second half of `fetch_many`, after `split_cached` and the fetch of the
/// missing addresses: the cached tables first, in order, then the tables read
/// from the fetched accounts, which are stored as `collect_accounts` stores them.
pub fn finish_fetch_many(
    cache: &mut Cache<LookupTableAccount>,
    hits: &Vec<Arc<LookupTableAccount>>,
    missing: &Vec<Vec<u8>>,
    fetched: &Vec<Option<Vec<u8>>>,
    now_ms: u64,
) -> (r: Vec<LookupTableAccount>)
    requires
        old(cache).backend.wf(),
    ensures
        final(cache).backend.wf(),
        table_views(r@) == arc_table_views(hits@)
            + found_tables(key_views(missing@), account_views(fetched@), paired_len(missing@.len(), fetched@.len())),
        forall|k: Seq<u8>| #[trigger] entry_settled(final(cache).backend.contents(), old(cache).backend.contents(),
            key_views(missing@), account_views(fetched@), paired_len(missing@.len(), fetched@.len()), k),
{
    let mut out: Vec<LookupTableAccount> = Vec::new();
    for i in 0..hits.len()
        invariant
            table_views(out@) == arc_table_views(hits@.take(i as int)),
    {
        let t = clone_table(&*hits[i]);
        let ghost before = out@;
        out.push(t);
        assert(table_views(out@) =~= table_views(before).push(table_view(t)));
        assert(hits@.take(i + 1) =~= hits@.take(i as int).push(hits@[i as int]));
        assert(arc_table_views(hits@.take(i + 1)) =~= arc_table_views(hits@.take(i as int)).push(table_view(*hits@[i as int])));
    }
    assert(hits@.take(hits@.len() as int) =~= hits@);
    let found = collect_accounts(cache, missing, fetched, now_ms);
    let ghost head = out@;
    for i in 0..found.len()
        invariant
            table_views(out@) == table_views(head) + table_views(found@.take(i as int)),
    {
        let t = clone_table(&found[i]);
        let ghost before = out@;
        out.push(t);
        assert(table_views(out@) =~= table_views(before).push(table_view(t)));
        assert(found@.take(i + 1) =~= found@.take(i as int).push(found@[i as int]));
        assert(table_views(found@.take(i + 1)) =~= table_views(found@.take(i as int)).push(table_view(found@[i as int])));
    }
    assert(found@.take(found@.len() as int) =~= found@);
    out
}

} // verus!
