//! The lookup tables a Kamino route names. The service writes them in several
//! shapes (bare keys, objects with one of several key fields, nested lists),
//! which are walked here from the JSON of the route.
use vstd::prelude::*;
use vstd::string::*;
use crate::text::{trim, trim_spec, string_views};
use crate::config::same_text;
use super::kamino_quote::LookupTableEntry;
use crate::json::Json;

verus! {

/// The fields an entry's key is read from, in the order they are tried.
pub open spec fn key_sources() -> Seq<Seq<char>> {
    seq!["key"@, "address"@, "lookupTable"@, "lookupTableAddress"@, "lookupTableAccountAddress"@, "lookupTablePubkey"@, "pubkey"@]
}

/// The value of the first member named `name`.
pub open spec fn field(fields: Seq<(String, Json)>, name: Seq<char>) -> Option<Json>
    decreases fields.len(),
{
    if fields.len() == 0 {
        None
    } else if fields[0].0@ == name {
        Some(fields[0].1)
    } else {
        field(fields.drop_first(), name)
    }
}

/// The trimmed text of a string that is not blank.
pub open spec fn nonblank_str(v: Option<Json>) -> Option<Seq<char>> {
    match v {
        Some(Json::Str(s)) => if trim_spec(s@).len() > 0 { Some(trim_spec(s@)) } else { None },
        _ => None,
    }
}

/// The first key source, from the `k`-th on, that holds a string that is not
/// blank: its position and the trimmed string.
pub open spec fn found_key(fields: Seq<(String, Json)>, k: nat) -> Option<(nat, Seq<char>)>
    decreases 7 - k,
{
    if k >= 7 {
        None
    } else {
        match nonblank_str(field(fields, key_sources()[k as int])) {
            Some(t) => Some((k, t)),
            None => found_key(fields, k + 1),
        }
    }
}

/// The strings of a list that are not blank, trimmed, in order.
pub open spec fn strings_of(items: Seq<Json>) -> Seq<Seq<char>>
    decreases items.len(),
{
    if items.len() == 0 {
        Seq::<Seq<char>>::empty()
    } else {
        let rest = strings_of(items.drop_last());
        match nonblank_str(Some(items.last())) {
            Some(t) => rest.push(t),
            None => rest,
        }
    }
}

/// The list without repeats, each first occurrence kept in place.
pub open spec fn dedup(s: Seq<Seq<char>>) -> Seq<Seq<char>>
    decreases s.len(),
{
    if s.len() == 0 {
        Seq::<Seq<char>>::empty()
    } else if s.drop_last().contains(s.last()) {
        dedup(s.drop_last())
    } else {
        dedup(s.drop_last()).push(s.last())
    }
}

/// The strings of the list under `name`, if the member is a list.
pub open spec fn list_strings(v: Option<Json>) -> Seq<Seq<char>> {
    match v {
        Some(Json::Array(items)) => strings_of(items@),
        _ => Seq::<Seq<char>>::empty(),
    }
}

/// The addresses an object with a key lists: those of `state.addresses`, then
/// those of `addresses`, without repeats.
pub open spec fn entry_addresses(fields: Seq<(String, Json)>) -> Seq<Seq<char>> {
    let from_state = match field(fields, "state"@) {
        Some(Json::Object(st)) => list_strings(field(st@, "addresses"@)),
        _ => Seq::<Seq<char>>::empty(),
    };
    dedup(from_state + list_strings(field(fields, "addresses"@)))
}

/// A member that reading the entry took out of the object: the key sources
/// up to the one that held the key (all of them when none did), and `state`
/// and `addresses` when a key was found.
pub open spec fn taken(name: Seq<char>, found: Option<(nat, Seq<char>)>) -> bool {
    match found {
        Some((k, _)) => (exists|i: int| 0 <= i <= k && key_sources()[i] == name) || name == "state"@ || name == "addresses"@,
        None => key_sources().contains(name),
    }
}

/// An entry as its key and addresses.
pub type EntryView = (Seq<char>, Seq<Seq<char>>);

/// The entries a JSON value names, in the order the walk meets them: a
/// string that is not blank is a key; lists are walked item by item; an
/// object with a key is an entry, and its other members are walked.
pub open spec fn walk_spec(v: Json) -> Seq<EntryView>
    decreases v, 0nat,
{
    match v {
        Json::Str(s) => if trim_spec(s@).len() > 0 {
            seq![(trim_spec(s@), Seq::<Seq<char>>::empty())]
        } else {
            Seq::<EntryView>::empty()
        },
        Json::Array(items) => walk_items(items@, items@.len()),
        Json::Object(fields) => {
            let found = found_key(fields@, 0);
            let own = match found {
                Some((_, key)) => seq![(key, entry_addresses(fields@))],
                None => Seq::<EntryView>::empty(),
            };
            own + walk_fields(fields@, fields@.len(), found)
        },
        _ => Seq::<EntryView>::empty(),
    }
}

/// The entries of the first `n` items of a list.
pub open spec fn walk_items(s: Seq<Json>, n: nat) -> Seq<EntryView>
    decreases s, n,
{
    if n == 0 || n > s.len() {
        Seq::<EntryView>::empty()
    } else {
        walk_items(s, (n - 1) as nat) + walk_spec(s[n - 1])
    }
}

/// The entries of the first `n` members of an object that were not taken out.
pub open spec fn walk_fields(s: Seq<(String, Json)>, n: nat, found: Option<(nat, Seq<char>)>) -> Seq<EntryView>
    decreases s, n,
{
    if n == 0 || n > s.len() {
        Seq::<EntryView>::empty()
    } else if taken(s[n - 1].0@, found) {
        walk_fields(s, (n - 1) as nat, found)
    } else {
        walk_fields(s, (n - 1) as nat, found) + walk_spec(s[n - 1].1)
    }
}

/// The view of an entry.
pub open spec fn entry_view(e: LookupTableEntry) -> EntryView {
    (e.key@, string_views(e.addresses@))
}

/// The views of entries.
pub open spec fn entry_views(v: Seq<LookupTableEntry>) -> Seq<EntryView> {
    v.map_values(|e: LookupTableEntry| entry_view(e))
}

/// The entries without repeated keys, the first of each kept.
pub open spec fn dedup_by_key(s: Seq<EntryView>) -> Seq<EntryView>
    decreases s.len(),
{
    if s.len() == 0 {
        Seq::<EntryView>::empty()
    } else if exists|i: int| 0 <= i < s.len() - 1 && #[trigger] s[i].0 == s.last().0 {
        dedup_by_key(s.drop_last())
    } else {
        dedup_by_key(s.drop_last()).push(s.last())
    }
}


proof fn lemma_field_at(s: Seq<(String, Json)>, name: Seq<char>, i: int)
    requires
        0 <= i <= s.len(),
        forall|k: int| 0 <= k < i ==> (#[trigger] s[k]).0@ != name,
        i < s.len() ==> s[i].0@ == name,
    ensures
        field(s, name) == if i < s.len() { Some(s[i].1) } else { None },
    decreases i,
{
    if i > 0 {
        let t = s.drop_first();
        assert forall|k: int| 0 <= k < i - 1 implies (#[trigger] t[k]).0@ != name by {
            assert(t[k] == s[k + 1]);
        }
        lemma_field_at(t, name, i - 1);
        if i < s.len() {
            assert(t[i - 1] == s[i]);
        }
    } else if s.len() > 0 {
        assert(s[0].0@ == name);
    }
}

/// The first member named `name`.
fn find_field<'a>(fields: &'a Vec<(String, Json)>, name: &str) -> (r: Option<&'a Json>)
    ensures
        match r {
            Some(j) => field(fields@, name@) == Some(*j),
            None => field(fields@, name@) is None,
        },
{
    let mut i: usize = 0;
    while i < fields.len()
        invariant
            i <= fields@.len(),
            forall|k: int| 0 <= k < i ==> (#[trigger] fields@[k]).0@ != name@,
        decreases fields@.len() - i,
    {
        if same_text(fields[i].0.as_str(), name) {
            proof {
                lemma_field_at(fields@, name@, i as int);
            }
            return Some(&fields[i].1);
        }
        i = i + 1;
    }
    proof {
        lemma_field_at(fields@, name@, i as int);
    }
    None
}

/// The trimmed text, unless it is blank.
pub fn non_empty(value: String) -> (r: Option<String>)
    ensures
        match r {
            Some(t) => trim_spec(value@).len() > 0 && t@ == trim_spec(value@),
            None => trim_spec(value@).len() == 0,
        },
{
    let t = trim(value.as_str());
    if t.unicode_len() > 0 { Some(t) } else { None }
}

/// The trimmed text of a string value that is not blank.
fn nonblank_text(v: Option<&Json>) -> (r: Option<String>)
    ensures
        match v {
            Some(j) => match r {
                Some(s) => nonblank_str(Some(*j)) == Some(s@),
                None => nonblank_str(Some(*j)) is None,
            },
            None => r is None,
        },
{
    match v {
        Some(Json::Str(s)) => non_empty(s.clone()),
        _ => None,
    }
}

/// The `k`-th key source.
fn key_source(k: usize) -> (r: &'static str)
    requires
        k < 7,
    ensures
        r@ == key_sources()[k as int],
{
    proof {
        reveal_strlit("key");
        reveal_strlit("address");
        reveal_strlit("lookupTable");
        reveal_strlit("lookupTableAddress");
        reveal_strlit("lookupTableAccountAddress");
        reveal_strlit("lookupTablePubkey");
        reveal_strlit("pubkey");
    }
    if k == 0 {
        "key"
    } else if k == 1 {
        "address"
    } else if k == 2 {
        "lookupTable"
    } else if k == 3 {
        "lookupTableAddress"
    } else if k == 4 {
        "lookupTableAccountAddress"
    } else if k == 5 {
        "lookupTablePubkey"
    } else {
        "pubkey"
    }
}

/// The key of an object: the first key source holding a string that is not blank.
fn find_key(fields: &Vec<(String, Json)>) -> (r: Option<(usize, String)>)
    ensures
        match r {
            Some((k, t)) => found_key(fields@, 0) == Some((k as nat, t@)),
            None => found_key(fields@, 0) is None,
        },
{
    let mut k: usize = 0;
    while k < 7
        invariant
            k <= 7,
            found_key(fields@, 0) == found_key(fields@, k as nat),
        decreases 7 - k,
    {
        let name = key_source(k);
        match nonblank_text(find_field(fields, name)) {
            Some(t) => {
                return Some((k, t));
            },
            None => {
                k = k + 1;
            },
        }
    }
    None
}

/// The strings of a list that are not blank, trimmed.
fn strings_from(items: &Vec<Json>) -> (r: Vec<String>)
    ensures
        string_views(r@) == strings_of(items@),
{
    let mut out: Vec<String> = Vec::new();
    for i in 0..items.len()
        invariant
            string_views(out@) == strings_of(items@.subrange(0, i as int)),
    {
        let ghost pre = items@.subrange(0, i + 1);
        assert(pre.drop_last() =~= items@.subrange(0, i as int));
        assert(pre.last() == items@[i as int]);
        match nonblank_text(Some(&items[i])) {
            Some(t) => {
                let ghost before = out@;
                out.push(t);
                assert(string_views(out@) =~= string_views(before).push(t@));
            },
            None => {},
        }
    }
    assert(items@.subrange(0, items@.len() as int) =~= items@);
    out
}

proof fn lemma_dedup_contains(s: Seq<Seq<char>>, x: Seq<char>)
    ensures
        dedup(s).contains(x) <==> s.contains(x),
    decreases s.len(),
{
    if s.len() > 0 {
        lemma_dedup_contains(s.drop_last(), x);
        if s.drop_last().contains(x) {
            let k = choose|k: int| 0 <= k < s.drop_last().len() && s.drop_last()[k] == x;
            assert(s[k] == x);
        }
        if s.contains(x) && !s.drop_last().contains(x) {
            let k = choose|k: int| 0 <= k < s.len() && s[k] == x;
            if k < s.len() - 1 {
                assert(s.drop_last()[k] == x);
            }
        }
        if !s.drop_last().contains(s.last()) {
            assert(dedup(s) == dedup(s.drop_last()).push(s.last()));
            assert(dedup(s)[dedup(s).len() - 1] == s.last());
            if dedup(s).contains(x) {
                let k = choose|k: int| 0 <= k < dedup(s).len() && dedup(s)[k] == x;
                if k < dedup(s).len() - 1 {
                    assert(dedup(s.drop_last())[k] == x);
                }
            }
            if dedup(s.drop_last()).contains(x) {
                let k = choose|k: int| 0 <= k < dedup(s.drop_last()).len() && dedup(s.drop_last())[k] == x;
                assert(dedup(s)[k] == x);
            }
        } else {
            assert(s.drop_last().contains(s.last()));
        }
    }
}

/// Whether a text is among texts.
fn contains_text(v: &Vec<String>, t: &String) -> (r: bool)
    ensures
        r == string_views(v@).contains(t@),
{
    let mut i: usize = 0;
    while i < v.len()
        invariant
            i <= v@.len(),
            forall|k: int| 0 <= k < i ==> (#[trigger] v@[k])@ != t@,
        decreases v@.len() - i,
    {
        if same_text(v[i].as_str(), t.as_str()) {
            assert(string_views(v@)[i as int] == t@);
            return true;
        }
        i = i + 1;
    }
    proof {
        if string_views(v@).contains(t@) {
            let k = choose|k: int| 0 <= k < string_views(v@).len() && string_views(v@)[k] == t@;
            assert(v@[k]@ == t@);
        }
    }
    false
}

/// The texts without repeats, each first occurrence kept.
fn dedup_texts(v: &Vec<String>) -> (r: Vec<String>)
    ensures
        string_views(r@) == dedup(string_views(v@)),
{
    let mut out: Vec<String> = Vec::new();
    for i in 0..v.len()
        invariant
            string_views(out@) == dedup(string_views(v@.subrange(0, i as int))),
    {
        let ghost prev = string_views(v@.subrange(0, i as int));
        let ghost pre = string_views(v@.subrange(0, i + 1));
        assert(v@.subrange(0, i + 1) =~= v@.subrange(0, i as int).push(v@[i as int]));
        assert(pre =~= prev.push(v@[i as int]@));
        assert(pre.drop_last() =~= prev);
        proof {
            lemma_dedup_contains(prev, v@[i as int]@);
        }
        if !contains_text(&out, &v[i]) {
            let ghost before = out@;
            let c = v[i].clone();
            out.push(c);
            assert(string_views(out@) =~= string_views(before).push(c@));
        }
    }
    assert(v@.subrange(0, v@.len() as int) =~= v@);
    out
}

/// The addresses of an object that has a key.
fn addresses_of(fields: &Vec<(String, Json)>) -> (r: Vec<String>)
    ensures
        string_views(r@) == entry_addresses(fields@),
{
    proof {
        reveal_strlit("state");
        reveal_strlit("addresses");
    }
    let mut all: Vec<String> = Vec::new();
    match find_field(fields, "state") {
        Some(Json::Object(st)) => {
            match find_field(st, "addresses") {
                Some(Json::Array(items)) => {
                    all = strings_from(items);
                },
                _ => {},
            }
        },
        _ => {},
    }
    let ghost from_state = string_views(all@);
    match find_field(fields, "addresses") {
        Some(Json::Array(items)) => {
            let more = strings_from(items);
            let ghost a = all@;
            let mut j: usize = 0;
            while j < more.len()
                invariant
                    j <= more@.len(),
                    all@ == a + more@.subrange(0, j as int),
                decreases more@.len() - j,
            {
                all.push(more[j].clone());
                assert(all@ =~= a + more@.subrange(0, j + 1));
                j = j + 1;
            }
            assert(more@.subrange(0, more@.len() as int) =~= more@);
            assert(string_views(all@) =~= from_state + string_views(more@));
        },
        _ => {
            assert(string_views(all@) =~= from_state + Seq::<Seq<char>>::empty());
        },
    }
    dedup_texts(&all)
}

/// Whether reading the entry took a member out of the object.
#[verifier::loop_isolation(false)]
fn is_taken(name: &String, found: &Option<(usize, String)>) -> (r: bool)
    requires
        found matches Some((k, _)) ==> k < 7,
    ensures
        r == taken(name@, match found { Some((k, t)) => Some((*k as nat, t@)), None => None }),
{
    proof {
        reveal_strlit("state");
        reveal_strlit("addresses");
    }
    match found {
        Some((k, _)) => {
            if same_text(name.as_str(), "state") || same_text(name.as_str(), "addresses") {
                return true;
            }
            let mut i: usize = 0;
            while i <= *k
                invariant
                    *k < 7,
                    i <= *k + 1,
                    forall|q: int| 0 <= q < i ==> key_sources()[q] != name@,
                decreases *k + 1 - i,
            {
                if same_text(name.as_str(), key_source(i)) {
                    assert(key_sources()[i as int] == name@);
                    assert(exists|q: int| 0 <= q <= *k && key_sources()[q] == name@);
                    return true;
                }
                i = i + 1;
            }
            false
        },
        None => {
            let mut i: usize = 0;
            while i < 7
                invariant
                    i <= 7,
                    forall|q: int| 0 <= q < i ==> key_sources()[q] != name@,
                decreases 7 - i,
            {
                if same_text(name.as_str(), key_source(i)) {
                    assert(key_sources()[i as int] == name@);
                    assert(key_sources().contains(name@));
                    return true;
                }
                i = i + 1;
            }
            false
        },
    }
}


/// The found key in the form `taken` reads it.
pub open spec fn found_view(found: Option<(usize, String)>) -> Option<(nat, Seq<char>)> {
    match found {
        Some((k, t)) => Some((k as nat, t@)),
        None => None,
    }
}

proof fn lemma_found_key_range(fields: Seq<(String, Json)>, k: nat)
    ensures
        found_key(fields, k) matches Some((q, _)) ==> k <= q < 7,
    decreases 7 - k,
{
    if k < 7 {
        lemma_found_key_range(fields, k + 1);
    }
}

/// Appends the entries a JSON value names to `acc`.
pub fn collect_lookup_table_entries(value: &Json, acc: &mut Vec<LookupTableEntry>)
    ensures
        entry_views(final(acc)@) == entry_views(old(acc)@) + walk_spec(*value),
    decreases value,
{
    let ghost start = entry_views(acc@);
    match value {
        Json::Str(s) => {
            let t = trim(s.as_str());
            if t.unicode_len() > 0 {
                let ghost before = acc@;
                let e = LookupTableEntry { key: t, addresses: Vec::new() };
                acc.push(e);
                assert(entry_views(acc@) =~= entry_views(before).push(entry_view(e)));
                assert(string_views(e.addresses@) =~= Seq::<Seq<char>>::empty());
                assert(walk_spec(*value) =~= seq![entry_view(e)]);
            } else {
                assert(walk_spec(*value) =~= Seq::<EntryView>::empty());
            }
        },
        Json::Array(items) => {
            let n = items.len();
            for i in 0..n
                invariant
                    n == items@.len(),
                    *value == Json::Array(*items),
                    entry_views(acc@) == start + walk_items(items@, i as nat),
            {
                proof {
                    let it = (*value)->Array_0;
                    assert(it == *items);
                    assert(decreases_to!(*value => (*value)->Array_0));
                    vstd::std_specs::vec::axiom_vec_index_decreases(it, i as int);
                    assert(decreases_to!(it => it[i as int]));
                    assert(decreases_to!(*value => items@[i as int]));
                }
                collect_lookup_table_entries(&items[i], acc);
                assert(walk_items(items@, (i + 1) as nat) == walk_items(items@, i as nat) + walk_spec(items@[i as int]));
                assert(entry_views(acc@) =~= start + walk_items(items@, (i + 1) as nat));
            }
        },
        Json::Object(fields) => {
            let found = find_key(fields);
            proof {
                lemma_found_key_range(fields@, 0);
            }
            let ghost own = match found_key(fields@, 0) {
                Some((_, key)) => seq![(key, entry_addresses(fields@))],
                None => Seq::<EntryView>::empty(),
            };
            match &found {
                Some((_, key)) => {
                    let ghost before = acc@;
                    let e = LookupTableEntry { key: key.clone(), addresses: addresses_of(fields) };
                    acc.push(e);
                    assert(entry_views(acc@) =~= entry_views(before).push(entry_view(e)));
                },
                None => {},
            }
            let ghost mid = entry_views(acc@);
            assert(mid =~= start + own);
            let n = fields.len();
            for i in 0..n
                invariant
                    n == fields@.len(),
                    *value == Json::Object(*fields),
                    found matches Some((k, _)) ==> k < 7,
                    entry_views(acc@) == mid + walk_fields(fields@, i as nat, found_view(found)),
            {
                let ghost before = entry_views(acc@);
                if !is_taken(&fields[i].0, &found) {
                    proof {
                        let fs = (*value)->Object_0;
                        assert(fs == *fields);
                        assert(decreases_to!(*value => (*value)->Object_0));
                        vstd::std_specs::vec::axiom_vec_index_decreases(fs, i as int);
                        assert(decreases_to!(fs => fs[i as int]));
                        let pair = fs[i as int];
                        assert(decreases_to!(pair => pair.1));
                        assert(decreases_to!(*value => fields@[i as int].1));
                    }
                    collect_lookup_table_entries(&fields[i].1, acc);
                }
                assert(entry_views(acc@) =~= mid + walk_fields(fields@, (i + 1) as nat, found_view(found)));
            }
            assert(found_view(found) == found_key(fields@, 0));
            assert(walk_spec(*value) == own + walk_fields(fields@, fields@.len(), found_key(fields@, 0)));
        },
        _ => {
            assert(walk_spec(*value) =~= Seq::<EntryView>::empty());
        },
    }
}

proof fn lemma_dedup_by_key_has(s: Seq<EntryView>, x: Seq<char>)
    ensures
        (exists|i: int| 0 <= i < dedup_by_key(s).len() && #[trigger] dedup_by_key(s)[i].0 == x)
            <==> (exists|i: int| 0 <= i < s.len() && #[trigger] s[i].0 == x),
    decreases s.len(),
{
    if s.len() > 0 {
        let p = s.drop_last();
        lemma_dedup_by_key_has(p, x);
        let d = dedup_by_key(s);
        let dp = dedup_by_key(p);
        if exists|i: int| 0 <= i < s.len() - 1 && #[trigger] s[i].0 == s.last().0 {
            assert(d == dp);
            if exists|i: int| 0 <= i < s.len() && #[trigger] s[i].0 == x {
                let i = choose|i: int| 0 <= i < s.len() && #[trigger] s[i].0 == x;
                if i < s.len() - 1 {
                    assert(p[i].0 == x);
                } else {
                    let j = choose|j: int| 0 <= j < s.len() - 1 && #[trigger] s[j].0 == s.last().0;
                    assert(p[j].0 == x);
                }
            }
            if exists|i: int| 0 <= i < p.len() && #[trigger] p[i].0 == x {
                let i = choose|i: int| 0 <= i < p.len() && #[trigger] p[i].0 == x;
                assert(s[i].0 == x);
            }
        } else {
            assert(d == dp.push(s.last()));
            if exists|i: int| 0 <= i < d.len() && #[trigger] d[i].0 == x {
                let i = choose|i: int| 0 <= i < d.len() && #[trigger] d[i].0 == x;
                if i < dp.len() {
                    assert(dp[i].0 == x);
                    let j = choose|j: int| 0 <= j < p.len() && #[trigger] p[j].0 == x;
                    assert(s[j].0 == x);
                } else {
                    assert(s[s.len() - 1].0 == x);
                }
            }
            if exists|i: int| 0 <= i < s.len() && #[trigger] s[i].0 == x {
                let i = choose|i: int| 0 <= i < s.len() && #[trigger] s[i].0 == x;
                if i < s.len() - 1 {
                    assert(p[i].0 == x);
                    let j = choose|j: int| 0 <= j < dp.len() && #[trigger] dp[j].0 == x;
                    assert(d[j].0 == x);
                } else {
                    assert(d[d.len() - 1].0 == x);
                }
            }
        }
    }
}

/// Whether an entry with this key is already among the entries.
fn has_key(v: &Vec<LookupTableEntry>, key: &String) -> (r: bool)
    ensures
        r == exists|i: int| 0 <= i < v@.len() && #[trigger] entry_views(v@)[i].0 == key@,
{
    let mut i: usize = 0;
    while i < v.len()
        invariant
            i <= v@.len(),
            forall|k: int| 0 <= k < i ==> (#[trigger] v@[k]).key@ != key@,
        decreases v@.len() - i,
    {
        if same_text(v[i].key.as_str(), key.as_str()) {
            assert(entry_views(v@)[i as int].0 == key@);
            return true;
        }
        i = i + 1;
    }
    proof {
        if exists|i: int| 0 <= i < v@.len() && #[trigger] entry_views(v@)[i].0 == key@ {
            let k = choose|i: int| 0 <= i < v@.len() && #[trigger] entry_views(v@)[i].0 == key@;
            assert(v@[k].key@ == key@);
        }
    }
    false
}

/// The lookup tables a route lists, whatever shape they are written in: the
/// entries the walk meets, the first of each key kept.
pub fn parse_lookup_table_accounts(raw: &Option<Json>) -> (r: Vec<LookupTableEntry>)
    ensures
        entry_views(r@) == dedup_by_key(match raw {
            Some(v) => walk_spec(*v),
            None => Seq::<EntryView>::empty(),
        }),
{
    let mut all: Vec<LookupTableEntry> = Vec::new();
    if let Some(v) = raw {
        collect_lookup_table_entries(v, &mut all);
    }
    let ghost s = entry_views(all@);
    assert(s =~= match raw {
        Some(v) => walk_spec(*v),
        None => Seq::<EntryView>::empty(),
    });
    let mut out: Vec<LookupTableEntry> = Vec::new();
    let n = all.len();
    let mut rest = all;
    let mut i: usize = 0;
    while i < n
        invariant
            n == s.len(),
            rest@.len() == n - i,
            i <= n,
            forall|k: int| 0 <= k < rest@.len() ==> entry_view(#[trigger] rest@[k]) == s[i + k],
            entry_views(out@) == dedup_by_key(s.subrange(0, i as int)),
        decreases n - i,
    {
        let e = rest.remove(0);
        assert(entry_view(e) == s[i as int]);
        let ghost pre = s.subrange(0, i + 1);
        assert(pre.drop_last() =~= s.subrange(0, i as int));
        assert(pre.last() == s[i as int]);
        proof {
            lemma_dedup_by_key_has(s.subrange(0, i as int), e.key@);
        }
        if !has_key(&out, &e.key) {
            let ghost before = out@;
            out.push(e);
            assert(entry_views(out@) =~= entry_views(before).push(entry_view(e)));
            assert(!(exists|k: int| 0 <= k < pre.len() - 1 && #[trigger] pre[k].0 == pre.last().0)) by {
                if exists|k: int| 0 <= k < pre.len() - 1 && #[trigger] pre[k].0 == pre.last().0 {
                    let k = choose|k: int| 0 <= k < pre.len() - 1 && #[trigger] pre[k].0 == pre.last().0;
                    assert(s.subrange(0, i as int)[k].0 == e.key@);
                }
            }
        } else {
            assert(exists|k: int| 0 <= k < pre.len() - 1 && #[trigger] pre[k].0 == pre.last().0) by {
                let k = choose|k: int| 0 <= k < s.subrange(0, i as int).len() && #[trigger] s.subrange(0, i as int)[k].0 == e.key@;
                assert(pre[k].0 == pre.last().0);
            }
        }
        i = i + 1;
    }
    assert(s.subrange(0, n as int) =~= s);
    out
}


/// An amount as routes write it: a non-negative integer, or its decimal text.
pub open spec fn json_u64_spec(v: Json) -> Option<nat> {
    match v {
        Json::Int(i) => if 0 <= i <= u64::MAX { Some(i as nat) } else { None },
        Json::Str(s) => crate::text::parse_unsigned_spec(s@, u64::MAX as nat),
        _ => None,
    }
}

/// Reads an amount from a route: integers that fit, and texts that
/// `str::parse::<u64>` accepts; anything else is refused.
pub fn parse_u64(v: &Json) -> (r: Option<u64>)
    ensures
        match r {
            Some(n) => json_u64_spec(*v) == Some(n as nat),
            None => json_u64_spec(*v) is None,
        },
{
    match v {
        Json::Int(i) => if 0 <= *i && *i <= u64::MAX as i128 { Some(*i as u64) } else { None },
        Json::Str(s) => crate::text::parse_unsigned(s.as_str(), u64::MAX),
        _ => None,
    }
}

} // verus!
