//! JSON values as the services send and receive them, and the clean-up of
//! request bodies before they are sent.
use vstd::prelude::*;
use vstd::string::*;

verus! {

/// A JSON value. Object members are in the order of their names, as
/// `serde_json` keeps them; numbers are kept only as far as they are integers.
pub enum Json {
    Null,
    Bool(bool),
    Int(i128),
    Float,
    Str(String),
    Array(Vec<Json>),
    Object(Vec<(String, Json)>),
}

/// The mathematical form of a JSON value.
pub enum JsonView {
    Null,
    Bool(bool),
    Int(int),
    Float,
    Str(Seq<char>),
    Array(Seq<JsonView>),
    Object(Seq<(Seq<char>, JsonView)>),
}

/// The view of a JSON value.
pub open spec fn json_view(v: Json) -> JsonView
    decreases v, 0nat,
{
    match v {
        Json::Null => JsonView::Null,
        Json::Bool(b) => JsonView::Bool(b),
        Json::Int(i) => JsonView::Int(i as int),
        Json::Float => JsonView::Float,
        Json::Str(s) => JsonView::Str(s@),
        Json::Array(items) => JsonView::Array(item_views(items@, items@.len())),
        Json::Object(fields) => JsonView::Object(field_views(fields@, fields@.len())),
    }
}

/// The views of the first `n` items.
pub open spec fn item_views(s: Seq<Json>, n: nat) -> Seq<JsonView>
    decreases s, n,
{
    if n == 0 || n > s.len() {
        Seq::<JsonView>::empty()
    } else {
        item_views(s, (n - 1) as nat).push(json_view(s[n - 1]))
    }
}

/// The views of the first `n` members.
pub open spec fn field_views(s: Seq<(String, Json)>, n: nat) -> Seq<(Seq<char>, JsonView)>
    decreases s, n,
{
    if n == 0 || n > s.len() {
        Seq::<(Seq<char>, JsonView)>::empty()
    } else {
        field_views(s, (n - 1) as nat).push((s[n - 1].0@, json_view(s[n - 1].1)))
    }
}

/// A value with every null member and null item removed, at every depth,
/// inner values first.
pub open spec fn pruned(v: JsonView) -> JsonView
    decreases v, 0nat,
{
    match v {
        JsonView::Array(items) => JsonView::Array(pruned_items(items, items.len())),
        JsonView::Object(fields) => JsonView::Object(pruned_fields(fields, fields.len())),
        _ => v,
    }
}

/// The first `n` items pruned, those that are null dropped.
pub open spec fn pruned_items(s: Seq<JsonView>, n: nat) -> Seq<JsonView>
    decreases s, n,
{
    if n == 0 || n > s.len() {
        Seq::<JsonView>::empty()
    } else if pruned(s[n - 1]) is Null {
        pruned_items(s, (n - 1) as nat)
    } else {
        pruned_items(s, (n - 1) as nat).push(pruned(s[n - 1]))
    }
}

/// The first `n` members pruned, those that are null dropped.
pub open spec fn pruned_fields(s: Seq<(Seq<char>, JsonView)>, n: nat) -> Seq<(Seq<char>, JsonView)>
    decreases s, n,
{
    if n == 0 || n > s.len() {
        Seq::<(Seq<char>, JsonView)>::empty()
    } else if pruned(s[n - 1].1) is Null {
        pruned_fields(s, (n - 1) as nat)
    } else {
        pruned_fields(s, (n - 1) as nat).push((s[n - 1].0, pruned(s[n - 1].1)))
    }
}

proof fn lemma_item_views_index(s: Seq<Json>, n: nat, k: int)
    requires
        n <= s.len(),
        0 <= k < n,
    ensures
        item_views(s, n).len() == n,
        item_views(s, n)[k] == json_view(s[k]),
    decreases n,
{
    lemma_item_views_len(s, (n - 1) as nat);
    if k < n - 1 {
        lemma_item_views_index(s, (n - 1) as nat, k);
    }
}

proof fn lemma_item_views_len(s: Seq<Json>, n: nat)
    requires
        n <= s.len(),
    ensures
        item_views(s, n).len() == n,
    decreases n,
{
    if n > 0 {
        lemma_item_views_len(s, (n - 1) as nat);
    }
}

proof fn lemma_item_views_push(s: Seq<Json>, x: Json)
    ensures
        item_views(s.push(x), s.len() + 1) == item_views(s, s.len()).push(json_view(x)),
{
    assert(s.push(x).subrange(0, s.len() as int) =~= s.subrange(0, s.len() as int));
    lemma_item_views_same_prefix(s.push(x), s, s.len());
}

proof fn lemma_item_views_same_prefix(a: Seq<Json>, b: Seq<Json>, n: nat)
    requires
        n <= a.len(),
        n <= b.len(),
        a.subrange(0, n as int) == b.subrange(0, n as int),
    ensures
        item_views(a, n) == item_views(b, n),
    decreases n,
{
    if n > 0 {
        assert(a[n - 1] == a.subrange(0, n as int)[n - 1]);
        assert(b[n - 1] == b.subrange(0, n as int)[n - 1]);
        assert(a.subrange(0, n - 1) =~= a.subrange(0, n as int).subrange(0, n - 1));
        assert(b.subrange(0, n - 1) =~= b.subrange(0, n as int).subrange(0, n - 1));
        lemma_item_views_same_prefix(a, b, (n - 1) as nat);
    }
}

proof fn lemma_field_views_index(s: Seq<(String, Json)>, n: nat, k: int)
    requires
        n <= s.len(),
        0 <= k < n,
    ensures
        field_views(s, n).len() == n,
        field_views(s, n)[k] == (s[k].0@, json_view(s[k].1)),
    decreases n,
{
    lemma_field_views_len(s, (n - 1) as nat);
    if k < n - 1 {
        lemma_field_views_index(s, (n - 1) as nat, k);
    }
}

proof fn lemma_field_views_len(s: Seq<(String, Json)>, n: nat)
    requires
        n <= s.len(),
    ensures
        field_views(s, n).len() == n,
    decreases n,
{
    if n > 0 {
        lemma_field_views_len(s, (n - 1) as nat);
    }
}

proof fn lemma_field_views_same_prefix(a: Seq<(String, Json)>, b: Seq<(String, Json)>, n: nat)
    requires
        n <= a.len(),
        n <= b.len(),
        a.subrange(0, n as int) == b.subrange(0, n as int),
    ensures
        field_views(a, n) == field_views(b, n),
    decreases n,
{
    if n > 0 {
        assert(a[n - 1] == a.subrange(0, n as int)[n - 1]);
        assert(b[n - 1] == b.subrange(0, n as int)[n - 1]);
        assert(a.subrange(0, n - 1) =~= a.subrange(0, n as int).subrange(0, n - 1));
        assert(b.subrange(0, n - 1) =~= b.subrange(0, n as int).subrange(0, n - 1));
        lemma_field_views_same_prefix(a, b, (n - 1) as nat);
    }
}

/// A copy of a value with every null member and null item removed, at every
/// depth, as the Ultra client does to a request body before sending it.
pub fn prune_nulls(v: &Json) -> (r: Json)
    ensures
        json_view(r) == pruned(json_view(*v)),
    decreases v,
{
    match v {
        Json::Array(items) => {
            let ghost views = item_views(items@, items@.len());
            proof {
                lemma_item_views_len(items@, items@.len());
            }
            let mut out: Vec<Json> = Vec::new();
            let n = items.len();
            for i in 0..n
                invariant
                    n == items@.len(),
                    *v == Json::Array(*items),
                    views == item_views(items@, n as nat),
                    views.len() == n,
                    item_views(out@, out@.len()) == pruned_items(views, i as nat),
            {
                proof {
                    let it = (*v)->Array_0;
                    assert(decreases_to!(*v => (*v)->Array_0));
                    vstd::std_specs::vec::axiom_vec_index_decreases(it, i as int);
                    assert(decreases_to!(it => it[i as int]));
                    lemma_item_views_index(items@, n as nat, i as int);
                }
                let p = prune_nulls(&items[i]);
                if let Json::Null = p {
                } else {
                    let ghost before = out@;
                    out.push(p);
                    proof {
                        assert(out@ == before.push(p));
                        lemma_item_views_push(before, p);
                    }
                }
            }
            Json::Array(out)
        },
        Json::Object(fields) => {
            let ghost views = field_views(fields@, fields@.len());
            proof {
                lemma_field_views_len(fields@, fields@.len());
            }
            let mut out: Vec<(String, Json)> = Vec::new();
            let n = fields.len();
            for i in 0..n
                invariant
                    n == fields@.len(),
                    *v == Json::Object(*fields),
                    views == field_views(fields@, n as nat),
                    views.len() == n,
                    field_views(out@, out@.len()) == pruned_fields(views, i as nat),
            {
                proof {
                    let fs = (*v)->Object_0;
                    assert(decreases_to!(*v => (*v)->Object_0));
                    vstd::std_specs::vec::axiom_vec_index_decreases(fs, i as int);
                    assert(decreases_to!(fs => fs[i as int]));
                    let pair = fs[i as int];
                    assert(decreases_to!(pair => pair.1));
                    lemma_field_views_index(fields@, n as nat, i as int);
                }
                let p = prune_nulls(&fields[i].1);
                if let Json::Null = p {
                } else {
                    let ghost before = out@;
                    let name = fields[i].0.clone();
                    out.push((name, p));
                    proof {
                        assert(out@ == before.push((name, p)));
                        assert(out@.subrange(0, before.len() as int) =~= before.subrange(0, before.len() as int));
                        lemma_field_views_same_prefix(out@, before, before.len());
                    }
                }
            }
            Json::Object(out)
        },
        Json::Null => Json::Null,
        Json::Bool(b) => Json::Bool(*b),
        Json::Int(i) => Json::Int(*i),
        Json::Float => Json::Float,
        Json::Str(s) => Json::Str(s.clone()),
    }
}

} // verus!
