//! The JSON documents that carry events on the bus and in the log.

use vstd::prelude::*;

verus! {

broadcast use vstd::std_specs::vec::axiom_vec_index_decreases;

/// A JSON value. Numbers are whole numbers; object members keep their order.
pub enum Json {
    Null,
    Bool(bool),
    Int(i64),
    Str(String),
    Array(Vec<Json>),
    Object(Vec<(String, Json)>),
}

/// The mathematical value of a `Json`.
pub enum JsonV {
    Null,
    Bool(bool),
    Int(int),
    Str(Seq<char>),
    Array(Seq<JsonV>),
    Object(Seq<(Seq<char>, JsonV)>),
}

pub open spec fn json_view(j: Json) -> JsonV
    decreases j, 0nat,
{
    match j {
        Json::Null => JsonV::Null,
        Json::Bool(b) => JsonV::Bool(b),
        Json::Int(n) => JsonV::Int(n as int),
        Json::Str(s) => JsonV::Str(s@),
        Json::Array(items) => JsonV::Array(items_view(items, items@.len())),
        Json::Object(members) => JsonV::Object(members_view(members, members@.len())),
    }
}

/// The views of the first `n` items.
pub open spec fn items_view(v: Vec<Json>, n: nat) -> Seq<JsonV>
    decreases v, n,
{
    if n == 0 || n > v@.len() {
        Seq::empty()
    } else {
        items_view(v, (n - 1) as nat).push(json_view(v[n - 1]))
    }
}

/// The views of the first `n` members.
pub open spec fn members_view(v: Vec<(String, Json)>, n: nat) -> Seq<(Seq<char>, JsonV)>
    decreases v, n,
{
    if n == 0 || n > v@.len() {
        Seq::empty()
    } else {
        members_view(v, (n - 1) as nat).push((v[n - 1].0@, json_view(v[n - 1].1)))
    }
}

impl View for Json {
    type V = JsonV;

    open spec fn view(&self) -> JsonV {
        json_view(*self)
    }
}

impl Json {
    /// A copy of the value, with the same view.
    pub fn copy(&self) -> (r: Json)
        ensures
            r@ == self@,
        decreases self,
    {
        match self {
            Json::Null => Json::Null,
            Json::Bool(b) => Json::Bool(*b),
            Json::Int(n) => Json::Int(*n),
            Json::Str(s) => Json::Str(s.clone()),
            Json::Array(items) => {
                let mut out: Vec<Json> = Vec::new();
                let mut i: usize = 0;
                while i < items.len()
                    invariant
                        *self == Json::Array(*items),
                        i <= items@.len(),
                        out@.len() == i,
                        items_view(out, i as nat) == items_view(*items, i as nat),
                    decreases items@.len() - i,
                {
                    proof {
                        assert(decreases_to!(*self => self->Array_0));
                        assert(decreases_to!(*items => items[i as int]));
                    }
                    let c = items[i].copy();
                    let ghost before = out;
                    out.push(c);
                    proof {
                        assert(out@.subrange(0, i as int) =~= before@);
                        lemma_items_view_prefix(before, out, i as nat);
                    }
                    i = i + 1;
                }
                Json::Array(out)
            },
            Json::Object(members) => {
                let mut out: Vec<(String, Json)> = Vec::new();
                let mut i: usize = 0;
                while i < members.len()
                    invariant
                        *self == Json::Object(*members),
                        i <= members@.len(),
                        out@.len() == i,
                        members_view(out, i as nat) == members_view(*members, i as nat),
                    decreases members@.len() - i,
                {
                    let k = members[i].0.clone();
                    proof {
                        assert(decreases_to!(*self => self->Object_0));
                        assert(decreases_to!(*members => members[i as int]));
                        assert(decreases_to!(members[i as int] => members[i as int].1));
                    }
                    let v = members[i].1.copy();
                    let ghost before = out;
                    out.push((k, v));
                    proof {
                        assert(out@.subrange(0, i as int) =~= before@);
                        lemma_members_view_prefix(before, out, i as nat);
                    }
                    i = i + 1;
                }
                Json::Object(out)
            },
        }
    }
}

/// Items past the first `n` do not change the view of the first `n`.
pub proof fn lemma_items_view_prefix(a: Vec<Json>, b: Vec<Json>, n: nat)
    requires
        n <= a@.len() <= b@.len(),
        a@ == b@.subrange(0, a@.len() as int),
    ensures
        items_view(a, n) == items_view(b, n),
    decreases n,
{
    if n > 0 {
        lemma_items_view_prefix(a, b, (n - 1) as nat);
    }
}

/// Members past the first `n` do not change the view of the first `n`.
pub proof fn lemma_members_view_prefix(a: Vec<(String, Json)>, b: Vec<(String, Json)>, n: nat)
    requires
        n <= a@.len() <= b@.len(),
        a@ == b@.subrange(0, a@.len() as int),
    ensures
        members_view(a, n) == members_view(b, n),
    decreases n,
{
    if n > 0 {
        lemma_members_view_prefix(a, b, (n - 1) as nat);
    }
}

/// The view of all members of an object.
pub open spec fn mview(v: Vec<(String, Json)>) -> Seq<(Seq<char>, JsonV)> {
    members_view(v, v@.len())
}

/// The members' views, one for one.
pub proof fn lemma_members_view(v: Vec<(String, Json)>, n: nat)
    requires
        n <= v@.len(),
    ensures
        members_view(v, n).len() == n,
        forall|i: int|
            0 <= i < n ==> #[trigger] members_view(v, n)[i] == (v@[i].0@, v@[i].1@),
    decreases n,
{
    if n > 0 {
        lemma_members_view(v, (n - 1) as nat);
    }
}

/// The value under the first member named `key` at or after position `i`.
pub open spec fn member_from(ms: Seq<(Seq<char>, JsonV)>, key: Seq<char>, i: int) -> Option<JsonV>
    decreases ms.len() - i,
{
    if i < 0 || i >= ms.len() {
        None
    } else if ms[i].0 == key {
        Some(ms[i].1)
    } else {
        member_from(ms, key, i + 1)
    }
}

/// The value under the first member named `key`.
pub open spec fn member(ms: Seq<(Seq<char>, JsonV)>, key: Seq<char>) -> Option<JsonV> {
    member_from(ms, key, 0)
}

/// Finds the first member named `key`.
pub fn get_member<'a>(ms: &'a Vec<(String, Json)>, key: &str) -> (r: Option<&'a Json>)
    ensures
        match r {
            Some(j) => member(mview(*ms), key@) == Some(j@),
            None => member(mview(*ms), key@) is None,
        },
{
    proof { lemma_members_view(*ms, ms@.len()); }
    let k = key.to_owned();
    let mut i: usize = 0;
    while i < ms.len()
        invariant
            i <= ms@.len(),
            k@ == key@,
            mview(*ms).len() == ms@.len(),
            forall|j: int| 0 <= j < ms@.len() ==> #[trigger] mview(*ms)[j] == (ms@[j].0@, ms@[j].1@),
            member(mview(*ms), key@) == member_from(mview(*ms), key@, i as int),
        decreases ms@.len() - i,
    {
        if ms[i].0 == k {
            return Some(&ms[i].1);
        }
        i = i + 1;
    }
    None
}

/// Builds an object member.
pub fn field(key: &str, value: Json) -> (r: (String, Json))
    ensures
        r.0@ == key@,
        r.1 == value,
{
    (key.to_owned(), value)
}

} // verus!
