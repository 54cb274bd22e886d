//! Aggregates: values rebuilt by folding events, with folds that skip events already applied.

use vstd::prelude::*;
use vstd::string::{StrSliceExecFns, StringExecFns};
use crate::event::{Event, EventV};

verus! {

/// The events an aggregate reads: one namespace, some event types of it, and the arguments
/// that tell one aggregate instance from another.
pub struct StoreQuery {
    pub event_namespace: String,
    pub event_types: Vec<String>,
    pub args: Vec<String>,
}

/// The mathematical value of a `StoreQuery`.
pub struct QueryV {
    pub namespace: Seq<char>,
    pub event_types: Seq<Seq<char>>,
    pub args: Seq<Seq<char>>,
}

pub open spec fn texts(v: Seq<String>) -> Seq<Seq<char>> {
    v.map_values(|s: String| s@)
}

impl View for StoreQuery {
    type V = QueryV;

    open spec fn view(&self) -> QueryV {
        QueryV {
            namespace: self.event_namespace@,
            event_types: texts(self.event_types@),
            args: texts(self.args@),
        }
    }
}

/// A value rebuilt from events: a zero, a pure step per event, and the query it reads.
pub trait Aggregator<E: View, A>: Sized {
    spec fn zero_spec() -> Self;

    spec fn apply_spec(acc: Self, event: EventV<E::V>) -> Self;

    spec fn query_spec(args: A) -> QueryV;

    fn zero() -> (r: Self)
        ensures
            r == Self::zero_spec(),
    ;

    fn apply_event(acc: Self, event: &Event<E>) -> (r: Self)
        ensures
            r == Self::apply_spec(acc, event@),
    ;

    fn query(args: &A) -> (r: StoreQuery)
        ensures
            r@ == Self::query_spec(*args),
    ;

    fn duplicate(&self) -> (r: Self)
        ensures
            r == *self,
    ;
}

pub open spec fn views<E: View>(s: Seq<Event<E>>) -> Seq<EventV<E::V>> {
    s.map_values(|e: Event<E>| e@)
}

/// Folds events in order.
pub open spec fn fold<T: Aggregator<E, A>, E: View, A>(acc: T, events: Seq<EventV<E::V>>) -> T
    decreases events.len(),
{
    if events.len() == 0 {
        acc
    } else {
        T::apply_spec(fold::<T, E, A>(acc, events.drop_last()), events.last())
    }
}

/// Folds events in order, skipping each whose id is already applied, and records the ids of
/// those it applies.
pub open spec fn fold_unique<T: Aggregator<E, A>, E: View, A>(
    acc: T,
    applied: Seq<u128>,
    events: Seq<EventV<E::V>>,
) -> (T, Seq<u128>)
    decreases events.len(),
{
    if events.len() == 0 {
        (acc, applied)
    } else {
        let (a, ids) = fold_unique::<T, E, A>(acc, applied, events.drop_last());
        let e = events.last();
        if ids.contains(e.id) {
            (a, ids)
        } else {
            (T::apply_spec(a, e), ids.push(e.id))
        }
    }
}

/// Folds `events` onto `init`.
pub fn fold_events<T: Aggregator<E, A>, E: View, A>(init: T, events: &Vec<Event<E>>) -> (r: T)
    ensures
        r == fold::<T, E, A>(init, views(events@)),
{
    let mut acc = init;
    let mut i: usize = 0;
    while i < events.len()
        invariant
            i <= events@.len(),
            acc == fold::<T, E, A>(init, views(events@.subrange(0, i as int))),
        decreases events@.len() - i,
    {
        proof {
            assert(views(events@.subrange(0, i as int + 1)).drop_last() =~= views(
                events@.subrange(0, i as int),
            ));
        }
        acc = T::apply_event(acc, &events[i]);
        i = i + 1;
    }
    proof { assert(events@.subrange(0, events@.len() as int) =~= events@); }
    acc
}

/// Whether `ids` holds `id`.
pub fn holds_id(ids: &Vec<u128>, id: u128) -> (r: bool)
    ensures
        r == ids@.contains(id),
{
    let mut i: usize = 0;
    while i < ids.len()
        invariant
            i <= ids@.len(),
            forall|j: int| 0 <= j < i ==> ids@[j] != id,
        decreases ids@.len() - i,
    {
        if ids[i] == id {
            return true;
        }
        i = i + 1;
    }
    false
}

/// Folds `events` onto `init`, skipping those whose id `applied` holds, and adds the ids of the
/// events applied to `applied`.
pub fn fold_new_events<T: Aggregator<E, A>, E: View, A>(
    init: T,
    applied: &mut Vec<u128>,
    events: &Vec<Event<E>>,
) -> (r: T)
    ensures
        (r, final(applied)@) == fold_unique::<T, E, A>(init, old(applied)@, views(events@)),
{
    let mut acc = init;
    let mut i: usize = 0;
    while i < events.len()
        invariant
            i <= events@.len(),
            (acc, applied@) == fold_unique::<T, E, A>(
                init,
                old(applied)@,
                views(events@.subrange(0, i as int)),
            ),
        decreases events@.len() - i,
    {
        proof {
            assert(views(events@.subrange(0, i as int + 1)).drop_last() =~= views(
                events@.subrange(0, i as int),
            ));
        }
        let id = events[i].id;
        if !holds_id(applied, id) {
            acc = T::apply_event(acc, &events[i]);
            applied.push(id);
        }
        i = i + 1;
    }
    proof { assert(events@.subrange(0, events@.len() as int) =~= events@); }
    acc
}

/// The ids that a fold records keep those it started with and hold every event's id.
pub proof fn lemma_fold_unique_ids<T: Aggregator<E, A>, E: View, A>(
    acc: T,
    applied: Seq<u128>,
    events: Seq<EventV<E::V>>,
)
    ensures
        forall|x: u128| applied.contains(x) ==> fold_unique::<T, E, A>(acc, applied, events).1.contains(x),
        forall|i: int|
            0 <= i < events.len() ==> fold_unique::<T, E, A>(acc, applied, events).1.contains(
                #[trigger] events[i].id,
            ),
    decreases events.len(),
{
    if events.len() > 0 {
        let rest = events.drop_last();
        lemma_fold_unique_ids::<T, E, A>(acc, applied, rest);
        let ids = fold_unique::<T, E, A>(acc, applied, rest).1;
        let e = events.last();
        assert forall|i: int| 0 <= i < events.len() implies fold_unique::<T, E, A>(
            acc,
            applied,
            events,
        ).1.contains(#[trigger] events[i].id) by {
            if i < events.len() - 1 {
                assert(rest[i] == events[i]);
                assert(ids.contains(rest[i].id));
                if !ids.contains(e.id) {
                    let k = choose|k: int| 0 <= k < ids.len() && ids[k] == events[i].id;
                    assert(ids.push(e.id)[k] == events[i].id);
                }
            } else if !ids.contains(e.id) {
                assert(ids.push(e.id)[ids.len() as int] == e.id);
            }
        }
        assert forall|x: u128| applied.contains(x) implies fold_unique::<T, E, A>(
            acc,
            applied,
            events,
        ).1.contains(x) by {
            if !ids.contains(e.id) {
                let k = choose|k: int| 0 <= k < ids.len() && ids[k] == x;
                assert(ids.push(e.id)[k] == x);
            }
        }
    }
}

/// Folding `p + s` is folding `s` onto the result of folding `p`.
pub proof fn lemma_fold_unique_split<T: Aggregator<E, A>, E: View, A>(
    acc: T,
    applied: Seq<u128>,
    p: Seq<EventV<E::V>>,
    s: Seq<EventV<E::V>>,
)
    ensures
        fold_unique::<T, E, A>(acc, applied, p + s) == fold_unique::<T, E, A>(
            fold_unique::<T, E, A>(acc, applied, p).0,
            fold_unique::<T, E, A>(acc, applied, p).1,
            s,
        ),
    decreases s.len(),
{
    if s.len() == 0 {
        assert(p + s =~= p);
    } else {
        assert((p + s).drop_last() =~= p + s.drop_last());
        lemma_fold_unique_split::<T, E, A>(acc, applied, p, s.drop_last());
    }
}

/// Events whose ids are all applied already change nothing.
pub proof fn lemma_fold_unique_applied<T: Aggregator<E, A>, E: View, A>(
    acc: T,
    applied: Seq<u128>,
    s: Seq<EventV<E::V>>,
)
    requires
        forall|i: int| 0 <= i < s.len() ==> applied.contains(#[trigger] s[i].id),
    ensures
        fold_unique::<T, E, A>(acc, applied, s) == (acc, applied),
    decreases s.len(),
{
    if s.len() > 0 {
        lemma_fold_unique_applied::<T, E, A>(acc, applied, s.drop_last());
        assert(applied.contains(s[s.len() - 1].id));
    }
}

/// Replaying events that a log already holds changes nothing: with ids tracked, folding an
/// ordered log `p` followed by events `s` whose ids all occur in `p` gives what folding `p`
/// alone gives.
pub proof fn lemma_replay_idempotent<T: Aggregator<E, A>, E: View, A>(
    p: Seq<EventV<E::V>>,
    s: Seq<EventV<E::V>>,
)
    requires
        forall|i: int|
            0 <= i < s.len() ==> exists|j: int| 0 <= j < p.len() && p[j].id == #[trigger] s[i].id,
    ensures
        fold_unique::<T, E, A>(T::zero_spec(), Seq::empty(), p + s) == fold_unique::<T, E, A>(
            T::zero_spec(),
            Seq::empty(),
            p,
        ),
{
    let z = T::zero_spec();
    let first = fold_unique::<T, E, A>(z, Seq::empty(), p);
    lemma_fold_unique_split::<T, E, A>(z, Seq::empty(), p, s);
    lemma_fold_unique_ids::<T, E, A>(z, Seq::empty(), p);
    assert forall|i: int| 0 <= i < s.len() implies first.1.contains(#[trigger] s[i].id) by {
        let j = choose|j: int| 0 <= j < p.len() && p[j].id == s[i].id;
        assert(first.1.contains(p[j].id));
    }
    lemma_fold_unique_applied::<T, E, A>(first.0, first.1, s);
}

/// A text with `\`, `/` and `,` each escaped by a `\`.
pub open spec fn escape(s: Seq<char>) -> Seq<char>
    decreases s.len(),
{
    if s.len() == 0 {
        s
    } else {
        let c = s.last();
        if c == '\\' || c == '/' || c == ',' {
            escape(s.drop_last()) + seq!['\\', c]
        } else {
            escape(s.drop_last()).push(c)
        }
    }
}

/// Each text escaped and preceded by a `,`.
pub open spec fn listed(items: Seq<Seq<char>>) -> Seq<char>
    decreases items.len(),
{
    if items.len() == 0 {
        Seq::empty()
    } else {
        listed(items.drop_last()) + seq![','] + escape(items.last())
    }
}

/// The cache key of a query: `namespace/,type...,/,arg...`, each part escaped.
pub open spec fn cache_key(q: QueryV) -> Seq<char> {
    escape(q.namespace) + seq!['/'] + listed(q.event_types) + seq!['/'] + listed(q.args)
}

/// Appends `s`, escaped, to `out`.
fn push_escaped(out: &mut String, s: &str)
    ensures
        final(out)@ == old(out)@ + escape(s@),
{
    let n = s.unicode_len();
    let mut i: usize = 0;
    while i < n
        invariant
            n == s@.len(),
            i <= n,
            out@ == old(out)@ + escape(s@.subrange(0, i as int)),
        decreases n - i,
    {
        let c = s.get_char(i);
        let ghost pre = s@.subrange(0, i as int + 1);
        let ghost o0 = out@;
        proof {
            reveal_strlit("\\");
            assert(pre.drop_last() =~= s@.subrange(0, i as int));
            assert(pre.last() == c);
        }
        if c == '\\' || c == '/' || c == ',' {
            out.append("\\");
        }
        let one = s.substring_char(i, i + 1);
        out.append(one);
        proof {
            assert(one@ =~= seq![c]);
            if c == '\\' || c == '/' || c == ',' {
                assert(escape(pre) == escape(pre.drop_last()) + seq!['\\', c]);
                assert(out@ =~= o0 + seq!['\\', c]);
                assert(out@ =~= old(out)@ + escape(pre));
            } else {
                assert(out@ =~= old(out)@ + escape(pre));
            }
        }
        i = i + 1;
    }
    proof { assert(s@.subrange(0, n as int) =~= s@); }
}

/// Appends each text of `items`, escaped and preceded by a `,`.
fn push_listed(out: &mut String, items: &Vec<String>)
    ensures
        final(out)@ == old(out)@ + listed(texts(items@)),
{
    let mut i: usize = 0;
    while i < items.len()
        invariant
            i <= items@.len(),
            out@ == old(out)@ + listed(texts(items@.subrange(0, i as int))),
        decreases items@.len() - i,
    {
        let ghost pre = texts(items@.subrange(0, i as int + 1));
        proof {
            reveal_strlit(",");
            assert(pre.drop_last() =~= texts(items@.subrange(0, i as int)));
            assert(pre.last() == items@[i as int]@);
        }
        out.append(",");
        push_escaped(out, items[i].as_str());
        proof {
            assert(out@ =~= old(out)@ + listed(pre));
        }
        i = i + 1;
    }
    proof { assert(items@.subrange(0, items@.len() as int) =~= items@); }
}

impl StoreQuery {
    /// The cache key of this query, made from its namespace, its types and its arguments alone.
    pub fn unique_id(&self) -> (r: String)
        ensures
            r@ == cache_key(self@),
    {
        proof {
            reveal_strlit("/");
        }
        let mut out = String::new();
        push_escaped(&mut out, self.event_namespace.as_str());
        out.append("/");
        push_listed(&mut out, &self.event_types);
        out.append("/");
        push_listed(&mut out, &self.args);
        proof {
            assert(out@ =~= cache_key(self@));
        }
        out
    }
}

/// The cache key of an aggregate's query is a function of the arguments alone: equal
/// arguments give equal keys.
pub proof fn lemma_cache_key_of_args<T: Aggregator<E, A>, E: View, A>(a: A, b: A)
    requires
        a == b,
    ensures
        cache_key(T::query_spec(a)) == cache_key(T::query_spec(b)),
{
}

} // verus!
