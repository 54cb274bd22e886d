//! An in-memory event log: append-only, unique ids, ordered by time and then id.

use vstd::prelude::*;
use crate::aggregate::{texts, views, QueryV, StoreQuery};
use crate::error::StoreError;
use crate::event::{valid_event, Event, EventContext, EventV, Events};

verus! {

/// `a` comes before `b` in a log: earlier time, or the same time and a smaller id.
pub open spec fn precedes<D>(a: EventV<D>, b: EventV<D>) -> bool {
    a.time < b.time || (a.time == b.time && a.id < b.id)
}

/// Events in log order, each id at most once.
pub open spec fn ordered_unique<D>(s: Seq<EventV<D>>) -> bool {
    &&& forall|i: int, j: int| 0 <= i < j < s.len() ==> precedes(#[trigger] s[i], #[trigger] s[j])
    &&& forall|i: int, j: int| 0 <= i < s.len() && 0 <= j < s.len() && i != j ==> #[trigger] s[i].id != #[trigger] s[j].id
}

pub open spec fn has_id<D>(s: Seq<EventV<D>>, id: u128) -> bool {
    exists|i: int| 0 <= i < s.len() && #[trigger] s[i].id == id
}

/// An event belongs to a query: its namespace, one of its types, and not before `since`.
pub open spec fn wanted<E: Events>(e: EventV<E::V>, q: QueryV, since: Option<i64>) -> bool {
    &&& E::namespace_of(e.data) == q.namespace
    &&& q.event_types.contains(E::type_of(e.data))
    &&& match since {
        Some(t) => e.time >= t,
        None => true,
    }
}

/// The events of `s` that a query reads, in order.
pub open spec fn select<E: Events>(s: Seq<EventV<E::V>>, q: QueryV, since: Option<i64>) -> Seq<
    EventV<E::V>,
>
    decreases s.len(),
{
    if s.len() == 0 {
        Seq::empty()
    } else {
        let rest = select::<E>(s.drop_last(), q, since);
        if wanted::<E>(s.last(), q, since) {
            rest.push(s.last())
        } else {
            rest
        }
    }
}

/// The query for a single kind.
pub open spec fn kind_query(namespace: Seq<char>, event_type: Seq<char>) -> QueryV {
    QueryV { namespace, event_types: seq![event_type], args: Seq::empty() }
}

/// The last event of a kind in log order.
pub open spec fn last_of_kind<E: Events>(
    s: Seq<EventV<E::V>>,
    namespace: Seq<char>,
    event_type: Seq<char>,
) -> Option<EventV<E::V>> {
    let sel = select::<E>(s, kind_query(namespace, event_type), None);
    if sel.len() == 0 {
        None
    } else {
        Some(sel.last())
    }
}

/// A copy of an event, with the same view.
pub fn copy_event<E: Events>(e: &Event<E>) -> (r: Event<E>)
    ensures
        r@ == e@,
{
    let subject = match &e.context.subject {
        Some(j) => Some(j.copy()),
        None => None,
    };
    let action = match &e.context.action {
        Some(j) => Some(j.copy()),
        None => None,
    };
    Event {
        id: e.id,
        data: e.data.duplicate(),
        context: EventContext { time: e.context.time, subject, action },
    }
}

/// Whether `e` belongs to query `q` from `since` on.
pub fn is_wanted<E: Events>(e: &Event<E>, q: &StoreQuery, since: Option<i64>) -> (r: bool)
    ensures
        r == wanted::<E>(e@, q@, since),
{
    if let Some(t) = since {
        if e.context.time < t {
            return false;
        }
    }
    if e.data.event_namespace() != q.event_namespace {
        return false;
    }
    let ty = e.data.event_type();
    let mut i: usize = 0;
    while i < q.event_types.len()
        invariant
            i <= q.event_types@.len(),
            ty@ == E::type_of(e@.data),
            E::namespace_of(e@.data) == q@.namespace,
            since matches Some(t) ==> e.context.time >= t,
            forall|j: int| 0 <= j < i ==> q.event_types@[j]@ != ty@,
        decreases q.event_types@.len() - i,
    {
        if q.event_types[i] == ty {
            proof { assert(texts(q.event_types@)[i as int] == ty@); }
            return true;
        }
        i = i + 1;
    }
    proof {
        assert forall|j: int| 0 <= j < texts(q.event_types@).len() implies texts(q.event_types@)[j]
            != ty@ by {
            assert(texts(q.event_types@)[j] == q.event_types@[j]@);
        }
    }
    false
}

/// The log: events held in log order, each id at most once.
pub struct MemoryLog<E> {
    events: Vec<Event<E>>,
}

impl<E: Events> MemoryLog<E> {
    /// The events, in log order.
    pub closed spec fn view(&self) -> Seq<EventV<E::V>> {
        views(self.events@)
    }

    /// Log order, unique ids, and every event valid.
    pub open spec fn wf(&self) -> bool {
        &&& ordered_unique(self.view())
        &&& forall|i: int| 0 <= i < self.view().len() ==> valid_event(#[trigger] self.view()[i])
    }

    /// An empty log.
    pub fn new() -> (r: Self)
        ensures
            r.wf(),
            r.view() == Seq::<EventV<E::V>>::empty(),
    {
        let r = MemoryLog { events: Vec::new() };
        proof { assert(r.view() =~= Seq::<EventV<E::V>>::empty()); }
        r
    }

    /// The number of events.
    pub fn len(&self) -> (r: usize)
        ensures
            r == self.view().len(),
    {
        self.events.len()
    }

    /// The position of the event with this id, if there is one.
    pub fn index_of(&self, id: u128) -> (r: Option<usize>)
        ensures
            match r {
                Some(i) => i < self.view().len() && self.view()[i as int].id == id,
                None => !has_id(self.view(), id),
            },
    {
        let mut i: usize = 0;
        while i < self.events.len()
            invariant
                i <= self.events@.len(),
                self.view().len() == self.events@.len(),
                forall|j: int| 0 <= j < i ==> #[trigger] self.view()[j].id != id,
            decreases self.events@.len() - i,
        {
            if self.events[i].id == id {
                proof { assert(self.view()[i as int].id == id); }
                return Some(i);
            }
            i = i + 1;
        }
        None
    }

    /// Whether an event with this id is in the log.
    pub fn contains_id(&self, id: u128) -> (r: bool)
        ensures
            r == has_id(self.view(), id),
    {
        self.index_of(id).is_some()
    }

    /// Where an event that is not in the log goes to keep log order.
    fn position(&self, e: &Event<E>) -> (p: usize)
        requires
            self.wf(),
            !has_id(self.view(), e.id),
        ensures
            p <= self.view().len(),
            forall|k: int| 0 <= k < p ==> precedes(#[trigger] self.view()[k], e@),
            forall|k: int| p <= k < self.view().len() ==> precedes(e@, #[trigger] self.view()[k]),
    {
        let mut p: usize = 0;
        while p < self.events.len()
            invariant
                p <= self.events@.len(),
                self.wf(),
                !has_id(self.view(), e.id),
                self.view().len() == self.events@.len(),
                forall|k: int| 0 <= k < p ==> precedes(#[trigger] self.view()[k], e@),
            decreases self.events@.len() - p,
        {
            let cur = &self.events[p];
            if cur.context.time > e.context.time || (cur.context.time == e.context.time && cur.id
                > e.id) {
                proof {
                    assert(self.view()[p as int] == cur@);
                    assert(precedes(e@, self.view()[p as int]));
                    assert forall|k: int| p <= k < self.view().len() implies precedes(
                        e@,
                        #[trigger] self.view()[k],
                    ) by {
                        if k > p {
                            assert(precedes(self.view()[p as int], self.view()[k]));
                        }
                    }
                }
                return p;
            }
            proof {
                assert(self.view()[p as int] == cur@);
                assert(cur.id != e.id) by {
                    if cur.id == e.id {
                        assert(self.view()[p as int].id == e.id);
                    }
                }
            }
            p = p + 1;
        }
        p
    }

    /// Puts an event that is not in the log at its place.
    fn insert_new(&mut self, e: Event<E>)
        requires
            old(self).wf(),
            valid_event(e@),
            !has_id(old(self).view(), e.id),
        ensures
            final(self).wf(),
            exists|p: int|
                0 <= p <= old(self).view().len() && final(self).view() == old(self).view().insert(
                    p,
                    e@,
                ),
    {
        let p = self.position(&e);
        let ghost ev = e@;
        let ghost before = self.view();
        self.events.insert(p, e);
        proof {
            assert(self.view() =~= before.insert(p as int, ev));
            let s = self.view();
            assert forall|i: int, j: int| 0 <= i < j < s.len() implies precedes(
                #[trigger] s[i],
                #[trigger] s[j],
            ) by {
                if j < p {
                    assert(s[i] == before[i] && s[j] == before[j]);
                } else if j == p {
                    assert(s[i] == before[i]);
                } else if i == p {
                    assert(s[j] == before[j - 1]);
                } else if i < p {
                    assert(s[i] == before[i] && s[j] == before[j - 1]);
                    assert(precedes(before[i], ev));
                    assert(precedes(ev, before[j - 1]));
                } else {
                    assert(s[i] == before[i - 1] && s[j] == before[j - 1]);
                }
            }
            assert forall|i: int| 0 <= i < s.len() implies valid_event(#[trigger] s[i]) by {
                if i < p {
                    assert(s[i] == before[i]);
                } else if i > p {
                    assert(s[i] == before[i - 1]);
                }
            }
            assert forall|i: int, j: int|
                0 <= i < s.len() && 0 <= j < s.len() && i != j implies #[trigger] s[i].id
                != #[trigger] s[j].id by {
                let bi = if i < p { i } else { i - 1 };
                let bj = if j < p { j } else { j - 1 };
                if i != p && j != p {
                    assert(s[i] == before[bi] && s[j] == before[bj]);
                } else if i == p {
                    assert(s[j] == before[bj]);
                } else {
                    assert(s[i] == before[bi]);
                }
            }
        }
    }

    /// Appends an event. An event whose id is already in the log is refused with `Conflict`,
    /// never overwritten.
    pub fn append(&mut self, e: Event<E>) -> (r: Result<(), StoreError>)
        requires
            old(self).wf(),
            valid_event(e@),
        ensures
            final(self).wf(),
            has_id(old(self).view(), e.id) ==> r == Err::<(), StoreError>(StoreError::Conflict(e.id))
                && final(self).view() == old(self).view(),
            !has_id(old(self).view(), e.id) ==> r is Ok && exists|p: int|
                0 <= p <= old(self).view().len() && final(self).view() == old(self).view().insert(
                    p,
                    e@,
                ),
    {
        if self.contains_id(e.id) {
            return Err(StoreError::Conflict(e.id));
        }
        self.insert_new(e);
        Ok(())
    }

    /// Writes an event, replacing the one with the same id if there is one.
    pub fn upsert(&mut self, e: Event<E>)
        requires
            old(self).wf(),
            valid_event(e@),
        ensures
            final(self).wf(),
            has_id(final(self).view(), e.id),
            final(self).view().len() == old(self).view().len() + if has_id(old(self).view(), e.id) {
                0int
            } else {
                1int
            },
            forall|i: int|
                0 <= i < final(self).view().len() && #[trigger] final(self).view()[i].id == e.id
                    ==> final(self).view()[i] == e@,
            forall|x: EventV<E::V>|
                x.id != e.id ==> (old(self).view().contains(x) <==> final(self).view().contains(x)),
    {
        let ghost start = self.view();
        let found = self.index_of(e.id);
        let i: usize = match found {
            Some(i) => i,
            None => self.events.len(),
        };
        if i < self.events.len() {
            let ghost before = self.view();
            self.events.remove(i);
            proof {
                assert(self.view() =~= before.remove(i as int));
                let s = self.view();
                assert forall|a: int, b: int| 0 <= a < b < s.len() implies precedes(
                    #[trigger] s[a],
                    #[trigger] s[b],
                ) by {
                    let ba = if a < i { a } else { a + 1 };
                    let bb = if b < i { b } else { b + 1 };
                    assert(s[a] == before[ba] && s[b] == before[bb]);
                }
                assert forall|a: int, b: int|
                    0 <= a < s.len() && 0 <= b < s.len() && a != b implies #[trigger] s[a].id
                    != #[trigger] s[b].id by {
                    let ba = if a < i { a } else { a + 1 };
                    let bb = if b < i { b } else { b + 1 };
                    assert(s[a] == before[ba] && s[b] == before[bb]);
                }
                assert forall|a: int| 0 <= a < s.len() implies valid_event(#[trigger] s[a]) by {
                    let ba = if a < i { a } else { a + 1 };
                    assert(s[a] == before[ba]);
                }
                assert(!has_id(s, e.id)) by {
                    if has_id(s, e.id) {
                        let k = choose|k: int| 0 <= k < s.len() && #[trigger] s[k].id == e.id;
                        let bk = if k < i { k } else { k + 1 };
                        assert(s[k] == before[bk]);
                        assert(before[i as int].id == e.id);
                    }
                }
            }
        } else {
            proof {
                assert(!has_id(start, e.id));
            }
        }
        let ghost mid = self.view();
        let ghost ev = e@;
        self.insert_new(e);
        proof {
            let s = self.view();
            let p = choose|p: int| 0 <= p <= mid.len() && s == mid.insert(p, ev);
            assert(s[p] == ev);
            assert(has_id(s, ev.id));
            assert forall|k: int| 0 <= k < s.len() && #[trigger] s[k].id == ev.id implies s[k]
                == ev by {
                if k != p {
                    assert(s[k].id != s[p].id);
                }
            }
            assert forall|x: EventV<E::V>| x.id != ev.id implies (start.contains(x)
                <==> s.contains(x)) by {
                if start.contains(x) {
                    let k = choose|k: int| 0 <= k < start.len() && start[k] == x;
                    if i < start.len() {
                        assert(k != i);
                        let mk = if k < i { k } else { k - 1 };
                        assert(mid[mk] == x);
                        let sk = if mk < p { mk } else { mk + 1 };
                        assert(s[sk] == x);
                    } else {
                        let sk = if k < p { k } else { k + 1 };
                        assert(mid[k] == x);
                        assert(s[sk] == x);
                    }
                }
                if s.contains(x) {
                    let k = choose|k: int| 0 <= k < s.len() && s[k] == x;
                    assert(k != p);
                    let mk = if k < p { k } else { k - 1 };
                    assert(mid[mk] == x);
                    if i < start.len() {
                        let bk = if mk < i { mk } else { mk + 1 };
                        assert(start[bk] == x);
                    } else {
                        assert(start[mk] == x);
                    }
                }
            }
        }
    }

    /// The events of the query from `since` on, in log order.
    pub fn read_since(&self, q: &StoreQuery, since: Option<i64>) -> (r: Vec<Event<E>>)
        ensures
            views(r@) == select::<E>(self.view(), q@, since),
    {
        let mut out: Vec<Event<E>> = Vec::new();
        let mut i: usize = 0;
        while i < self.events.len()
            invariant
                i <= self.events@.len(),
                views(out@) == select::<E>(views(self.events@.subrange(0, i as int)), q@, since),
            decreases self.events@.len() - i,
        {
            proof {
                assert(views(self.events@.subrange(0, i as int + 1)).drop_last() =~= views(
                    self.events@.subrange(0, i as int),
                ));
            }
            if is_wanted(&self.events[i], q, since) {
                let c = copy_event(&self.events[i]);
                let ghost before = out@;
                out.push(c);
                proof {
                    assert(views(out@) =~= views(before).push(c@));
                }
            }
            i = i + 1;
        }
        proof { assert(self.events@.subrange(0, self.events@.len() as int) =~= self.events@); }
        out
    }

    /// The last event of a kind in log order: greatest time, then greatest id.
    pub fn last_of(&self, namespace: &String, event_type: &String) -> (r: Option<Event<E>>)
        ensures
            match r {
                Some(e) => last_of_kind::<E>(self.view(), namespace@, event_type@) == Some(e@),
                None => last_of_kind::<E>(self.view(), namespace@, event_type@) is None,
            },
    {
        let mut types: Vec<String> = Vec::new();
        types.push(event_type.clone());
        let q = StoreQuery { event_namespace: namespace.clone(), event_types: types, args: Vec::new() };
        proof {
            assert(texts(q.event_types@) =~= seq![event_type@]);
            assert(texts(q.args@) =~= Seq::<Seq<char>>::empty());
            assert(q@ == kind_query(namespace@, event_type@));
        }
        let mut found = self.read_since(&q, None);
        found.pop()
    }
}

} // verus!
