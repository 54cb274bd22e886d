//! The store: reading aggregates through the cache, and saving events to the log and the bus.

use vstd::prelude::*;
use vstd::string::StringExecFns;
use crate::aggregate::{
    cache_key, fold_new_events, fold_unique, lemma_fold_unique_applied, lemma_fold_unique_ids,
    views, Aggregator, QueryV,
};
use crate::bus::{published, MemoryBus};
use crate::cache::{MemoryCache, Snapshot};
use crate::codec::{decode_spec, encode, envelope};
use crate::error::StoreError;
use crate::event::{valid_event, Event, EventV, Events};
use crate::log::{has_id, select, wanted, MemoryLog};

verus! {

/// `<namespace>.<type>`: the bus topic of an event kind.
pub open spec fn topic_of(namespace: Seq<char>, event_type: Seq<char>) -> Seq<char> {
    namespace + seq!['.'] + event_type
}

/// The topic of an event.
pub open spec fn event_topic<E: Events>(e: EventV<E::V>) -> Seq<char> {
    topic_of(E::namespace_of(e.data), E::type_of(e.data))
}

/// Builds `<namespace>.<type>`.
pub fn topic_name(namespace: &str, event_type: &str) -> (r: String)
    ensures
        r@ == topic_of(namespace@, event_type@),
{
    proof {
        reveal_strlit(".");
    }
    let mut s = namespace.to_owned();
    s.append(".");
    s.append(event_type);
    proof {
        assert(s@ =~= topic_of(namespace@, event_type@));
    }
    s
}

/// What an aggregate read yields: the value and the ids folded into it. From a snapshot, the
/// events from its time on are folded onto it, skipping those already applied; without one,
/// all events of the query are folded onto zero.
pub open spec fn aggregate_result<T: Aggregator<E, A>, E: Events, A>(
    log: Seq<EventV<E::V>>,
    snapshot: Option<(T, Seq<u128>, i64)>,
    q: QueryV,
) -> (T, Seq<u128>) {
    match snapshot {
        Some(s) => fold_unique::<T, E, A>(s.0, s.1, select::<E>(log, q, Some(s.2))),
        None => fold_unique::<T, E, A>(T::zero_spec(), Seq::empty(), select::<E>(log, q, None)),
    }
}

/// The events a query selects are the events of the log that it wants.
pub proof fn lemma_select_members<E: Events>(s: Seq<EventV<E::V>>, q: QueryV, since: Option<i64>)
    ensures
        forall|x: EventV<E::V>|
            #[trigger] select::<E>(s, q, since).contains(x) <==> s.contains(x) && wanted::<E>(x, q, since),
    decreases s.len(),
{
    if s.len() > 0 {
        let rest = s.drop_last();
        lemma_select_members::<E>(rest, q, since);
        let sel = select::<E>(s, q, since);
        let sel0 = select::<E>(rest, q, since);
        assert forall|x: EventV<E::V>| #[trigger] sel.contains(x) <==> s.contains(x) && wanted::<E>(
            x,
            q,
            since,
        ) by {
            if s.contains(x) && wanted::<E>(x, q, since) {
                let k = choose|k: int| 0 <= k < s.len() && s[k] == x;
                if k < s.len() - 1 {
                    assert(rest[k] == x);
                    assert(sel0.contains(x));
                    let m = choose|m: int| 0 <= m < sel0.len() && sel0[m] == x;
                    if wanted::<E>(s.last(), q, since) {
                        assert(sel[m] == x);
                    }
                } else {
                    assert(sel[sel.len() - 1] == x);
                }
            }
            if sel.contains(x) {
                let m = choose|m: int| 0 <= m < sel.len() && sel[m] == x;
                if wanted::<E>(s.last(), q, since) && m == sel.len() - 1 {
                    assert(s[s.len() - 1] == x);
                } else {
                    assert(sel0[m] == x);
                    assert(sel0.contains(x));
                    let k = choose|k: int| 0 <= k < rest.len() && rest[k] == x;
                    assert(s[k] == x);
                }
            }
        }
    }
}

/// With the log unchanged, a warm cache gives what a cold one gives: the snapshot that a read
/// from scratch writes, whatever time the cache stamps on it, reads back to the same value and
/// ids.
pub proof fn lemma_cache_transparent<T: Aggregator<E, A>, E: Events, A>(
    log: Seq<EventV<E::V>>,
    q: QueryV,
    t: i64,
)
    ensures
        aggregate_result::<T, E, A>(
            log,
            Some(
                (
                    aggregate_result::<T, E, A>(log, None, q).0,
                    aggregate_result::<T, E, A>(log, None, q).1,
                    t,
                ),
            ),
            q,
        ) == aggregate_result::<T, E, A>(log, None, q),
{
    let all = select::<E>(log, q, None);
    let later = select::<E>(log, q, Some(t));
    let first = aggregate_result::<T, E, A>(log, None, q);
    lemma_select_members::<E>(log, q, None);
    lemma_select_members::<E>(log, q, Some(t));
    lemma_fold_unique_ids::<T, E, A>(T::zero_spec(), Seq::empty(), all);
    assert forall|i: int| 0 <= i < later.len() implies first.1.contains(#[trigger] later[i].id) by {
        assert(later.contains(later[i]));
        assert(all.contains(later[i]));
        let j = choose|j: int| 0 <= j < all.len() && all[j] == later[i];
        assert(first.1.contains(all[j].id));
    }
    lemma_fold_unique_applied::<T, E, A>(first.0, first.1, later);
}

/// A saved event is seen by the next read of an aggregate whose query wants it, unless the
/// cached snapshot is stamped later than the event: its id is among those folded.
pub proof fn lemma_saved_event_observed<T: Aggregator<E, A>, E: Events, A>(
    log: Seq<EventV<E::V>>,
    e: EventV<E::V>,
    q: QueryV,
    snapshot: Option<(T, Seq<u128>, i64)>,
)
    requires
        log.contains(e),
        wanted::<E>(e, q, None),
        snapshot matches Some(s) ==> s.2 <= e.time,
    ensures
        aggregate_result::<T, E, A>(log, snapshot, q).1.contains(e.id),
{
    let since = match snapshot {
        Some(s) => Some(s.2),
        None => None,
    };
    lemma_select_members::<E>(log, q, since);
    assert(wanted::<E>(e, q, since));
    let sel = select::<E>(log, q, since);
    assert(sel.contains(e));
    let i = choose|i: int| 0 <= i < sel.len() && sel[i] == e;
    match snapshot {
        Some(s) => lemma_fold_unique_ids::<T, E, A>(s.0, s.1, sel),
        None => lemma_fold_unique_ids::<T, E, A>(T::zero_spec(), Seq::empty(), sel),
    }
    assert(sel[i].id == e.id);
}

/// The time a read stamps on its snapshot is not before any event it folded, as long as the
/// cache's clock is not behind the log.
pub proof fn lemma_watermark<E: Events>(
    log: Seq<EventV<E::V>>,
    q: QueryV,
    since: Option<i64>,
    now: i64,
)
    requires
        forall|i: int| 0 <= i < log.len() ==> (#[trigger] log[i]).time <= now,
    ensures
        forall|i: int|
            0 <= i < select::<E>(log, q, since).len() ==> (#[trigger] select::<E>(log, q, since)[i]).time
                <= now,
{
    lemma_select_members::<E>(log, q, since);
    assert forall|i: int| 0 <= i < select::<E>(log, q, since).len() implies (#[trigger] select::<E>(
        log,
        q,
        since,
    )[i]).time <= now by {
        let x = select::<E>(log, q, since)[i];
        assert(select::<E>(log, q, since).contains(x));
        let k = choose|k: int| 0 <= k < log.len() && log[k] == x;
    }
}

/// An event store over a log: aggregates are read through a cache, and saved events are
/// published on a bus.
pub struct Store<E> {
    pub log: MemoryLog<E>,
}

impl<E: Events> Store<E> {
    pub open spec fn wf(&self) -> bool {
        self.log.wf()
    }

    /// A store over `log`.
    pub fn new(log: MemoryLog<E>) -> (r: Self)
        ensures
            r.log == log,
    {
        Store { log }
    }

    /// Reads the aggregate for `args`: the cached snapshot and the events from its time on,
    /// or all events of the query without one. The result is written back to the cache, which
    /// stamps it with its clock reading `now`.
    pub fn aggregate<T: Aggregator<E, A>, A>(
        &self,
        cache: &mut MemoryCache<T>,
        args: &A,
        now: i64,
    ) -> (r: T)
        ensures
            r == aggregate_result::<T, E, A>(
                self.log.view(),
                old(cache).lookup(cache_key(T::query_spec(*args))),
                T::query_spec(*args),
            ).0,
            final(cache).lookup(cache_key(T::query_spec(*args))) == Some(
                (
                    r,
                    aggregate_result::<T, E, A>(
                        self.log.view(),
                        old(cache).lookup(cache_key(T::query_spec(*args))),
                        T::query_spec(*args),
                    ).1,
                    now,
                ),
            ),
            forall|k: Seq<char>|
                k != cache_key(T::query_spec(*args)) ==> final(cache).lookup(k) == old(cache).lookup(k),
    {
        let q = T::query(args);
        let key = q.unique_id();
        let (init, mut applied, since) = match cache.get(&key) {
            Some((s, t)) => (s.value, s.applied, Some(t)),
            None => (T::zero(), Vec::new(), None),
        };
        proof {
            assert(applied@ =~= match old(cache).lookup(key@) {
                Some(s) => s.1,
                None => Seq::<u128>::empty(),
            });
        }
        let events = self.log.read_since(&q, since);
        let result = fold_new_events(init, &mut applied, &events);
        cache.put(key, Snapshot { value: result.duplicate(), applied }, now);
        result
    }

    /// Appends an event to the log without publishing it.
    pub fn save_no_emit(&mut self, event: Event<E>) -> (r: Result<(), StoreError>)
        requires
            old(self).wf(),
            valid_event(event@),
        ensures
            final(self).wf(),
            has_id(old(self).log.view(), event.id) ==> r == Err::<(), StoreError>(
                StoreError::Conflict(event.id),
            ) && final(self).log.view() == old(self).log.view(),
            !has_id(old(self).log.view(), event.id) ==> r is Ok && exists|p: int|
                0 <= p <= old(self).log.view().len() && final(self).log.view() == old(self).log.view().insert(p, event@),
    {
        self.log.append(event)
    }

    /// Publishes the canonical form of an event on its topic.
    pub fn emit(&self, bus: &mut MemoryBus, event: &Event<E>) -> (r: Result<(), StoreError>)
        requires
            valid_event(event@),
        ensures
            final(bus).available == old(bus).available,
            old(bus).available ==> r is Ok && final(bus).view() == published(
                old(bus).view(),
                event_topic::<E>(event@),
                envelope::<E>(event@),
            ),
            !old(bus).available ==> r == Err::<(), StoreError>(StoreError::Io) && final(bus).view()
                == old(bus).view(),
            decode_spec::<E>(envelope::<E>(event@)) == Ok::<EventV<E::V>, StoreError>(event@),
    {
        let msg = encode(event);
        let topic = topic_name(event.data.event_namespace().as_str(), event.data.event_type().as_str());
        bus.publish(&topic, &msg)
    }

    /// Appends an event to the log, then publishes it. A refused append publishes nothing;
    /// a failed publish leaves the event in the log and reports `Io`.
    pub fn save(&mut self, bus: &mut MemoryBus, event: Event<E>) -> (r: Result<(), StoreError>)
        requires
            old(self).wf(),
            valid_event(event@),
        ensures
            final(self).wf(),
            final(bus).available == old(bus).available,
            has_id(old(self).log.view(), event.id) ==> r == Err::<(), StoreError>(
                StoreError::Conflict(event.id),
            ) && final(self).log.view() == old(self).log.view() && final(bus).view() == old(bus).view(),
            !has_id(old(self).log.view(), event.id) ==> exists|p: int|
                0 <= p <= old(self).log.view().len() && final(self).log.view() == old(self).log.view().insert(p, event@),
            !has_id(old(self).log.view(), event.id) && old(bus).available ==> r is Ok && final(bus).view() == published(old(bus).view(), event_topic::<E>(event@), envelope::<E>(event@)),
            !has_id(old(self).log.view(), event.id) && !old(bus).available ==> r == Err::<
                (),
                StoreError,
            >(StoreError::Io) && final(bus).view() == old(bus).view(),
            decode_spec::<E>(envelope::<E>(event@)) == Ok::<EventV<E::V>, StoreError>(event@),
    {
        let msg = encode(&event);
        let topic = topic_name(event.data.event_namespace().as_str(), event.data.event_type().as_str());
        match self.log.append(event) {
            Ok(()) => {},
            Err(err) => return Err(err),
        }
        bus.publish(&topic, &msg)
    }

    /// The canonical forms of the events of one kind from `since` on, in log order.
    pub fn read_events_since(&self, namespace: &String, event_type: &String, since: i64) -> (r:
        Vec<crate::json::Json>)
        requires
            self.wf(),
        ensures
            r@.map_values(|j: crate::json::Json| j@) == select::<E>(
                self.log.view(),
                crate::log::kind_query(namespace@, event_type@),
                Some(since),
            ).map_values(|e: EventV<E::V>| envelope::<E>(e)),
    {
        let mut types: Vec<String> = Vec::new();
        types.push(event_type.clone());
        let q = crate::aggregate::StoreQuery {
            event_namespace: namespace.clone(),
            event_types: types,
            args: Vec::new(),
        };
        proof {
            assert(crate::aggregate::texts(q.event_types@) =~= seq![event_type@]);
            assert(crate::aggregate::texts(q.args@) =~= Seq::<Seq<char>>::empty());
        }
        let events = self.log.read_since(&q, Some(since));
        let ghost sel = select::<E>(self.log.view(), q@, Some(since));
        proof {
            lemma_select_members::<E>(self.log.view(), q@, Some(since));
        }
        let mut out: Vec<crate::json::Json> = Vec::new();
        let mut i: usize = 0;
        while i < events.len()
            invariant
                i <= events@.len(),
                out@.len() == i,
                views(events@) == sel,
                self.wf(),
                forall|x: EventV<E::V>| #[trigger] sel.contains(x) ==> self.log.view().contains(x),
                out@.map_values(|j: crate::json::Json| j@) == sel.subrange(0, i as int).map_values(
                    |e: EventV<E::V>| envelope::<E>(e),
                ),
            decreases events@.len() - i,
        {
            proof {
                assert(sel[i as int] == events@[i as int]@);
                assert(sel.contains(sel[i as int]));
                let k = choose|k: int| 0 <= k < self.log.view().len() && self.log.view()[k] == sel[i as int];
                assert(valid_event(self.log.view()[k]));
            }
            let msg = encode(&events[i]);
            let ghost before = out@;
            out.push(msg);
            proof {
                assert forall|j: int| 0 <= j < i implies #[trigger] out@[j]@ == envelope::<E>(sel[j]) by {
                    assert(out@[j] == before[j]);
                    assert(before.map_values(|j: crate::json::Json| j@)[j] == sel.subrange(0, i as int).map_values(|e: EventV<E::V>| envelope::<E>(e))[j]);
                }
                assert(out@[i as int]@ == envelope::<E>(sel[i as int]));
                assert(out@.map_values(|j: crate::json::Json| j@) =~= sel.subrange(
                    0,
                    i as int + 1,
                ).map_values(|e: EventV<E::V>| envelope::<E>(e)));
            }
            i = i + 1;
        }
        proof {
            assert(sel.subrange(0, events@.len() as int) =~= sel);
        }
        out
    }
}

} // verus!
