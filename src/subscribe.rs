//! Subscriptions: durable queues per event kind, and the replay protocol by which a new
//! subscriber has missed events published again.

use vstd::prelude::*;
use vstd::string::StringExecFns;
use crate::aggregate::Aggregator;
use crate::bus::{declared, drained, messages_view, published, published_all, waiting, MemoryBus, QueueV};
use crate::cache::MemoryCache;
use crate::codec::{decode, decode_spec, encode, envelope};
use crate::error::StoreError;
use crate::event::{key_legacy, key_namespace, key_type, reserved, strip_reserved, valid_event, Event, EventContext, EventV, Events};
use crate::json::{get_member, lemma_members_view, member, member_from, mview, Json, JsonV};
use crate::log::{kind_query, last_of_kind, select, wanted, MemoryLog};
use crate::store::{lemma_select_members, topic_name, topic_of, Store};
use crate::timestamp::{format_time, parse_time, rfc3339_text, time_value, MAX_TIME, MIN_TIME};

verus! {

/// Asks the stores on the bus to publish again the events of one kind from `since` on.
pub struct EventReplayRequested {
    pub requested_event_namespace: String,
    pub requested_event_type: String,
    /// RFC 3339.
    pub since: String,
}

/// The mathematical value of an `EventReplayRequested`.
pub struct ReplayRequestV {
    pub namespace: Seq<char>,
    pub event_type: Seq<char>,
    pub since: Seq<char>,
}

impl View for EventReplayRequested {
    type V = ReplayRequestV;

    open spec fn view(&self) -> ReplayRequestV {
        ReplayRequestV {
            namespace: self.requested_event_namespace@,
            event_type: self.requested_event_type@,
            since: self.since@,
        }
    }
}

pub open spec fn replay_namespace() -> Seq<char> {
    "event_store"@
}

pub open spec fn replay_type() -> Seq<char> {
    "EventReplayRequested"@
}

pub open spec fn key_requested_namespace() -> Seq<char> {
    "requested_event_namespace"@
}

pub open spec fn key_requested_type() -> Seq<char> {
    "requested_event_type"@
}

pub open spec fn key_since() -> Seq<char> {
    "since"@
}

fn text_member(payload: &Vec<(String, Json)>, key: &str) -> (r: Option<String>)
    ensures
        match r {
            Some(s) => member(mview(*payload), key@) == Some(JsonV::Str(s@)),
            None => !(member(mview(*payload), key@) matches Some(JsonV::Str(_))),
        },
{
    match get_member(payload, key) {
        Some(Json::Str(s)) => Some(s.clone()),
        _ => None,
    }
}

impl Events for EventReplayRequested {
    open spec fn namespace_of(v: ReplayRequestV) -> Seq<char> {
        replay_namespace()
    }

    open spec fn type_of(v: ReplayRequestV) -> Seq<char> {
        replay_type()
    }

    open spec fn payload_of(v: ReplayRequestV) -> Seq<(Seq<char>, JsonV)> {
        seq![
            (key_requested_namespace(), JsonV::Str(v.namespace)),
            (key_requested_type(), JsonV::Str(v.event_type)),
            (key_since(), JsonV::Str(v.since)),
        ]
    }

    open spec fn parse_payload(
        namespace: Seq<char>,
        event_type: Seq<char>,
        payload: Seq<(Seq<char>, JsonV)>,
    ) -> Result<ReplayRequestV, StoreError> {
        if namespace != replay_namespace() || event_type != replay_type() {
            Err(StoreError::UnknownVariant)
        } else {
            match (
                member(payload, key_requested_namespace()),
                member(payload, key_requested_type()),
                member(payload, key_since()),
            ) {
                (Some(JsonV::Str(a)), Some(JsonV::Str(b)), Some(JsonV::Str(c))) => Ok(
                    ReplayRequestV { namespace: a, event_type: b, since: c },
                ),
                _ => Err(StoreError::MalformedEnvelope),
            }
        }
    }

    fn event_namespace(&self) -> (r: String) {
        "event_store".to_owned()
    }

    fn event_type(&self) -> (r: String) {
        "EventReplayRequested".to_owned()
    }

    fn payload(&self) -> (r: Vec<(String, Json)>) {
        let mut out: Vec<(String, Json)> = Vec::new();
        out.push(
            ("requested_event_namespace".to_owned(), Json::Str(self.requested_event_namespace.clone())),
        );
        out.push(("requested_event_type".to_owned(), Json::Str(self.requested_event_type.clone())));
        out.push(("since".to_owned(), Json::Str(self.since.clone())));
        proof {
            lemma_members_view(out, out@.len());
            assert(mview(out) =~= Self::payload_of(self@));
        }
        out
    }

    fn from_payload(namespace: &str, event_type: &str, payload: &Vec<(String, Json)>) -> (r:
        Result<Self, StoreError>) {
        if namespace.to_owned() != "event_store".to_owned() || event_type.to_owned()
            != "EventReplayRequested".to_owned() {
            return Err(StoreError::UnknownVariant);
        }
        let a = text_member(payload, "requested_event_namespace");
        let b = text_member(payload, "requested_event_type");
        let c = text_member(payload, "since");
        match (a, b, c) {
            (Some(a), Some(b), Some(c)) => Ok(
                EventReplayRequested {
                    requested_event_namespace: a,
                    requested_event_type: b,
                    since: c,
                },
            ),
            _ => Err(StoreError::MalformedEnvelope),
        }
    }

    fn duplicate(&self) -> (r: Self) {
        EventReplayRequested {
            requested_event_namespace: self.requested_event_namespace.clone(),
            requested_event_type: self.requested_event_type.clone(),
            since: self.since.clone(),
        }
    }

    proof fn lemma_payload_round_trip(v: ReplayRequestV) {
        reveal_strlit("requested_event_namespace");
        reveal_strlit("requested_event_type");
        reveal_strlit("since");
        reveal_strlit("event_namespace");
        reveal_strlit("event_type");
        reveal_strlit("type");
        reveal_with_fuel(member_from, 4);
        reveal_with_fuel(strip_reserved, 4);
        let p = Self::payload_of(v);
        assert(!reserved(p[0].0) && !reserved(p[1].0) && !reserved(p[2].0)) by {
            assert(key_namespace().len() == 15 && key_type().len() == 10 && key_legacy().len() == 4);
            assert(key_requested_namespace().len() == 25);
            assert(key_requested_type().len() == 20);
            assert(key_since().len() == 5);
        }
        assert(p.drop_last().drop_last().drop_last() =~= Seq::<(Seq<char>, JsonV)>::empty());
        assert(strip_reserved(p.drop_last().drop_last()) =~= p.drop_last().drop_last());
        assert(strip_reserved(p.drop_last()) =~= p.drop_last());
        assert(strip_reserved(p) =~= p);
        assert(key_requested_namespace().len() == 25);
        assert(key_requested_type().len() == 20);
        assert(key_since().len() == 5);
        assert(key_requested_namespace() != key_requested_type());
        assert(key_requested_namespace() != key_since());
        assert(key_requested_type() != key_since());
    }
}

/// The replay request a subscriber publishes.
pub open spec fn request_view(
    id: u128,
    namespace: Seq<char>,
    event_type: Seq<char>,
    since: i64,
    now: i64,
) -> EventV<ReplayRequestV> {
    EventV {
        id,
        data: ReplayRequestV { namespace, event_type, since: rfc3339_text(since) },
        time: now,
        subject: None,
        action: None,
    }
}

/// The queues after answering one replay request, if it is one: none for a message that is
/// not a replay request or whose time does not read.
pub open spec fn answered<E: Events>(qs: Seq<QueueV>, log: Seq<EventV<E::V>>, msg: JsonV) -> Option<
    Seq<QueueV>,
> {
    match decode_spec::<EventReplayRequested>(msg) {
        Ok(req) => match time_value(req.data.since) {
            Some(t) => Some(
                published_all(
                    qs,
                    topic_of(req.data.namespace, req.data.event_type),
                    select::<E>(log, kind_query(req.data.namespace, req.data.event_type), Some(t)).map_values(
                        |x: EventV<E::V>| envelope::<E>(x),
                    ),
                ),
            ),
            None => None,
        },
        Err(_) => None,
    }
}

/// The queues after answering, in turn, each message that is a replay request; other messages
/// are passed over.
pub open spec fn answered_all<E: Events>(
    qs: Seq<QueueV>,
    log: Seq<EventV<E::V>>,
    msgs: Seq<JsonV>,
) -> Seq<QueueV>
    decreases msgs.len(),
{
    if msgs.len() == 0 {
        qs
    } else {
        let before = answered_all::<E>(qs, log, msgs.drop_last());
        match answered::<E>(before, log, msgs.last()) {
            Some(after) => after,
            None => before,
        }
    }
}

/// How many of `msgs` are answered replay requests.
pub open spec fn answered_count<E: Events>(
    qs: Seq<QueueV>,
    log: Seq<EventV<E::V>>,
    msgs: Seq<JsonV>,
) -> nat
    decreases msgs.len(),
{
    if msgs.len() == 0 {
        0
    } else {
        let before = answered_all::<E>(qs, log, msgs.drop_last());
        answered_count::<E>(qs, log, msgs.drop_last()) + match answered::<E>(
            before,
            log,
            msgs.last(),
        ) {
            Some(_) => 1nat,
            None => 0nat,
        }
    }
}

/// Where a subscriber's replay starts: the time of the last event of the kind in its own log,
/// or the epoch if it has none.
pub open spec fn replay_since<E: Events>(
    log: Seq<EventV<E::V>>,
    namespace: Seq<char>,
    event_type: Seq<char>,
) -> i64 {
    match last_of_kind::<E>(log, namespace, event_type) {
        Some(e) => e.time,
        None => 0,
    }
}

/// `<store namespace>-<namespace>.<type>`: the queue of a store's subscription to a kind.
pub open spec fn queue_of(store: Seq<char>, namespace: Seq<char>, event_type: Seq<char>) -> Seq<
    char,
> {
    store + seq!['-'] + topic_of(namespace, event_type)
}

/// An event store whose subscriptions are durable queues on a bus, and which answers replay
/// requests from its own log.
pub struct SubscribableStore<E> {
    pub store_namespace: String,
    pub inner_store: Store<E>,
}

impl<E: Events> SubscribableStore<E> {
    pub open spec fn wf(&self) -> bool {
        self.inner_store.wf()
    }

    /// A store over `log` that listens for replay requests on `bus`.
    pub fn new(store_namespace: String, log: MemoryLog<E>, bus: &mut MemoryBus) -> (r: Result<
        Self,
        StoreError,
    >)
        ensures
            final(bus).available == old(bus).available,
            !old(bus).available ==> r == Err::<Self, StoreError>(StoreError::Io) && final(bus).view()
                == old(bus).view(),
            old(bus).available ==> (r matches Ok(s) && s.store_namespace@ == store_namespace@
                && s.inner_store.log == log && final(bus).view() == declared(
                old(bus).view(),
                queue_of(store_namespace@, replay_namespace(), replay_type()),
                topic_of(replay_namespace(), replay_type()),
            )),
    {
        let s = SubscribableStore { store_namespace, inner_store: Store::new(log) };
        proof {
            reveal_strlit("event_store");
            reveal_strlit("EventReplayRequested");
        }
        match s.subscribe_no_replay(bus, "event_store", "EventReplayRequested") {
            Ok(()) => Ok(s),
            Err(err) => Err(err),
        }
    }

    /// `<namespace>.<type>`.
    pub fn event_queue_name(&self, namespace: &str, event_type: &str) -> (r: String)
        ensures
            r@ == topic_of(namespace@, event_type@),
    {
        topic_name(namespace, event_type)
    }

    /// `<store namespace>-<namespace>.<type>`.
    pub fn namespaced_event_queue_name(&self, namespace: &str, event_type: &str) -> (r: String)
        ensures
            r@ == queue_of(self.store_namespace@, namespace@, event_type@),
    {
        proof {
            reveal_strlit("-");
        }
        let mut s = self.store_namespace.clone();
        s.append("-");
        let t = topic_name(namespace, event_type);
        s.append(t.as_str());
        proof {
            assert(s@ =~= queue_of(self.store_namespace@, namespace@, event_type@));
        }
        s
    }

    /// Reads an aggregate; see `Store::aggregate`.
    pub fn aggregate<T: Aggregator<E, A>, A>(
        &self,
        cache: &mut MemoryCache<T>,
        args: &A,
        now: i64,
    ) -> (r: T)
        ensures
            r == crate::store::aggregate_result::<T, E, A>(
                self.inner_store.log.view(),
                old(cache).lookup(crate::aggregate::cache_key(T::query_spec(*args))),
                T::query_spec(*args),
            ).0,
            final(cache).lookup(crate::aggregate::cache_key(T::query_spec(*args))) == Some(
                (
                    r,
                    crate::store::aggregate_result::<T, E, A>(
                        self.inner_store.log.view(),
                        old(cache).lookup(crate::aggregate::cache_key(T::query_spec(*args))),
                        T::query_spec(*args),
                    ).1,
                    now,
                ),
            ),
            forall|k: Seq<char>|
                k != crate::aggregate::cache_key(T::query_spec(*args)) ==> final(cache).lookup(k)
                    == old(cache).lookup(k),
    {
        self.inner_store.aggregate(cache, args, now)
    }

    /// Saves and publishes an event; see `Store::save`.
    pub fn save(&mut self, bus: &mut MemoryBus, event: Event<E>) -> (r: Result<(), StoreError>)
        requires
            old(self).wf(),
            valid_event(event@),
        ensures
            final(self).wf(),
            final(self).store_namespace == old(self).store_namespace,
            final(bus).available == old(bus).available,
            crate::log::has_id(old(self).inner_store.log.view(), event.id) ==> r == Err::<
                (),
                StoreError,
            >(StoreError::Conflict(event.id)) && final(self).inner_store.log.view() == old(self).inner_store.log.view()
                && final(bus).view() == old(bus).view(),
            !crate::log::has_id(old(self).inner_store.log.view(), event.id) ==> exists|p: int|
                0 <= p <= old(self).inner_store.log.view().len() && final(self).inner_store.log.view()
                    == old(self).inner_store.log.view().insert(p, event@),
            !crate::log::has_id(old(self).inner_store.log.view(), event.id) && old(bus).available
                ==> r is Ok && final(bus).view() == published(
                old(bus).view(),
                crate::store::event_topic::<E>(event@),
                envelope::<E>(event@),
            ),
            !crate::log::has_id(old(self).inner_store.log.view(), event.id) && !old(bus).available
                ==> r == Err::<(), StoreError>(StoreError::Io) && final(bus).view() == old(bus).view(),
            decode_spec::<E>(envelope::<E>(event@)) == Ok::<EventV<E::V>, StoreError>(event@),
    {
        self.inner_store.save(bus, event)
    }

    /// Saves an event without publishing it; see `Store::save_no_emit`.
    pub fn save_no_emit(&mut self, event: Event<E>) -> (r: Result<(), StoreError>)
        requires
            old(self).wf(),
            valid_event(event@),
        ensures
            final(self).wf(),
            final(self).store_namespace == old(self).store_namespace,
            crate::log::has_id(old(self).inner_store.log.view(), event.id) ==> r == Err::<
                (),
                StoreError,
            >(StoreError::Conflict(event.id)) && final(self).inner_store.log.view() == old(self).inner_store.log.view(),
            !crate::log::has_id(old(self).inner_store.log.view(), event.id) ==> r is Ok && exists|p: int|
                0 <= p <= old(self).inner_store.log.view().len() && final(self).inner_store.log.view()
                    == old(self).inner_store.log.view().insert(p, event@),
    {
        self.inner_store.save_no_emit(event)
    }

    /// Creates this store's durable queue for a kind, without asking for a replay.
    pub fn subscribe_no_replay(&self, bus: &mut MemoryBus, namespace: &str, event_type: &str) -> (r:
        Result<(), StoreError>)
        ensures
            final(bus).available == old(bus).available,
            !old(bus).available ==> r == Err::<(), StoreError>(StoreError::Io) && final(bus).view()
                == old(bus).view(),
            old(bus).available ==> r is Ok && final(bus).view() == declared(
                old(bus).view(),
                queue_of(self.store_namespace@, namespace@, event_type@),
                topic_of(namespace@, event_type@),
            ),
    {
        let queue = self.namespaced_event_queue_name(namespace, event_type);
        let topic = topic_name(namespace, event_type);
        bus.declare_queue(&queue, &topic)
    }

    /// Subscribes to a kind: creates the durable queue, then asks for a replay of the events
    /// from the last one of the kind in this store's log on (from the epoch if there is none).
    /// The request has id `request_id` and is stamped `now`.
    pub fn subscribe(
        &self,
        bus: &mut MemoryBus,
        namespace: &String,
        event_type: &String,
        request_id: u128,
        now: i64,
    ) -> (r: Result<(), StoreError>)
        requires
            self.wf(),
            MIN_TIME <= now <= MAX_TIME,
        ensures
            final(bus).available == old(bus).available,
            !old(bus).available ==> r == Err::<(), StoreError>(StoreError::Io) && final(bus).view()
                == old(bus).view(),
            old(bus).available ==> r is Ok && final(bus).view() == published(
                declared(
                    old(bus).view(),
                    queue_of(self.store_namespace@, namespace@, event_type@),
                    topic_of(namespace@, event_type@),
                ),
                topic_of(replay_namespace(), replay_type()),
                envelope::<EventReplayRequested>(
                    request_view(
                        request_id,
                        namespace@,
                        event_type@,
                        replay_since::<E>(self.inner_store.log.view(), namespace@, event_type@),
                        now,
                    ),
                ),
            ),
    {
        match self.subscribe_no_replay(bus, namespace.as_str(), event_type.as_str()) {
            Ok(()) => {},
            Err(err) => return Err(err),
        }
        let since: i64 = match self.inner_store.log.last_of(namespace, event_type) {
            Some(e) => {
                proof {
                    let log = self.inner_store.log.view();
                    let q = kind_query(namespace@, event_type@);
                    lemma_select_members::<E>(log, q, None);
                    let sel = select::<E>(log, q, None);
                    assert(sel.contains(sel.last()));
                    let k = choose|k: int| 0 <= k < log.len() && log[k] == sel.last();
                    assert(valid_event(log[k]));
                }
                e.context.time
            },
            None => 0,
        };
        let request = Event {
            id: request_id,
            data: EventReplayRequested {
                requested_event_namespace: namespace.clone(),
                requested_event_type: event_type.clone(),
                since: format_time(since),
            },
            context: EventContext { time: now, subject: None, action: None },
        };
        let msg = encode(&request);
        proof {
            reveal_strlit("event_store");
            reveal_strlit("EventReplayRequested");
        }
        let topic = topic_name("event_store", "EventReplayRequested");
        bus.publish(&topic, &msg)
    }

    /// Answers one replay request: publishes again, on the requested kind's topic, the events
    /// of that kind in this store's log from the requested time on, in log order.
    pub fn respond_to_replay(&self, bus: &mut MemoryBus, request: &Event<EventReplayRequested>) -> (r:
        Result<(), StoreError>)
        requires
            self.wf(),
        ensures
            final(bus).available == old(bus).available,
            time_value(request.data.since@) is None ==> r == Err::<(), StoreError>(
                StoreError::MalformedEnvelope,
            ) && final(bus).view() == old(bus).view(),
            time_value(request.data.since@) matches Some(t) ==> {
                let sel = select::<E>(
                    self.inner_store.log.view(),
                    kind_query(request.data.requested_event_namespace@, request.data.requested_event_type@),
                    Some(t),
                );
                &&& old(bus).available ==> r is Ok && final(bus).view() == published_all(
                    old(bus).view(),
                    topic_of(request.data.requested_event_namespace@, request.data.requested_event_type@),
                    sel.map_values(|e: EventV<E::V>| envelope::<E>(e)),
                )
                &&& !old(bus).available ==> final(bus).view() == old(bus).view() && (r is Ok
                    <==> sel.len() == 0) && (r is Err ==> r == Err::<(), StoreError>(StoreError::Io))
            },
    {
        let t = match parse_time(request.data.since.as_str()) {
            Some(t) => t,
            None => return Err(StoreError::MalformedEnvelope),
        };
        let msgs = self.inner_store.read_events_since(
            &request.data.requested_event_namespace,
            &request.data.requested_event_type,
            t,
        );
        let ghost all = msgs@.map_values(|j: Json| j@);
        let topic = topic_name(
            request.data.requested_event_namespace.as_str(),
            request.data.requested_event_type.as_str(),
        );
        let mut i: usize = 0;
        while i < msgs.len()
            invariant
                i <= msgs@.len(),
                all == msgs@.map_values(|j: Json| j@),
                all == select::<E>(
                    self.inner_store.log.view(),
                    kind_query(request.data.requested_event_namespace@, request.data.requested_event_type@),
                    Some(t),
                ).map_values(|e: EventV<E::V>| envelope::<E>(e)),
                time_value(request.data.since@) == Some(t),
                bus.available == old(bus).available,
                bus.view() == published_all(old(bus).view(), topic@, all.subrange(0, i as int)),
                !old(bus).available ==> i == 0,
            decreases msgs@.len() - i,
        {
            match bus.publish(&topic, &msgs[i]) {
                Ok(()) => {},
                Err(err) => {
                    proof {
                        assert(all.subrange(0, 0) =~= Seq::<JsonV>::empty());
                        assert(all.len() == msgs@.len());
                        assert(all.len() > 0);
                        assert(err == StoreError::Io);
                    }
                    return Err(err);
                },
            }
            proof {
                assert(all.subrange(0, i as int + 1).drop_last() =~= all.subrange(0, i as int));
                assert(all[i as int] == msgs@[i as int]@);
            }
            i = i + 1;
        }
        proof {
            assert(all.subrange(0, msgs@.len() as int) =~= all);
            assert(all.subrange(0, 0) =~= Seq::<JsonV>::empty());
        }
        Ok(())
    }

    /// Answers every replay request waiting in this store's replay queue, passing over
    /// messages that are not well-formed requests. Returns how many it answered.
    pub fn respond_to_replays(&self, bus: &mut MemoryBus) -> (r: Result<usize, StoreError>)
        requires
            self.wf(),
        ensures
            final(bus).available == old(bus).available,
            old(bus).available ==> r == Ok::<usize, StoreError>(
                answered_count::<E>(
                    drained(old(bus).view(), queue_of(self.store_namespace@, replay_namespace(), replay_type())),
                    self.inner_store.log.view(),
                    waiting(old(bus).view(), queue_of(self.store_namespace@, replay_namespace(), replay_type())),
                ) as usize,
            ) && final(bus).view() == answered_all::<E>(
                drained(old(bus).view(), queue_of(self.store_namespace@, replay_namespace(), replay_type())),
                self.inner_store.log.view(),
                waiting(old(bus).view(), queue_of(self.store_namespace@, replay_namespace(), replay_type())),
            ),
    {
        proof {
            reveal_strlit("event_store");
            reveal_strlit("EventReplayRequested");
        }
        let queue = self.namespaced_event_queue_name("event_store", "EventReplayRequested");
        let msgs = bus.take(&queue);
        let ghost start = bus.view();
        let ghost all = messages_view(msgs@);
        let mut answered: usize = 0;
        let mut i: usize = 0;
        while i < msgs.len()
            invariant
                i <= msgs@.len(),
                answered <= i,
                old(bus).available ==> answered == answered_count::<E>(
                    start,
                    self.inner_store.log.view(),
                    all.subrange(0, i as int),
                ),
                self.wf(),
                all == messages_view(msgs@),
                bus.available == old(bus).available,
                old(bus).available ==> bus.view() == answered_all::<E>(
                    start,
                    self.inner_store.log.view(),
                    all.subrange(0, i as int),
                ),
            decreases msgs@.len() - i,
        {
            proof {
                assert(all.subrange(0, i as int + 1).drop_last() =~= all.subrange(0, i as int));
                assert(all[i as int] == msgs@[i as int]@);
            }
            match decode::<EventReplayRequested>(&msgs[i]) {
                Ok(req) => {
                    match self.respond_to_replay(bus, &req) {
                        Ok(()) => {
                            answered = answered + 1;
                        },
                        Err(StoreError::MalformedEnvelope) => {},
                        Err(err) => return Err(err),
                    }
                },
                Err(_) => {},
            }
            i = i + 1;
        }
        proof {
            assert(all.subrange(0, msgs@.len() as int) =~= all);
        }
        Ok(answered)
    }

    /// Takes the messages waiting in this store's queue for a kind and decodes each.
    pub fn poll(&self, bus: &mut MemoryBus, namespace: &str, event_type: &str) -> (r: Vec<
        Result<Event<E>, StoreError>,
    >)
        ensures
            final(bus).available == old(bus).available,
            final(bus).view() == drained(
                old(bus).view(),
                queue_of(self.store_namespace@, namespace@, event_type@),
            ),
            r@.len() == waiting(
                old(bus).view(),
                queue_of(self.store_namespace@, namespace@, event_type@),
            ).len(),
            forall|i: int|
                0 <= i < r@.len() ==> match #[trigger] r@[i] {
                    Ok(e) => decode_spec::<E>(
                        waiting(old(bus).view(), queue_of(self.store_namespace@, namespace@, event_type@))[i],
                    ) == Ok::<EventV<E::V>, StoreError>(e@),
                    Err(err) => decode_spec::<E>(
                        waiting(old(bus).view(), queue_of(self.store_namespace@, namespace@, event_type@))[i],
                    ) == Err::<EventV<E::V>, StoreError>(err),
                },
    {
        let queue = self.namespaced_event_queue_name(namespace, event_type);
        let msgs = bus.take(&queue);
        let mut out: Vec<Result<Event<E>, StoreError>> = Vec::new();
        let mut i: usize = 0;
        while i < msgs.len()
            invariant
                i <= msgs@.len(),
                out@.len() == i,
                forall|j: int|
                    0 <= j < i ==> match #[trigger] out@[j] {
                        Ok(e) => decode_spec::<E>(msgs@[j]@) == Ok::<EventV<E::V>, StoreError>(e@),
                        Err(err) => decode_spec::<E>(msgs@[j]@) == Err::<EventV<E::V>, StoreError>(err),
                    },
            decreases msgs@.len() - i,
        {
            let d = decode::<E>(&msgs[i]);
            out.push(d);
            i = i + 1;
        }
        proof {
            assert forall|j: int| 0 <= j < msgs@.len() implies msgs@[j]@ == messages_view(msgs@)[j] by {}
        }
        out
    }
}

/// Publishing messages in turn on a topic appends all of them, in order, to every queue bound
/// to the topic.
pub proof fn lemma_published_all_delivers(qs: Seq<QueueV>, topic: Seq<char>, msgs: Seq<JsonV>, k: int)
    requires
        0 <= k < qs.len(),
        qs[k].topic == topic,
    ensures
        published_all(qs, topic, msgs).len() == qs.len(),
        published_all(qs, topic, msgs)[k].messages == qs[k].messages + msgs,
        published_all(qs, topic, msgs)[k].name == qs[k].name,
        published_all(qs, topic, msgs)[k].topic == topic,
    decreases msgs.len(),
{
    if msgs.len() == 0 {
        assert(qs[k].messages + msgs =~= qs[k].messages);
    } else {
        lemma_published_all_delivers(qs, topic, msgs.drop_last(), k);
        assert(qs[k].messages + msgs =~= (qs[k].messages + msgs.drop_last()).push(msgs.last()));
    }
}

/// A subscriber that asks for a replay receives every event of its kind that the answering
/// store holds from the requested time on: once the request is answered, the canonical form of
/// each such event is in every queue bound to the kind's topic.
pub proof fn lemma_replay_reaches_subscriber<E: Events>(
    qs: Seq<QueueV>,
    log: Seq<EventV<E::V>>,
    e: EventV<E::V>,
    since: i64,
    k: int,
)
    requires
        log.contains(e),
        e.time >= since,
        0 <= k < qs.len(),
        qs[k].topic == topic_of(E::namespace_of(e.data), E::type_of(e.data)),
    ensures
        published_all(
            qs,
            topic_of(E::namespace_of(e.data), E::type_of(e.data)),
            select::<E>(log, kind_query(E::namespace_of(e.data), E::type_of(e.data)), Some(since)).map_values(
                |x: EventV<E::V>| envelope::<E>(x),
            ),
        )[k].messages.contains(envelope::<E>(e)),
{
    let q = kind_query(E::namespace_of(e.data), E::type_of(e.data));
    let topic = topic_of(E::namespace_of(e.data), E::type_of(e.data));
    let sel = select::<E>(log, q, Some(since));
    let msgs = sel.map_values(|x: EventV<E::V>| envelope::<E>(x));
    lemma_select_members::<E>(log, q, Some(since));
    assert(q.event_types[0] == E::type_of(e.data));
    assert(wanted::<E>(e, q, Some(since)));
    assert(sel.contains(e));
    let j = choose|j: int| 0 <= j < sel.len() && sel[j] == e;
    lemma_published_all_delivers(qs, topic, msgs, k);
    let out = published_all(qs, topic, msgs)[k].messages;
    assert(out[qs[k].messages.len() + j] == envelope::<E>(e));
}

/// Where a subscription stands.
#[derive(Debug, Clone, Copy, PartialEq, Eq, Structural)]
pub enum SubscriptionState {
    New,
    Listening,
    CatchingUp,
    Live,
    Stopped,
    Failed,
}

/// What happens to a subscription.
#[derive(Debug, Clone, Copy, PartialEq, Eq, Structural)]
pub enum SubscriptionEvent {
    /// The durable consumer was created.
    ConsumerCreated,
    /// The replay request was published.
    ReplayRequested,
    /// The events up to the time of the request were received.
    CaughtUp,
    /// The subscriber stopped.
    Stop,
    /// The bus failed.
    BusError,
}

/// The subscription's next state: a bus error fails it from any state; otherwise each state
/// moves on its own event only, and stays where it is on any other.
pub open spec fn next_state_spec(s: SubscriptionState, ev: SubscriptionEvent) -> SubscriptionState {
    match (s, ev) {
        (_, SubscriptionEvent::BusError) => SubscriptionState::Failed,
        (SubscriptionState::New, SubscriptionEvent::ConsumerCreated) => SubscriptionState::Listening,
        (SubscriptionState::Listening, SubscriptionEvent::ReplayRequested) => SubscriptionState::CatchingUp,
        (SubscriptionState::CatchingUp, SubscriptionEvent::CaughtUp) => SubscriptionState::Live,
        (SubscriptionState::Live, SubscriptionEvent::Stop) => SubscriptionState::Stopped,
        _ => s,
    }
}

/// Steps a subscription.
pub fn next_state(s: SubscriptionState, ev: SubscriptionEvent) -> (r: SubscriptionState)
    ensures
        r == next_state_spec(s, ev),
{
    match (s, ev) {
        (_, SubscriptionEvent::BusError) => SubscriptionState::Failed,
        (SubscriptionState::New, SubscriptionEvent::ConsumerCreated) => SubscriptionState::Listening,
        (SubscriptionState::Listening, SubscriptionEvent::ReplayRequested) => SubscriptionState::CatchingUp,
        (SubscriptionState::CatchingUp, SubscriptionEvent::CaughtUp) => SubscriptionState::Live,
        (SubscriptionState::Live, SubscriptionEvent::Stop) => SubscriptionState::Stopped,
        _ => s,
    }
}

/// A bus stand-in for tests: it accepts every event and every subscription and delivers none.
pub struct StubEmitterAdapter {}

impl StubEmitterAdapter {
    /// Creates a new emitter stub.
    pub fn new() -> (r: Self) {
        StubEmitterAdapter {}
    }

    /// Accepts an event and drops it.
    pub fn emit<E: Events>(&self, event: &Event<E>) -> (r: Result<(), StoreError>)
        ensures
            r is Ok,
    {
        Ok(())
    }

    /// Accepts a subscription; no event ever arrives.
    pub fn subscribe(&self, namespace: &str, event_type: &str) -> (r: Result<(), StoreError>)
        ensures
            r is Ok,
    {
        Ok(())
    }
}

} // verus!
