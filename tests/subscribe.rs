use event_store::bus::MemoryBus;
use event_store::error::StoreError;
use event_store::event::{Event, EventContext};
use event_store::log::MemoryLog;
use event_store::subscribe::{next_state, StubEmitterAdapter, SubscribableStore, SubscriptionEvent, SubscriptionState};
use event_store::testhelpers::{TestEvents, TestIncrementEvent};

const T0: i64 = 1577836800000000;

fn inc(id: u128, by: i32, time: i64) -> Event<TestEvents> {
    Event {
        id,
        data: TestEvents::Inc(TestIncrementEvent { by }),
        context: EventContext { time, subject: None, action: None },
    }
}

fn s(x: &str) -> String {
    x.to_string()
}

#[test]
fn queue_names() {
    let mut bus = MemoryBus::new();
    let store: SubscribableStore<TestEvents> =
        SubscribableStore::new(s("billing"), MemoryLog::new(), &mut bus).expect("bus up");
    assert_eq!(store.event_queue_name("some_namespace", "Inc"), "some_namespace.Inc");
    assert_eq!(store.namespaced_event_queue_name("some_namespace", "Inc"), "billing-some_namespace.Inc");
    assert_eq!(bus.queues.len(), 1);
    assert_eq!(bus.queues[0].name, "billing-event_store.EventReplayRequested");
    assert_eq!(bus.queues[0].topic, "event_store.EventReplayRequested");
}

#[test]
fn replay_on_cold_subscribe() {
    let mut bus = MemoryBus::new();
    let mut peer_log = MemoryLog::new();
    peer_log.append(inc(100, 100, T0)).expect("fresh");
    let peer: SubscribableStore<TestEvents> =
        SubscribableStore::new(s("peer"), peer_log, &mut bus).expect("bus up");
    let fresh: SubscribableStore<TestEvents> =
        SubscribableStore::new(s("fresh"), MemoryLog::new(), &mut bus).expect("bus up");
    fresh.subscribe(&mut bus, &s("some_namespace"), &s("Inc"), 555, T0 + 1000).expect("subscribed");
    assert_eq!(peer.respond_to_replays(&mut bus), Ok(1));
    assert_eq!(fresh.respond_to_replays(&mut bus), Ok(1));
    let got = fresh.poll(&mut bus, "some_namespace", "Inc");
    assert_eq!(got.len(), 1);
    let e = got[0].as_ref().expect("decodes");
    assert_eq!(e.id, 100);
    assert_eq!(e.data, TestEvents::Inc(TestIncrementEvent { by: 100 }));
    assert_eq!(e.context.time, T0);
    assert_eq!(fresh.poll(&mut bus, "some_namespace", "Inc").len(), 0);
}

#[test]
fn live_subscriber_receives_saved_event() {
    let mut bus = MemoryBus::new();
    let listener: SubscribableStore<TestEvents> =
        SubscribableStore::new(s("listener"), MemoryLog::new(), &mut bus).expect("bus up");
    listener.subscribe_no_replay(&mut bus, "some_namespace", "Inc").expect("queue");
    let mut writer: SubscribableStore<TestEvents> =
        SubscribableStore::new(s("writer"), MemoryLog::new(), &mut bus).expect("bus up");
    writer.save(&mut bus, inc(7, 3, T0)).expect("saved");
    let got = listener.poll(&mut bus, "some_namespace", "Inc");
    assert_eq!(got.len(), 1);
    assert_eq!(got[0].as_ref().expect("decodes").id, 7);
}

#[test]
fn save_survives_publish_failure() {
    let mut bus = MemoryBus::new();
    let mut writer: SubscribableStore<TestEvents> =
        SubscribableStore::new(s("writer"), MemoryLog::new(), &mut bus).expect("bus up");
    bus.available = false;
    assert_eq!(writer.save(&mut bus, inc(8, 4, T0)), Err(StoreError::Io));
    assert!(writer.inner_store.log.contains_id(8));
    bus.available = true;
    let late: SubscribableStore<TestEvents> =
        SubscribableStore::new(s("late"), MemoryLog::new(), &mut bus).expect("bus up");
    late.subscribe(&mut bus, &s("some_namespace"), &s("Inc"), 9, T0 + 10).expect("subscribed");
    writer.respond_to_replays(&mut bus).expect("answered");
    let got = late.poll(&mut bus, "some_namespace", "Inc");
    assert_eq!(got.len(), 1);
    assert_eq!(got[0].as_ref().expect("decodes").id, 8);
}

#[test]
fn bus_down_fails_subscription() {
    let mut bus = MemoryBus::new();
    bus.available = false;
    let r: Result<SubscribableStore<TestEvents>, StoreError> =
        SubscribableStore::new(s("x"), MemoryLog::new(), &mut bus);
    assert!(matches!(r, Err(StoreError::Io)));
}

#[test]
fn subscription_states() {
    let mut st = SubscriptionState::New;
    st = next_state(st, SubscriptionEvent::ReplayRequested);
    assert_eq!(st, SubscriptionState::New);
    st = next_state(st, SubscriptionEvent::ConsumerCreated);
    assert_eq!(st, SubscriptionState::Listening);
    st = next_state(st, SubscriptionEvent::ReplayRequested);
    assert_eq!(st, SubscriptionState::CatchingUp);
    st = next_state(st, SubscriptionEvent::CaughtUp);
    assert_eq!(st, SubscriptionState::Live);
    st = next_state(st, SubscriptionEvent::Stop);
    assert_eq!(st, SubscriptionState::Stopped);
    assert_eq!(next_state(SubscriptionState::Live, SubscriptionEvent::BusError), SubscriptionState::Failed);
}

#[test]
fn stub_emitter_accepts_everything() {
    let stub = StubEmitterAdapter::new();
    assert!(stub.emit(&inc(1, 1, T0)).is_ok());
    assert!(stub.subscribe("some_namespace", "Inc").is_ok());
}
