use event_store::aggregate::{fold_events, fold_new_events, Aggregator};
use event_store::bus::MemoryBus;
use event_store::cache::{MemoryCache, Snapshot};
use event_store::error::StoreError;
use event_store::event::{Event, EventContext};
use event_store::log::MemoryLog;
use event_store::store::Store;
use event_store::testhelpers::{TestCounterEntity, TestDecrementEvent, TestEvents, TestIncrementEvent};

const T0: i64 = 1577836800000000;
const TEN: i64 = 1577872800000000;
const SECOND: i64 = 1000000;

fn ev(id: u128, data: TestEvents, time: i64) -> Event<TestEvents> {
    Event { id, data, context: EventContext { time, subject: None, action: None } }
}

fn inc(id: u128, by: i32, time: i64) -> Event<TestEvents> {
    ev(id, TestEvents::Inc(TestIncrementEvent { by }), time)
}

fn dec(id: u128, by: i32, time: i64) -> Event<TestEvents> {
    ev(id, TestEvents::Dec(TestDecrementEvent { by }), time)
}

fn counter_events() -> Vec<Event<TestEvents>> {
    vec![
        inc(1, 1, T0),
        inc(2, 1, T0 + 1),
        dec(3, 2, T0 + 2),
        inc(4, 2, T0 + 3),
        dec(5, 3, T0 + 4),
        dec(6, 3, T0 + 5),
    ]
}

#[test]
fn basic_fold() {
    let r = fold_events(TestCounterEntity::zero(), &counter_events());
    assert_eq!(r, TestCounterEntity { counter: -4 });
}

#[test]
fn counter_default_is_zero() {
    assert_eq!(TestCounterEntity::default(), TestCounterEntity { counter: 0 });
    assert_eq!(TestCounterEntity::zero(), TestCounterEntity::default());
}

#[test]
fn counter_wraps_at_bounds() {
    let r = fold_events(TestCounterEntity { counter: i32::MAX }, &vec![inc(1, 1, T0)]);
    assert_eq!(r, TestCounterEntity { counter: i32::MIN });
}

#[test]
fn replayed_duplicates_are_skipped() {
    let mut log = counter_events();
    let mut applied: Vec<u128> = Vec::new();
    let first = fold_new_events(TestCounterEntity::zero(), &mut applied, &log);
    log.push(inc(2, 1, T0 + 1));
    log.push(dec(5, 3, T0 + 4));
    let mut applied_again: Vec<u128> = Vec::new();
    let again = fold_new_events(TestCounterEntity::zero(), &mut applied_again, &log);
    assert_eq!(first, TestCounterEntity { counter: -4 });
    assert_eq!(again, first);
    assert_eq!(applied, vec![1, 2, 3, 4, 5, 6]);
    assert_eq!(applied_again, applied);
}

#[test]
fn query_key_depends_on_arguments_only() {
    let a = TestCounterEntity::query(&"alpha".to_string()).unique_id();
    let b = TestCounterEntity::query(&"alpha".to_string()).unique_id();
    let c = TestCounterEntity::query(&"beta".to_string()).unique_id();
    assert_eq!(a, b);
    assert_ne!(a, c);
    assert_eq!(a, "some_namespace/,Inc,Dec/,alpha");
    let odd = TestCounterEntity::query(&"a,b/c\\d".to_string()).unique_id();
    assert_eq!(odd, "some_namespace/,Inc,Dec/,a\\,b\\/c\\\\d");
}

fn log_of(events: Vec<Event<TestEvents>>) -> MemoryLog<TestEvents> {
    let mut log = MemoryLog::new();
    for e in events {
        log.append(e).expect("fresh id");
    }
    log
}

#[test]
fn log_orders_by_time_then_id_and_refuses_duplicates() {
    let mut log = log_of(vec![inc(9, 1, T0 + 5), inc(3, 1, T0), inc(2, 1, T0 + 5)]);
    assert_eq!(log.len(), 3);
    assert!(matches!(log.append(inc(3, 7, T0 + 9)), Err(StoreError::Conflict(3))));
    assert_eq!(log.len(), 3);
    let q = TestCounterEntity::query(&"x".to_string());
    let all = log.read_since(&q, None);
    let ids: Vec<u128> = all.iter().map(|e| e.id).collect();
    assert_eq!(ids, vec![3, 2, 9]);
    let later = log.read_since(&q, Some(T0 + 5));
    let ids: Vec<u128> = later.iter().map(|e| e.id).collect();
    assert_eq!(ids, vec![2, 9]);
    let last = log.last_of(&"some_namespace".to_string(), &"Inc".to_string()).expect("one");
    assert_eq!(last.id, 9);
    assert!(log.last_of(&"some_namespace".to_string(), &"Dec".to_string()).is_none());
}

#[test]
fn upsert_replaces_by_id() {
    let mut log = log_of(vec![inc(1, 1, T0), inc(2, 1, T0 + 1)]);
    log.upsert(dec(1, 5, T0 + 2));
    assert_eq!(log.len(), 2);
    let q = TestCounterEntity::query(&"x".to_string());
    let all = log.read_since(&q, None);
    assert_eq!(all[1].id, 1);
    assert_eq!(all[1].data, TestEvents::Dec(TestDecrementEvent { by: 5 }));
    log.upsert(inc(3, 1, T0));
    assert_eq!(log.len(), 3);
}

#[test]
fn cached_delta() {
    let args = "counter".to_string();
    let key = TestCounterEntity::query(&args).unique_id();
    let mut cache: MemoryCache<TestCounterEntity> = MemoryCache::new();
    cache.put(key.clone(), Snapshot { value: TestCounterEntity { counter: 2 }, applied: vec![] }, TEN);
    let store = Store::new(log_of(vec![inc(11, 5, TEN + SECOND)]));
    let now = TEN + 2 * SECOND;
    let r = store.aggregate(&mut cache, &args, now);
    assert_eq!(r, TestCounterEntity { counter: 7 });
    let (snap, cached_at) = cache.get::<TestEvents, String>(&key).expect("written back");
    assert_eq!(snap.value, TestCounterEntity { counter: 7 });
    assert!(cached_at >= TEN + SECOND);
    assert_eq!(snap.applied, vec![11]);
}

#[test]
fn cache_empty_warm_cold_agree() {
    let args = "counter".to_string();
    let store = Store::new(log_of(counter_events()));
    let mut cache: MemoryCache<TestCounterEntity> = MemoryCache::new();
    let cold = store.aggregate(&mut cache, &args, T0 + 5);
    let warm = store.aggregate(&mut cache, &args, T0 + 6);
    let mut fresh: MemoryCache<TestCounterEntity> = MemoryCache::new();
    let cold_again = store.aggregate(&mut fresh, &args, T0 + 7);
    assert_eq!(cold, TestCounterEntity { counter: -4 });
    assert_eq!(warm, cold);
    assert_eq!(cold_again, cold);
}

#[test]
fn watermark_not_before_folded_events() {
    let args = "counter".to_string();
    let key = TestCounterEntity::query(&args).unique_id();
    let store = Store::new(log_of(counter_events()));
    let mut cache: MemoryCache<TestCounterEntity> = MemoryCache::new();
    store.aggregate(&mut cache, &args, T0 + 5);
    let (_, cached_at) = cache.get::<TestEvents, String>(&key).expect("written");
    assert!(cached_at >= T0 + 5);
}

#[test]
fn saved_event_is_seen_by_aggregate() {
    let args = "counter".to_string();
    let mut store = Store::new(log_of(counter_events()));
    let mut bus = MemoryBus::new();
    let mut cache: MemoryCache<TestCounterEntity> = MemoryCache::new();
    assert_eq!(store.aggregate(&mut cache, &args, T0 + 5), TestCounterEntity { counter: -4 });
    store.save(&mut bus, inc(20, 10, T0 + 6)).expect("saved");
    assert_eq!(store.aggregate(&mut cache, &args, T0 + 7), TestCounterEntity { counter: 6 });
}

#[test]
fn save_refuses_duplicate_id() {
    let mut store = Store::new(log_of(counter_events()));
    let mut bus = MemoryBus::new();
    assert!(matches!(store.save(&mut bus, inc(1, 1, T0)), Err(StoreError::Conflict(1))));
    assert!(matches!(store.save_no_emit(inc(2, 1, T0)), Err(StoreError::Conflict(2))));
    assert!(store.save_no_emit(inc(30, 1, T0)).is_ok());
    assert_eq!(store.log.len(), 7);
}

#[test]
fn read_events_since_gives_canonical_forms() {
    let store = Store::new(log_of(counter_events()));
    let out = store.read_events_since(&"some_namespace".to_string(), &"Dec".to_string(), T0 + 3);
    assert_eq!(out.len(), 2);
    let first: Event<TestEvents> = event_store::codec::decode(&out[0]).expect("decodes");
    assert_eq!(first.id, 5);
}
