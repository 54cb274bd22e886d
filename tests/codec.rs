use event_store::codec::{canonicalize, decode, encode};
use event_store::error::StoreError;
use event_store::event::{Event, EventContext, Events};
use event_store::json::{get_member, Json};
use event_store::subscribe::EventReplayRequested;
use event_store::testhelpers::{TestDecrementEvent, TestEvents, TestIncrementEvent};

const T0: i64 = 1577836800000000;

fn s(x: &str) -> String {
    x.to_string()
}

fn inc(id: u128, by: i32, time: i64) -> Event<TestEvents> {
    Event {
        id,
        data: TestEvents::Inc(TestIncrementEvent { by }),
        context: EventContext { time, subject: None, action: None },
    }
}

fn member<'a>(j: &'a Json, key: &str) -> &'a Json {
    match j {
        Json::Object(ms) => get_member(ms, key).expect("member present"),
        _ => panic!("not an object"),
    }
}

fn text(j: &Json) -> String {
    match j {
        Json::Str(s) => s.clone(),
        _ => panic!("not a string"),
    }
}

#[test]
fn encode_writes_canonical_envelope() {
    let e = inc(0xa1a2a3a4b1b2c1c2d1d2d3d4d5d6d7d8, 3, T0);
    let j = encode(&e);
    assert_eq!(text(member(&j, "id")), "a1a2a3a4-b1b2-c1c2-d1d2-d3d4d5d6d7d8");
    let data = member(&j, "data");
    assert_eq!(text(member(data, "event_namespace")), "some_namespace");
    assert_eq!(text(member(data, "event_type")), "Inc");
    assert!(matches!(member(data, "by"), Json::Int(3)));
    let context = member(&j, "context");
    assert_eq!(text(member(context, "time")), "2020-01-01T00:00:00.000000Z");
    assert!(matches!(member(context, "subject"), Json::Null));
    assert!(matches!(member(context, "action"), Json::Null));
}

#[test]
fn decode_of_encode_gives_event_back() {
    let mut e = inc(42, -7, T0 + 123456);
    e.context.subject = Some(Json::Object(vec![(s("user"), Json::Str(s("ann")))]));
    e.context.action = Some(Json::Array(vec![Json::Int(1), Json::Bool(true)]));
    let j = encode(&e);
    let back: Event<TestEvents> = decode(&j).expect("decodes");
    assert_eq!(back.id, 42);
    assert_eq!(back.data, TestEvents::Inc(TestIncrementEvent { by: -7 }));
    assert_eq!(back.context.time, T0 + 123456);
    match back.context.subject {
        Some(Json::Object(ms)) => {
            assert_eq!(ms.len(), 1);
            assert_eq!(ms[0].0, "user");
            assert!(matches!(&ms[0].1, Json::Str(x) if x == "ann"));
        }
        _ => panic!("subject lost"),
    }
    match back.context.action {
        Some(Json::Array(items)) => {
            assert_eq!(items.len(), 2);
            assert!(matches!(items[0], Json::Int(1)));
            assert!(matches!(items[1], Json::Bool(true)));
        }
        _ => panic!("action lost"),
    }
}

fn legacy(tag: &str, by: Option<i64>, time: &str) -> Json {
    let mut data = vec![(s("type"), Json::Str(s(tag)))];
    if let Some(n) = by {
        data.push((s("by"), Json::Int(n)));
    }
    Json::Object(vec![
        (s("id"), Json::Str(s("550e8400-e29b-41d4-a716-446655440000"))),
        (s("data"), Json::Object(data)),
        (s("context"), Json::Object(vec![(s("time"), Json::Str(s(time)))])),
    ])
}

#[test]
fn legacy_decode() {
    let j = legacy("some_namespace.Inc", Some(1), "2020-01-01T00:00:00Z");
    let e: Event<TestEvents> = decode(&j).expect("legacy form decodes");
    assert_eq!(e.data, TestEvents::Inc(TestIncrementEvent { by: 1 }));
    assert_eq!(e.data.event_namespace(), "some_namespace");
    assert_eq!(e.data.event_type(), "Inc");
    assert_eq!(e.id, 0x550e8400e29b41d4a716446655440000);
    assert_eq!(e.context.time, T0);
    assert!(e.context.subject.is_none());
    assert!(e.context.action.is_none());
}

#[test]
fn legacy_decode_reencodes_canonically() {
    let j = legacy("some_namespace.Dec", Some(4), "2020-01-01T00:00:00Z");
    let c = canonicalize::<TestEvents>(&j).expect("canonical form");
    let data = member(&c, "data");
    assert_eq!(text(member(data, "event_namespace")), "some_namespace");
    assert_eq!(text(member(data, "event_type")), "Dec");
    match data {
        Json::Object(ms) => assert!(get_member(ms, "type").is_none()),
        _ => panic!("data is not an object"),
    }
    let once: Event<TestEvents> = decode(&c).expect("decodes");
    let twice: Event<TestEvents> = decode(&encode(&once)).expect("decodes again");
    assert_eq!(once.data, TestEvents::Dec(TestDecrementEvent { by: 4 }));
    assert_eq!(twice.data, once.data);
    assert_eq!(twice.id, once.id);
    assert_eq!(twice.context.time, once.context.time);
}

#[test]
fn naive_time_is_taken_as_utc() {
    let j = legacy("some_namespace.Inc", Some(2), "2020-01-01T00:00:01.5");
    let e: Event<TestEvents> = decode(&j).expect("naive time accepted");
    assert_eq!(e.context.time, T0 + 1500000);
    let c = canonicalize::<TestEvents>(&j).expect("canonical");
    assert_eq!(text(member(member(&c, "context"), "time")), "2020-01-01T00:00:01.500000Z");
}

#[test]
fn offset_time_is_read_in_utc() {
    let j = legacy("some_namespace.Inc", Some(2), "2020-01-01T01:00:00+01:00");
    let e: Event<TestEvents> = decode(&j).expect("decodes");
    assert_eq!(e.context.time, T0);
}

#[test]
fn unknown_variant_is_reported() {
    let j = legacy("some_namespace.Bogus", Some(1), "2020-01-01T00:00:00Z");
    assert!(matches!(decode::<TestEvents>(&j), Err(StoreError::UnknownVariant)));
    let j = legacy("other_namespace.Inc", Some(1), "2020-01-01T00:00:00Z");
    assert!(matches!(decode::<TestEvents>(&j), Err(StoreError::UnknownVariant)));
}

#[test]
fn malformed_envelopes_are_reported() {
    let no_dot = legacy("Inc", Some(1), "2020-01-01T00:00:00Z");
    assert!(matches!(decode::<TestEvents>(&no_dot), Err(StoreError::MalformedEnvelope)));
    let missing_field = legacy("some_namespace.Inc", None, "2020-01-01T00:00:00Z");
    assert!(matches!(decode::<TestEvents>(&missing_field), Err(StoreError::MalformedEnvelope)));
    let bad_time = legacy("some_namespace.Inc", Some(1), "yesterday");
    assert!(matches!(decode::<TestEvents>(&bad_time), Err(StoreError::MalformedEnvelope)));
    assert!(matches!(decode::<TestEvents>(&Json::Null), Err(StoreError::MalformedEnvelope)));
    let bad_id = Json::Object(vec![
        (s("id"), Json::Str(s("not-a-uuid"))),
        (s("data"), Json::Object(vec![(s("type"), Json::Str(s("some_namespace.Other")))])),
        (s("context"), Json::Object(vec![(s("time"), Json::Str(s("2020-01-01T00:00:00Z")))])),
    ]);
    assert!(matches!(decode::<TestEvents>(&bad_id), Err(StoreError::MalformedEnvelope)));
}

#[test]
fn extra_payload_fields_are_ignored() {
    let j = Json::Object(vec![
        (s("id"), Json::Str(s("550e8400-e29b-41d4-a716-446655440000"))),
        (
            s("data"),
            Json::Object(vec![
                (s("event_namespace"), Json::Str(s("some_namespace"))),
                (s("event_type"), Json::Str(s("Inc"))),
                (s("by"), Json::Int(9)),
                (s("note"), Json::Str(s("ignored"))),
            ]),
        ),
        (s("context"), Json::Object(vec![(s("time"), Json::Str(s("2020-01-01T00:00:00Z"))), (s("subject"), Json::Null)])),
    ]);
    let e: Event<TestEvents> = decode(&j).expect("decodes");
    assert_eq!(e.data, TestEvents::Inc(TestIncrementEvent { by: 9 }));
    assert!(e.context.subject.is_none());
}

#[test]
fn new_form_is_tried_before_legacy_tag() {
    let j = Json::Object(vec![
        (s("id"), Json::Str(s("550e8400-e29b-41d4-a716-446655440000"))),
        (
            s("data"),
            Json::Object(vec![
                (s("type"), Json::Str(s("some_namespace.Dec"))),
                (s("event_namespace"), Json::Str(s("some_namespace"))),
                (s("event_type"), Json::Str(s("Inc"))),
                (s("by"), Json::Int(2)),
            ]),
        ),
        (s("context"), Json::Object(vec![(s("time"), Json::Str(s("2020-01-01T00:00:00Z")))])),
    ]);
    let e: Event<TestEvents> = decode(&j).expect("decodes");
    assert_eq!(e.data, TestEvents::Inc(TestIncrementEvent { by: 2 }));
}

#[test]
fn replay_request_round_trips() {
    let e = Event {
        id: 7,
        data: EventReplayRequested {
            requested_event_namespace: s("some_namespace"),
            requested_event_type: s("Inc"),
            since: s("2020-01-01T00:00:00.000000Z"),
        },
        context: EventContext { time: T0, subject: None, action: None },
    };
    let j = encode(&e);
    assert_eq!(text(member(member(&j, "data"), "event_namespace")), "event_store");
    assert_eq!(text(member(member(&j, "data"), "event_type")), "EventReplayRequested");
    let back: Event<EventReplayRequested> = decode(&j).expect("decodes");
    assert_eq!(back.data.requested_event_namespace, "some_namespace");
    assert_eq!(back.data.requested_event_type, "Inc");
    assert_eq!(back.data.since, "2020-01-01T00:00:00.000000Z");
}
