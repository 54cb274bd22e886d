//! A small counter domain: increment and decrement events, and a counter aggregate.

use vstd::prelude::*;
use crate::aggregate::{texts, Aggregator, QueryV, StoreQuery};
use crate::error::StoreError;
use crate::event::{key_legacy, key_namespace, key_type, reserved, strip_reserved, Event, EventV, Events};
use crate::json::{get_member, lemma_members_view, member, member_from, mview, Json, JsonV};

verus! {

/// Increments the counter.
#[derive(Debug, Clone, Copy, PartialEq, Eq, Structural)]
pub struct TestIncrementEvent {
    /// Increment by this much.
    pub by: i32,
}

/// Decrements the counter.
#[derive(Debug, Clone, Copy, PartialEq, Eq, Structural)]
pub struct TestDecrementEvent {
    /// Decrement by this much.
    pub by: i32,
}

/// All events of the counter domain, in namespace `some_namespace`.
#[derive(Debug, Clone, Copy, PartialEq, Eq, Structural)]
pub enum TestEvents {
    Inc(TestIncrementEvent),
    Dec(TestDecrementEvent),
    Other,
}

pub open spec fn counter_namespace() -> Seq<char> {
    "some_namespace"@
}

pub open spec fn key_by() -> Seq<char> {
    "by"@
}

/// The whole number under `by`, where it fits an `i32`.
pub open spec fn by_field(payload: Seq<(Seq<char>, JsonV)>) -> Option<i32> {
    match member(payload, key_by()) {
        Some(JsonV::Int(n)) => if i32::MIN <= n <= i32::MAX {
            Some(n as i32)
        } else {
            None
        },
        _ => None,
    }
}

fn read_by(payload: &Vec<(String, Json)>) -> (r: Option<i32>)
    ensures
        r == by_field(mview(*payload)),
{
    match get_member(payload, "by") {
        Some(Json::Int(n)) => if i32::MIN as i64 <= *n && *n <= i32::MAX as i64 {
            Some(*n as i32)
        } else {
            None
        },
        _ => None,
    }
}

impl View for TestEvents {
    type V = TestEvents;

    open spec fn view(&self) -> TestEvents {
        *self
    }
}

impl Events for TestEvents {
    open spec fn namespace_of(v: TestEvents) -> Seq<char> {
        counter_namespace()
    }

    open spec fn type_of(v: TestEvents) -> Seq<char> {
        match v {
            TestEvents::Inc(_) => "Inc"@,
            TestEvents::Dec(_) => "Dec"@,
            TestEvents::Other => "Other"@,
        }
    }

    open spec fn payload_of(v: TestEvents) -> Seq<(Seq<char>, JsonV)> {
        match v {
            TestEvents::Inc(x) => seq![(key_by(), JsonV::Int(x.by as int))],
            TestEvents::Dec(x) => seq![(key_by(), JsonV::Int(x.by as int))],
            TestEvents::Other => Seq::empty(),
        }
    }

    open spec fn parse_payload(
        namespace: Seq<char>,
        event_type: Seq<char>,
        payload: Seq<(Seq<char>, JsonV)>,
    ) -> Result<TestEvents, StoreError> {
        if namespace != counter_namespace() {
            Err(StoreError::UnknownVariant)
        } else if event_type == "Inc"@ {
            match by_field(payload) {
                Some(by) => Ok(TestEvents::Inc(TestIncrementEvent { by })),
                None => Err(StoreError::MalformedEnvelope),
            }
        } else if event_type == "Dec"@ {
            match by_field(payload) {
                Some(by) => Ok(TestEvents::Dec(TestDecrementEvent { by })),
                None => Err(StoreError::MalformedEnvelope),
            }
        } else if event_type == "Other"@ {
            Ok(TestEvents::Other)
        } else {
            Err(StoreError::UnknownVariant)
        }
    }

    fn event_namespace(&self) -> (r: String) {
        "some_namespace".to_owned()
    }

    fn event_type(&self) -> (r: String) {
        match self {
            TestEvents::Inc(_) => "Inc".to_owned(),
            TestEvents::Dec(_) => "Dec".to_owned(),
            TestEvents::Other => "Other".to_owned(),
        }
    }

    fn payload(&self) -> (r: Vec<(String, Json)>) {
        let mut out: Vec<(String, Json)> = Vec::new();
        match self {
            TestEvents::Inc(x) => out.push(("by".to_owned(), Json::Int(x.by as i64))),
            TestEvents::Dec(x) => out.push(("by".to_owned(), Json::Int(x.by as i64))),
            TestEvents::Other => {},
        }
        proof {
            lemma_members_view(out, out@.len());
            assert(mview(out) =~= Self::payload_of(*self));
        }
        out
    }

    fn from_payload(namespace: &str, event_type: &str, payload: &Vec<(String, Json)>) -> (r:
        Result<Self, StoreError>) {
        let ns = namespace.to_owned();
        let ty = event_type.to_owned();
        if ns != "some_namespace".to_owned() {
            Err(StoreError::UnknownVariant)
        } else if ty == "Inc".to_owned() {
            match read_by(payload) {
                Some(by) => Ok(TestEvents::Inc(TestIncrementEvent { by })),
                None => Err(StoreError::MalformedEnvelope),
            }
        } else if ty == "Dec".to_owned() {
            match read_by(payload) {
                Some(by) => Ok(TestEvents::Dec(TestDecrementEvent { by })),
                None => Err(StoreError::MalformedEnvelope),
            }
        } else if ty == "Other".to_owned() {
            Ok(TestEvents::Other)
        } else {
            Err(StoreError::UnknownVariant)
        }
    }

    fn duplicate(&self) -> (r: Self) {
        *self
    }

    proof fn lemma_payload_round_trip(e: TestEvents) {
        reveal_strlit("by");
        reveal_strlit("event_namespace");
        reveal_strlit("event_type");
        reveal_strlit("type");
        reveal_strlit("Inc");
        reveal_strlit("Dec");
        reveal_strlit("Other");
        reveal_with_fuel(member_from, 2);
        let p = Self::payload_of(e);
        if p.len() == 1 {
            assert(!reserved(p[0].0)) by {
                assert(key_by().len() != key_namespace().len());
                assert(key_by().len() != key_type().len());
                assert(key_by().len() != key_legacy().len());
            }
            assert(p.drop_last() =~= Seq::<(Seq<char>, JsonV)>::empty());
            assert(p.last() == p[0]);
            assert(strip_reserved(p.drop_last()) =~= Seq::<(Seq<char>, JsonV)>::empty());
            assert(strip_reserved(p) =~= p);
        }
        assert("Inc"@[0] != "Dec"@[0]);
        assert("Inc"@.len() != "Other"@.len());
        assert("Dec"@.len() != "Other"@.len());
    }
}

/// A counter rebuilt from increments and decrements.
#[derive(Debug, Clone, Copy, PartialEq, Eq, Structural)]
pub struct TestCounterEntity {
    /// Current counter value.
    pub counter: i32,
}

impl Default for TestCounterEntity {
    fn default() -> (r: Self)
        ensures
            r.counter == 0,
    {
        TestCounterEntity { counter: 0 }
    }
}

impl Aggregator<TestEvents, String> for TestCounterEntity {
    open spec fn zero_spec() -> Self {
        TestCounterEntity { counter: 0 }
    }

    /// Counts up and down; the counter wraps at the bounds of `i32`.
    open spec fn apply_spec(acc: Self, event: EventV<TestEvents>) -> Self {
        match event.data {
            TestEvents::Inc(x) => TestCounterEntity { counter: acc.counter.wrapping_add(x.by) },
            TestEvents::Dec(x) => TestCounterEntity { counter: acc.counter.wrapping_sub(x.by) },
            TestEvents::Other => acc,
        }
    }

    open spec fn query_spec(args: String) -> QueryV {
        QueryV {
            namespace: counter_namespace(),
            event_types: seq!["Inc"@, "Dec"@],
            args: seq![args@],
        }
    }

    fn zero() -> (r: Self) {
        TestCounterEntity { counter: 0 }
    }

    fn apply_event(acc: Self, event: &Event<TestEvents>) -> (r: Self) {
        match event.data {
            TestEvents::Inc(x) => TestCounterEntity { counter: acc.counter.wrapping_add(x.by) },
            TestEvents::Dec(x) => TestCounterEntity { counter: acc.counter.wrapping_sub(x.by) },
            TestEvents::Other => acc,
        }
    }

    fn query(args: &String) -> (r: StoreQuery) {
        let mut event_types: Vec<String> = Vec::new();
        event_types.push("Inc".to_owned());
        event_types.push("Dec".to_owned());
        let mut query_args: Vec<String> = Vec::new();
        query_args.push(args.clone());
        let r = StoreQuery {
            event_namespace: "some_namespace".to_owned(),
            event_types,
            args: query_args,
        };
        proof {
            assert(texts(r.event_types@) =~= seq!["Inc"@, "Dec"@]);
            assert(texts(r.args@) =~= seq![args@]);
        }
        r
    }

    fn duplicate(&self) -> (r: Self) {
        *self
    }
}

} // verus!
