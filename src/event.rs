//! The event envelope `{ id, data, context }` and its canonical JSON form.

use vstd::prelude::*;
use crate::error::StoreError;
use crate::json::{mview, Json, JsonV};
use crate::timestamp::{MAX_TIME, MIN_TIME};

verus! {

pub open spec fn key_id() -> Seq<char> {
    "id"@
}

pub open spec fn key_data() -> Seq<char> {
    "data"@
}

pub open spec fn key_context() -> Seq<char> {
    "context"@
}

pub open spec fn key_namespace() -> Seq<char> {
    "event_namespace"@
}

pub open spec fn key_type() -> Seq<char> {
    "event_type"@
}

pub open spec fn key_legacy() -> Seq<char> {
    "type"@
}

pub open spec fn key_time() -> Seq<char> {
    "time"@
}

pub open spec fn key_subject() -> Seq<char> {
    "subject"@
}

pub open spec fn key_action() -> Seq<char> {
    "action"@
}

/// The reserved keys of the envelope are pairwise distinct.
pub proof fn lemma_keys_distinct()
    ensures
        key_id() != key_data(),
        key_id() != key_context(),
        key_data() != key_context(),
        key_namespace() != key_type(),
        key_namespace() != key_legacy(),
        key_type() != key_legacy(),
        key_time() != key_subject(),
        key_time() != key_action(),
        key_subject() != key_action(),
{
    reveal_strlit("id");
    reveal_strlit("data");
    reveal_strlit("context");
    reveal_strlit("event_namespace");
    reveal_strlit("event_type");
    reveal_strlit("type");
    reveal_strlit("time");
    reveal_strlit("subject");
    reveal_strlit("action");
    assert(key_id().len() != key_data().len());
    assert(key_id().len() != key_context().len());
    assert(key_data().len() != key_context().len());
    assert(key_namespace().len() != key_type().len());
    assert(key_namespace().len() != key_legacy().len());
    assert(key_type().len() != key_legacy().len());
    assert(key_time().len() != key_subject().len());
    assert(key_time().len() != key_action().len());
    assert(key_subject().len() != key_action().len());
}

/// When and about what an event happened.
pub struct EventContext {
    /// Microseconds since the epoch, UTC.
    pub time: i64,
    /// Opaque JSON carried through unchanged.
    pub subject: Option<Json>,
    /// Opaque JSON carried through unchanged.
    pub action: Option<Json>,
}

/// An immutable record of something that happened.
pub struct Event<E> {
    /// Unique across the log.
    pub id: u128,
    /// The typed payload.
    pub data: E,
    pub context: EventContext,
}

/// The mathematical value of an `Event`, with `D` the view of its payload.
pub struct EventV<D> {
    pub id: u128,
    pub data: D,
    pub time: i64,
    pub subject: Option<JsonV>,
    pub action: Option<JsonV>,
}

pub open spec fn opt_view(o: Option<Json>) -> Option<JsonV> {
    match o {
        Some(j) => Some(j@),
        None => None,
    }
}

impl<E: View> View for Event<E> {
    type V = EventV<E::V>;

    open spec fn view(&self) -> EventV<E::V> {
        EventV {
            id: self.id,
            data: self.data@,
            time: self.context.time,
            subject: opt_view(self.context.subject),
            action: opt_view(self.context.action),
        }
    }
}

/// An event the canonical form can hold: its time lies in years 0000 to 9999, and an absent
/// subject or action is `None`, never a JSON `null`.
pub open spec fn valid_event<D>(e: EventV<D>) -> bool {
    &&& MIN_TIME <= e.time <= MAX_TIME
    &&& e.subject != Some(JsonV::Null)
    &&& e.action != Some(JsonV::Null)
}

/// Keys of the data object that name the kind rather than hold payload.
pub open spec fn reserved(k: Seq<char>) -> bool {
    k == key_namespace() || k == key_type() || k == key_legacy()
}

/// The members that are not reserved, in order.
pub open spec fn strip_reserved(ms: Seq<(Seq<char>, JsonV)>) -> Seq<(Seq<char>, JsonV)>
    decreases ms.len(),
{
    if ms.len() == 0 {
        ms
    } else {
        let rest = strip_reserved(ms.drop_last());
        if reserved(ms.last().0) {
            rest
        } else {
            rest.push(ms.last())
        }
    }
}

/// A closed union of event variants, each with its namespace, type and payload record.
/// The spec functions speak of the payload's view.
pub trait Events: Sized + View {
    /// The namespace of this variant.
    spec fn namespace_of(v: Self::V) -> Seq<char>;

    /// The type name of this variant.
    spec fn type_of(v: Self::V) -> Seq<char>;

    /// The payload fields of this value.
    spec fn payload_of(v: Self::V) -> Seq<(Seq<char>, JsonV)>;

    /// The value that a namespace, a type and payload fields stand for.
    spec fn parse_payload(
        namespace: Seq<char>,
        event_type: Seq<char>,
        payload: Seq<(Seq<char>, JsonV)>,
    ) -> Result<Self::V, StoreError>;

    fn event_namespace(&self) -> (r: String)
        ensures
            r@ == Self::namespace_of(self@),
    ;

    fn event_type(&self) -> (r: String)
        ensures
            r@ == Self::type_of(self@),
    ;

    fn payload(&self) -> (r: Vec<(String, Json)>)
        ensures
            mview(r) == Self::payload_of(self@),
    ;

    fn from_payload(namespace: &str, event_type: &str, payload: &Vec<(String, Json)>) -> (r:
        Result<Self, StoreError>)
        ensures
            match r {
                Ok(x) => Self::parse_payload(namespace@, event_type@, mview(*payload)) == Ok::<
                    Self::V,
                    StoreError,
                >(x@),
                Err(err) => Self::parse_payload(namespace@, event_type@, mview(*payload)) == Err::<
                    Self::V,
                    StoreError,
                >(err),
            },
    ;

    fn duplicate(&self) -> (r: Self)
        ensures
            r@ == self@,
    ;

    /// Reading back the payload that a value writes gives the value.
    proof fn lemma_payload_round_trip(v: Self::V)
        ensures
            Self::parse_payload(
                Self::namespace_of(v),
                Self::type_of(v),
                strip_reserved(Self::payload_of(v)),
            ) == Ok::<Self::V, StoreError>(v),
    ;
}

} // verus!
