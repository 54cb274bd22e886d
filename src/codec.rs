//! The canonical JSON form of an event, and decoding with the legacy single-tag fallback.

use vstd::prelude::*;
use vstd::string::StrSliceExecFns;
use crate::error::StoreError;
use crate::event::{
    key_action, key_context, key_data, key_id, key_legacy, key_namespace, key_subject, key_time,
    key_type, lemma_keys_distinct, opt_view, reserved, strip_reserved, valid_event, Event,
    EventContext, EventV, Events,
};
use crate::ident::{format_id, parse_id, uuid_text, uuid_value};
use crate::json::{
    field, get_member, lemma_members_view, member, member_from, mview, Json, JsonV,
};
use crate::timestamp::{format_time, parse_time, rfc3339_text, rfc3339_value, time_value};

verus! {

/// The JSON written for an optional value: the value, or `null`.
pub open spec fn or_null(o: Option<JsonV>) -> JsonV {
    match o {
        Some(v) => v,
        None => JsonV::Null,
    }
}

/// An optional value read back: a missing key and `null` both mean none.
pub open spec fn non_null(o: Option<JsonV>) -> Option<JsonV> {
    match o {
        Some(JsonV::Null) => None,
        other => other,
    }
}

/// The members of the canonical data object: namespace, type, then the payload fields.
pub open spec fn data_members<E: Events>(d: E::V) -> Seq<(Seq<char>, JsonV)> {
    seq![(key_namespace(), JsonV::Str(E::namespace_of(d))), (key_type(), JsonV::Str(E::type_of(d)))]
        + E::payload_of(d)
}

pub open spec fn context_members<D>(e: EventV<D>) -> Seq<(Seq<char>, JsonV)> {
    seq![
        (key_time(), JsonV::Str(rfc3339_text(e.time))),
        (key_subject(), or_null(e.subject)),
        (key_action(), or_null(e.action)),
    ]
}

/// The canonical JSON form of an event.
pub open spec fn envelope<E: Events>(e: EventV<E::V>) -> JsonV {
    JsonV::Object(
        seq![
            (key_id(), JsonV::Str(uuid_text(e.id))),
            (key_data(), JsonV::Object(data_members::<E>(e.data))),
            (key_context(), JsonV::Object(context_members(e))),
        ],
    )
}

/// A document in canonical form: the data object names namespace and type in their own keys,
/// and the context's time is RFC 3339.
pub open spec fn is_canonical(j: JsonV) -> bool {
    &&& j matches JsonV::Object(top)
    &&& member(top, key_data()) matches Some(JsonV::Object(ms))
    &&& member(ms, key_namespace()) matches Some(JsonV::Str(_))
    &&& member(ms, key_type()) matches Some(JsonV::Str(_))
    &&& member(top, key_context()) matches Some(JsonV::Object(cs))
    &&& member(cs, key_time()) matches Some(JsonV::Str(ts))
    &&& rfc3339_value(ts) is Some
}

/// Position of the first `.` at or after `i`.
pub open spec fn dot_from(t: Seq<char>, i: int) -> Option<int>
    decreases t.len() - i,
{
    if i < 0 || i >= t.len() {
        None
    } else if t[i] == '.' {
        Some(i)
    } else {
        dot_from(t, i + 1)
    }
}

/// A legacy tag `<namespace>.<type>`, split at its first `.`.
pub open spec fn legacy_kind(t: Seq<char>) -> Option<(Seq<char>, Seq<char>)> {
    match dot_from(t, 0) {
        Some(p) => Some((t.subrange(0, p), t.subrange(p + 1, t.len() as int))),
        None => None,
    }
}

/// The namespace and type that a data object names: both keys of the canonical form, else the
/// legacy tag.
pub open spec fn kind_of(ms: Seq<(Seq<char>, JsonV)>) -> Option<(Seq<char>, Seq<char>)> {
    if member(ms, key_namespace()) is Some && member(ms, key_type()) is Some {
        match (member(ms, key_namespace()), member(ms, key_type())) {
            (Some(JsonV::Str(ns)), Some(JsonV::Str(ty))) => Some((ns, ty)),
            _ => None,
        }
    } else {
        match member(ms, key_legacy()) {
            Some(JsonV::Str(t)) => legacy_kind(t),
            _ => None,
        }
    }
}

/// The instant that a context object holds.
pub open spec fn context_time(cs: Seq<(Seq<char>, JsonV)>) -> Option<i64> {
    match member(cs, key_time()) {
        Some(JsonV::Str(s)) => time_value(s),
        _ => None,
    }
}

/// The event a document stands for, or why it stands for none.
pub open spec fn decode_spec<E: Events>(j: JsonV) -> Result<EventV<E::V>, StoreError> {
    match j {
        JsonV::Object(top) => match (
            member(top, key_id()),
            member(top, key_data()),
            member(top, key_context()),
        ) {
            (Some(JsonV::Str(id_text)), Some(JsonV::Object(ms)), Some(JsonV::Object(cs))) => {
                match (uuid_value(id_text), kind_of(ms), context_time(cs)) {
                    (Some(id), Some(kind), Some(t)) => match E::parse_payload(
                        kind.0,
                        kind.1,
                        strip_reserved(ms),
                    ) {
                        Ok(d) => Ok(
                            EventV {
                                id,
                                data: d,
                                time: t,
                                subject: non_null(member(cs, key_subject())),
                                action: non_null(member(cs, key_action())),
                            },
                        ),
                        Err(err) => Err(err),
                    },
                    _ => Err(StoreError::MalformedEnvelope),
                }
            },
            _ => Err(StoreError::MalformedEnvelope),
        },
        _ => Err(StoreError::MalformedEnvelope),
    }
}

/// Members in front that are all reserved do not change what is left after stripping.
pub proof fn lemma_strip_reserved_prefix(
    pre: Seq<(Seq<char>, JsonV)>,
    ms: Seq<(Seq<char>, JsonV)>,
)
    requires
        forall|i: int| 0 <= i < pre.len() ==> reserved(#[trigger] pre[i].0),
    ensures
        strip_reserved(pre + ms) == strip_reserved(ms),
    decreases pre.len() + ms.len(),
{
    if ms.len() == 0 {
        assert(pre + ms =~= pre);
        if pre.len() > 0 {
            lemma_strip_reserved_prefix(pre.drop_last(), ms);
            assert(pre.drop_last() + ms =~= pre.drop_last());
        }
    } else {
        assert((pre + ms).drop_last() =~= pre + ms.drop_last());
        lemma_strip_reserved_prefix(pre, ms.drop_last());
    }
}

/// Decoding the canonical form of a valid event gives the event back.
proof fn lemma_decode_envelope<E: Events>(e: EventV<E::V>)
    requires
        valid_event(e),
        uuid_value(uuid_text(e.id)) == Some(e.id),
        rfc3339_value(rfc3339_text(e.time)) == Some(e.time),
    ensures
        decode_spec::<E>(envelope::<E>(e)) == Ok::<EventV<E::V>, StoreError>(e),
        is_canonical(envelope::<E>(e)),
{
    lemma_keys_distinct();
    reveal_with_fuel(member_from, 4);
    let top = seq![
        (key_id(), JsonV::Str(uuid_text(e.id))),
        (key_data(), JsonV::Object(data_members::<E>(e.data))),
        (key_context(), JsonV::Object(context_members(e))),
    ];
    assert(member(top, key_id()) == Some(JsonV::Str(uuid_text(e.id))));
    assert(member(top, key_data()) == Some(JsonV::Object(data_members::<E>(e.data))));
    assert(member(top, key_context()) == Some(JsonV::Object(context_members(e))));
    let ms = data_members::<E>(e.data);
    assert(member(ms, key_namespace()) == Some(JsonV::Str(E::namespace_of(e.data))));
    assert(member(ms, key_type()) == Some(JsonV::Str(E::type_of(e.data))));
    let pre = seq![
        (key_namespace(), JsonV::Str(E::namespace_of(e.data))),
        (key_type(), JsonV::Str(E::type_of(e.data))),
    ];
    lemma_strip_reserved_prefix(pre, E::payload_of(e.data));
    E::lemma_payload_round_trip(e.data);
    let cs = context_members(e);
    assert(member(cs, key_time()) == Some(JsonV::Str(rfc3339_text(e.time))));
    assert(member(cs, key_subject()) == Some(or_null(e.subject)));
    assert(member(cs, key_action()) == Some(or_null(e.action)));
}

/// The JSON written for an optional value.
fn or_null_json(o: &Option<Json>) -> (r: Json)
    ensures
        r@ == or_null(opt_view(*o)),
{
    match o {
        Some(j) => j.copy(),
        None => Json::Null,
    }
}

/// Writes the canonical form of an event. Reading it back gives the event.
pub fn encode<E: Events>(e: &Event<E>) -> (r: Json)
    requires
        valid_event(e@),
    ensures
        r@ == envelope::<E>(e@),
        decode_spec::<E>(r@) == Ok::<EventV<E::V>, StoreError>(e@),
        is_canonical(r@),
{
    let id = format_id(e.id);
    let time = format_time(e.context.time);
    let mut data: Vec<(String, Json)> = Vec::new();
    data.push(field("event_namespace", Json::Str(e.data.event_namespace())));
    data.push(field("event_type", Json::Str(e.data.event_type())));
    let mut payload = e.data.payload();
    let ghost head = data;
    let ghost fields = payload;
    data.append(&mut payload);
    proof {
        lemma_members_view(data, data@.len());
        lemma_members_view(head, head@.len());
        lemma_members_view(fields, fields@.len());
        assert(mview(data) =~= data_members::<E>(e@.data));
    }
    let mut context: Vec<(String, Json)> = Vec::new();
    context.push(field("time", Json::Str(time)));
    context.push(field("subject", or_null_json(&e.context.subject)));
    context.push(field("action", or_null_json(&e.context.action)));
    proof {
        lemma_members_view(context, context@.len());
        assert(mview(context) =~= context_members(e@));
    }
    let mut top: Vec<(String, Json)> = Vec::new();
    top.push(field("id", Json::Str(id)));
    top.push(field("data", Json::Object(data)));
    top.push(field("context", Json::Object(context)));
    proof {
        lemma_members_view(top, top@.len());
        assert(mview(top) =~= seq![
            (key_id(), JsonV::Str(uuid_text(e.id))),
            (key_data(), JsonV::Object(data_members::<E>(e@.data))),
            (key_context(), JsonV::Object(context_members(e@))),
        ]);
        lemma_decode_envelope::<E>(e@);
    }
    Json::Object(top)
}

fn is_reserved(k: &String) -> (r: bool)
    ensures
        r == reserved(k@),
{
    *k == "event_namespace".to_owned() || *k == "event_type".to_owned() || *k
        == "type".to_owned()
}

/// Copies the members that are not reserved.
fn strip_members(ms: &Vec<(String, Json)>) -> (r: Vec<(String, Json)>)
    ensures
        mview(r) == strip_reserved(mview(*ms)),
{
    proof { lemma_members_view(*ms, ms@.len()); }
    let mut out: Vec<(String, Json)> = Vec::new();
    let mut i: usize = 0;
    while i < ms.len()
        invariant
            i <= ms@.len(),
            mview(*ms).len() == ms@.len(),
            forall|j: int| 0 <= j < ms@.len() ==> #[trigger] mview(*ms)[j] == (ms@[j].0@, ms@[j].1@),
            mview(out) == strip_reserved(mview(*ms).subrange(0, i as int)),
        decreases ms@.len() - i,
    {
        let ghost before = out;
        let ghost seen = mview(*ms).subrange(0, i as int + 1);
        proof {
            assert(seen.drop_last() =~= mview(*ms).subrange(0, i as int));
            assert(seen.last() == mview(*ms)[i as int]);
        }
        if !is_reserved(&ms[i].0) {
            let k = ms[i].0.clone();
            let v = ms[i].1.copy();
            out.push((k, v));
            proof {
                lemma_members_view(before, before@.len());
                lemma_members_view(out, out@.len());
                assert(mview(out) =~= mview(before).push((k@, v@)));
            }
        }
        i = i + 1;
    }
    proof { assert(mview(*ms).subrange(0, ms@.len() as int) =~= mview(*ms)); }
    out
}

/// Splits a legacy tag at its first `.`.
fn split_tag(t: &str) -> (r: Option<(String, String)>)
    ensures
        match r {
            Some(p) => legacy_kind(t@) == Some((p.0@, p.1@)),
            None => legacy_kind(t@) is None,
        },
{
    let n = t.unicode_len();
    let mut i: usize = 0;
    while i < n
        invariant
            n == t@.len(),
            i <= n,
            dot_from(t@, 0) == dot_from(t@, i as int),
        decreases n - i,
    {
        if t.get_char(i) == '.' {
            let ns = t.substring_char(0, i).to_owned();
            let ty = t.substring_char(i + 1, n).to_owned();
            return Some((ns, ty));
        }
        i = i + 1;
    }
    None
}

fn non_null_json(o: Option<&Json>) -> (r: Option<Json>)
    ensures
        opt_view(r) == non_null(
            match o {
                Some(j) => Some(j@),
                None => None,
            },
        ),
{
    match o {
        Some(Json::Null) => None,
        Some(j) => Some(j.copy()),
        None => None,
    }
}

/// Reads an event from a document in the canonical or the legacy form.
pub fn decode<E: Events>(j: &Json) -> (r: Result<Event<E>, StoreError>)
    ensures
        match r {
            Ok(e) => decode_spec::<E>(j@) == Ok::<EventV<E::V>, StoreError>(e@),
            Err(err) => decode_spec::<E>(j@) == Err::<EventV<E::V>, StoreError>(err),
        },
{
    let top = match j {
        Json::Object(top) => top,
        _ => return Err(StoreError::MalformedEnvelope),
    };
    let id_text = match get_member(top, "id") {
        Some(Json::Str(s)) => s,
        _ => return Err(StoreError::MalformedEnvelope),
    };
    let ms = match get_member(top, "data") {
        Some(Json::Object(ms)) => ms,
        _ => return Err(StoreError::MalformedEnvelope),
    };
    let cs = match get_member(top, "context") {
        Some(Json::Object(cs)) => cs,
        _ => return Err(StoreError::MalformedEnvelope),
    };
    let id = match parse_id(id_text.as_str()) {
        Some(id) => id,
        None => return Err(StoreError::MalformedEnvelope),
    };
    let ns_member = get_member(ms, "event_namespace");
    let ty_member = get_member(ms, "event_type");
    let kind: (String, String) = if ns_member.is_some() && ty_member.is_some() {
        match (ns_member, ty_member) {
            (Some(Json::Str(ns)), Some(Json::Str(ty))) => (ns.clone(), ty.clone()),
            _ => return Err(StoreError::MalformedEnvelope),
        }
    } else {
        match get_member(ms, "type") {
            Some(Json::Str(t)) => match split_tag(t.as_str()) {
                Some(p) => p,
                None => return Err(StoreError::MalformedEnvelope),
            },
            _ => return Err(StoreError::MalformedEnvelope),
        }
    };
    let time = match get_member(cs, "time") {
        Some(Json::Str(s)) => match parse_time(s.as_str()) {
            Some(t) => t,
            None => return Err(StoreError::MalformedEnvelope),
        },
        _ => return Err(StoreError::MalformedEnvelope),
    };
    let payload = strip_members(ms);
    let data = match E::from_payload(kind.0.as_str(), kind.1.as_str(), &payload) {
        Ok(d) => d,
        Err(err) => return Err(err),
    };
    let subject = non_null_json(get_member(cs, "subject"));
    let action = non_null_json(get_member(cs, "action"));
    Ok(Event { id, data, context: EventContext { time, subject, action } })
}

/// Rewrites a document, in the canonical or the legacy form, in the canonical form. Fails
/// where the document is no event, or its time lies outside years 0000 to 9999.
pub fn canonicalize<E: Events>(j: &Json) -> (r: Result<Json, StoreError>)
    ensures
        match decode_spec::<E>(j@) {
            Ok(e) => if valid_event(e) {
                r matches Ok(c) && c@ == envelope::<E>(e) && is_canonical(c@) && decode_spec::<E>(c@)
                    == Ok::<EventV<E::V>, StoreError>(e)
            } else {
                r == Err::<Json, StoreError>(StoreError::MalformedEnvelope)
            },
            Err(err) => r == Err::<Json, StoreError>(err),
        },
{
    let e: Event<E> = match decode(j) {
        Ok(e) => e,
        Err(err) => return Err(err),
    };
    if e.context.time < crate::timestamp::MIN_TIME || e.context.time > crate::timestamp::MAX_TIME {
        return Err(StoreError::MalformedEnvelope);
    }
    Ok(encode(&e))
}

} // verus!
