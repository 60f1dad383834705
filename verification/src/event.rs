//! Event envelopes.
use vstd::prelude::*;

use crate::envelope::{identity_fields, ApiIdentity};
use crate::json::{fields, lemma_members_model, no_members, put, Json, JsonModel};
use crate::sorted_map::SortedMap;

verus! {

/// What an event answers to.
#[derive(Debug, Clone, Copy, PartialEq, Eq)]
pub enum Correlation<'a> {
    Uncorrelated,
    Subscription(&'a str),
    Request(&'a str),
    Both { subscription_id: &'a str, request_id: &'a str },
}

/// The members that a correlation adds.
pub open spec fn correlated(
    envelope: Map<Seq<char>, JsonModel>,
    correlation: Correlation<'_>,
) -> Map<Seq<char>, JsonModel> {
    match correlation {
        Correlation::Uncorrelated => envelope,
        Correlation::Subscription(id) => envelope.insert("subscription_id"@, JsonModel::Text(id@)),
        Correlation::Request(id) => envelope.insert("request_id"@, JsonModel::Text(id@)),
        Correlation::Both { subscription_id, request_id } => envelope.insert(
            "subscription_id"@,
            JsonModel::Text(subscription_id@),
        ).insert("request_id"@, JsonModel::Text(request_id@)),
    }
}

/// The members of an event envelope: the common ones, overridden by those that
/// the daemon gives.
pub open spec fn envelope_fields(
    api: ApiIdentity,
    stream: Seq<char>,
    event: Seq<char>,
    correlation: Correlation<'_>,
    payload: JsonModel,
) -> Map<Seq<char>, JsonModel> {
    let common = correlated(
        identity_fields(api).insert("stream"@, JsonModel::Text(stream)).insert(
            "event"@,
            JsonModel::Text(event),
        ),
        correlation,
    );
    match payload {
        JsonModel::Object(payload) => common.union_prefer_right(payload),
        _ => common,
    }
}

/// Adds members; those that are there already are overridden.
fn extend(members: &mut SortedMap<Json>, added: SortedMap<Json>)
    ensures
        fields(*final(members)) == fields(*old(members)).union_prefer_right(fields(added)),
{
    let mut rest = added;
    let ghost target = fields(*members).union_prefer_right(fields(rest));
    let mut n: usize = rest.len();
    while n > 0
        invariant
            n == rest.in_order().len(),
            fields(*members).union_prefer_right(fields(rest)) == target,
        decreases n,
    {
        let ghost before = fields(*members);
        let ghost left = fields(rest);
        let (key, value) = rest.remove_at(n - 1);
        let _ = members.insert(key, value);
        n = n - 1;
        assert(fields(rest) =~= left.remove(key@));
        assert(fields(*members) =~= before.insert(key@, value@));
        assert(left[key@] == value@);
        assert(fields(*members).union_prefer_right(fields(rest)) =~= target);
    }
    let _ = rest.len();
    assert(rest.in_order().len() == 0);
    assert(rest@.dom() =~= Set::empty());
    assert(fields(*members).union_prefer_right(fields(rest)) =~= fields(*members));
}

/// Builds the common event fields and merges daemon-owned payload fields.
pub fn event_envelope(
    api: ApiIdentity,
    stream: &str,
    event: &str,
    correlation: Correlation<'_>,
    payload: Json,
) -> (value: Json)
    ensures
        value@ == JsonModel::Object(
            envelope_fields(api, stream@, event@, correlation, payload@),
        ),
{
    let mut envelope = no_members();
    put(&mut envelope, "protocol", Json::from_text(api.protocol));
    put(&mut envelope, "version", Json::from_unsigned(api.version));
    put(&mut envelope, "stream", Json::from_text(stream));
    put(&mut envelope, "event", Json::from_text(event));
    match correlation {
        Correlation::Uncorrelated => {},
        Correlation::Subscription(id) => {
            put(&mut envelope, "subscription_id", Json::from_text(id));
        },
        Correlation::Request(id) => {
            put(&mut envelope, "request_id", Json::from_text(id));
        },
        Correlation::Both { subscription_id, request_id } => {
            put(&mut envelope, "subscription_id", Json::from_text(subscription_id));
            put(&mut envelope, "request_id", Json::from_text(request_id));
        },
    }
    if let Json::Object(payload) = payload {
        proof {
            lemma_members_model(payload);
        }
        extend(&mut envelope, payload);
    }
    Json::from_members(envelope)
}

/// The fields that the daemon gives are in the envelope as they are.
pub proof fn domain_fields_are_preserved(
    api: ApiIdentity,
    stream: Seq<char>,
    event: Seq<char>,
    correlation: Correlation<'_>,
    payload: Map<Seq<char>, JsonModel>,
    key: Seq<char>,
)
    requires
        payload.contains_key(key),
    ensures
        envelope_fields(api, stream, event, correlation, JsonModel::Object(payload)).contains_key(
            key,
        ),
        envelope_fields(api, stream, event, correlation, JsonModel::Object(payload))[key]
            == payload[key],
{
}

/// What an event answers to is in the envelope, unless the daemon gives that field
/// itself.
pub proof fn correlation_is_preserved(
    api: ApiIdentity,
    stream: Seq<char>,
    event: Seq<char>,
    correlation: Correlation<'_>,
    payload: JsonModel,
)
    requires
        payload.field("subscription_id"@) is None,
        payload.field("request_id"@) is None,
    ensures
        ({
            let envelope = JsonModel::Object(
                envelope_fields(api, stream, event, correlation, payload),
            );
            match correlation {
                Correlation::Uncorrelated => envelope.field("subscription_id"@) is None
                    && envelope.field("request_id"@) is None,
                Correlation::Subscription(id) => envelope.field_text("subscription_id"@) == Some(
                    id@,
                ) && envelope.field("request_id"@) is None,
                Correlation::Request(id) => envelope.field_text("request_id"@) == Some(id@)
                    && envelope.field("subscription_id"@) is None,
                Correlation::Both { subscription_id, request_id } => envelope.field_text(
                    "subscription_id"@,
                ) == Some(subscription_id@) && envelope.field_text("request_id"@) == Some(
                    request_id@,
                ),
            }
        }),
{
    reveal_strlit("subscription_id");
    reveal_strlit("request_id");
    reveal_strlit("protocol");
    reveal_strlit("version");
    reveal_strlit("stream");
    reveal_strlit("event");
    let sub = "subscription_id"@;
    let req = "request_id"@;
    assert(sub.len() == 15 && req.len() == 10);
    assert("protocol"@.len() == 8 && "version"@.len() == 7 && "stream"@.len() == 6
        && "event"@.len() == 5);
}

proof fn lemma_event_names()
    ensures
        "protocol"@ != "version"@,
        "protocol"@ != "stream"@,
        "protocol"@ != "event"@,
        "version"@ != "stream"@,
        "version"@ != "event"@,
        "stream"@ != "event"@,
        "subscription_id"@ != "request_id"@,
        "subscription_id"@ != "protocol"@,
        "subscription_id"@ != "version"@,
        "subscription_id"@ != "stream"@,
        "subscription_id"@ != "event"@,
        "request_id"@ != "protocol"@,
        "request_id"@ != "version"@,
        "request_id"@ != "stream"@,
        "request_id"@ != "event"@,
{
    reveal_strlit("subscription_id");
    reveal_strlit("request_id");
    reveal_strlit("protocol");
    reveal_strlit("version");
    reveal_strlit("stream");
    reveal_strlit("event");
    assert("subscription_id"@.len() == 15 && "request_id"@.len() == 10);
    assert("protocol"@.len() == 8 && "version"@.len() == 7 && "stream"@.len() == 6
        && "event"@.len() == 5);
}

/// Every event says which protocol it speaks, its stream and its name, unless the daemon
/// gives such a field itself. It has no field besides these, those of what it answers to,
/// and those of the daemon.
pub proof fn events_name_their_stream(
    api: ApiIdentity,
    stream: Seq<char>,
    event: Seq<char>,
    correlation: Correlation<'_>,
    payload: JsonModel,
    key: Seq<char>,
)
    ensures
        ({
            let envelope = JsonModel::Object(
                envelope_fields(api, stream, event, correlation, payload),
            );
            &&& payload.field("protocol"@) is None ==> envelope.field("protocol"@) == Some(
                JsonModel::Text(api.protocol@),
            )
            &&& payload.field("version"@) is None ==> envelope.field("version"@) == Some(
                JsonModel::Number(crate::json::JsonNumber::Unsigned(api.version)),
            )
            &&& payload.field("stream"@) is None ==> envelope.field("stream"@) == Some(
                JsonModel::Text(stream),
            )
            &&& payload.field("event"@) is None ==> envelope.field("event"@) == Some(
                JsonModel::Text(event),
            )
            &&& payload.field(key) is Some ==> envelope.field(key) == payload.field(key)
            &&& payload.field(key) is None && envelope.field(key) is Some ==> key == "protocol"@
                || key == "version"@ || key == "stream"@ || key == "event"@ || key
                == "subscription_id"@ || key == "request_id"@
        }),
{
    lemma_event_names();
}

} // verus!
