use daemon_framework::envelope::{error, success, ApiError, ApiIdentity};
use daemon_framework::event::{event_envelope, Correlation};
use daemon_framework::json::{Json, JsonNumber};
use daemon_framework::jsonl_wire::{
    addressed_message, event_message, protocol_error_message, response_error_message,
    response_message, shutdown_message, transport_error_message, ClientMessage, ClientRequest,
    ClientRoute, RouteKind,
};
use daemon_framework::sorted_map::SortedMap;
use serde_json::Value;

fn to_json(value: &Value) -> Json {
    match value {
        Value::Null => Json::Null,
        Value::Bool(b) => Json::Bool(*b),
        Value::Number(n) => Json::Number(match (n.as_u64(), n.as_i64()) {
            (Some(n), _) => JsonNumber::Unsigned(n),
            (None, Some(n)) => JsonNumber::Negative(n),
            (None, None) => JsonNumber::FloatBits(n.as_f64().unwrap().to_bits()),
        }),
        Value::String(text) => Json::from_text(text),
        Value::Array(items) => Json::from_items(items.iter().map(to_json).collect()),
        Value::Object(members) => {
            let mut map = SortedMap::new();
            for (key, value) in members {
                map.insert(key.clone(), to_json(value));
            }
            Json::from_members(map)
        }
    }
}

fn to_value(json: &Json) -> Value {
    match json {
        Json::Null => Value::Null,
        Json::Bool(b) => Value::from(*b),
        Json::Number(JsonNumber::Unsigned(n)) => Value::from(*n),
        Json::Number(JsonNumber::Negative(n)) => Value::from(*n),
        Json::Number(JsonNumber::FloatBits(bits)) => Value::from(f64::from_bits(*bits)),
        Json::Text(text) => Value::from(text.as_str()),
        Json::Array(items) => Value::from(items.iter().map(to_value).collect::<Vec<_>>()),
        Json::Object(members) => {
            let mut map = serde_json::Map::new();
            for i in 0..members.len() {
                map.insert(members.key_at(i).clone(), to_value(members.value_at(i)));
            }
            Value::Object(map)
        }
    }
}

fn value(text: &str) -> Value {
    serde_json::from_str(text).unwrap()
}

fn json(text: &str) -> Json {
    to_json(&value(text))
}

const API: ApiIdentity = ApiIdentity { protocol: "test-api", version: 1 };

#[test]
fn optional_error_fields_are_absent_until_requested() {
    let basic = error(API, ApiError::new("failed", "no"));
    assert_eq!(
        to_value(&basic),
        value(
            r#"{"protocol": "test-api", "version": 1, "ok": false,
                "error": {"code": "failed", "message": "no"}}"#
        )
    );

    let detailed = to_value(&error(
        API,
        ApiError::new("failed", "no")
            .with_retryable(false)
            .with_details(json(r#"{"operation": "test"}"#)),
    ));
    assert_eq!(detailed["error"]["retryable"], false);
    assert_eq!(detailed["error"]["details"]["operation"], "test");
}

#[test]
fn success_wraps_its_data() {
    assert_eq!(
        to_value(&success(API, json(r#"{"a": [1, -2, null]}"#))),
        value(
            r#"{"protocol": "test-api", "version": 1, "ok": true, "data": {"a": [1, -2, null]}}"#
        )
    );
    assert_eq!(ApiIdentity::new("test-api", 1).version, API.version);
}

#[test]
fn correlation_and_domain_fields_are_preserved() {
    let event = to_value(&event_envelope(
        ApiIdentity::new("test-api", 1),
        "things.changed",
        "changed",
        Correlation::Subscription("sub-1"),
        json(r#"{"data": {"revision": 2}}"#),
    ));
    assert_eq!(event["subscription_id"], "sub-1");
    assert_eq!(event["data"]["revision"], 2);
}

#[test]
fn domain_fields_replace_envelope_fields_and_other_payloads_add_nothing() {
    let both = Correlation::Both { subscription_id: "sub-1", request_id: "req-1" };
    let replaced = event_envelope(API, "s", "e", both, json(r#"{"stream": "mine", "x": true}"#));
    assert_eq!(
        to_value(&replaced),
        value(
            r#"{"protocol": "test-api", "version": 1, "stream": "mine", "event": "e",
                "subscription_id": "sub-1", "request_id": "req-1", "x": true}"#
        )
    );
    let plain = event_envelope(API, "s", "e", Correlation::Uncorrelated, json("[1]"));
    assert_eq!(
        to_value(&plain),
        value(r#"{"protocol": "test-api", "version": 1, "stream": "s", "event": "e"}"#)
    );
    let request = event_envelope(API, "s", "e", Correlation::Request("r"), json("null"));
    assert_eq!(to_value(&request)["request_id"], "r");
}

fn route(consumer: &str, local: &str, generation: u64, kind: RouteKind) -> ClientRoute {
    ClientRoute {
        consumer_id: consumer.to_owned(),
        local_id: local.to_owned(),
        generation,
        kind,
    }
}

fn call(id: &str, route: Option<ClientRoute>) -> ClientMessage {
    ClientMessage {
        request: ClientRequest::Call {
            id: id.to_owned(),
            method: "things.get".to_owned(),
            params: Json::Null,
        },
        route,
    }
}

#[test]
fn routing_is_optional_typed_and_bridge_local() {
    let unrouted = call("1", None);
    unrouted.validate().unwrap();
    assert!(unrouted.route.is_none());
    let wire = value(r#"{"consumerId": "view", "localId": "page", "kind": "call", "generation": 4}"#);
    let message = call("view::page", Some(route("view", "page", 4, RouteKind::Call)));
    message.validate().unwrap();
    assert_eq!(message.route.as_ref().unwrap().kind, RouteKind::Call);
    let reply = || response_message("view::page", json(r#"{"data": {}}"#));
    assert!(addressed_message(reply(), None).get("route").is_none());
    let addressed = addressed_message(reply(), message.route.as_ref());
    assert_eq!(to_value(&addressed)["route"], wire);
}

#[test]
fn rejects_mismatched_or_unbounded_route_metadata() {
    for (op, kind, consumer) in [
        ("call", RouteKind::Control, "view".to_owned()),
        ("subscribe", RouteKind::Call, "view".to_owned()),
        ("release", RouteKind::Call, "view".to_owned()),
        ("call", RouteKind::Call, "".to_owned()),
        ("call", RouteKind::Call, "v".repeat(257)),
    ] {
        let request = match op {
            "call" => ClientRequest::Call {
                id: "1".to_owned(),
                method: "things.get".to_owned(),
                params: Json::Null,
            },
            "subscribe" => ClientRequest::Subscribe { id: "1".to_owned(), streams: vec![] },
            _ => ClientRequest::Release { id: "1".to_owned() },
        };
        let message = ClientMessage { request, route: Some(route(&consumer, "1", 0, kind)) };
        assert!(message.validate().is_err());
    }
    let release =
        ClientMessage { request: ClientRequest::Release { id: "1".to_owned() }, route: None };
    assert_eq!(release.validate(), Err("release requires a consumer route"));
}

#[test]
fn route_lengths_count_bytes_up_to_their_limits() {
    let kind = RouteKind::Call;
    assert!(call("1", Some(route(&"v".repeat(256), &"l".repeat(1024), 0, kind))).validate().is_ok());
    let length = Err("invalid bridge route identifier length");
    assert_eq!(call("1", Some(route("v", &"l".repeat(1025), 0, kind))).validate(), length);
    assert_eq!(call("1", Some(route("v", "", 0, kind))).validate(), length);
    assert_eq!(call("1", Some(route(&"é".repeat(129), "l", 0, kind))).validate(), length);
    assert!(call("1", Some(route(&"é".repeat(128), "l", 0, kind))).validate().is_ok());
    assert_eq!(
        call("1", Some(route("v", "l", 0, RouteKind::Subscription))).validate(),
        Err("bridge route kind does not match request")
    );
    for kind in [RouteKind::Subscription, RouteKind::BaseSubscription] {
        let message = ClientMessage {
            request: ClientRequest::Subscribe { id: "1".to_owned(), streams: vec![] },
            route: Some(route("v", "l", 0, kind)),
        };
        assert!(message.validate().is_ok());
    }
    let shutdown = ClientMessage {
        request: ClientRequest::Shutdown { id: "1".to_owned() },
        route: Some(route("v", "l", 0, RouteKind::Control)),
    };
    assert!(shutdown.validate().is_err());
}

#[test]
fn request_defaults_and_wire_names_are_stable() {
    assert_eq!(
        to_value(&shutdown_message("bye")),
        value(
            r#"{"kind": "response", "id": "bye", "ok": true, "response": {"shutdown": true}}"#
        )
    );
}

#[test]
fn messages_have_their_wire_form() {
    assert_eq!(
        to_value(&response_error_message("7", "no")),
        value(r#"{"kind": "response", "id": "7", "ok": false, "error": "no"}"#)
    );
    assert_eq!(
        to_value(&event_message("s", json(r#"{"a": 1.5}"#))),
        value(r#"{"kind": "event", "stream": "s", "event": {"a": 1.5}}"#)
    );
    assert_eq!(
        to_value(&protocol_error_message("bad")),
        value(r#"{"kind": "protocol-error", "error": "bad"}"#)
    );
    assert_eq!(
        to_value(&transport_error_message("gone")),
        value(r#"{"kind": "transport-error", "error": "gone"}"#)
    );
    for (kind, name) in [
        (RouteKind::Call, "call"),
        (RouteKind::Subscription, "subscription"),
        (RouteKind::BaseSubscription, "base-subscription"),
        (RouteKind::Control, "control"),
    ] {
        assert_eq!(to_value(&route("v", "l", 1, kind).to_json())["kind"], name);
    }
}
