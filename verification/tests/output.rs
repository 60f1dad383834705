use daemon_framework::json::{Json, JsonModel, JsonNumber};
use daemon_framework::jsonl_wire::{ClientRoute, RouteKind};
use daemon_framework::output_actor::{
    emit_command, frame_line, next_queue, BasicCorrelation, CorrelationPolicy, OutputCommand, OutputQueue,
    OutputState, TrackedId, TrackedKind,
};
use daemon_framework::sorted_map::SortedMap;
use daemon_framework::text::Text;
use serde_json::Value;

fn to_json(value: &Value) -> Json {
    match value {
        Value::Null => Json::Null,
        Value::Bool(b) => Json::Bool(*b),
        Value::Number(n) => Json::Number(match (n.as_u64(), n.as_i64()) {
            (Some(n), _) => JsonNumber::Unsigned(n),
            (None, Some(n)) => JsonNumber::Negative(n),
            (None, None) => JsonNumber::FloatBits(n.as_f64().unwrap().to_bits()),
        }),
        Value::String(text) => Json::from_text(text),
        Value::Array(items) => Json::from_items(items.iter().map(to_json).collect()),
        Value::Object(members) => {
            let mut map = SortedMap::new();
            for (key, value) in members {
                map.insert(key.clone(), to_json(value));
            }
            Json::from_members(map)
        }
    }
}

fn to_value(json: &Json) -> Value {
    match json {
        Json::Null => Value::Null,
        Json::Bool(b) => Value::from(*b),
        Json::Number(JsonNumber::Unsigned(n)) => Value::from(*n),
        Json::Number(JsonNumber::Negative(n)) => Value::from(*n),
        Json::Number(JsonNumber::FloatBits(bits)) => Value::from(f64::from_bits(*bits)),
        Json::Text(text) => Value::from(text.as_str()),
        Json::Array(items) => Value::from(items.iter().map(to_value).collect::<Vec<_>>()),
        Json::Object(members) => {
            let mut map = serde_json::Map::new();
            for i in 0..members.len() {
                map.insert(members.key_at(i).clone(), to_value(members.value_at(i)));
            }
            Value::Object(map)
        }
    }
}

fn value(text: &str) -> Value {
    serde_json::from_str(text).unwrap()
}

fn json(text: &str) -> Json {
    to_json(&value(text))
}

fn route(consumer: &str, generation: u64, kind: RouteKind) -> ClientRoute {
    ClientRoute {
        consumer_id: consumer.into(),
        local_id: "same-local-id".into(),
        generation,
        kind,
    }
}

fn subscription(id: &str, owner: ClientRoute) -> OutputCommand {
    OutputCommand::Response {
        id: "subscribe".into(),
        result: Ok(json(&format!(r#"{{"data": {{"subscription": {{"id": "{id}"}}}}}}"#))),
        cancelled_request_id: None,
        route: Some(owner),
    }
}

fn event(id: &str) -> OutputCommand {
    OutputCommand::Event {
        stream: "updates".into(),
        event: json(&format!(r#"{{"subscription_id": "{id}"}}"#)),
    }
}

struct Output<P: CorrelationPolicy> {
    state: OutputState<P>,
    lines: Vec<Value>,
}

impl<P: CorrelationPolicy> Output<P> {
    fn new(policy: P) -> Self {
        Self { state: OutputState::new(policy, 16), lines: Vec::new() }
    }
    fn send(&mut self, command: OutputCommand) {
        let effect = emit_command(&mut self.state, command);
        self.lines.extend(effect.lines.iter().map(to_value));
    }
    fn subscribe(&mut self, id: &str, owner: ClientRoute) {
        self.send(subscription(id, owner));
    }
}

#[test]
fn buffers_subscription_events_until_the_response_is_written() {
    let mut output = Output::new(BasicCorrelation);
    output.send(OutputCommand::Event {
        stream: "things.changed".into(),
        event: json(r#"{"event": "subscribed", "subscription_id": "sub-1"}"#),
    });
    output.send(OutputCommand::Response {
        id: "subscribe".into(),
        result: Ok(json(r#"{"data": {"subscription": {"id": "sub-1"}}}"#)),
        cancelled_request_id: None,
        route: None,
    });
    assert_eq!(output.lines.len(), 2);
    assert_eq!(output.lines[0]["kind"], "response");
    assert_eq!(output.lines[1]["kind"], "event");
}

#[test]
fn responses_overtake_queued_events() {
    let queued = OutputCommand::Event {
        stream: "things.changed".into(),
        event: json(r#"{"sequence": 1}"#),
    };
    let response = OutputCommand::Response {
        id: "status".into(),
        result: Ok(json(r#"{"ok": true}"#)),
        cancelled_request_id: None,
        route: None,
    };
    assert_eq!(OutputCommand::Shutdown("1".into()).queue(), OutputQueue::Priority);
    let (mut priority, mut events) = (Vec::new(), Vec::new());
    for command in [queued, response] {
        match command.queue() {
            OutputQueue::Priority => priority.push(command),
            OutputQueue::Events => events.push(command),
        }
    }
    let mut output = Output::new(BasicCorrelation);
    while let Some(queue) = next_queue(!priority.is_empty(), !events.is_empty()) {
        output.send(match queue {
            OutputQueue::Priority => priority.remove(0),
            OutputQueue::Events => events.remove(0),
        });
    }
    assert_eq!(output.lines.len(), 2);
    assert_eq!(output.lines[0]["kind"], "response");
    assert_eq!(output.lines[1]["kind"], "event");
}

#[test]
fn drops_late_events_after_cancellation() {
    let mut output = Output::new(BasicCorrelation);
    for command in [
        OutputCommand::Response {
            id: "subscribe".into(),
            result: Ok(json(r#"{"data": {"subscription": {"id": "sub-1"}}}"#)),
            cancelled_request_id: None,
            route: None,
        },
        OutputCommand::Response {
            id: "cancel".into(),
            result: Ok(json(r#"{"cancelled": "sub-1"}"#)),
            cancelled_request_id: Some("sub-1".into()),
            route: None,
        },
        OutputCommand::Event {
            stream: "things.changed".into(),
            event: json(r#"{"subscription_id": "sub-1"}"#),
        },
    ] {
        output.send(command);
    }
    assert_eq!(output.lines.len(), 2);
}

#[test]
fn replies_echo_routes_without_retaining_ordinary_requests() {
    let mut output = Output::new(BasicCorrelation);
    for (consumer, result) in [("a", Ok(json(r#"{"ok": true}"#))), ("b", Err("refused".into()))] {
        output.send(OutputCommand::Response {
            id: "same-local-id".into(),
            result,
            cancelled_request_id: None,
            route: Some(route(consumer, 7, RouteKind::Call)),
        });
    }
    assert_eq!(output.lines[0]["route"]["consumerId"], "a");
    assert_eq!(output.lines[1]["route"]["consumerId"], "b");
    assert_eq!(output.lines[1]["route"]["generation"], 7);
    assert_eq!(output.lines[1]["error"], "refused");
    assert!(output.state.active_ids().is_empty());
}

#[test]
fn early_events_follow_the_addressed_reply_and_stay_owner_scoped() {
    let mut output = Output::new(BasicCorrelation);
    output.send(event("sub-a"));
    assert!(output.lines.is_empty());
    output.subscribe("sub-a", route("a", 1, RouteKind::BaseSubscription));
    output.subscribe("sub-b", route("b", 1, RouteKind::Subscription));
    output.send(event("sub-b"));
    let lines = &output.lines;
    assert_eq!(lines.len(), 4);
    assert_eq!(lines[0]["kind"], "response");
    assert_eq!(lines[1]["kind"], "event");
    assert_eq!(lines[1]["route"]["consumerId"], "a");
    assert_eq!(lines[3]["route"]["consumerId"], "b");
    assert_eq!(output.state.owned_ids(&route("a", 1, RouteKind::Control)), ["sub-a"]);
    assert!(output.state.owned_ids(&route("a", 2, RouteKind::Control)).is_empty());
    let repeated = json(r#"{"data": {"subscription": {"id": "sub-a"}}}"#);
    output.state.activate(&repeated, None);
    assert_eq!(output.state.owned_ids(&route("a", 1, RouteKind::Control)), ["sub-a"]);
}

#[test]
fn cancellation_failure_retains_ownership_success_and_reset_remove_it() {
    let mut output = Output::new(BasicCorrelation);
    output.subscribe("sub-a", route("a", 1, RouteKind::Subscription));
    output.send(OutputCommand::Response {
        id: "cancel".into(),
        result: Err("temporarily unavailable".into()),
        cancelled_request_id: None,
        route: Some(route("a", 1, RouteKind::Control)),
    });
    assert_eq!(output.state.owned_ids(&route("a", 1, RouteKind::Control)), ["sub-a"]);
    output.send(OutputCommand::Cancelled("sub-a".into()));
    assert!(output.state.active_ids().is_empty());
    let length = output.lines.len();
    output.send(event("sub-a"));
    assert_eq!(output.lines.len(), length, "late cancelled events must be suppressed");
    output.subscribe("sub-b", route("b", 2, RouteKind::Subscription));
    output.send(OutputCommand::ResetCorrelation);
    assert!(output.state.active_ids().is_empty());
    assert_eq!(output.state.pending_len(), 0);
}

struct TerminalSubscription;

impl CorrelationPolicy for TerminalSubscription {
    fn tracked_id(&self, _response: JsonModel) -> Option<(Text, TrackedKind)> {
        unreachable!()
    }
    fn owner_id(&self, _stream: Text, _event: JsonModel) -> Option<Text> {
        unreachable!()
    }
    fn ends(&self, _stream: Text, _event: JsonModel) -> bool {
        unreachable!()
    }
    fn response_id(&self, response: &Json) -> Option<TrackedId> {
        BasicCorrelation.response_id(response)
    }
    fn event_id(&self, stream: &str, event: &Json) -> Option<String> {
        BasicCorrelation.event_id(stream, event)
    }
    fn is_terminal(&self, _stream: &str, _event: &Json) -> bool {
        true
    }
}

#[test]
fn terminal_events_keep_their_route_before_retiring_ownership() {
    for buffered in [false, true] {
        let mut output = Output::new(TerminalSubscription);
        if buffered {
            output.send(event("sub-a"));
        }
        output.subscribe("sub-a", route("a", 1, RouteKind::Subscription));
        output.send(event("sub-a"));
        let lines = &output.lines;
        assert_eq!(lines.len(), 2);
        assert_eq!(lines[1]["route"]["consumerId"], "a");
        assert_eq!(lines[1]["event"]["subscription_id"], "sub-a");
        assert!(output.state.active_ids().is_empty());
        assert_eq!(output.state.pending_len(), 0);
        assert!(output.state.is_suppressed("sub-a"));
    }
}

#[test]
fn twenty_thousand_requests_and_subscription_churn_stay_bounded() {
    let mut state = OutputState::new(BasicCorrelation, 16);
    for index in 0..20_000 {
        let owner = route("clipboard", index / 5, RouteKind::Call);
        emit_command(
            &mut state,
            OutputCommand::Response {
                id: format!("query-{}", index / 5),
                result: Ok(json(r#"{"ok": true}"#)),
                cancelled_request_id: None,
                route: Some(owner),
            },
        );
        assert!(state.active_ids().is_empty());
        if index % 5 == 0 {
            let id = format!("sub-{index}");
            emit_command(
                &mut state,
                subscription(&id, route("clipboard", index, RouteKind::BaseSubscription)),
            );
            emit_command(&mut state, OutputCommand::Cancelled(id));
        }
        assert!(state.active_ids().is_empty());
        assert!(state.suppressed_len() <= 16);
    }
}

#[test]
fn waiting_events_are_bounded_and_the_oldest_go_first() {
    let mut state = OutputState::new(BasicCorrelation, 2);
    for id in ["sub-1", "sub-2", "sub-3"] {
        assert!(emit_command(&mut state, event(id)).lines.is_empty());
    }
    assert_eq!(state.pending_len(), 2);
    let owner = || route("a", 1, RouteKind::Subscription);
    assert_eq!(emit_command(&mut state, subscription("sub-1", owner())).lines.len(), 1);
    assert_eq!(emit_command(&mut state, subscription("sub-2", owner())).lines.len(), 2);
}

#[test]
fn queries_answer_with_live_identifiers() {
    let mut output = Output::new(BasicCorrelation);
    output.subscribe("sub-b", route("b", 1, RouteKind::Subscription));
    output.subscribe("sub-a", route("a", 1, RouteKind::Subscription));
    let all = emit_command(&mut output.state, OutputCommand::ActiveIds { route: None });
    assert_eq!(all.ids.unwrap(), ["sub-a", "sub-b"]);
    assert!(all.lines.is_empty());
    let asked = OutputCommand::ActiveIds { route: Some(route("b", 1, RouteKind::Control)) };
    assert_eq!(emit_command(&mut output.state, asked).ids.unwrap(), ["sub-b"]);
}

#[test]
fn errors_and_shutdown_write_one_line_each() {
    let mut output = Output::new(BasicCorrelation);
    output.send(OutputCommand::ProtocolError("bad".into()));
    output.send(OutputCommand::TransportError("gone".into()));
    output.send(OutputCommand::Shutdown("bye".into()));
    assert_eq!(output.lines.len(), 3);
    assert_eq!(output.lines[0], value(r#"{"kind": "protocol-error", "error": "bad"}"#));
    assert_eq!(output.lines[1], value(r#"{"kind": "transport-error", "error": "gone"}"#));
    assert_eq!(output.lines[2]["response"]["shutdown"], true);
    assert_eq!(frame_line(b"{}".to_vec()), b"{}\n");
}

#[test]
fn basic_correlation_reads_subscriptions() {
    let found = BasicCorrelation.response_id(&json(r#"{"data": {"subscription": {"id": "s"}}}"#));
    let found = found.unwrap();
    assert_eq!(found.id, "s");
    assert_eq!(found.kind, TrackedKind::Subscription);
    assert!(BasicCorrelation.response_id(&json(r#"{"data": {"subscription": 1}}"#)).is_none());
    assert!(BasicCorrelation.response_id(&json("[]")).is_none());
    assert_eq!(
        BasicCorrelation.event_id("s", &json(r#"{"subscription_id": "x"}"#)).as_deref(),
        Some("x")
    );
    assert!(!BasicCorrelation.is_terminal("s", &json("{}")));
}

#[test]
fn acknowledged_cancellations_are_not_revived_by_their_reply() {
    let mut output = Output::new(BasicCorrelation);
    output.subscribe("sub-a", route("a", 1, RouteKind::Subscription));
    output.send(OutputCommand::Response {
        id: "cancel".into(),
        result: Ok(json(r#"{"data": {"subscription": {"id": "sub-a"}}}"#)),
        cancelled_request_id: Some("sub-a".into()),
        route: None,
    });
    assert!(output.state.active_ids().is_empty());
    assert!(output.state.is_suppressed("sub-a"));
}

#[test]
fn ownership_persists_through_other_traffic() {
    let mut output = Output::new(BasicCorrelation);
    output.subscribe("sub-a", route("a", 1, RouteKind::Subscription));
    output.send(event("sub-a"));
    output.send(event("sub-b"));
    output.subscribe("sub-b", route("b", 1, RouteKind::Subscription));
    output.send(OutputCommand::Cancelled("sub-b".into()));
    output.send(OutputCommand::TransportError("slow".into()));
    assert!(output.lines.last().unwrap().get("route").is_none());
    output.send(event("sub-a"));
    assert_eq!(output.lines.last().unwrap()["route"]["consumerId"], "a");
    assert_eq!(output.state.owned_ids(&route("a", 1, RouteKind::Control)), ["sub-a"]);
}
