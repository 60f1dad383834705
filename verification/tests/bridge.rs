use daemon_framework::json::{Json, JsonNumber};
use daemon_framework::jsonl::{
    begin_request, cancellation_succeeded, execute_request, lane_capacity, owner_watch,
    received_event, report_transport_error, request_lane, request_limit, response_command,
    run_jsonl_client,
    spawn_request, timeout_message, Admission, CallFailure, OwnerWatch, ReconnectState,
    ReconnectingClient, RequestAction, RequestEvent, RequestLane, RequestSlots, RequestState, SessionAction,
    SessionEvent, SessionState, CONTROL_CAPACITY, CONTROL_TIMEOUT, REQUEST_TIMEOUT,
};
use daemon_framework::jsonl_wire::{ClientMessage, ClientRequest, ClientRoute, RouteKind};
use daemon_framework::output_actor::{emit_command, BasicCorrelation, OutputCommand, OutputState};
use daemon_framework::sorted_map::SortedMap;
use daemon_framework::text::is_blank;
use serde_json::Value;

fn to_json(value: &Value) -> Json {
    match value {
        Value::Null => Json::Null,
        Value::Bool(b) => Json::Bool(*b),
        Value::Number(n) => Json::Number(match (n.as_u64(), n.as_i64()) {
            (Some(n), _) => JsonNumber::Unsigned(n),
            (None, Some(n)) => JsonNumber::Negative(n),
            (None, None) => JsonNumber::FloatBits(n.as_f64().unwrap().to_bits()),
        }),
        Value::String(text) => Json::from_text(text),
        Value::Array(items) => Json::from_items(items.iter().map(to_json).collect()),
        Value::Object(members) => {
            let mut map = SortedMap::new();
            for (key, value) in members {
                map.insert(key.clone(), to_json(value));
            }
            Json::from_members(map)
        }
    }
}

fn to_value(json: &Json) -> Value {
    match json {
        Json::Null => Value::Null,
        Json::Bool(b) => Value::from(*b),
        Json::Number(JsonNumber::Unsigned(n)) => Value::from(*n),
        Json::Number(JsonNumber::Negative(n)) => Value::from(*n),
        Json::Number(JsonNumber::FloatBits(bits)) => Value::from(f64::from_bits(*bits)),
        Json::Text(text) => Value::from(text.as_str()),
        Json::Array(items) => Value::from(items.iter().map(to_value).collect::<Vec<_>>()),
        Json::Object(members) => {
            let mut map = serde_json::Map::new();
            for i in 0..members.len() {
                map.insert(members.key_at(i).clone(), to_value(members.value_at(i)));
            }
            Value::Object(map)
        }
    }
}

fn value(text: &str) -> Value {
    serde_json::from_str(text).unwrap()
}

fn json(text: &str) -> Json {
    to_json(&value(text))
}

fn route(kind: RouteKind) -> ClientRoute {
    ClientRoute {
        consumer_id: "view".to_owned(),
        local_id: "mutation".to_owned(),
        generation: 2,
        kind,
    }
}

fn response(id: &str, result: Result<Json, String>, route: Option<ClientRoute>) -> OutputCommand {
    response_command(id.to_owned(), result, None, route)
}

#[test]
fn overload_is_addressed_and_never_spawns_or_sends_the_request() {
    let message = ClientMessage {
        request: ClientRequest::Call {
            id: "view::mutation".to_owned(),
            method: "must.not.execute".to_owned(),
            params: Json::Null,
        },
        route: Some(route(RouteKind::Call)),
    };
    let Admission::Refuse(command) = spawn_request(message, false) else {
        panic!("overloaded request was executed");
    };
    let mut state = OutputState::new(BasicCorrelation, 8);
    let lines = emit_command(&mut state, command).lines;
    let reply = to_value(&lines[0]);
    assert_eq!(reply["ok"], false);
    assert_eq!(reply["id"], "view::mutation");
    assert_eq!(
        reply["route"],
        value(r#"{"consumerId": "view", "localId": "mutation", "generation": 2, "kind": "call"}"#)
    );
    assert!(reply["error"].as_str().unwrap().contains("not sent"));
    let release = ClientRequest::Release { id: "release".to_owned() };
    assert_eq!(request_lane(&release), RequestLane::Controls);
    let mut slots = RequestSlots::new(0);
    let subscribe = ClientRequest::Subscribe { id: "s".to_owned(), streams: vec![] };
    assert!(!slots.acquire(&subscribe));
    for _ in 0..CONTROL_CAPACITY {
        assert!(slots.acquire(&release));
    }
    assert!(!slots.acquire(&release));
    slots.release(RequestLane::Controls);
    assert!(slots.acquire(&release));
    assert_eq!(lane_capacity(RequestLane::Controls, 0), CONTROL_CAPACITY);
    assert_eq!(lane_capacity(RequestLane::Calls, 0), 1);
    assert_eq!(lane_capacity(RequestLane::Calls, 9), 9);
    assert_eq!(request_lane(&subscribe), RequestLane::Calls);
}

#[test]
fn admitted_requests_are_executed_as_they_are() {
    let message =
        ClientMessage { request: ClientRequest::Release { id: "r".to_owned() }, route: None };
    let same =
        ClientMessage { request: ClientRequest::Release { id: "r".to_owned() }, route: None };
    assert_eq!(spawn_request(message, true), Admission::Execute(same));
}

#[test]
fn domain_cancellation_errors_do_not_retire_subscription_ownership() {
    assert!(!cancellation_succeeded(&json(r#"{"ok": false, "error": {}}"#)));
    assert!(cancellation_succeeded(&json(r#"{"ok": true}"#)));
    assert!(cancellation_succeeded(&json(r#"{"cancelled": "subscription-1"}"#)));
}

fn call() -> RequestState {
    let step = begin_request(ClientMessage {
        request: ClientRequest::Call {
            id: "slow-call".to_owned(),
            method: "m".to_owned(),
            params: json("[1]"),
        },
        route: None,
    });
    assert!(step.commands.is_empty());
    assert_eq!(
        step.action,
        RequestAction::Call { method: "m".to_owned(), params: json("[1]") }
    );
    step.state
}

#[test]
fn timeout_reports_recovery_before_the_correlated_response() {
    let mapped = r#"{"ok": false, "error": {"code": "daemon-unavailable"}}"#;
    let event = RequestEvent::CallTimedOut(CallFailure::Api(json(mapped)));
    let step = execute_request(call(), event);
    assert_eq!(step.state, RequestState::Done);
    assert_eq!(step.action, RequestAction::Finish);
    assert_eq!(
        step.commands,
        vec![
            OutputCommand::TransportError("daemon request timed out after 30000ms".to_owned()),
            response("slow-call", Ok(json(mapped)), None),
        ]
    );
    assert_eq!(timeout_message(REQUEST_TIMEOUT), "daemon request timed out after 30000ms");
    assert_eq!(timeout_message(CONTROL_TIMEOUT), "daemon request timed out after 5000ms");
}

#[test]
fn one_limit_covers_a_request() {
    let id = || "1".to_owned();
    let call = ClientRequest::Call { id: id(), method: "m".to_owned(), params: Json::Null };
    assert_eq!(request_limit(&call), Some(30_000));
    let subscribe = ClientRequest::Subscribe { id: id(), streams: vec![] };
    assert_eq!(request_limit(&subscribe), Some(30_000));
    let cancel = ClientRequest::Cancel { id: id(), request_id: id() };
    assert_eq!(request_limit(&cancel), Some(5_000));
    assert_eq!(request_limit(&ClientRequest::Release { id: id() }), Some(5_000));
    assert_eq!(request_limit(&ClientRequest::Shutdown { id: id() }), None);
    assert!(RequestAction::AwaitEvents.limited());
    assert!(RequestAction::Subscribe { streams: vec![] }.limited());
    assert!(RequestAction::Cancel { request_id: id() }.limited());
    assert!(!RequestAction::OwnedIds { route: route(RouteKind::Control) }.limited());
    assert!(!RequestAction::Finish.limited());
}

#[test]
fn completed_requests_do_not_trigger_transport_recovery() {
    let step = execute_request(call(), RequestEvent::CallReturned(Ok(json("42"))));
    assert_eq!(step.commands, vec![response("slow-call", Ok(json("42")), None)]);
    let failed = CallFailure::Transport("ordinary request failure".to_owned());
    let step = execute_request(call(), RequestEvent::CallReturned(Err(failed)));
    let error = Err("ordinary request failure".to_owned());
    assert_eq!(step.commands, vec![response("slow-call", error, None)]);
}

#[test]
fn subscriptions_and_shutdowns_are_answered() {
    let begun = begin_request(ClientMessage {
        request: ClientRequest::Subscribe { id: "s".to_owned(), streams: vec!["x".to_owned()] },
        route: Some(route(RouteKind::Subscription)),
    });
    assert_eq!(begun.action, RequestAction::AwaitEvents);
    let waiting = execute_request(begun.state, RequestEvent::Forwarding(Ok(false)));
    assert_eq!(waiting.action, RequestAction::AwaitEvents);
    assert!(waiting.commands.is_empty());
    let begun = execute_request(waiting.state, RequestEvent::Forwarding(Ok(true)));
    assert_eq!(begun.action, RequestAction::Subscribe { streams: vec!["x".to_owned()] });
    assert!(begun.commands.is_empty());
    let step = execute_request(begun.state, RequestEvent::TimedOut);
    let error = "daemon request timed out after 30000ms".to_owned();
    assert_eq!(
        step.commands,
        vec![
            OutputCommand::TransportError(error.clone()),
            response("s", Err(error), Some(route(RouteKind::Subscription))),
        ]
    );
    let awaiting = || {
        let request = ClientRequest::Subscribe { id: "s".to_owned(), streams: vec![] };
        begin_request(ClientMessage { request, route: None }).state
    };
    let closed = RequestEvent::Forwarding(Err("closed".to_owned()));
    let step = execute_request(awaiting(), closed);
    assert_eq!(step.commands, vec![response("s", Err("closed".to_owned()), None)]);
    let step = execute_request(awaiting(), RequestEvent::TimedOut);
    let error = "daemon request timed out after 30000ms".to_owned();
    assert_eq!(
        step.commands,
        vec![OutputCommand::TransportError(error.clone()), response("s", Err(error), None)]
    );
    let shutdown = begin_request(ClientMessage {
        request: ClientRequest::Shutdown { id: "bye".to_owned() },
        route: None,
    });
    assert_eq!(shutdown.commands, vec![OutputCommand::Shutdown("bye".to_owned())]);
    assert_eq!(shutdown.action, RequestAction::Finish);
}

fn cancel(event: RequestEvent) -> Vec<OutputCommand> {
    let begun = begin_request(ClientMessage {
        request: ClientRequest::Cancel { id: "c".to_owned(), request_id: "sub-1".to_owned() },
        route: None,
    });
    assert_eq!(begun.action, RequestAction::Cancel { request_id: "sub-1".to_owned() });
    execute_request(begun.state, event).commands
}

#[test]
fn cancellations_are_retired_only_when_accepted() {
    let accepted = cancel(RequestEvent::Returned(Ok(json(r#"{"ok": true}"#))));
    assert_eq!(
        accepted,
        vec![response_command(
            "c".to_owned(),
            Ok(json(r#"{"ok": true}"#)),
            Some("sub-1".to_owned()),
            None
        )]
    );
    let refused = cancel(RequestEvent::Returned(Ok(json(r#"{"ok": false}"#))));
    assert_eq!(refused, vec![response("c", Ok(json(r#"{"ok": false}"#)), None)]);
    let failed = cancel(RequestEvent::Returned(Err("gone".to_owned())));
    assert_eq!(failed, vec![response("c", Err("gone".to_owned()), None)]);
    let slow = cancel(RequestEvent::TimedOut);
    let error = "daemon request timed out after 5000ms".to_owned();
    assert_eq!(
        slow,
        vec![OutputCommand::TransportError(error.clone()), response("c", Err(error), None)]
    );
}

fn release(ids: &[&str]) -> (RequestState, Vec<OutputCommand>, RequestAction) {
    let begun = begin_request(ClientMessage {
        request: ClientRequest::Release { id: "r".to_owned() },
        route: Some(route(RouteKind::Control)),
    });
    assert_eq!(begun.action, RequestAction::OwnedIds { route: route(RouteKind::Control) });
    let ids = ids.iter().map(|id| id.to_string()).collect();
    let step = execute_request(begun.state, RequestEvent::Owned(ids));
    (step.state, step.commands, step.action)
}

#[test]
fn releases_retire_every_subscription_of_their_consumer() {
    let (mut state, mut commands, mut action) = release(&["sub-1", "sub-2"]);
    for id in ["sub-1", "sub-2"] {
        assert_eq!(action, RequestAction::Cancel { request_id: id.to_owned() });
        let step = execute_request(state, RequestEvent::Returned(Ok(Json::Null)));
        (state, action) = (step.state, step.action);
        commands.extend(step.commands);
    }
    assert_eq!(state, RequestState::Done);
    assert_eq!(
        commands,
        vec![
            OutputCommand::Cancelled("sub-1".to_owned()),
            OutputCommand::Cancelled("sub-2".to_owned()),
            response("r", Ok(json(r#"{"released": 2}"#)), Some(route(RouteKind::Control))),
        ]
    );
    let (state, commands, _) = release(&[]);
    assert_eq!(state, RequestState::Done);
    let none = response("r", Ok(json(r#"{"released": 0}"#)), Some(route(RouteKind::Control)));
    assert_eq!(commands, vec![none]);
}

#[test]
fn rejected_releases_keep_the_rest() {
    let (state, _, _) = release(&["sub-1", "sub-2", "sub-3"]);
    let step = execute_request(state, RequestEvent::Returned(Ok(Json::Null)));
    assert_eq!(step.commands, vec![OutputCommand::Cancelled("sub-1".to_owned())]);
    let refused = RequestEvent::Returned(Ok(json(r#"{"ok": false}"#)));
    let step = execute_request(step.state, refused);
    let error = Err("daemon rejected cancellation of sub-2".to_owned());
    assert_eq!(step.commands, vec![response("r", error, Some(route(RouteKind::Control)))]);
    assert_eq!(step.state, RequestState::Done);
    let unrouted = begin_request(ClientMessage {
        request: ClientRequest::Release { id: "r".to_owned() },
        route: None,
    });
    let error = Err("release requires a consumer route".to_owned());
    assert_eq!(unrouted.commands, vec![response("r", error, None)]);
}

fn line(request: ClientRequest) -> SessionEvent {
    SessionEvent::Line(Ok(ClientMessage { request, route: None }))
}

#[test]
fn sessions_drain_cancel_and_acknowledge_in_order() {
    let (state, action) = run_jsonl_client(SessionState::Serving, SessionEvent::Blank);
    assert_eq!((&state, action), (&SessionState::Serving, SessionAction::ReadLine));
    let (state, action) = run_jsonl_client(state, SessionEvent::Line(Err("bad".to_owned())));
    let report = OutputCommand::ProtocolError("bad".to_owned());
    assert_eq!((&state, action), (&SessionState::Serving, SessionAction::Report(report)));
    let (state, action) = run_jsonl_client(state, line(ClientRequest::Release { id: "r".to_owned() }));
    let report = OutputCommand::ProtocolError("release requires a consumer route".to_owned());
    assert_eq!(action, SessionAction::Report(report));
    let request =
        || ClientRequest::Subscribe { id: "s".to_owned(), streams: vec!["x".to_owned()] };
    let (state, action) = run_jsonl_client(state, line(request()));
    assert_eq!(
        action,
        SessionAction::Execute(ClientMessage { request: request(), route: None })
    );
    let (state, action) = run_jsonl_client(state, line(ClientRequest::Shutdown { id: "z".to_owned() }));
    assert_eq!(action, SessionAction::Drain);
    let (state, action) = run_jsonl_client(state, SessionEvent::DrainTimedOut);
    assert_eq!(action, SessionAction::AbortCalls);
    let (state, action) = run_jsonl_client(state, SessionEvent::Drained);
    assert_eq!(action, SessionAction::Connect);
    let (state, action) = run_jsonl_client(state, SessionEvent::Connected(true));
    assert_eq!(action, SessionAction::ListActive);
    let ids = vec!["a".to_owned(), "b".to_owned()];
    let (state, action) = run_jsonl_client(state, SessionEvent::Active(ids));
    assert_eq!(action, SessionAction::Cancel("a".to_owned()));
    let (state, action) = run_jsonl_client(state, SessionEvent::CancelReturned);
    assert_eq!(action, SessionAction::Cancel("b".to_owned()));
    let (state, action) = run_jsonl_client(state, SessionEvent::CancelReturned);
    assert_eq!(state, SessionState::Finished);
    assert_eq!(
        action,
        SessionAction::Finish(Some(OutputCommand::Shutdown("z".to_owned())))
    );
}

#[test]
fn sessions_without_a_daemon_end_without_an_acknowledgement() {
    let (state, action) = run_jsonl_client(SessionState::Serving, SessionEvent::EndOfInput);
    assert_eq!(action, SessionAction::Drain);
    let (state, _) = run_jsonl_client(state, SessionEvent::Drained);
    let (state, action) = run_jsonl_client(state, SessionEvent::Connected(false));
    assert_eq!((state, action), (SessionState::Finished, SessionAction::Finish(None)));
}

#[test]
fn blank_lines_hold_white_space_only() {
    assert!(is_blank(""));
    assert!(is_blank(" \t\u{3000}\r"));
    assert!(!is_blank(" {"));
}

#[test]
fn reconnects_back_off_and_report_new_failures() {
    let mut reconnect = ReconnectState::new();
    let mut delays = Vec::new();
    for (i, message) in ["down", "down", "down", "other", "other", "down"].iter().enumerate() {
        let (commands, delay) = reconnect.failed(message.to_string());
        delays.push(delay);
        assert_eq!(commands[0], OutputCommand::ResetCorrelation);
        if [0, 3, 5].contains(&i) {
            assert_eq!(commands[1], OutputCommand::TransportError(message.to_string()));
        } else {
            assert_eq!(commands.len(), 1);
        }
    }
    assert_eq!(delays, [250, 500, 1000, 2000, 4000, 5000]);
    assert_eq!(reconnect.failed("x".to_owned()).1, 5000);
}

#[test]
fn repeated_reports_are_suppressed() {
    let mut last = None;
    let first = report_transport_error(&mut last, "down".to_owned());
    assert_eq!(first, Some(OutputCommand::TransportError("down".to_owned())));
    assert_eq!(report_transport_error(&mut last, "down".to_owned()), None);
    assert_eq!(last.as_deref(), Some("down"));
}

#[test]
fn replaced_owners_reset_the_bridge() {
    assert_eq!(
        owner_watch(true, "test-daemon"),
        OwnerWatch::Replaced(vec![
            OutputCommand::ResetCorrelation,
            OutputCommand::TransportError("test-daemon D-Bus owner changed".to_owned()),
        ])
    );
    assert_eq!(owner_watch(false, "test-daemon"), OwnerWatch::Retry(250));
}

#[test]
fn undecodable_events_are_passed_on_raw() {
    assert_eq!(
        received_event("s".to_owned(), Some(json("[]")), "[]"),
        OutputCommand::Event { stream: "s".to_owned(), event: json("[]") }
    );
    assert_eq!(
        received_event("s".to_owned(), None, "{oops"),
        OutputCommand::Event { stream: "s".to_owned(), event: json(r#"{"raw": "{oops"}"#) }
    );
}

#[test]
fn invalidated_connections_forward_no_events() {
    let mut client = ReconnectingClient::new();
    assert!(client.get().is_none());
    client.connected(7);
    client.set_event_ready(true);
    assert_eq!(client.get(), Some(&7));
    assert!(client.forwards_events());
    assert_eq!(client.invalidate(), Some(7));
    assert!(client.get().is_none());
    assert!(!client.forwards_events());
}

#[test]
fn routes_stay_in_the_bridge() {
    let request =
        || ClientRequest::Cancel { id: "c".to_owned(), request_id: "sub-1".to_owned() };
    let routed = begin_request(ClientMessage {
        request: request(),
        route: Some(route(RouteKind::Control)),
    });
    let unrouted = begin_request(ClientMessage { request: request(), route: None });
    assert_eq!(routed.action, unrouted.action);
}

#[test]
fn outputs_follow_cancellations_and_releases() {
    let mut state = OutputState::new(BasicCorrelation, 8);
    let owner = ClientRoute { kind: RouteKind::Subscription, ..route(RouteKind::Control) };
    for id in ["sub-1", "sub-2"] {
        let reply = format!(r#"{{"data": {{"subscription": {{"id": "{id}"}}}}}}"#);
        emit_command(&mut state, response("s", Ok(json(&reply)), Some(owner.clone())));
    }
    for command in cancel(RequestEvent::TimedOut) {
        emit_command(&mut state, command);
    }
    assert_eq!(state.active_ids(), ["sub-1", "sub-2"]);
    for command in cancel(RequestEvent::Returned(Ok(json(r#"{"ok": true}"#)))) {
        emit_command(&mut state, command);
    }
    assert_eq!(state.owned_ids(&route(RouteKind::Control)), ["sub-2"]);
    let (waiting, _, _) = release(&["sub-2"]);
    for command in execute_request(waiting, RequestEvent::Returned(Ok(Json::Null))).commands {
        emit_command(&mut state, command);
    }
    assert!(state.owned_ids(&route(RouteKind::Control)).is_empty());
}

#[test]
fn white_space_is_a_list_of_code_points() {
    let listed = |point: u32| {
        matches!(
            point,
            0x9..=0xD
                | 0x20
                | 0x85
                | 0xA0
                | 0x1680
                | 0x2000..=0x200A
                | 0x2028
                | 0x2029
                | 0x202F
                | 0x205F
                | 0x3000
        )
    };
    for c in '\0'..=char::MAX {
        assert_eq!(is_blank(&c.to_string()), listed(u32::from(c)), "{c:?}");
    }
}
