//! Decisions of the JSON-lines bridge between a frontend and a daemon: intake of
//! requests, their execution, reconnection, and the order of shutdown. The bridge
//! performs the actions that are named here and hands their outcomes back.
use vstd::prelude::*;

use crate::json::{no_members, put, Json, JsonModel, JsonNumber};
use crate::jsonl_wire::{
    optional_route, refusal, ClientMessage, ClientRequest, ClientRoute, RouteModel,
};
use crate::output_actor::{
    result_model, stepped_all, CommandModel, CorrelationPolicy, OutputCommand, OutputModel,
};
use crate::text::{
    decimal, decimal_text, optional_text, push_text, same_text, text_models,
};

verus! {

/// How many commands wait for the output at most.
pub const OUTPUT_CAPACITY: usize = 64;

/// How many control requests run at once at most.
pub const CONTROL_CAPACITY: usize = 16;

/// The first delay before a reconnection, in milliseconds.
pub const INITIAL_RECONNECT_DELAY: u64 = 250;

/// The longest delay before a reconnection, in milliseconds.
pub const MAX_RECONNECT_DELAY: u64 = 5_000;

/// How long a call or a subscription may take, in milliseconds.
pub const REQUEST_TIMEOUT: u64 = 30_000;

/// How long a cancellation or a release may take, in milliseconds.
pub const CONTROL_TIMEOUT: u64 = 5_000;

/// How the daemon answers a cancellation.
#[derive(Debug, Clone, Copy, PartialEq, Eq)]
pub enum CancelMode {
    Json,
    Unit,
}

/// How a failed call is answered: by a reply of the domain, or as a failure of
/// the transport.
#[derive(Debug, PartialEq)]
pub enum CallFailure {
    Api(Json),
    Transport(String),
}

/// The capacity that a request draws on.
#[derive(Debug, Clone, Copy, PartialEq, Eq)]
pub enum RequestLane {
    Calls,
    Controls,
}

/// Calls and subscriptions share one capacity. Everything else has a separate
/// one, so that saturated calls cannot block cleanup.
pub open spec fn lane_of(request: ClientRequest) -> RequestLane {
    if request is Call || request is Subscribe {
        RequestLane::Calls
    } else {
        RequestLane::Controls
    }
}

/// The capacity that a request draws on.
pub fn request_lane(request: &ClientRequest) -> (lane: RequestLane)
    ensures
        lane == lane_of(*request),
{
    match request {
        ClientRequest::Call { .. } => RequestLane::Calls,
        ClientRequest::Subscribe { .. } => RequestLane::Calls,
        _ => RequestLane::Controls,
    }
}

/// How many requests of a lane run at once at most. At least one call can run.
pub open spec fn capacity_of(lane: RequestLane, max_in_flight_requests: usize) -> usize {
    match lane {
        RequestLane::Calls => if max_in_flight_requests == 0 {
            1
        } else {
            max_in_flight_requests
        },
        RequestLane::Controls => CONTROL_CAPACITY,
    }
}

/// How many requests run at once on a lane, given the configured number of calls.
pub fn lane_capacity(lane: RequestLane, max_in_flight_requests: usize) -> (capacity: usize)
    ensures
        capacity == capacity_of(lane, max_in_flight_requests),
        capacity > 0,
{
    match lane {
        RequestLane::Calls => if max_in_flight_requests == 0 {
            1
        } else {
            max_in_flight_requests
        },
        RequestLane::Controls => CONTROL_CAPACITY,
    }
}

/// How many requests of each lane may run, and how many do.
#[derive(Debug)]
pub struct RequestSlots {
    max_calls: usize,
    calls: usize,
    controls: usize,
}

/// How many requests of each lane may run, and how many do.
#[verifier::ext_equal]
pub struct SlotsModel {
    pub max_calls: nat,
    pub calls: nat,
    pub controls: nat,
}

impl View for RequestSlots {
    type V = SlotsModel;

    closed spec fn view(&self) -> SlotsModel {
        SlotsModel {
            max_calls: self.max_calls as nat,
            calls: self.calls as nat,
            controls: self.controls as nat,
        }
    }
}

impl SlotsModel {
    /// No lane runs more requests than it may.
    pub open spec fn bounded(self) -> bool {
        self.calls <= self.max_calls && self.controls <= CONTROL_CAPACITY
    }

    /// How many requests of a lane run.
    pub open spec fn used(self, lane: RequestLane) -> nat {
        match lane {
            RequestLane::Calls => self.calls,
            RequestLane::Controls => self.controls,
        }
    }

    /// Whether a lane has no slot left.
    pub open spec fn full(self, lane: RequestLane) -> bool {
        match lane {
            RequestLane::Calls => self.calls >= self.max_calls,
            RequestLane::Controls => self.controls >= CONTROL_CAPACITY,
        }
    }

    /// The slots once a lane was asked for one, which it gives if it has one left.
    pub open spec fn acquired(self, lane: RequestLane) -> Self {
        if self.full(lane) {
            self
        } else {
            self.with_used(lane, self.used(lane) + 1)
        }
    }

    /// The slots once a request of a lane has ended.
    pub open spec fn released(self, lane: RequestLane) -> Self {
        self.with_used(lane, (self.used(lane) - 1) as nat)
    }

    /// The slots with so many requests of a lane.
    pub open spec fn with_used(self, lane: RequestLane, n: nat) -> Self {
        match lane {
            RequestLane::Calls => SlotsModel { calls: n, ..self },
            RequestLane::Controls => SlotsModel { controls: n, ..self },
        }
    }
}

impl RequestSlots {
    /// No request runs.
    pub fn new(maximum_calls: usize) -> (slots: Self)
        ensures
            slots@ == (SlotsModel { max_calls: maximum_calls as nat, calls: 0, controls: 0 }),
            slots@.bounded(),
    {
        RequestSlots { max_calls: maximum_calls, calls: 0, controls: 0 }
    }

    /// Takes a slot for a request, if its lane has one left.
    pub fn acquire(&mut self, request: &ClientRequest) -> (r: bool)
        requires
            old(self)@.bounded(),
        ensures
            final(self)@.bounded(),
            r == !old(self)@.full(lane_of(*request)),
            final(self)@ == old(self)@.acquired(lane_of(*request)),
    {
        match request_lane(request) {
            RequestLane::Calls => if self.calls < self.max_calls {
                self.calls = self.calls + 1;
                true
            } else {
                false
            },
            RequestLane::Controls => if self.controls < CONTROL_CAPACITY {
                self.controls = self.controls + 1;
                true
            } else {
                false
            },
        }
    }

    /// Gives back the slot of a request that has finished.
    pub fn release(&mut self, lane: RequestLane)
        requires
            old(self)@.bounded(),
            old(self)@.used(lane) > 0,
        ensures
            final(self)@.bounded(),
            final(self)@ == old(self)@.released(lane),
    {
        match lane {
            RequestLane::Calls => {
                self.calls = self.calls - 1;
            },
            RequestLane::Controls => {
                self.controls = self.controls - 1;
            },
        }
    }
}

/// Saturated calls do not block cleanup: what calls and subscriptions take leaves the
/// slots of the other requests as they are.
pub proof fn calls_leave_room_for_control(
    slots: SlotsModel,
    request: ClientRequest,
    control: ClientRequest,
    n: nat,
)
    requires
        lane_of(request) == RequestLane::Calls,
        lane_of(control) == RequestLane::Controls,
    ensures
        slots.with_used(lane_of(request), n).full(lane_of(control)) == slots.full(lane_of(control)),
        control is Cancel || control is Release || control is Shutdown,
{
}

/// The identifier of a request.
pub open spec fn id_of(request: ClientRequest) -> Seq<char> {
    match request {
        ClientRequest::Call { id, .. } => id@,
        ClientRequest::Subscribe { id, .. } => id@,
        ClientRequest::Cancel { id, .. } => id@,
        ClientRequest::Release { id } => id@,
        ClientRequest::Shutdown { id } => id@,
    }
}

/// The identifier of a request.
pub fn request_id(request: ClientRequest) -> (id: String)
    ensures
        id@ == id_of(request),
{
    match request {
        ClientRequest::Call { id, .. } => id,
        ClientRequest::Subscribe { id, .. } => id,
        ClientRequest::Cancel { id, .. } => id,
        ClientRequest::Release { id } => id,
        ClientRequest::Shutdown { id } => id,
    }
}

/// The command that answers a request.
pub fn response_command(
    id: String,
    result: Result<Json, String>,
    cancelled_request_id: Option<String>,
    route: Option<ClientRoute>,
) -> (command: OutputCommand)
    ensures
        command@ == (CommandModel::Response {
            id: id@,
            result: result_model(result),
            cancelled: optional_text(cancelled_request_id),
            route: optional_route(route),
        }),
{
    OutputCommand::Response { id, result, cancelled_request_id, route }
}

/// Whether a request may run.
#[derive(Debug, PartialEq)]
pub enum Admission {
    Execute(ClientMessage),
    Refuse(OutputCommand),
}

/// Whether a request is admitted with a slot, and otherwise answered, to its address,
/// with the overload.
pub open spec fn admits(message: ClientMessage, slot_acquired: bool, admission: Admission) -> bool {
    match admission {
        Admission::Execute(admitted) => slot_acquired && admitted == message,
        Admission::Refuse(command) => !slot_acquired && command@ == (CommandModel::Response {
            id: id_of(message.request),
            result: Err("bridge request capacity exceeded; request was not sent"@),
            cancelled: None,
            route: optional_route(message.route),
        }),
    }
}

/// Decides on a request once its lane was asked for a slot. Overload is answered,
/// to the address of the request, before the request was sent.
pub fn spawn_request(message: ClientMessage, slot_acquired: bool) -> (admission: Admission)
    ensures
        admits(message, slot_acquired, admission),
{
    if slot_acquired {
        Admission::Execute(message)
    } else {
        let ClientMessage { request, route } = message;
        Admission::Refuse(
            response_command(
                request_id(request),
                Err("bridge request capacity exceeded; request was not sent".to_owned()),
                None,
                route,
            ),
        )
    }
}

/// What is done with a line that was read.
#[derive(Debug, PartialEq)]
pub enum Intake {
    /// The request is executed.
    Execute(ClientMessage),
    /// The client asked for the end of the session.
    Shutdown(String),
    /// The line is answered with a protocol error.
    Report(OutputCommand),
}

/// Decides on a line that was decoded, or could not be.
pub fn parse_request(decoded: Result<ClientMessage, String>) -> (intake: Intake)
    ensures
        match decoded {
            Err(error) => intake matches Intake::Report(command) && command@
                == CommandModel::ProtocolError(error@),
            Ok(message) => match refusal(message.request, optional_route(message.route)) {
                Some(reason) => intake matches Intake::Report(command) && command@
                    == CommandModel::ProtocolError(reason),
                None => if message.request is Shutdown {
                    intake matches Intake::Shutdown(id) && id@ == id_of(message.request)
                } else {
                    intake == Intake::Execute(message)
                },
            },
        },
{
    let message = match decoded {
        Ok(message) => message,
        Err(error) => return Intake::Report(OutputCommand::ProtocolError(error)),
    };
    match message.validate() {
        Ok(()) => match message.request {
            ClientRequest::Shutdown { id } => Intake::Shutdown(id),
            request => Intake::Execute(ClientMessage { request, route: message.route }),
        },
        Err(reason) => Intake::Report(OutputCommand::ProtocolError(reason.to_owned())),
    }
}

/// Whether the daemon accepted a cancellation: it did not say that it failed.
pub open spec fn accepted(response: JsonModel) -> bool {
    match response.field("ok"@) {
        Some(ok) => ok.truth() != Some(false),
        None => true,
    }
}

/// Whether the daemon accepted a cancellation.
pub fn cancellation_succeeded(response: &Json) -> (r: bool)
    ensures
        r == accepted(response@),
{
    match response.get("ok") {
        Some(ok) => match ok.as_bool() {
            Some(ok) => ok,
            None => true,
        },
        None => true,
    }
}

/// The report of a request that took too long.
pub open spec fn timeout_report(milliseconds: u64) -> Seq<char> {
    "daemon request timed out after "@ + decimal(milliseconds as nat) + "ms"@
}

/// The report of a request that took too long.
pub fn timeout_message(milliseconds: u64) -> (message: String)
    ensures
        message@ == timeout_report(milliseconds),
{
    let mut message = "daemon request timed out after ".to_owned();
    push_text(&mut message, decimal_text(milliseconds).as_str());
    push_text(&mut message, "ms");
    message
}

/// What commands say.
pub open spec fn command_models(commands: Seq<OutputCommand>) -> Seq<CommandModel> {
    commands.map_values(|command: OutputCommand| command@)
}

/// Where the execution of a request stands.
#[derive(Debug, PartialEq)]
pub enum RequestState {
    Calling { id: String, route: Option<ClientRoute> },
    /// A subscription waits until events are forwarded.
    AwaitingEvents { id: String, route: Option<ClientRoute>, streams: Vec<String> },
    Subscribing { id: String, route: Option<ClientRoute> },
    Cancelling { id: String, route: Option<ClientRoute>, request_id: String },
    /// A release waits for the identifiers that its consumer owns.
    Querying { id: String, route: Option<ClientRoute> },
    /// A release waits for the cancellation of one of them.
    Releasing {
        id: String,
        route: Option<ClientRoute>,
        current: String,
        remaining: Vec<String>,
        released: usize,
    },
    Done,
}

/// What the execution of a request needs from outside.
#[derive(Debug, PartialEq)]
pub enum RequestAction {
    Call { method: String, params: Json },
    /// Wait until the forwarding of events changes, unless events are forwarded.
    AwaitEvents,
    Subscribe { streams: Vec<String> },
    Cancel { request_id: String },
    OwnedIds { route: ClientRoute },
    Finish,
}

/// What came of an action.
#[derive(Debug, PartialEq)]
pub enum RequestEvent {
    /// A call returned, or failed as the domain puts it.
    CallReturned(Result<Json, CallFailure>),
    /// A call took too long; the domain puts it so.
    CallTimedOut(CallFailure),
    /// Whether events are forwarded now, or why nobody can tell.
    Forwarding(Result<bool, String>),
    /// A subscription or a cancellation returned or failed.
    Returned(Result<Json, String>),
    /// A subscription, a cancellation or a release took too long.
    TimedOut,
    /// The identifiers that a consumer owns.
    Owned(Vec<String>),
}

/// Where the execution of a request stands.
#[verifier::ext_equal]
pub enum RequestModel {
    Calling { id: Seq<char>, route: Option<RouteModel> },
    AwaitingEvents { id: Seq<char>, route: Option<RouteModel>, streams: Seq<Seq<char>> },
    Subscribing { id: Seq<char>, route: Option<RouteModel> },
    Cancelling { id: Seq<char>, route: Option<RouteModel>, request_id: Seq<char> },
    Querying { id: Seq<char>, route: Option<RouteModel> },
    Releasing {
        id: Seq<char>,
        route: Option<RouteModel>,
        current: Seq<char>,
        remaining: Seq<Seq<char>>,
        released: nat,
    },
    Done,
}

/// What the execution of a request needs from outside.
#[verifier::ext_equal]
pub enum ActionModel {
    Call { method: Seq<char>, params: JsonModel },
    AwaitEvents,
    Subscribe { streams: Seq<Seq<char>> },
    Cancel { request_id: Seq<char> },
    OwnedIds { route: RouteModel },
    Finish,
}

/// What came of an action.
#[verifier::ext_equal]
pub enum EventModel {
    CallReturned(Result<JsonModel, FailureModel>),
    CallTimedOut(FailureModel),
    Forwarding(Result<bool, Seq<char>>),
    Returned(Result<JsonModel, Seq<char>>),
    TimedOut,
    Owned(Seq<Seq<char>>),
}

/// How a failed call is answered.
#[verifier::ext_equal]
pub enum FailureModel {
    Api(JsonModel),
    Transport(Seq<char>),
}

impl View for CallFailure {
    type V = FailureModel;

    open spec fn view(&self) -> FailureModel {
        match *self {
            CallFailure::Api(response) => FailureModel::Api(response@),
            CallFailure::Transport(error) => FailureModel::Transport(error@),
        }
    }
}

impl View for RequestState {
    type V = RequestModel;

    open spec fn view(&self) -> RequestModel {
        match *self {
            RequestState::Calling { id, route } => RequestModel::Calling {
                id: id@,
                route: optional_route(route),
            },
            RequestState::AwaitingEvents { id, route, streams } => RequestModel::AwaitingEvents {
                id: id@,
                route: optional_route(route),
                streams: text_models(streams@),
            },
            RequestState::Subscribing { id, route } => RequestModel::Subscribing {
                id: id@,
                route: optional_route(route),
            },
            RequestState::Cancelling { id, route, request_id } => RequestModel::Cancelling {
                id: id@,
                route: optional_route(route),
                request_id: request_id@,
            },
            RequestState::Querying { id, route } => RequestModel::Querying {
                id: id@,
                route: optional_route(route),
            },
            RequestState::Releasing { id, route, current, remaining, released } =>
                RequestModel::Releasing {
                id: id@,
                route: optional_route(route),
                current: current@,
                remaining: text_models(remaining@),
                released: released as nat,
            },
            RequestState::Done => RequestModel::Done,
        }
    }
}

impl View for RequestAction {
    type V = ActionModel;

    open spec fn view(&self) -> ActionModel {
        match *self {
            RequestAction::Call { method, params } => ActionModel::Call {
                method: method@,
                params: params@,
            },
            RequestAction::AwaitEvents => ActionModel::AwaitEvents,
            RequestAction::Subscribe { streams } => ActionModel::Subscribe {
                streams: text_models(streams@),
            },
            RequestAction::Cancel { request_id } => ActionModel::Cancel {
                request_id: request_id@,
            },
            RequestAction::OwnedIds { route } => ActionModel::OwnedIds { route: route@ },
            RequestAction::Finish => ActionModel::Finish,
        }
    }
}

impl View for RequestEvent {
    type V = EventModel;

    open spec fn view(&self) -> EventModel {
        match *self {
            RequestEvent::CallReturned(Ok(response)) => EventModel::CallReturned(Ok(response@)),
            RequestEvent::CallReturned(Err(failure)) => EventModel::CallReturned(Err(failure@)),
            RequestEvent::CallTimedOut(failure) => EventModel::CallTimedOut(failure@),
            RequestEvent::Forwarding(Ok(ready)) => EventModel::Forwarding(Ok(ready)),
            RequestEvent::Forwarding(Err(error)) => EventModel::Forwarding(Err(error@)),
            RequestEvent::Returned(result) => EventModel::Returned(result_model(result)),
            RequestEvent::TimedOut => EventModel::TimedOut,
            RequestEvent::Owned(ids) => EventModel::Owned(text_models(ids@)),
        }
    }
}

/// One step of an execution: where it stands then, the commands for the output,
/// and what is needed next.
#[derive(Debug, PartialEq)]
pub struct RequestStep {
    pub state: RequestState,
    pub commands: Vec<OutputCommand>,
    pub action: RequestAction,
}

/// One step of an execution.
#[verifier::ext_equal]
pub struct StepModel {
    pub state: RequestModel,
    pub commands: Seq<CommandModel>,
    pub action: ActionModel,
}

impl View for RequestStep {
    type V = StepModel;

    open spec fn view(&self) -> StepModel {
        StepModel {
            state: self.state@,
            commands: command_models(self.commands@),
            action: self.action@,
        }
    }
}

/// The step that ends an execution by answering its request.
pub open spec fn answered(
    id: Seq<char>,
    result: Result<JsonModel, Seq<char>>,
    cancelled: Option<Seq<char>>,
    route: Option<RouteModel>,
) -> StepModel {
    StepModel {
        state: RequestModel::Done,
        commands: seq![CommandModel::Response { id, result, cancelled, route }],
        action: ActionModel::Finish,
    }
}

/// The step that ends an execution because it took too long. The frontend gets an
/// independent transport error before the answer.
pub open spec fn timed_out(
    id: Seq<char>,
    milliseconds: u64,
    result: Result<JsonModel, Seq<char>>,
    route: Option<RouteModel>,
) -> StepModel {
    StepModel {
        state: RequestModel::Done,
        commands: seq![
            CommandModel::TransportError(timeout_report(milliseconds)),
            CommandModel::Response { id, result, cancelled: None, route },
        ],
        action: ActionModel::Finish,
    }
}

/// The answer to a failed call.
pub open spec fn failure_result(failure: FailureModel) -> Result<JsonModel, Seq<char>> {
    match failure {
        FailureModel::Api(response) => Ok(response),
        FailureModel::Transport(error) => Err(error),
    }
}

/// How many subscriptions a release retired.
pub open spec fn released_model(released: nat) -> JsonModel {
    JsonModel::Object(
        map!["released"@ => JsonModel::Number(JsonNumber::Unsigned(released as u64))],
    )
}

/// The first step of an execution.
pub open spec fn first_step(request: ClientRequest, route: Option<RouteModel>) -> StepModel {
    match request {
        ClientRequest::Call { id, method, params } => StepModel {
            state: RequestModel::Calling { id: id@, route },
            commands: Seq::empty(),
            action: ActionModel::Call { method: method@, params: params@ },
        },
        ClientRequest::Subscribe { id, streams } => StepModel {
            state: RequestModel::AwaitingEvents { id: id@, route, streams: text_models(streams@) },
            commands: Seq::empty(),
            action: ActionModel::AwaitEvents,
        },
        ClientRequest::Cancel { id, request_id } => StepModel {
            state: RequestModel::Cancelling { id: id@, route, request_id: request_id@ },
            commands: Seq::empty(),
            action: ActionModel::Cancel { request_id: request_id@ },
        },
        ClientRequest::Release { id } => match route {
            Some(owner) => StepModel {
                state: RequestModel::Querying { id: id@, route },
                commands: Seq::empty(),
                action: ActionModel::OwnedIds { route: owner },
            },
            None => answered(id@, Err("release requires a consumer route"@), None, route),
        },
        ClientRequest::Shutdown { id } => StepModel {
            state: RequestModel::Done,
            commands: seq![CommandModel::Shutdown(id@)],
            action: ActionModel::Finish,
        },
    }
}

/// The step of a release that turns to the next of its identifiers, or is done.
pub open spec fn release_next(
    id: Seq<char>,
    route: Option<RouteModel>,
    ids: Seq<Seq<char>>,
    released: nat,
    commands: Seq<CommandModel>,
) -> StepModel {
    if ids.len() == 0 {
        StepModel {
            state: RequestModel::Done,
            commands: commands.push(
                CommandModel::Response {
                    id,
                    result: Ok(released_model(released)),
                    cancelled: None,
                    route,
                },
            ),
            action: ActionModel::Finish,
        }
    } else {
        StepModel {
            state: RequestModel::Releasing {
                id,
                route,
                current: ids[0],
                remaining: ids.drop_first(),
                released,
            },
            commands,
            action: ActionModel::Cancel { request_id: ids[0] },
        }
    }
}

/// Whether an event can come of the action that a state waits for.
pub open spec fn expects(state: RequestModel, event: EventModel) -> bool {
    match state {
        RequestModel::Calling { .. } => event is CallReturned || event is CallTimedOut,
        RequestModel::AwaitingEvents { .. } => event is Forwarding || event is TimedOut,
        RequestModel::Subscribing { .. } => event is Returned || event is TimedOut,
        RequestModel::Cancelling { .. } => event is Returned || event is TimedOut,
        RequestModel::Querying { .. } => event is Owned,
        RequestModel::Releasing { .. } => event is Returned || event is TimedOut,
        RequestModel::Done => false,
    }
}

/// The refusal that a release reports.
pub open spec fn rejection(id: Seq<char>) -> Seq<char> {
    "daemon rejected cancellation of "@ + id
}

/// The next step of an execution.
pub open spec fn next_step(state: RequestModel, event: EventModel) -> StepModel {
    match (state, event) {
        (RequestModel::Calling { id, route }, EventModel::CallReturned(Ok(response))) => answered(
            id,
            Ok(response),
            None,
            route,
        ),
        (RequestModel::Calling { id, route }, EventModel::CallReturned(Err(failure))) => answered(
            id,
            failure_result(failure),
            None,
            route,
        ),
        (RequestModel::Calling { id, route }, EventModel::CallTimedOut(failure)) => timed_out(
            id,
            REQUEST_TIMEOUT,
            failure_result(failure),
            route,
        ),
        (
            RequestModel::AwaitingEvents { id, route, streams },
            EventModel::Forwarding(Ok(ready)),
        ) => if ready {
            StepModel {
                state: RequestModel::Subscribing { id, route },
                commands: Seq::empty(),
                action: ActionModel::Subscribe { streams },
            }
        } else {
            StepModel { state, commands: Seq::empty(), action: ActionModel::AwaitEvents }
        },
        (
            RequestModel::AwaitingEvents { id, route, .. },
            EventModel::Forwarding(Err(error)),
        ) => answered(id, Err(error), None, route),
        (RequestModel::AwaitingEvents { id, route, .. }, EventModel::TimedOut) => timed_out(
            id,
            REQUEST_TIMEOUT,
            Err(timeout_report(REQUEST_TIMEOUT)),
            route,
        ),
        (RequestModel::Subscribing { id, route }, EventModel::Returned(result)) => answered(
            id,
            result,
            None,
            route,
        ),
        (RequestModel::Subscribing { id, route }, EventModel::TimedOut) => timed_out(
            id,
            REQUEST_TIMEOUT,
            Err(timeout_report(REQUEST_TIMEOUT)),
            route,
        ),
        (
            RequestModel::Cancelling { id, route, request_id },
            EventModel::Returned(result),
        ) => answered(
            id,
            result,
            match result {
                Ok(response) if accepted(response) => Some(request_id),
                _ => None,
            },
            route,
        ),
        (RequestModel::Cancelling { id, route, request_id }, EventModel::TimedOut) => timed_out(
            id,
            CONTROL_TIMEOUT,
            Err(timeout_report(CONTROL_TIMEOUT)),
            route,
        ),
        (RequestModel::Querying { id, route }, EventModel::Owned(ids)) => release_next(
            id,
            route,
            ids,
            0,
            Seq::empty(),
        ),
        (
            RequestModel::Releasing { id, route, current, remaining, released },
            EventModel::Returned(result),
        ) => match result {
            Ok(response) => if accepted(response) {
                release_next(
                    id,
                    route,
                    remaining,
                    released + 1,
                    seq![CommandModel::Cancelled(current)],
                )
            } else {
                answered(id, Err(rejection(current)), None, route)
            },
            Err(error) => answered(id, Err(error), None, route),
        },
        (
            RequestModel::Releasing { id, route, current, remaining, released },
            EventModel::TimedOut,
        ) => timed_out(id, CONTROL_TIMEOUT, Err(timeout_report(CONTROL_TIMEOUT)), route),
        _ => StepModel { state, commands: Seq::empty(), action: ActionModel::Finish },
    }
}

impl RequestState {
    /// A release has counted no more than fits.
    pub open spec fn wf(&self) -> bool {
        match *self {
            RequestState::Releasing { remaining, released, .. } => released + remaining@.len()
                < usize::MAX,
            _ => true,
        }
    }
}

/// Ends an execution by answering its request.
fn answer(
    id: String,
    result: Result<Json, String>,
    cancelled_request_id: Option<String>,
    route: Option<ClientRoute>,
) -> (step: RequestStep)
    ensures
        step@ == answered(
            id@,
            result_model(result),
            optional_text(cancelled_request_id),
            optional_route(route),
        ),
        step.state is Done,
{
    let mut commands: Vec<OutputCommand> = Vec::new();
    commands.push(response_command(id, result, cancelled_request_id, route));
    let step = RequestStep {
        state: RequestState::Done,
        commands,
        action: RequestAction::Finish,
    };
    assert(step@.commands =~= seq![
        CommandModel::Response {
            id: id@,
            result: result_model(result),
            cancelled: optional_text(cancelled_request_id),
            route: optional_route(route),
        },
    ]);
    step
}

/// Ends an execution because it took too long.
fn answer_timeout(
    id: String,
    milliseconds: u64,
    result: Result<Json, String>,
    route: Option<ClientRoute>,
) -> (step: RequestStep)
    ensures
        step@ == timed_out(id@, milliseconds, result_model(result), optional_route(route)),
        step.state is Done,
{
    let mut commands: Vec<OutputCommand> = Vec::new();
    commands.push(OutputCommand::TransportError(timeout_message(milliseconds)));
    commands.push(response_command(id, result, None, route));
    let step = RequestStep {
        state: RequestState::Done,
        commands,
        action: RequestAction::Finish,
    };
    assert(step@.commands =~= seq![
        CommandModel::TransportError(timeout_report(milliseconds)),
        CommandModel::Response {
            id: id@,
            result: result_model(result),
            cancelled: None,
            route: optional_route(route),
        },
    ]);
    step
}

/// Turns a release to the next of its identifiers, or ends it.
fn release_step(
    id: String,
    route: Option<ClientRoute>,
    ids: Vec<String>,
    released: usize,
    earlier: Vec<OutputCommand>,
) -> (step: RequestStep)
    requires
        released + ids@.len() <= usize::MAX,
    ensures
        step@ == release_next(
            id@,
            optional_route(route),
            text_models(ids@),
            released as nat,
            command_models(earlier@),
        ),
        step.state.wf(),
{
    let mut commands = earlier;
    if ids.len() == 0 {
        let mut value = no_members();
        put(&mut value, "released", Json::from_unsigned(released as u64));
        let command = response_command(id, Ok(Json::from_members(value)), None, route);
        commands.push(command);
        let step = RequestStep {
            state: RequestState::Done,
            commands,
            action: RequestAction::Finish,
        };
        assert(step@.commands =~= command_models(earlier@).push(command@));
        step
    } else {
        let mut remaining = ids;
        let current = remaining.remove(0);
        let action = RequestAction::Cancel { request_id: current.clone() };
        assert(text_models(remaining@) =~= text_models(ids@).drop_first());
        RequestStep {
            state: RequestState::Releasing { id, route, current, remaining, released },
            commands,
            action,
        }
    }
}

/// How long a request may take, in milliseconds: the wait for events and the
/// subscription together, and all cancellations of a release together.
pub open spec fn limit_of(request: ClientRequest) -> Option<u64> {
    match request {
        ClientRequest::Call { .. } => Some(REQUEST_TIMEOUT),
        ClientRequest::Subscribe { .. } => Some(REQUEST_TIMEOUT),
        ClientRequest::Cancel { .. } => Some(CONTROL_TIMEOUT),
        ClientRequest::Release { .. } => Some(CONTROL_TIMEOUT),
        ClientRequest::Shutdown { .. } => None,
    }
}

/// How long a request may take, in milliseconds, from its first limited action on.
pub fn request_limit(request: &ClientRequest) -> (r: Option<u64>)
    ensures
        r == limit_of(*request),
{
    match request {
        ClientRequest::Call { .. } => Some(REQUEST_TIMEOUT),
        ClientRequest::Subscribe { .. } => Some(REQUEST_TIMEOUT),
        ClientRequest::Cancel { .. } => Some(CONTROL_TIMEOUT),
        ClientRequest::Release { .. } => Some(CONTROL_TIMEOUT),
        ClientRequest::Shutdown { .. } => None,
    }
}

impl RequestAction {
    /// Whether the time of the request runs during the action. A release asks for the
    /// identifiers of its consumer before its time begins.
    pub fn limited(&self) -> (r: bool)
        ensures
            r == self@.limited(),
    {
        match self {
            RequestAction::OwnedIds { .. } => false,
            RequestAction::Finish => false,
            _ => true,
        }
    }
}

impl ActionModel {
    /// Whether an action runs under the limit of its request.
    pub open spec fn limited(self) -> bool {
        !(self is OwnedIds || self is Finish)
    }
}

/// The limit that an execution runs under, in milliseconds.
pub open spec fn limit_in(state: RequestModel) -> Option<u64> {
    match state {
        RequestModel::Calling { .. } => Some(REQUEST_TIMEOUT),
        RequestModel::AwaitingEvents { .. } => Some(REQUEST_TIMEOUT),
        RequestModel::Subscribing { .. } => Some(REQUEST_TIMEOUT),
        RequestModel::Done => None,
        _ => Some(CONTROL_TIMEOUT),
    }
}

/// One limit covers a whole request: every step of its execution runs under the limit
/// of the request, and a report of too much time names it.
pub proof fn one_limit_covers_a_request(
    request: ClientRequest,
    route: Option<RouteModel>,
    state: RequestModel,
    event: EventModel,
)
    requires
        expects(state, event),
    ensures
        first_step(request, route).state is Done || limit_in(first_step(request, route).state)
            == limit_of(request),
        next_step(state, event).state is Done || limit_in(next_step(state, event).state)
            == limit_in(state),
        event is TimedOut || event is CallTimedOut ==> next_step(state, event).commands[0]
            == CommandModel::TransportError(timeout_report(limit_in(state)->0)),
{
}

/// A subscription is sent only once its events are forwarded.
pub proof fn subscriptions_wait_for_events(
    request: ClientRequest,
    route: Option<RouteModel>,
    state: RequestModel,
    event: EventModel,
)
    requires
        expects(state, event),
    ensures
        !(first_step(request, route).action is Subscribe),
        next_step(state, event).action is Subscribe ==> event == EventModel::Forwarding(
            Ok::<bool, Seq<char>>(true),
        ) && state is AwaitingEvents && next_step(state, event).action->streams
            == state->streams,
{
}

/// Starts the execution of a request.
pub fn begin_request(message: ClientMessage) -> (step: RequestStep)
    ensures
        step@ == first_step(message.request, optional_route(message.route)),
        step.state.wf(),
{
    let ClientMessage { request, route } = message;
    let none: Vec<OutputCommand> = Vec::new();
    assert(command_models(none@) =~= Seq::empty());
    match request {
        ClientRequest::Call { id, method, params } => RequestStep {
            state: RequestState::Calling { id, route },
            commands: none,
            action: RequestAction::Call { method, params },
        },
        ClientRequest::Subscribe { id, streams } => RequestStep {
            state: RequestState::AwaitingEvents { id, route, streams },
            commands: none,
            action: RequestAction::AwaitEvents,
        },
        ClientRequest::Cancel { id, request_id } => {
            let action = RequestAction::Cancel { request_id: request_id.clone() };
            RequestStep {
                state: RequestState::Cancelling { id, route, request_id },
                commands: none,
                action,
            }
        },
        ClientRequest::Release { id } => match route {
            Some(owner) => {
                let action = RequestAction::OwnedIds { route: owner.duplicate() };
                RequestStep {
                    state: RequestState::Querying { id, route: Some(owner) },
                    commands: none,
                    action,
                }
            },
            None => answer(
                id,
                Err("release requires a consumer route".to_owned()),
                None,
                None,
            ),
        },
        ClientRequest::Shutdown { id } => {
            let mut commands = none;
            commands.push(OutputCommand::Shutdown(id));
            assert(command_models(commands@) =~= seq![CommandModel::Shutdown(id@)]);
            RequestStep { state: RequestState::Done, commands, action: RequestAction::Finish }
        },
    }
}

/// The answer to a failed call.
fn failed_call(failure: CallFailure) -> (result: Result<Json, String>)
    ensures
        result_model(result) == failure_result(failure@),
{
    match failure {
        CallFailure::Api(response) => Ok(response),
        CallFailure::Transport(error) => Err(error),
    }
}

/// Takes the execution of a request one step further.
pub fn execute_request(state: RequestState, event: RequestEvent) -> (step: RequestStep)
    requires
        state.wf(),
        expects(state@, event@),
    ensures
        step@ == next_step(state@, event@),
        step.state.wf(),
{
    match (state, event) {
        (RequestState::Calling { id, route }, RequestEvent::CallReturned(result)) => {
            let result = match result {
                Ok(response) => Ok(response),
                Err(failure) => failed_call(failure),
            };
            answer(id, result, None, route)
        },
        (RequestState::Calling { id, route }, RequestEvent::CallTimedOut(failure)) => {
            answer_timeout(id, REQUEST_TIMEOUT, failed_call(failure), route)
        },
        (
            RequestState::AwaitingEvents { id, route, streams },
            RequestEvent::Forwarding(forwarding),
        ) => {
            let none: Vec<OutputCommand> = Vec::new();
            assert(command_models(none@) =~= Seq::empty());
            match forwarding {
                Ok(true) => RequestStep {
                    state: RequestState::Subscribing { id, route },
                    commands: none,
                    action: RequestAction::Subscribe { streams },
                },
                Ok(false) => RequestStep {
                    state: RequestState::AwaitingEvents { id, route, streams },
                    commands: none,
                    action: RequestAction::AwaitEvents,
                },
                Err(error) => answer(id, Err(error), None, route),
            }
        },
        (RequestState::AwaitingEvents { id, route, .. }, RequestEvent::TimedOut) => answer_timeout(
            id,
            REQUEST_TIMEOUT,
            Err(timeout_message(REQUEST_TIMEOUT)),
            route,
        ),
        (RequestState::Subscribing { id, route }, RequestEvent::Returned(result)) => answer(
            id,
            result,
            None,
            route,
        ),
        (RequestState::Subscribing { id, route }, RequestEvent::TimedOut) => answer_timeout(
            id,
            REQUEST_TIMEOUT,
            Err(timeout_message(REQUEST_TIMEOUT)),
            route,
        ),
        (
            RequestState::Cancelling { id, route, request_id },
            RequestEvent::Returned(result),
        ) => {
            let succeeded = match &result {
                Ok(response) => cancellation_succeeded(response),
                Err(_) => false,
            };
            let cancelled = if succeeded {
                Some(request_id)
            } else {
                None
            };
            answer(id, result, cancelled, route)
        },
        (RequestState::Cancelling { id, route, .. }, RequestEvent::TimedOut) => answer_timeout(
            id,
            CONTROL_TIMEOUT,
            Err(timeout_message(CONTROL_TIMEOUT)),
            route,
        ),
        (RequestState::Querying { id, route }, RequestEvent::Owned(ids)) => {
            let none: Vec<OutputCommand> = Vec::new();
            assert(command_models(none@) =~= Seq::empty());
            assert(ids@.len() == ids.len());
            release_step(id, route, ids, 0, none)
        },
        (
            RequestState::Releasing { id, route, current, remaining, released },
            RequestEvent::Returned(result),
        ) => match result {
            Ok(response) => if cancellation_succeeded(&response) {
                let mut commands: Vec<OutputCommand> = Vec::new();
                commands.push(OutputCommand::Cancelled(current));
                assert(command_models(commands@) =~= seq![CommandModel::Cancelled(current@)]);
                release_step(id, route, remaining, released + 1, commands)
            } else {
                let mut error = "daemon rejected cancellation of ".to_owned();
                push_text(&mut error, current.as_str());
                answer(id, Err(error), None, route)
            },
            Err(error) => answer(id, Err(error), None, route),
        },
        (RequestState::Releasing { id, route, .. }, RequestEvent::TimedOut) => answer_timeout(
            id,
            CONTROL_TIMEOUT,
            Err(timeout_message(CONTROL_TIMEOUT)),
            route,
        ),
        (state, _) => {
            let none: Vec<OutputCommand> = Vec::new();
            RequestStep { state, commands: none, action: RequestAction::Finish }
        },
    }
}

/// The commands of a release that waits for replies, as they come in.
pub open spec fn release_commands(
    state: RequestModel,
    replies: Seq<Result<JsonModel, Seq<char>>>,
) -> Seq<CommandModel>
    decreases replies.len(),
{
    if replies.len() == 0 || !(state is Releasing) {
        Seq::empty()
    } else {
        let step = next_step(state, EventModel::Returned(replies[0]));
        step.commands + release_commands(step.state, replies.drop_first())
    }
}

/// The commands of a whole release of the identifiers, for the replies to their
/// cancellations.
pub open spec fn release_run(
    id: Seq<char>,
    route: Option<RouteModel>,
    ids: Seq<Seq<char>>,
    replies: Seq<Result<JsonModel, Seq<char>>>,
) -> Seq<CommandModel> {
    let first = next_step(RequestModel::Querying { id, route }, EventModel::Owned(ids));
    first.commands + release_commands(first.state, replies)
}

/// Whether the first replies all accept.
pub open spec fn all_accepted(replies: Seq<Result<JsonModel, Seq<char>>>, n: int) -> bool {
    forall|i: int|
        0 <= i < n ==> (#[trigger] replies[i] matches Ok(response) && accepted(response))
}

/// The commands that retire identifiers.
pub open spec fn retirements(ids: Seq<Seq<char>>) -> Seq<CommandModel> {
    ids.map_values(|id: Seq<char>| CommandModel::Cancelled(id))
}

proof fn lemma_release_accepted(
    id: Seq<char>,
    route: Option<RouteModel>,
    ids: Seq<Seq<char>>,
    released: nat,
    commands: Seq<CommandModel>,
    replies: Seq<Result<JsonModel, Seq<char>>>,
    n: int,
)
    requires
        0 <= n <= ids.len(),
        n <= replies.len(),
        all_accepted(replies, n),
    ensures
        ({
            let from = release_next(id, route, ids, released, commands);
            let to = release_next(id, route, ids.skip(n), released + n as nat, Seq::empty());
            from.commands + release_commands(from.state, replies) == commands + retirements(
                ids.take(n),
            ) + to.commands + release_commands(to.state, replies.skip(n))
        }),
    decreases n,
{
    let from = release_next(id, route, ids, released, commands);
    if n == 0 {
        assert(ids.skip(0) == ids);
        assert(replies.skip(0) == replies);
        assert(retirements(ids.take(0)) == Seq::<CommandModel>::empty());
        let to = release_next(id, route, ids, released, Seq::empty());
        assert(from.commands == commands + to.commands);
        assert(commands + Seq::<CommandModel>::empty() == commands);
        assert(from.commands + release_commands(from.state, replies) == commands + retirements(
            ids.take(0),
        ) + to.commands + release_commands(to.state, replies.skip(0)));
    } else {
        let cancelled = seq![CommandModel::Cancelled(ids[0])];
        let rest = ids.drop_first();
        let next = release_next(id, route, rest, released + 1, cancelled);
        assert(replies[0] matches Ok(response) && accepted(response));
        assert(next_step(from.state, EventModel::Returned(replies[0])) == next);
        assert(all_accepted(replies.drop_first(), n - 1)) by {
            assert forall|i: int| 0 <= i < n - 1 implies (
            #[trigger] replies.drop_first()[i] matches Ok(response) && accepted(response)) by {
                assert(replies.drop_first()[i] == replies[i + 1]);
            }
        }
        lemma_release_accepted(
            id,
            route,
            rest,
            released + 1,
            cancelled,
            replies.drop_first(),
            n - 1,
        );
        let to = release_next(id, route, ids.skip(n), released + n as nat, Seq::empty());
        assert(rest.skip(n - 1) == ids.skip(n));
        assert(replies.drop_first().skip(n - 1) == replies.skip(n));
        assert(retirements(ids.take(n)) == cancelled + retirements(rest.take(n - 1)));
        let tail = release_commands(to.state, replies.skip(n));
        assert(release_commands(from.state, replies) == next.commands + release_commands(
            next.state,
            replies.drop_first(),
        ));
        assert(from.commands == commands);
        assert(commands + (cancelled + retirements(rest.take(n - 1)) + to.commands + tail)
            == commands + retirements(ids.take(n)) + to.commands + tail);
    }
}

/// A release whose cancellations are all accepted retires every identifier of its
/// consumer, in order, and then answers with their number.
pub proof fn accepted_release_retires_everything(
    id: Seq<char>,
    route: Option<RouteModel>,
    ids: Seq<Seq<char>>,
    replies: Seq<Result<JsonModel, Seq<char>>>,
)
    requires
        replies.len() == ids.len(),
        all_accepted(replies, ids.len() as int),
    ensures
        release_run(id, route, ids, replies) == retirements(ids).push(
            CommandModel::Response {
                id,
                result: Ok(released_model(ids.len())),
                cancelled: None,
                route,
            },
        ),
{
    let n = ids.len() as int;
    lemma_release_accepted(id, route, ids, 0, Seq::empty(), replies, n);
    assert(ids.skip(n) == Seq::<Seq<char>>::empty());
    assert(ids.take(n) == ids);
    let to = release_next(id, route, ids.skip(n), ids.len(), Seq::empty());
    assert(release_commands(to.state, replies.skip(n)) == Seq::<CommandModel>::empty());
    let answer = CommandModel::Response {
        id,
        result: Ok(released_model(ids.len())),
        cancelled: None,
        route,
    };
    assert(to.commands == seq![answer]);
    assert(release_run(id, route, ids, replies) == retirements(ids).push(answer));
}

/// A release whose next cancellation fails or is rejected retires just the
/// identifiers whose cancellations were accepted before, and answers with the
/// error. The others are kept, to be released again.
pub proof fn failed_release_retains_the_rest(
    id: Seq<char>,
    route: Option<RouteModel>,
    ids: Seq<Seq<char>>,
    replies: Seq<Result<JsonModel, Seq<char>>>,
    n: int,
)
    requires
        0 <= n < ids.len(),
        replies.len() == n + 1,
        all_accepted(replies, n),
        !(replies[n] matches Ok(response) && accepted(response)),
    ensures
        release_run(id, route, ids, replies) == retirements(ids.take(n)).push(
            CommandModel::Response {
                id,
                result: match replies[n] {
                    Ok(_) => Err(rejection(ids[n])),
                    Err(error) => Err(error),
                },
                cancelled: None,
                route,
            },
        ),
{
    lemma_release_accepted(id, route, ids, 0, Seq::empty(), replies, n);
    let to = release_next(id, route, ids.skip(n), n as nat, Seq::empty());
    let left = replies.skip(n);
    assert(left[0] == replies[n]);
    assert(ids.skip(n)[0] == ids[n]);
    let last = next_step(to.state, EventModel::Returned(left[0]));
    let answer = CommandModel::Response {
        id,
        result: match replies[n] {
            Ok(_) => Err(rejection(ids[n])),
            Err(error) => Err(error),
        },
        cancelled: None,
        route,
    };
    assert(last.commands == seq![answer]);
    assert(release_commands(last.state, left.drop_first()) == Seq::<CommandModel>::empty());
    assert(release_commands(to.state, left) == seq![answer]);
    assert(release_run(id, route, ids, replies) == retirements(ids.take(n)).push(answer));
}

/// Every execution that ends by a step answers its request exactly once, last, with
/// the route of the request; an execution that goes on answers nothing yet.
pub proof fn requests_are_answered_once(state: RequestModel, event: EventModel)
    requires
        expects(state, event),
    ensures
        ({
            let step = next_step(state, event);
            let answers = step.commands.filter(|command: CommandModel| command is Response);
            if step.state is Done {
                &&& answers.len() == 1
                &&& step.commands.last() == answers[0]
                &&& answers[0]->Response_id == request_of(state).0
                &&& answers[0]->Response_route == request_of(state).1
            } else {
                &&& answers.len() == 0
                &&& request_of(step.state) == request_of(state)
            }
        }),
{
    let step = next_step(state, event);
    let is_answer = |command: CommandModel| command is Response;
    let commands = step.commands;
    reveal(Seq::filter);
    if commands.len() == 0 {
    } else {
        let init = commands.drop_last();
        assert(commands == init.push(commands.last()));
        init.lemma_filter_push(commands.last(), is_answer);
        if init.len() > 0 {
            let inner = init.drop_last();
            assert(init == inner.push(init.last()));
            inner.lemma_filter_push(init.last(), is_answer);
            assert(inner == Seq::<CommandModel>::empty());
            assert(!(init.last() is Response));
        }
        assert(init.filter(is_answer) == Seq::<CommandModel>::empty());
    }
}

/// The identifier and the route of the request that an execution answers.
pub open spec fn request_of(state: RequestModel) -> (Seq<char>, Option<RouteModel>) {
    match state {
        RequestModel::Calling { id, route } => (id, route),
        RequestModel::AwaitingEvents { id, route, .. } => (id, route),
        RequestModel::Subscribing { id, route } => (id, route),
        RequestModel::Cancelling { id, route, .. } => (id, route),
        RequestModel::Querying { id, route } => (id, route),
        RequestModel::Releasing { id, route, .. } => (id, route),
        RequestModel::Done => (Seq::empty(), None),
    }
}

/// A cancellation is retired just when the daemon answered and did not refuse.
pub proof fn cancellations_retire_only_when_accepted(
    id: Seq<char>,
    route: Option<RouteModel>,
    request_id: Seq<char>,
    event: EventModel,
)
    requires
        expects(RequestModel::Cancelling { id, route, request_id }, event),
    ensures
        ({
            let step = next_step(RequestModel::Cancelling { id, route, request_id }, event);
            step.commands.last()->cancelled == if event matches EventModel::Returned(
                Ok(response),
            ) && accepted(response) {
                Some(request_id)
            } else {
                None
            }
        }),
{
}

/// Whether a reply or a failure accepts a cancellation.
pub open spec fn accepts(event: EventModel) -> bool {
    event matches EventModel::Returned(Ok(response)) && accepted(response)
}

/// The output follows a cancellation: an accepted one retires its identifier, and any
/// other leaves everything that is live as it was. The reply is one that names no
/// identifier itself.
pub proof fn output_follows_cancellations<P: CorrelationPolicy>(
    output: OutputModel,
    policy: P,
    id: Seq<char>,
    route: Option<RouteModel>,
    request_id: Seq<char>,
    event: EventModel,
)
    requires
        expects(RequestModel::Cancelling { id, route, request_id }, event),
        event matches EventModel::Returned(Ok(response)) ==> policy.tracked_id(response) is None,
    ensures
        ({
            let step = next_step(RequestModel::Cancelling { id, route, request_id }, event);
            let after = stepped_all(output, policy, step.commands);
            if accepts(event) {
                after == output.cancelled(request_id) && !after.active.contains_key(request_id)
            } else {
                after == output
            }
        }),
{
    let step = next_step(RequestModel::Cancelling { id, route, request_id }, event);
    let commands = step.commands;
    reveal_with_fuel(stepped_all, 3);
    if event is TimedOut {
        assert(commands.drop_last() =~= seq![commands[0]]);
        assert(commands.drop_last().drop_last() =~= Seq::empty());
    } else {
        assert(commands.drop_last() =~= Seq::empty());
    }
}

/// Once the identifiers of a consumer are retired, the consumer owns nothing.
pub proof fn releases_leave_nothing_owned<P: CorrelationPolicy>(
    output: OutputModel,
    policy: P,
    owner: RouteModel,
    ids: Seq<Seq<char>>,
)
    requires
        forall|id: Seq<char>| #[trigger] output.owned(owner).contains(id) ==> ids.contains(id),
    ensures
        stepped_all(output, policy, retirements(ids)).owned(owner) == Set::<Seq<char>>::empty(),
{
    lemma_retired(output, policy, ids);
    let after = stepped_all(output, policy, retirements(ids));
    assert forall|id: Seq<char>| !(#[trigger] after.owned(owner).contains(id)) by {
        if after.owned(owner).contains(id) {
            assert(after.active.contains_key(id));
            assert(output.owned(owner).contains(id));
            let k = choose|k: int| 0 <= k < ids.len() && ids[k] == id;
            assert(ids[k] == id);
        }
    }
    assert(after.owned(owner) =~= Set::<Seq<char>>::empty());
}

proof fn lemma_retired<P: CorrelationPolicy>(
    output: OutputModel,
    policy: P,
    ids: Seq<Seq<char>>,
)
    ensures
        forall|id: Seq<char>| #[trigger]
            stepped_all(output, policy, retirements(ids)).active.contains_key(id)
                ==> output.active.contains_key(id) && stepped_all(
                output,
                policy,
                retirements(ids),
            ).active[id] == output.active[id] && !ids.contains(id),
    decreases ids.len(),
{
    if ids.len() > 0 {
        let front = ids.drop_last();
        lemma_retired(output, policy, front);
        assert(retirements(ids).drop_last() =~= retirements(front));
        let before = stepped_all(output, policy, retirements(front));
        let after = stepped_all(output, policy, retirements(ids));
        assert(after == before.cancelled(ids.last()));
        assert forall|id: Seq<char>| #[trigger] after.active.contains_key(
            id,
        ) implies output.active.contains_key(id) && after.active[id] == output.active[id]
            && !ids.contains(id) by {
            assert(before.active.contains_key(id));
            if ids.contains(id) {
                let k = choose|k: int| 0 <= k < ids.len() && ids[k] == id;
                if k < front.len() {
                    assert(front[k] == id);
                }
            }
        }
    }
}

/// An execution of the same request under another route.
pub open spec fn rerouted(state: RequestModel, route: Option<RouteModel>) -> RequestModel {
    match state {
        RequestModel::Calling { id, .. } => RequestModel::Calling { id, route },
        RequestModel::AwaitingEvents { id, streams, .. } => RequestModel::AwaitingEvents {
            id,
            route,
            streams,
        },
        RequestModel::Subscribing { id, .. } => RequestModel::Subscribing { id, route },
        RequestModel::Cancelling { id, request_id, .. } => RequestModel::Cancelling {
            id,
            route,
            request_id,
        },
        RequestModel::Querying { id, .. } => RequestModel::Querying { id, route },
        RequestModel::Releasing { id, current, remaining, released, .. } =>
            RequestModel::Releasing { id, route, current, remaining, released },
        RequestModel::Done => RequestModel::Done,
    }
}

/// Routes stay in the bridge: what is sent to the daemon for a request does not depend
/// on its route, neither at first nor later. Only the consumer that a release is for is
/// read off its route, inside the bridge.
pub proof fn routes_stay_in_the_bridge(
    request: ClientRequest,
    a: Option<RouteModel>,
    b: Option<RouteModel>,
    state: RequestModel,
    event: EventModel,
)
    requires
        expects(state, event),
    ensures
        request is Release || first_step(request, a).action == first_step(request, b).action,
        expects(rerouted(state, b), event),
        next_step(rerouted(state, b), event).action == next_step(state, event).action,
        next_step(rerouted(state, b), event).state == rerouted(next_step(state, event).state, b),
{
}

/// A request that takes too long is reported to the frontend before it is answered,
/// whatever the answer is.
pub proof fn timeouts_are_reported_first(state: RequestModel, event: EventModel)
    requires
        expects(state, event),
        event is TimedOut || event is CallTimedOut,
    ensures
        next_step(state, event).commands.len() == 2,
        next_step(state, event).commands[0] is TransportError,
        next_step(state, event).commands[1] is Response,
{
}

/// Requests that return or fail in time trigger no transport recovery.
pub proof fn returned_requests_trigger_no_recovery(state: RequestModel, event: EventModel)
    requires
        expects(state, event),
        !(event is TimedOut || event is CallTimedOut),
    ensures
        forall|i: int|
            0 <= i < next_step(state, event).commands.len() ==> !(
            #[trigger] next_step(state, event).commands[i] is TransportError),
{
}

/// Where a session stands. Once it no longer serves, it knows the request for its
/// end, if there was one.
#[derive(Debug, PartialEq)]
pub enum SessionState {
    /// Lines are read and requests started.
    Serving,
    /// Started requests may finish.
    Draining { shutdown: Option<String> },
    /// The time for that is over, and they are aborted.
    Aborting { shutdown: Option<String> },
    /// The daemon is needed for the remaining subscriptions.
    Connecting { shutdown: Option<String> },
    /// The remaining subscriptions are listed.
    Listing { shutdown: Option<String> },
    /// They are cancelled, one by one.
    Cancelling { shutdown: Option<String>, remaining: Vec<String> },
    /// Nothing is left to do.
    Finished,
}

/// What a session needs from outside.
#[derive(Debug, PartialEq)]
pub enum SessionAction {
    ReadLine,
    /// Start a request, and read on.
    Execute(ClientMessage),
    /// Hand a command to the output, and read on.
    Report(OutputCommand),
    Drain,
    AbortCalls,
    Connect,
    ListActive,
    Cancel(String),
    /// Stop the watchers, hand over the last command, and end.
    Finish(Option<OutputCommand>),
}

/// What happened to a session.
#[derive(Debug, PartialEq)]
pub enum SessionEvent {
    /// A line of white space was read.
    Blank,
    /// A line was read and decoded, or could not be.
    Line(Result<ClientMessage, String>),
    EndOfInput,
    /// All started requests have finished.
    Drained,
    /// They did not finish in time.
    DrainTimedOut,
    /// The daemon was reached or not.
    Connected(bool),
    Active(Vec<String>),
    /// The daemon answered a cancellation somehow.
    CancelReturned,
}

impl SessionState {
    /// The request for the end of the session.
    pub open spec fn shutdown_id(&self) -> Option<Seq<char>> {
        match *self {
            SessionState::Serving => None,
            SessionState::Draining { shutdown } => optional_text(shutdown),
            SessionState::Aborting { shutdown } => optional_text(shutdown),
            SessionState::Connecting { shutdown } => optional_text(shutdown),
            SessionState::Listing { shutdown } => optional_text(shutdown),
            SessionState::Cancelling { shutdown, .. } => optional_text(shutdown),
            SessionState::Finished => None,
        }
    }

    /// Whether an event can happen here.
    pub open spec fn expects(&self, event: SessionEvent) -> bool {
        match *self {
            SessionState::Serving => event is Blank || event is Line || event is EndOfInput,
            SessionState::Draining { .. } => event is Drained || event is DrainTimedOut,
            SessionState::Aborting { .. } => event is Drained,
            SessionState::Connecting { .. } => event is Connected,
            SessionState::Listing { .. } => event is Active,
            SessionState::Cancelling { .. } => event is CancelReturned,
            SessionState::Finished => false,
        }
    }
}

/// The end of a session, which is acknowledged if it was asked for.
pub open spec fn ends_session(
    shutdown: Option<Seq<char>>,
    next: (SessionState, SessionAction),
) -> bool {
    &&& next.0 is Finished
    &&& next.1 matches SessionAction::Finish(command)
    &&& match shutdown {
        Some(id) => command matches Some(last) && last@ == CommandModel::Shutdown(id),
        None => command is None,
    }
}

/// The cancellation of the first of the remaining subscriptions, or the end.
pub open spec fn cancels_rest(
    shutdown: Option<Seq<char>>,
    ids: Seq<Seq<char>>,
    next: (SessionState, SessionAction),
) -> bool {
    if ids.len() == 0 {
        ends_session(shutdown, next)
    } else {
        &&& next.0 matches SessionState::Cancelling { shutdown: kept, remaining }
        &&& optional_text(kept) == shutdown
        &&& text_models(remaining@) == ids.drop_first()
        &&& next.1 matches SessionAction::Cancel(id)
        &&& id@ == ids[0]
    }
}

/// Whether a session moves on as it should.
pub open spec fn moves(
    state: SessionState,
    event: SessionEvent,
    next: (SessionState, SessionAction),
) -> bool {
    match (state, event) {
        (SessionState::Serving, SessionEvent::Blank) => next == (
            SessionState::Serving,
            SessionAction::ReadLine,
        ),
        (SessionState::Serving, SessionEvent::Line(Err(error))) => {
            &&& next.0 is Serving
            &&& next.1 matches SessionAction::Report(command)
            &&& command@ == CommandModel::ProtocolError(error@)
        },
        (SessionState::Serving, SessionEvent::Line(Ok(message))) => match refusal(
            message.request,
            optional_route(message.route),
        ) {
            Some(reason) => {
                &&& next.0 is Serving
                &&& next.1 matches SessionAction::Report(command)
                &&& command@ == CommandModel::ProtocolError(reason)
            },
            None => if message.request is Shutdown {
                &&& next.0 matches SessionState::Draining { shutdown }
                &&& optional_text(shutdown) == Some(id_of(message.request))
                &&& next.1 is Drain
            } else {
                next == (SessionState::Serving, SessionAction::Execute(message))
            },
        },
        (SessionState::Serving, SessionEvent::EndOfInput) => next == (
            SessionState::Draining { shutdown: None },
            SessionAction::Drain,
        ),
        (SessionState::Draining { shutdown }, SessionEvent::Drained) => next == (
            SessionState::Connecting { shutdown },
            SessionAction::Connect,
        ),
        (SessionState::Draining { shutdown }, SessionEvent::DrainTimedOut) => next == (
            SessionState::Aborting { shutdown },
            SessionAction::AbortCalls,
        ),
        (SessionState::Aborting { shutdown }, SessionEvent::Drained) => next == (
            SessionState::Connecting { shutdown },
            SessionAction::Connect,
        ),
        (SessionState::Connecting { shutdown }, SessionEvent::Connected(true)) => next == (
            SessionState::Listing { shutdown },
            SessionAction::ListActive,
        ),
        (SessionState::Connecting { shutdown }, SessionEvent::Connected(false)) => ends_session(
            optional_text(shutdown),
            next,
        ),
        (SessionState::Listing { shutdown }, SessionEvent::Active(ids)) => cancels_rest(
            optional_text(shutdown),
            text_models(ids@),
            next,
        ),
        (
            SessionState::Cancelling { shutdown, remaining },
            SessionEvent::CancelReturned,
        ) => cancels_rest(optional_text(shutdown), text_models(remaining@), next),
        _ => next == (state, SessionAction::Finish(None)),
    }
}

/// Ends a session.
fn end_session(shutdown: Option<String>) -> (next: (SessionState, SessionAction))
    ensures
        ends_session(optional_text(shutdown), next),
{
    let command = match shutdown {
        Some(id) => Some(OutputCommand::Shutdown(id)),
        None => None,
    };
    (SessionState::Finished, SessionAction::Finish(command))
}

/// Cancels the first of the remaining subscriptions, or ends a session.
fn cancel_rest(shutdown: Option<String>, ids: Vec<String>) -> (next: (SessionState, SessionAction))
    ensures
        cancels_rest(optional_text(shutdown), text_models(ids@), next),
{
    let mut remaining = ids;
    if remaining.len() == 0 {
        end_session(shutdown)
    } else {
        let id = remaining.remove(0);
        assert(text_models(remaining@) =~= text_models(ids@).drop_first());
        (SessionState::Cancelling { shutdown, remaining }, SessionAction::Cancel(id))
    }
}

/// Takes a session one step further.
pub fn run_jsonl_client(state: SessionState, event: SessionEvent) -> (next: (
    SessionState,
    SessionAction,
))
    requires
        state.expects(event),
    ensures
        moves(state, event, next),
{
    match (state, event) {
        (SessionState::Serving, SessionEvent::Blank) => (
            SessionState::Serving,
            SessionAction::ReadLine,
        ),
        (SessionState::Serving, SessionEvent::Line(decoded)) => match parse_request(decoded) {
            Intake::Execute(message) => (SessionState::Serving, SessionAction::Execute(message)),
            Intake::Shutdown(id) => (
                SessionState::Draining { shutdown: Some(id) },
                SessionAction::Drain,
            ),
            Intake::Report(command) => (SessionState::Serving, SessionAction::Report(command)),
        },
        (SessionState::Serving, SessionEvent::EndOfInput) => (
            SessionState::Draining { shutdown: None },
            SessionAction::Drain,
        ),
        (SessionState::Draining { shutdown }, SessionEvent::Drained) => (
            SessionState::Connecting { shutdown },
            SessionAction::Connect,
        ),
        (SessionState::Draining { shutdown }, SessionEvent::DrainTimedOut) => (
            SessionState::Aborting { shutdown },
            SessionAction::AbortCalls,
        ),
        (SessionState::Aborting { shutdown }, SessionEvent::Drained) => (
            SessionState::Connecting { shutdown },
            SessionAction::Connect,
        ),
        (SessionState::Connecting { shutdown }, SessionEvent::Connected(reached)) => if reached {
            (SessionState::Listing { shutdown }, SessionAction::ListActive)
        } else {
            end_session(shutdown)
        },
        (SessionState::Listing { shutdown }, SessionEvent::Active(ids)) => cancel_rest(
            shutdown,
            ids,
        ),
        (
            SessionState::Cancelling { shutdown, remaining },
            SessionEvent::CancelReturned,
        ) => cancel_rest(shutdown, remaining),
        (state, _) => (state, SessionAction::Finish(None)),
    }
}

/// How far a session is from its end, once it no longer serves.
pub open spec fn steps_left(state: SessionState) -> nat {
    match state {
        SessionState::Serving => 6,
        SessionState::Draining { .. } => 5,
        SessionState::Aborting { .. } => 4,
        SessionState::Connecting { .. } => 3,
        SessionState::Listing { .. } => 2,
        SessionState::Cancelling { .. } => 1,
        SessionState::Finished => 0,
    }
}

/// A session that no longer serves starts no further request. It keeps the request
/// for its end until it acknowledges it, with its last command, and it comes nearer
/// to that end by every step.
pub proof fn shutdown_is_acknowledged_last(
    state: SessionState,
    event: SessionEvent,
    next: (SessionState, SessionAction),
)
    requires
        !(state is Serving),
        state.expects(event),
        moves(state, event, next),
    ensures
        !(next.1 is ReadLine) && !(next.1 is Execute) && !(next.1 is Report),
        next.0 is Finished <==> next.1 is Finish,
        next.0 is Finished ==> ends_session(state.shutdown_id(), next),
        !(next.0 is Finished) ==> next.0.shutdown_id() == state.shutdown_id(),
        steps_left(next.0) < steps_left(state) || (state matches SessionState::Cancelling {
            remaining: before,
            ..
        } && next.0 matches SessionState::Cancelling { remaining: after, .. } && after@.len()
            < before@.len()),
{
    if state is Cancelling && next.0 is Cancelling {
        let before = state->remaining;
        let after = next.0->remaining;
        assert(text_models(after@).len() == after@.len());
        assert(text_models(before@).len() == before@.len());
    }
}

/// Whether a session cancels listed subscriptions as the daemon answers.
pub open spec fn cancels_listed(
    shutdown: Option<String>,
    ids: Vec<String>,
    trace: Seq<(SessionState, SessionAction)>,
) -> bool {
    &&& trace.len() > 0
    &&& moves(SessionState::Listing { shutdown }, SessionEvent::Active(ids), trace[0])
    &&& forall|i: int|
        #![trigger trace[i + 1]]
        0 <= i < trace.len() - 1 ==> moves(
            trace[i].0,
            SessionEvent::CancelReturned,
            trace[i + 1],
        ) && trace[i].0 is Cancelling
}

/// A session that ends cancels every remaining subscription once, in order, whatever the
/// daemon answers, and then ends.
pub proof fn remaining_subscriptions_are_cancelled(
    shutdown: Option<String>,
    ids: Vec<String>,
    trace: Seq<(SessionState, SessionAction)>,
    n: int,
)
    requires
        cancels_listed(shutdown, ids, trace),
        0 <= n < trace.len(),
    ensures
        n <= ids@.len(),
        n < ids@.len() ==> {
            &&& trace[n].1 matches SessionAction::Cancel(id)
            &&& id@ == ids@[n]@
            &&& trace[n].0 matches SessionState::Cancelling { shutdown: kept, remaining }
            &&& optional_text(kept) == optional_text(shutdown)
            &&& text_models(remaining@) == text_models(ids@).skip(n + 1)
        },
        n == ids@.len() ==> ends_session(optional_text(shutdown), trace[n]),
    decreases n,
{
    let all = text_models(ids@);
    assert(all.len() == ids@.len());
    if n == 0 {
        if ids@.len() > 0 {
            assert(all[0] == ids@[0]@);
            assert(all.drop_first() == all.skip(1));
        }
    } else {
        remaining_subscriptions_are_cancelled(shutdown, ids, trace, n - 1);
        assert(trace[n - 1 + 1] == trace[n]);
        assert(moves(trace[n - 1].0, SessionEvent::CancelReturned, trace[n]));
        assert(n - 1 < ids@.len());
        let left = all.skip(n);
        if n < ids@.len() {
            assert(left[0] == all[n]);
            assert(all[n] == ids@[n]@);
            assert(left.drop_first() == all.skip(n + 1));
        } else {
            assert(left.len() == 0);
        }
    }
}

/// How a failed event stream is retried.
pub struct ReconnectState {
    delay: u64,
    last_error: Option<String>,
}

/// The delay that follows a delay.
pub open spec fn longer_delay(delay: int) -> int {
    if 2 * delay > MAX_RECONNECT_DELAY {
        MAX_RECONNECT_DELAY as int
    } else {
        2 * delay
    }
}

/// The report of a failure, unless it repeats the last one.
pub open spec fn fresh_report(last: Option<Seq<char>>, message: Seq<char>) -> Seq<CommandModel> {
    if last == Some(message) {
        Seq::empty()
    } else {
        seq![CommandModel::TransportError(message)]
    }
}

/// Reports a failure, unless it repeats the last one.
pub fn report_transport_error(last_error: &mut Option<String>, message: String) -> (report: Option<
    OutputCommand,
>)
    ensures
        optional_text(*final(last_error)) == Some(message@),
        match report {
            Some(command) => fresh_report(optional_text(*old(last_error)), message@) == seq![
                command@,
            ],
            None => fresh_report(optional_text(*old(last_error)), message@) == Seq::<
                CommandModel,
            >::empty(),
        },
{
    let repeated = match last_error {
        Some(last) => same_text(last.as_str(), message.as_str()),
        None => false,
    };
    if repeated {
        None
    } else {
        let command = OutputCommand::TransportError(message.clone());
        *last_error = Some(message);
        assert(fresh_report(optional_text(*old(last_error)), message@) =~= seq![command@]);
        Some(command)
    }
}

/// The commands for a failure of the event stream.
pub open spec fn failure_commands(last: Option<Seq<char>>, message: Seq<char>) -> Seq<
    CommandModel,
> {
    seq![CommandModel::ResetCorrelation] + fresh_report(last, message)
}

impl ReconnectState {
    /// The delay before the next attempt, in milliseconds.
    pub closed spec fn spec_delay(&self) -> int {
        self.delay as int
    }

    /// The last failure that was reported.
    pub closed spec fn spec_last_error(&self) -> Option<Seq<char>> {
        optional_text(self.last_error)
    }

    /// The delay stays within its bounds.
    pub closed spec fn wf(&self) -> bool {
        INITIAL_RECONNECT_DELAY <= self.delay <= MAX_RECONNECT_DELAY
    }

    /// Nothing has failed yet.
    pub fn new() -> (state: Self)
        ensures
            state.wf(),
            state.spec_delay() == INITIAL_RECONNECT_DELAY,
            state.spec_last_error() == None::<Seq<char>>,
    {
        ReconnectState { delay: INITIAL_RECONNECT_DELAY, last_error: None }
    }

    /// The event stream failed. The result holds the commands for the output, and
    /// the delay before the next attempt in milliseconds.
    pub fn failed(&mut self, message: String) -> (r: (Vec<OutputCommand>, u64))
        requires
            old(self).wf(),
        ensures
            final(self).wf(),
            final(self).spec_delay() == longer_delay(old(self).spec_delay()),
            final(self).spec_last_error() == Some(message@),
            command_models(r.0@) == failure_commands(old(self).spec_last_error(), message@),
            r.1 == old(self).spec_delay(),
    {
        let mut commands: Vec<OutputCommand> = Vec::new();
        commands.push(OutputCommand::ResetCorrelation);
        let report = report_transport_error(&mut self.last_error, message);
        match report {
            Some(command) => {
                commands.push(command);
                assert(command_models(commands@) =~= seq![CommandModel::ResetCorrelation] + seq![
                    command@,
                ]);
            },
            None => {
                assert(command_models(commands@) =~= seq![CommandModel::ResetCorrelation] + Seq::<
                    CommandModel,
                >::empty());
            },
        }
        let wait = self.delay;
        self.delay = if wait > MAX_RECONNECT_DELAY / 2 {
            MAX_RECONNECT_DELAY
        } else {
            wait * 2
        };
        (commands, wait)
    }
}

/// The delay after a number of failures in a row.
pub open spec fn delay_after(failures: nat) -> int
    decreases failures,
{
    if failures == 0 {
        INITIAL_RECONNECT_DELAY as int
    } else {
        longer_delay(delay_after((failures - 1) as nat))
    }
}

/// Delays never shrink, stay within their bounds, and reach the longest one after
/// five failures.
pub proof fn delays_back_off(failures: nat)
    ensures
        INITIAL_RECONNECT_DELAY <= delay_after(failures) <= MAX_RECONNECT_DELAY,
        delay_after(failures) <= delay_after(failures + 1),
        failures >= 5 ==> delay_after(failures) == MAX_RECONNECT_DELAY,
    decreases failures,
{
    reveal_with_fuel(delay_after, 7);
    if failures > 0 {
        delays_back_off((failures - 1) as nat);
    }
}

/// A failure that repeats the last one resets the correlation and reports nothing.
pub proof fn repeated_failures_are_reported_once(message: Seq<char>, again: Seq<char>)
    ensures
        fresh_report(Some(message), again).len() == 0 <==> again == message,
        fresh_report(None, message) == seq![CommandModel::TransportError(message)],
{
}

/// The connection to the daemon, and whether its events are forwarded.
#[derive(Debug)]
pub struct ReconnectingClient<C> {
    current: Option<C>,
    event_ready: bool,
}

/// The connection to the daemon, and whether its events are forwarded.
#[verifier::ext_equal]
pub struct ClientModel<C> {
    pub current: Option<C>,
    pub event_ready: bool,
}

impl<C> ClientModel<C> {
    /// The client once a connection was made.
    pub open spec fn with_connection(self, connection: C) -> Self {
        ClientModel { current: Some(connection), ..self }
    }

    /// The client once its connection is given up, and its events with it.
    pub open spec fn invalidated(self) -> Self {
        ClientModel { current: None, event_ready: false }
    }

    /// The client once event forwarding has begun or ended.
    pub open spec fn with_event_ready(self, ready: bool) -> Self {
        ClientModel { event_ready: ready, ..self }
    }
}

impl<C> View for ReconnectingClient<C> {
    type V = ClientModel<C>;

    closed spec fn view(&self) -> ClientModel<C> {
        ClientModel { current: self.current, event_ready: self.event_ready }
    }
}

impl<C> ReconnectingClient<C> {
    /// There is no connection yet.
    pub fn new() -> (client: Self)
        ensures
            client@ == (ClientModel { current: None::<C>, event_ready: false }),
    {
        ReconnectingClient { current: None, event_ready: false }
    }

    /// The connection, if there is one to be used again.
    pub fn get(&self) -> (r: Option<&C>)
        ensures
            r == match self@.current {
                Some(connection) => Some(&connection),
                None => None,
            },
    {
        match &self.current {
            Some(connection) => Some(connection),
            None => None,
        }
    }

    /// A connection was made.
    pub fn connected(&mut self, connection: C)
        ensures
            final(self)@ == old(self)@.with_connection(connection),
    {
        self.current = Some(connection);
    }

    /// The connection is given up, and its events with it. The result is the
    /// connection.
    pub fn invalidate(&mut self) -> (r: Option<C>)
        ensures
            r == old(self)@.current,
            final(self)@ == old(self)@.invalidated(),
    {
        self.event_ready = false;
        let mut taken: Option<C> = None;
        std::mem::swap(&mut taken, &mut self.current);
        taken
    }

    /// Event forwarding has begun or ended.
    pub fn set_event_ready(&mut self, ready: bool)
        ensures
            final(self)@ == old(self)@.with_event_ready(ready),
    {
        self.event_ready = ready;
    }

    /// Whether a subscription may be sent: its events would be forwarded.
    pub fn forwards_events(&self) -> (r: bool)
        ensures
            r == self@.event_ready,
    {
        self.event_ready
    }
}

/// What follows a watch for the replacement of the daemon.
#[derive(Debug, PartialEq)]
pub enum OwnerWatch {
    /// The connection is dropped, and the commands go to the output.
    Replaced(Vec<OutputCommand>),
    /// The watch failed, and is renewed after a delay in milliseconds.
    Retry(u64),
}

/// The commands that follow the replacement of the daemon.
pub open spec fn replacement_commands(executable: Seq<char>) -> Seq<CommandModel> {
    seq![
        CommandModel::ResetCorrelation,
        CommandModel::TransportError(executable + " D-Bus owner changed"@),
    ]
}

/// Decides on the outcome of a watch for the replacement of the daemon.
pub fn owner_watch(replaced: bool, executable: &str) -> (watch: OwnerWatch)
    ensures
        match watch {
            OwnerWatch::Replaced(commands) => replaced && command_models(commands@)
                == replacement_commands(executable@),
            OwnerWatch::Retry(delay) => !replaced && delay == INITIAL_RECONNECT_DELAY,
        },
{
    if replaced {
        let mut message = executable.to_owned();
        push_text(&mut message, " D-Bus owner changed");
        let mut commands: Vec<OutputCommand> = Vec::new();
        commands.push(OutputCommand::ResetCorrelation);
        commands.push(OutputCommand::TransportError(message));
        assert(command_models(commands@) =~= seq![
            CommandModel::ResetCorrelation,
            CommandModel::TransportError(executable@ + " D-Bus owner changed"@),
        ]);
        OwnerWatch::Replaced(commands)
    } else {
        OwnerWatch::Retry(INITIAL_RECONNECT_DELAY)
    }
}

/// The command for an event that the daemon sent.
pub open spec fn event_command(
    stream: Seq<char>,
    decoded: Option<JsonModel>,
    raw: Seq<char>,
) -> CommandModel {
    CommandModel::Event {
        stream,
        event: match decoded {
            Some(event) => event,
            None => JsonModel::Object(map!["raw"@ => JsonModel::Text(raw)]),
        },
    }
}

/// The command for an event that the daemon sent. One that could not be decoded is
/// passed on as raw text.
pub fn received_event(stream: String, decoded: Option<Json>, raw: &str) -> (command: OutputCommand)
    ensures
        command@ == event_command(
            stream@,
            match decoded {
                Some(event) => Some(event@),
                None => None,
            },
            raw@,
        ),
{
    let event = match decoded {
        Some(event) => event,
        None => {
            let mut members = no_members();
            put(&mut members, "raw", Json::from_text(raw));
            Json::from_members(members)
        },
    };
    OutputCommand::Event { stream, event }
}

/// What the daemon returns for a request is its answer, unchanged: its reply as it is,
/// or its error as it is. A failed call is answered as the domain puts it. The answer
/// goes to the identifier and the address of the request, and is all that is written.
pub proof fn answers_are_what_the_daemon_returned(
    id: Seq<char>,
    route: Option<RouteModel>,
    request_id: Seq<char>,
    streams: Seq<Seq<char>>,
    result: Result<JsonModel, Seq<char>>,
    failure: FailureModel,
    response: JsonModel,
    error: Seq<char>,
)
    ensures
        ({
            let step = next_step(
                RequestModel::Subscribing { id, route },
                EventModel::Returned(result),
            );
            &&& step.state is Done
            &&& step.commands.len() == 1
            &&& step.commands[0] == CommandModel::Response { id, result, cancelled: None, route }
        }),
        ({
            let step = next_step(
                RequestModel::Cancelling { id, route, request_id },
                EventModel::Returned(result),
            );
            &&& step.state is Done
            &&& step.commands.len() == 1
            &&& step.commands[0]->Response_id == id
            &&& step.commands[0]->Response_result == result
            &&& step.commands[0]->Response_route == route
        }),
        ({
            let step = next_step(
                RequestModel::Calling { id, route },
                EventModel::CallReturned(Ok(response)),
            );
            &&& step.state is Done
            &&& step.commands.len() == 1
            &&& step.commands[0] == CommandModel::Response {
                id,
                result: Ok(response),
                cancelled: None,
                route,
            }
        }),
        ({
            let step = next_step(
                RequestModel::Calling { id, route },
                EventModel::CallReturned(Err(failure)),
            );
            &&& step.state is Done
            &&& step.commands.len() == 1
            &&& step.commands[0]->Response_id == id
            &&& step.commands[0]->Response_cancelled is None
            &&& step.commands[0]->Response_route == route
            &&& failure matches FailureModel::Api(reply) ==> step.commands[0]->Response_result
                == Ok::<_, Seq<char>>(reply)
            &&& failure matches FailureModel::Transport(reason) ==> step.commands[0]->Response_result
                == Err::<JsonModel, _>(reason)
        }),
        ({
            let step = next_step(
                RequestModel::AwaitingEvents { id, route, streams },
                EventModel::Forwarding(Err(error)),
            );
            &&& step.state is Done
            &&& step.commands.len() == 1
            &&& step.commands[0] == CommandModel::Response {
                id,
                result: Err(error),
                cancelled: None,
                route,
            }
        }),
{
}

/// A request that took too long is answered with a failure that says so, to its
/// identifier and address, and retires nothing. A call is answered as the domain puts it.
pub proof fn timeouts_are_answered(state: RequestModel, failure: FailureModel)
    requires
        !(state is Done) && !(state is Querying),
    ensures
        ({
            let event = if state is Calling {
                EventModel::CallTimedOut(failure)
            } else {
                EventModel::TimedOut
            };
            let limit = if state is Calling || state is AwaitingEvents || state is Subscribing {
                REQUEST_TIMEOUT
            } else {
                CONTROL_TIMEOUT
            };
            let report = "daemon request timed out after "@ + decimal(limit as nat) + "ms"@;
            let step = next_step(state, event);
            &&& step.state is Done
            &&& step.commands.len() == 2
            &&& step.commands[0] == CommandModel::TransportError(report)
            &&& step.commands[1]->Response_id == request_of(state).0
            &&& step.commands[1]->Response_route == request_of(state).1
            &&& step.commands[1]->Response_cancelled is None
            &&& !(state is Calling) ==> step.commands[1]->Response_result
                == Err::<JsonModel, _>(report)
            &&& state is Calling && failure is Api ==> step.commands[1]->Response_result
                == Ok::<_, Seq<char>>(failure->Api_0)
            &&& state is Calling && failure is Transport ==> step.commands[1]->Response_result
                == Err::<JsonModel, _>(failure->Transport_0)
        }),
{
}

/// A request is sent to the daemon as the client asked for it, and nothing is answered
/// before: a call with its method and parameters, a cancellation with the identifier to
/// cancel, a subscription with its streams. A release asks for what its consumer owns.
/// A shutdown is handed to the output at once.
pub proof fn requests_are_sent_as_asked(request: ClientRequest, route: Option<RouteModel>)
    ensures
        ({
            let step = first_step(request, route);
            &&& request matches ClientRequest::Call { id, method, params } ==> step.action
                == ActionModel::Call { method: method@, params: params@ } && step.state
                == RequestModel::Calling { id: id@, route } && step.commands.len() == 0
            &&& request matches ClientRequest::Cancel { id, request_id } ==> step.action
                == ActionModel::Cancel { request_id: request_id@ } && step.state
                == RequestModel::Cancelling { id: id@, route, request_id: request_id@ }
                && step.commands.len() == 0
            &&& request matches ClientRequest::Subscribe { id, streams } ==> step.commands.len()
                == 0 && {
                let ready = next_step(step.state, EventModel::Forwarding(Ok(true)));
                let waiting = next_step(step.state, EventModel::Forwarding(Ok(false)));
                &&& step.action == ActionModel::AwaitEvents
                &&& waiting == step
                &&& ready.action == ActionModel::Subscribe { streams: text_models(streams@) }
                &&& ready.state == RequestModel::Subscribing { id: id@, route }
                &&& ready.commands.len() == 0
            }
            &&& request matches ClientRequest::Release { id } ==> match route {
                Some(owner) => step.action == ActionModel::OwnedIds { route: owner } && step.state
                    == RequestModel::Querying { id: id@, route } && step.commands.len() == 0,
                None => step.state is Done && step.commands.len() == 1 && step.commands[0] == (
                CommandModel::Response {
                    id: id@,
                    result: Err("release requires a consumer route"@),
                    cancelled: None,
                    route,
                }),
            }
            &&& request matches ClientRequest::Shutdown { id } ==> step.state is Done
                && step.commands.len() == 1 && step.commands[0] == CommandModel::Shutdown(id@)
        }),
{
    let step = first_step(request, route);
    if request is Subscribe {
        assert(next_step(step.state, EventModel::Forwarding(Ok(false))).commands =~= step.commands);
    }
}

/// A release cancels what its consumer owns, one after another. Each one that the daemon
/// accepted is retired before the next is cancelled, and what is left stays the same.
pub proof fn releases_cancel_one_after_another(
    id: Seq<char>,
    route: Option<RouteModel>,
    ids: Seq<Seq<char>>,
    current: Seq<char>,
    remaining: Seq<Seq<char>>,
    released: nat,
    response: JsonModel,
    error: Seq<char>,
)
    ensures
        ids.len() > 0 ==> {
            let step = next_step(RequestModel::Querying { id, route }, EventModel::Owned(ids));
            &&& step.action == ActionModel::Cancel { request_id: ids[0] }
            &&& step.commands.len() == 0
            &&& step.state == RequestModel::Releasing {
                id,
                route,
                current: ids[0],
                remaining: ids.skip(1),
                released: 0,
            }
        },
        ids.len() == 0 ==> {
            let step = next_step(RequestModel::Querying { id, route }, EventModel::Owned(ids));
            &&& step.state is Done
            &&& step.commands.len() == 1
            &&& step.commands[0] == CommandModel::Response {
                id,
                result: Ok(released_model(0)),
                cancelled: None,
                route,
            }
        },
        ({
            let state = RequestModel::Releasing { id, route, current, remaining, released };
            let step = next_step(state, EventModel::Returned(Ok(response)));
            if response.field("ok"@) == Some(JsonModel::Bool(false)) {
                &&& step.state is Done
                &&& step.commands.len() == 1
                &&& step.commands[0] == CommandModel::Response {
                    id,
                    result: Err("daemon rejected cancellation of "@ + current),
                    cancelled: None,
                    route,
                }
            } else {
                &&& step.commands[0] == CommandModel::Cancelled(current)
                &&& remaining.len() > 0 ==> step.commands.len() == 1 && step.action
                    == ActionModel::Cancel { request_id: remaining[0] } && step.state
                    == RequestModel::Releasing {
                    id,
                    route,
                    current: remaining[0],
                    remaining: remaining.skip(1),
                    released: released + 1,
                }
                &&& remaining.len() == 0 ==> step.state is Done && step.commands.len() == 2
                    && step.commands[1] == CommandModel::Response {
                    id,
                    result: Ok(released_model(released + 1)),
                    cancelled: None,
                    route,
                }
            }
        }),
        ({
            let state = RequestModel::Releasing { id, route, current, remaining, released };
            let step = next_step(state, EventModel::Returned(Err(error)));
            &&& step.state is Done
            &&& step.commands.len() == 1
            &&& step.commands[0] == CommandModel::Response {
                id,
                result: Err(error),
                cancelled: None,
                route,
            }
        }),
{
    if ids.len() > 0 {
        assert(ids.drop_first() =~= ids.skip(1));
    }
    if remaining.len() > 0 {
        assert(remaining.drop_first() =~= remaining.skip(1));
    }
}

/// The answer to a release tells how many subscriptions it retired.
pub proof fn releases_tell_their_number(released: nat)
    requires
        released <= u64::MAX,
    ensures
        released_model(released) matches JsonModel::Object(members) && members == Map::<
            Seq<char>,
            JsonModel,
        >::empty().insert("released"@, JsonModel::Number(JsonNumber::Unsigned(released as u64))),
{
}

/// A cancellation counts as accepted, unless the daemon said that it was not well.
pub proof fn only_refusals_fail_cancellations(response: JsonModel)
    ensures
        accepted(response) <==> response.field("ok"@) != Some(JsonModel::Bool(false)),
{
}

/// Calls and subscriptions take their slots from the calls, and everything else takes
/// them from the controls. A slot that is taken is one more in use in that lane and
/// leaves the other as it is, and a lane is full when all its slots are in use.
pub proof fn lanes_are_counted_separately(slots: SlotsModel, request: ClientRequest, n: nat)
    ensures
        lane_of(request) is Calls <==> request is Call || request is Subscribe,
        lane_of(request) is Controls <==> request is Cancel || request is Release
            || request is Shutdown,
        slots.used(RequestLane::Calls) == slots.calls,
        slots.used(RequestLane::Controls) == slots.controls,
        slots.with_used(RequestLane::Calls, n) == (SlotsModel { calls: n, ..slots }),
        slots.with_used(RequestLane::Controls, n) == (SlotsModel { controls: n, ..slots }),
        slots.bounded() ==> (slots.full(RequestLane::Calls) <==> slots.calls == slots.max_calls),
        slots.bounded() ==> (slots.full(RequestLane::Controls) <==> slots.controls
            == CONTROL_CAPACITY),
        slots.bounded() <==> slots.calls <= slots.max_calls && slots.controls <= CONTROL_CAPACITY,
{
}

/// A request with a slot is executed as it is. Without one it is not executed, and its
/// own identifier and address get the answer that it was not sent.
pub proof fn overload_is_answered_and_nothing_else(
    message: ClientMessage,
    slot_acquired: bool,
    admission: Admission,
)
    requires
        admits(message, slot_acquired, admission),
    ensures
        slot_acquired <==> admission == Admission::Execute(message),
        !slot_acquired ==> (admission matches Admission::Refuse(command) && command@ is Response
            && command@->Response_route == optional_route(message.route)
            && command@->Response_cancelled is None && command@->Response_result
            == Err::<JsonModel, _>("bridge request capacity exceeded; request was not sent"@)),
        !slot_acquired ==> match message.request {
            ClientRequest::Call { id, .. } => admission->Refuse_0@->Response_id == id@,
            ClientRequest::Subscribe { id, .. } => admission->Refuse_0@->Response_id == id@,
            ClientRequest::Cancel { id, .. } => admission->Refuse_0@->Response_id == id@,
            ClientRequest::Release { id } => admission->Refuse_0@->Response_id == id@,
            ClientRequest::Shutdown { id } => admission->Refuse_0@->Response_id == id@,
        },
{
}

/// While a session serves, a valid request is executed as it is, a line that is not
/// valid is reported with its reason, and a line of white space is skipped; the session
/// serves on. It ends by a shutdown, whose identifier it keeps, or with its input.
pub proof fn sessions_serve_every_line(
    event: SessionEvent,
    next: (SessionState, SessionAction),
)
    requires
        SessionState::Serving.expects(event),
        moves(SessionState::Serving, event, next),
    ensures
        event is Blank ==> next.0 is Serving && next.1 is ReadLine,
        event is EndOfInput ==> next.0 is Draining && next.0.shutdown_id() is None && next.1 is Drain,
        event matches SessionEvent::Line(Err(error)) ==> next.0 is Serving && (
        next.1 matches SessionAction::Report(command) && command@ == CommandModel::ProtocolError(
            error@,
        )),
        event matches SessionEvent::Line(Ok(message)) ==> match refusal(
            message.request,
            optional_route(message.route),
        ) {
            Some(reason) => next.0 is Serving && (next.1 matches SessionAction::Report(command)
                && command@ == CommandModel::ProtocolError(reason)),
            None => match message.request {
                ClientRequest::Shutdown { id } => next.0 is Draining && next.0.shutdown_id()
                    == Some(id@) && next.1 is Drain,
                _ => next.0 is Serving && next.1 == SessionAction::Execute(message),
            },
        },
{
}

/// A session that no longer serves first lets its requests finish, aborts those that did
/// not, and then turns to the subscriptions that are left. It ends at once where the
/// daemon cannot be reached.
pub proof fn sessions_end_in_order(
    state: SessionState,
    event: SessionEvent,
    next: (SessionState, SessionAction),
)
    requires
        state.expects(event),
        moves(state, event, next),
    ensures
        state is Draining && event is Drained ==> next.0 is Connecting && next.1 is Connect,
        state is Draining && event is DrainTimedOut ==> next.0 is Aborting && next.1 is AbortCalls,
        state is Aborting ==> next.0 is Connecting && next.1 is Connect,
        state is Connecting && event == SessionEvent::Connected(true) ==> next.0 is Listing
            && next.1 is ListActive,
        state is Connecting && event == SessionEvent::Connected(false) ==> next.0 is Finished,
        next.0 is Finished && state.shutdown_id() is None ==> next.1 == SessionAction::Finish(
            None::<OutputCommand>,
        ),
        next.0 is Finished ==> (state.shutdown_id() matches Some(id) ==> (
        next.1 matches SessionAction::Finish(Some(command)) && command@ == CommandModel::Shutdown(
            id,
        ))),
        !(state is Serving) && !(next.0 is Finished) ==> next.0.shutdown_id()
            == state.shutdown_id(),
        state matches SessionState::Draining { shutdown } ==> state.shutdown_id() == optional_text(
            shutdown,
        ),
{
}

/// Each failure doubles the delay, up to five seconds, from a quarter of a second on.
pub proof fn delays_double(failures: nat)
    ensures
        delay_after(0) == 250,
        2 * delay_after(failures) <= 5_000 ==> delay_after(failures + 1) == 2 * delay_after(
            failures,
        ),
        2 * delay_after(failures) > 5_000 ==> delay_after(failures + 1) == 5_000,
{
}

/// A failure is reported as it is, unless it is the one that was reported last.
pub proof fn failures_are_reported_as_they_are(last: Option<Seq<char>>, message: Seq<char>)
    ensures
        last != Some(message) ==> fresh_report(last, message).len() == 1 && fresh_report(
            last,
            message,
        )[0] == CommandModel::TransportError(message),
        last == Some(message) ==> fresh_report(last, message).len() == 0,
{
}

/// An event of the daemon is passed on under its stream as it is; one that could not be
/// read is passed on as the text that came.
pub proof fn events_are_passed_on(
    stream: Seq<char>,
    decoded: Option<JsonModel>,
    raw: Seq<char>,
)
    ensures
        event_command(stream, decoded, raw) is Event,
        event_command(stream, decoded, raw)->stream == stream,
        decoded matches Some(event) ==> event_command(stream, decoded, raw)->Event_event == event,
        decoded is None ==> event_command(stream, decoded, raw)->Event_event == JsonModel::Object(
            Map::<Seq<char>, JsonModel>::empty().insert("raw"@, JsonModel::Text(raw)),
        ),
{
}

/// The replacement of the daemon makes everything forgotten before it is reported.
pub proof fn replacements_reset_first(executable: Seq<char>)
    ensures
        replacement_commands(executable).len() == 2,
        replacement_commands(executable)[0] is ResetCorrelation,
        replacement_commands(executable)[1] == CommandModel::TransportError(
            executable + " D-Bus owner changed"@,
        ),
{
}

/// As many calls run at once as are allowed, but always one; the number of controls is
/// fixed.
pub proof fn lanes_have_their_capacity(max_in_flight_requests: usize)
    ensures
        max_in_flight_requests > 0 ==> capacity_of(RequestLane::Calls, max_in_flight_requests)
            == max_in_flight_requests,
        capacity_of(RequestLane::Calls, 0) == 1,
        capacity_of(RequestLane::Controls, max_in_flight_requests) == 16,
{
}

/// A slot that is given is one more in use in its lane, and is given back when the request
/// has ended. A full lane gives none, and the other lane does not matter.
pub proof fn slots_are_given_back(slots: SlotsModel, lane: RequestLane, other: RequestLane)
    ensures
        slots.full(lane) ==> slots.acquired(lane) == slots,
        !slots.full(lane) ==> slots.acquired(lane).used(lane) == slots.used(lane) + 1,
        !slots.full(lane) ==> slots.acquired(lane).released(lane) == slots,
        slots.used(lane) > 0 ==> slots.released(lane).used(lane) == slots.used(lane) - 1,
        lane != other ==> slots.acquired(lane).used(other) == slots.used(other),
        lane != other ==> slots.released(lane).used(other) == slots.used(other),
        slots.acquired(lane).max_calls == slots.max_calls,
        slots.released(lane).max_calls == slots.max_calls,
{
}

/// A request is known by the identifier that the client gave it, also where it names
/// another one.
pub proof fn requests_are_known_by_their_own_identifier(request: ClientRequest)
    ensures
        request matches ClientRequest::Call { id, .. } ==> id_of(request) == id@,
        request matches ClientRequest::Subscribe { id, .. } ==> id_of(request) == id@,
        request matches ClientRequest::Cancel { id, .. } ==> id_of(request) == id@,
        request matches ClientRequest::Release { id } ==> id_of(request) == id@,
        request matches ClientRequest::Shutdown { id } ==> id_of(request) == id@,
{
}

/// Calls and subscriptions may take half a minute, cancellations and releases five seconds;
/// a shutdown has no limit of its own. A report of too much time names the limit.
pub proof fn requests_are_limited_by_kind(request: ClientRequest, milliseconds: u64)
    ensures
        request is Call || request is Subscribe ==> limit_of(request) == Some(30_000u64),
        request is Cancel || request is Release ==> limit_of(request) == Some(5_000u64),
        request is Shutdown ==> limit_of(request) is None,
        timeout_report(milliseconds) == "daemon request timed out after "@ + decimal(
            milliseconds as nat,
        ) + "ms"@,
{
}

/// A request is over just when there is nothing more to do for it.
pub proof fn finished_requests_do_nothing_more(
    request: ClientRequest,
    route: Option<RouteModel>,
    state: RequestModel,
    event: EventModel,
)
    requires
        expects(state, event),
    ensures
        first_step(request, route).state is Done <==> first_step(request, route).action is Finish,
        next_step(state, event).state is Done <==> next_step(state, event).action is Finish,
        expects(state, event) ==> !(state is Done),
{
}

/// A failure of the event stream makes everything forgotten, each time, before it is
/// reported, unless it was reported last.
pub proof fn failures_reset_first(last: Option<Seq<char>>, message: Seq<char>)
    ensures
        failure_commands(last, message)[0] is ResetCorrelation,
        last == Some(message) ==> failure_commands(last, message).len() == 1,
        last != Some(message) ==> failure_commands(last, message).len() == 2 && failure_commands(
            last,
            message,
        )[1] == CommandModel::TransportError(message),
{
}

/// A connection is used until it is given up, and no event is forwarded from then on until
/// forwarding begins again.
pub proof fn connections_are_used_until_given_up<C>(
    client: ClientModel<C>,
    connection: C,
    ready: bool,
)
    ensures
        client.with_connection(connection).current == Some(connection),
        client.with_connection(connection).event_ready == client.event_ready,
        client.with_event_ready(ready).current == client.current,
        client.with_event_ready(ready).event_ready == ready,
        client.invalidated().current is None,
        !client.invalidated().event_ready,
{
}

/// What the daemon is asked runs under the limit of its request; what the output is asked,
/// and the end, do not.
pub proof fn waits_for_the_daemon_are_limited(action: ActionModel)
    ensures
        action.limited() <==> action is Call || action is AwaitEvents || action is Subscribe
            || action is Cancel,
{
}

/// What is known of what the daemon did is what it did: its replies and errors as they are.
pub proof fn outcomes_are_known_as_given(event: RequestEvent, k: int)
    ensures
        event matches RequestEvent::CallReturned(Ok(response)) ==> event@
            == EventModel::CallReturned(Ok(response@)),
        event matches RequestEvent::CallReturned(Err(CallFailure::Api(response))) ==> event@
            == EventModel::CallReturned(Err(FailureModel::Api(response@))),
        event matches RequestEvent::CallReturned(Err(CallFailure::Transport(error))) ==> event@
            == EventModel::CallReturned(Err(FailureModel::Transport(error@))),
        event matches RequestEvent::CallTimedOut(CallFailure::Api(response)) ==> event@
            == EventModel::CallTimedOut(FailureModel::Api(response@)),
        event matches RequestEvent::CallTimedOut(CallFailure::Transport(error)) ==> event@
            == EventModel::CallTimedOut(FailureModel::Transport(error@)),
        event matches RequestEvent::Forwarding(Ok(ready)) ==> event@ == EventModel::Forwarding(
            Ok(ready),
        ),
        event matches RequestEvent::Forwarding(Err(error)) ==> event@ == EventModel::Forwarding(
            Err(error@),
        ),
        event matches RequestEvent::Returned(Ok(response)) ==> event@ == EventModel::Returned(
            Ok(response@),
        ),
        event matches RequestEvent::Returned(Err(error)) ==> event@ == EventModel::Returned(
            Err(error@),
        ),
        event is TimedOut ==> event@ is TimedOut,
        event matches RequestEvent::Owned(ids) ==> event@ is Owned && event@->Owned_0.len()
            == ids@.len() && (0 <= k < ids@.len() ==> event@->Owned_0[k] == ids@[k]@),
{
}

/// What is known of an action is what is done: a call with its method and parameters, a
/// subscription with its streams, a cancellation with its identifier.
pub proof fn actions_are_known_as_given(action: RequestAction, step: RequestStep, k: int)
    ensures
        action matches RequestAction::Call { method, params } ==> action@ == (ActionModel::Call {
            method: method@,
            params: params@,
        }),
        action is AwaitEvents ==> action@ is AwaitEvents,
        action matches RequestAction::Subscribe { streams } ==> action@ is Subscribe
            && action@->streams.len() == streams@.len() && (0 <= k < streams@.len()
            ==> action@->streams[k] == streams@[k]@),
        action matches RequestAction::Cancel { request_id } ==> action@ == (ActionModel::Cancel {
            request_id: request_id@,
        }),
        action matches RequestAction::OwnedIds { route } ==> action@ == (ActionModel::OwnedIds {
            route: route@,
        }),
        action is Finish ==> action@ is Finish,
        step@.action == step.action@,
        step@.state == step.state@,
        step@.commands.len() == step.commands@.len(),
        0 <= k < step.commands@.len() ==> step@.commands[k] == step.commands@[k]@,
{
}

} // verus!
