//! The messages of the JSON-lines bridge.
use vstd::prelude::*;
use vstd::utf8::encode_utf8;

use crate::json::{lemma_members_model, no_members, put, Json, JsonModel, JsonNumber};

verus! {

/// A request of a bridge client.
#[derive(Debug, PartialEq)]
pub enum ClientRequest {
    Call { id: String, method: String, params: Json },
    Subscribe { id: String, streams: Vec<String> },
    Cancel { id: String, request_id: String },
    /// Release subscriptions belonging to the routed consumer. In-flight
    /// replies retain their route so a detached frontend can cancel late IDs.
    Release { id: String },
    Shutdown { id: String },
}

/// What a route addresses.
#[derive(Debug, Clone, Copy, PartialEq, Eq)]
pub enum RouteKind {
    Call,
    Subscription,
    BaseSubscription,
    Control,
}

impl RouteKind {
    /// The name of a route kind on the wire.
    pub open spec fn spec_name(self) -> Seq<char> {
        match self {
            RouteKind::Call => "call"@,
            RouteKind::Subscription => "subscription"@,
            RouteKind::BaseSubscription => "base-subscription"@,
            RouteKind::Control => "control"@,
        }
    }

    /// The name of a route kind on the wire.
    pub fn name(self) -> (name: &'static str)
        ensures
            name@ == self.spec_name(),
    {
        match self {
            RouteKind::Call => "call",
            RouteKind::Subscription => "subscription",
            RouteKind::BaseSubscription => "base-subscription",
            RouteKind::Control => "control",
        }
    }
}

/// Bridge-local addressing, never forwarded into the domain D-Bus API.
#[derive(Debug, Clone, PartialEq, Eq)]
pub struct ClientRoute {
    pub consumer_id: String,
    pub local_id: String,
    pub generation: u64,
    pub kind: RouteKind,
}

/// What a route says.
#[verifier::ext_equal]
pub struct RouteModel {
    pub consumer_id: Seq<char>,
    pub local_id: Seq<char>,
    pub generation: u64,
    pub kind: RouteKind,
}

impl View for ClientRoute {
    type V = RouteModel;

    open spec fn view(&self) -> RouteModel {
        RouteModel {
            consumer_id: self.consumer_id@,
            local_id: self.local_id@,
            generation: self.generation,
            kind: self.kind,
        }
    }
}

impl RouteModel {
    /// The route on the wire.
    pub open spec fn json(self) -> JsonModel {
        JsonModel::Object(
            map![
                "consumerId"@ => JsonModel::Text(self.consumer_id),
                "localId"@ => JsonModel::Text(self.local_id),
                "generation"@ => JsonModel::Number(JsonNumber::Unsigned(self.generation)),
                "kind"@ => JsonModel::Text(self.kind.spec_name()),
            ],
        )
    }
}

impl ClientRoute {
    /// Another copy of the route.
    pub fn duplicate(&self) -> (route: ClientRoute)
        ensures
            route@ == self@,
    {
        ClientRoute {
            consumer_id: self.consumer_id.clone(),
            local_id: self.local_id.clone(),
            generation: self.generation,
            kind: self.kind,
        }
    }

    /// The route on the wire.
    pub fn to_json(&self) -> (value: Json)
        ensures
            value@ == self@.json(),
    {
        let mut value = no_members();
        put(&mut value, "consumerId", Json::from_text(self.consumer_id.as_str()));
        put(&mut value, "localId", Json::from_text(self.local_id.as_str()));
        put(&mut value, "generation", Json::from_unsigned(self.generation));
        put(&mut value, "kind", Json::from_text(self.kind.name()));
        Json::from_members(value)
    }
}

/// What an optional route says.
pub open spec fn optional_route(route: Option<ClientRoute>) -> Option<RouteModel> {
    match route {
        Some(route) => Some(route@),
        None => None,
    }
}

/// What an optional borrowed route says.
pub open spec fn optional_route_ref(route: Option<&ClientRoute>) -> Option<RouteModel> {
    match route {
        Some(route) => Some(route@),
        None => None,
    }
}

/// A request and its address. Without an address the answers carry none either.
#[derive(Debug, PartialEq)]
pub struct ClientMessage {
    pub request: ClientRequest,
    pub route: Option<ClientRoute>,
}

/// Whether a route of this kind may address this request.
pub open spec fn kind_matches(request: ClientRequest, kind: RouteKind) -> bool {
    match request {
        ClientRequest::Call { .. } => kind == RouteKind::Call,
        ClientRequest::Subscribe { .. } => kind == RouteKind::Subscription || kind
            == RouteKind::BaseSubscription,
        ClientRequest::Cancel { .. } => kind == RouteKind::Control,
        ClientRequest::Release { .. } => kind == RouteKind::Control,
        ClientRequest::Shutdown { .. } => false,
    }
}

/// Whether the identifiers of a route are neither empty nor, in UTF-8, too long.
pub open spec fn identifiers_fit(route: RouteModel) -> bool {
    &&& 1 <= encode_utf8(route.consumer_id).len() <= 256
    &&& 1 <= encode_utf8(route.local_id).len() <= 1024
}

/// Why a message is refused, if it is.
pub open spec fn refusal(request: ClientRequest, route: Option<RouteModel>) -> Option<Seq<char>> {
    match route {
        None => if request is Release {
            Some("release requires a consumer route"@)
        } else {
            None
        },
        Some(route) => if !identifiers_fit(route) {
            Some("invalid bridge route identifier length"@)
        } else if !kind_matches(request, route.kind) {
            Some("bridge route kind does not match request"@)
        } else {
            None
        },
    }
}

impl ClientMessage {
    /// Checks the routing metadata of a message.
    pub fn validate(&self) -> (r: Result<(), &'static str>)
        ensures
            match r {
                Ok(()) => refusal(self.request, optional_route(self.route)) is None,
                Err(reason) => refusal(self.request, optional_route(self.route)) == Some(reason@),
            },
    {
        let route = match &self.route {
            Some(route) => route,
            None => {
                return match self.request {
                    ClientRequest::Release { .. } => Err("release requires a consumer route"),
                    _ => Ok(()),
                };
            },
        };
        let consumer_length = route.consumer_id.as_str().as_bytes().len();
        let local_length = route.local_id.as_str().as_bytes().len();
        if consumer_length == 0 || consumer_length > 256 || local_length == 0 || local_length > 1024
        {
            return Err("invalid bridge route identifier length");
        }
        let valid = match (&self.request, route.kind) {
            (ClientRequest::Call { .. }, RouteKind::Call) => true,
            (ClientRequest::Subscribe { .. }, RouteKind::Subscription) => true,
            (ClientRequest::Subscribe { .. }, RouteKind::BaseSubscription) => true,
            (ClientRequest::Cancel { .. }, RouteKind::Control) => true,
            (ClientRequest::Release { .. }, RouteKind::Control) => true,
            _ => false,
        };
        if valid {
            Ok(())
        } else {
            Err("bridge route kind does not match request")
        }
    }
}

/// Whether a message can carry an address: it is an object, or nothing yet.
pub open spec fn addressable(message: JsonModel) -> bool {
    message is Object || message is Null
}

/// A message with its address.
pub open spec fn addressed(message: JsonModel, route: Option<RouteModel>) -> JsonModel {
    match route {
        None => message,
        Some(route) => match message {
            JsonModel::Object(members) => JsonModel::Object(members.insert("route"@, route.json())),
            _ => JsonModel::Object(map!["route"@ => route.json()]),
        },
    }
}

/// Attaches a route to a message.
pub fn addressed_message(message: Json, route: Option<&ClientRoute>) -> (r: Json)
    requires
        route is Some ==> addressable(message@),
    ensures
        r@ == addressed(message@, optional_route_ref(route)),
{
    match route {
        None => message,
        Some(route) => {
            let mut members = match message {
                Json::Object(members) => {
                    proof {
                        lemma_members_model(members);
                    }
                    members
                },
                _ => no_members(),
            };
            put(&mut members, "route", route.to_json());
            Json::from_members(members)
        },
    }
}

/// A successful response on the wire.
pub open spec fn response_model(id: Seq<char>, response: JsonModel) -> JsonModel {
    JsonModel::Object(
        map![
            "kind"@ => JsonModel::Text("response"@),
            "id"@ => JsonModel::Text(id),
            "ok"@ => JsonModel::Bool(true),
            "response"@ => response,
        ],
    )
}

/// A failed response on the wire.
pub open spec fn response_error_model(id: Seq<char>, error: Seq<char>) -> JsonModel {
    JsonModel::Object(
        map![
            "kind"@ => JsonModel::Text("response"@),
            "id"@ => JsonModel::Text(id),
            "ok"@ => JsonModel::Bool(false),
            "error"@ => JsonModel::Text(error),
        ],
    )
}

/// An event on the wire.
pub open spec fn event_model(stream: Seq<char>, event: JsonModel) -> JsonModel {
    JsonModel::Object(
        map![
            "kind"@ => JsonModel::Text("event"@),
            "stream"@ => JsonModel::Text(stream),
            "event"@ => event,
        ],
    )
}

/// A notification of an error on the wire.
pub open spec fn error_model(kind: Seq<char>, error: Seq<char>) -> JsonModel {
    JsonModel::Object(
        map!["kind"@ => JsonModel::Text(kind), "error"@ => JsonModel::Text(error)],
    )
}

/// The acknowledgement of a shutdown on the wire.
pub open spec fn shutdown_model(id: Seq<char>) -> JsonModel {
    response_model(id, JsonModel::Object(map!["shutdown"@ => JsonModel::Bool(true)]))
}

/// A successful response.
pub fn response_message(id: &str, response: Json) -> (r: Json)
    ensures
        r@ == response_model(id@, response@),
{
    let mut message = no_members();
    put(&mut message, "kind", Json::from_text("response"));
    put(&mut message, "id", Json::from_text(id));
    put(&mut message, "ok", Json::Bool(true));
    put(&mut message, "response", response);
    Json::from_members(message)
}

/// A failed response.
pub fn response_error_message(id: &str, error: &str) -> (r: Json)
    ensures
        r@ == response_error_model(id@, error@),
{
    let mut message = no_members();
    put(&mut message, "kind", Json::from_text("response"));
    put(&mut message, "id", Json::from_text(id));
    put(&mut message, "ok", Json::Bool(false));
    put(&mut message, "error", Json::from_text(error));
    Json::from_members(message)
}

/// An event.
pub fn event_message(stream: &str, event: Json) -> (r: Json)
    ensures
        r@ == event_model(stream@, event@),
{
    let mut message = no_members();
    put(&mut message, "kind", Json::from_text("event"));
    put(&mut message, "stream", Json::from_text(stream));
    put(&mut message, "event", event);
    Json::from_members(message)
}

/// A notification that a line was not understood.
pub fn protocol_error_message(error: &str) -> (r: Json)
    ensures
        r@ == error_model("protocol-error"@, error@),
{
    let mut message = no_members();
    put(&mut message, "kind", Json::from_text("protocol-error"));
    put(&mut message, "error", Json::from_text(error));
    Json::from_members(message)
}

/// A notification that the connection to the daemon failed.
pub fn transport_error_message(error: &str) -> (r: Json)
    ensures
        r@ == error_model("transport-error"@, error@),
{
    let mut message = no_members();
    put(&mut message, "kind", Json::from_text("transport-error"));
    put(&mut message, "error", Json::from_text(error));
    Json::from_members(message)
}

/// The acknowledgement of a shutdown.
pub fn shutdown_message(id: &str) -> (r: Json)
    ensures
        r@ == shutdown_model(id@),
{
    let mut response = no_members();
    put(&mut response, "shutdown", Json::Bool(true));
    response_message(id, Json::from_members(response))
}

/// The names of the members of messages and routes differ from one another.
pub proof fn lemma_member_names()
    ensures
        "kind"@ != "id"@,
        "kind"@ != "ok"@,
        "kind"@ != "response"@,
        "kind"@ != "error"@,
        "kind"@ != "stream"@,
        "kind"@ != "event"@,
        "kind"@ != "route"@,
        "kind"@ != "consumerId"@,
        "kind"@ != "localId"@,
        "kind"@ != "generation"@,
        "id"@ != "ok"@,
        "id"@ != "response"@,
        "id"@ != "error"@,
        "id"@ != "route"@,
        "ok"@ != "response"@,
        "ok"@ != "error"@,
        "ok"@ != "route"@,
        "response"@ != "route"@,
        "error"@ != "route"@,
        "stream"@ != "event"@,
        "stream"@ != "route"@,
        "event"@ != "route"@,
        "consumerId"@ != "localId"@,
        "consumerId"@ != "generation"@,
        "localId"@ != "generation"@,
{
    reveal_strlit("kind");
    reveal_strlit("id");
    reveal_strlit("ok");
    reveal_strlit("response");
    reveal_strlit("error");
    reveal_strlit("stream");
    reveal_strlit("event");
    reveal_strlit("route");
    reveal_strlit("consumerId");
    reveal_strlit("localId");
    reveal_strlit("generation");
    assert("id"@[0] == 'i' && "ok"@[0] == 'o');
    assert("error"@[0] == 'e' && "route"@[0] == 'r' && "event"@[0] == 'e' && "event"@[1] == 'v');
    assert("kind"@.len() == 4 && "id"@.len() == 2 && "ok"@.len() == 2);
    assert("response"@.len() == 8 && "error"@.len() == 5 && "stream"@.len() == 6);
    assert("event"@.len() == 5 && "route"@.len() == 5);
    assert("consumerId"@.len() == 10 && "localId"@.len() == 7 && "generation"@.len() == 10);
    assert("consumerId"@[0] == 'c' && "generation"@[0] == 'g');
}

/// A route goes with the request that it is the kind of route for, and with no other:
/// call routes with calls, both kinds of subscription routes with subscriptions, control
/// routes with cancellations and releases. No route goes with a shutdown.
pub proof fn routes_go_with_their_requests(request: ClientRequest, route: RouteModel)
    requires
        1 <= encode_utf8(route.consumer_id).len() <= 256,
        1 <= encode_utf8(route.local_id).len() <= 1024,
    ensures
        route.kind is Call ==> (refusal(request, Some(route)) is None <==> request is Call),
        route.kind is Subscription ==> (refusal(request, Some(route)) is None
            <==> request is Subscribe),
        route.kind is BaseSubscription ==> (refusal(request, Some(route)) is None
            <==> request is Subscribe),
        route.kind is Control ==> (refusal(request, Some(route)) is None <==> request is Cancel
            || request is Release),
        request is Shutdown ==> refusal(request, Some(route)) is Some,
        refusal(request, Some(route)) matches Some(reason) ==> reason
            == "bridge route kind does not match request"@,
{
}

/// The identifiers of a route are neither empty nor longer than their limits in UTF-8;
/// any other route is refused for that, whatever it is for.
pub proof fn routes_have_bounded_identifiers(request: ClientRequest, route: RouteModel)
    ensures
        ({
            let consumer = encode_utf8(route.consumer_id).len();
            let local = encode_utf8(route.local_id).len();
            (consumer == 0 || consumer > 256 || local == 0 || local > 1024) <==> refusal(
                request,
                Some(route),
            ) == Some("invalid bridge route identifier length"@)
        }),
{
    reveal_strlit("invalid bridge route identifier length");
    reveal_strlit("bridge route kind does not match request");
    assert("invalid bridge route identifier length"@[0] == 'i');
    assert("bridge route kind does not match request"@[0] == 'b');
}

/// A message needs no route, but for a release, which needs to know its consumer.
pub proof fn only_releases_need_a_route(request: ClientRequest)
    ensures
        refusal(request, None) is None <==> !(request is Release),
        request is Release ==> refusal(request, None) == Some("release requires a consumer route"@),
{
}

/// What a request says besides its kind does not matter for its route.
pub proof fn routes_are_judged_by_kind(
    a: ClientRequest,
    b: ClientRequest,
    route: Option<RouteModel>,
)
    requires
        a is Call == b is Call,
        a is Subscribe == b is Subscribe,
        a is Cancel == b is Cancel,
        a is Release == b is Release,
    ensures
        refusal(a, route) == refusal(b, route),
{
}

/// A successful response carries the identifier of its request and what the daemon
/// replied, and says that it succeeded.
pub proof fn responses_carry_their_reply(id: Seq<char>, response: JsonModel)
    ensures
        response_model(id, response) matches JsonModel::Object(members) && {
            &&& members.dom() == set!["kind"@, "id"@, "ok"@, "response"@]
            &&& members["kind"@] == JsonModel::Text("response"@)
            &&& members["id"@] == JsonModel::Text(id)
            &&& members["ok"@] == JsonModel::Bool(true)
            &&& members["response"@] == response
        },
{
    lemma_member_names();
    let members = response_model(id, response)->Object_0;
    assert(members.dom() =~= set!["kind"@, "id"@, "ok"@, "response"@]);
}

/// A failed response carries the identifier of its request and the error, and says that
/// it failed.
pub proof fn failures_carry_their_error(id: Seq<char>, error: Seq<char>)
    ensures
        response_error_model(id, error) matches JsonModel::Object(members) && {
            &&& members.dom() == set!["kind"@, "id"@, "ok"@, "error"@]
            &&& members["kind"@] == JsonModel::Text("response"@)
            &&& members["id"@] == JsonModel::Text(id)
            &&& members["ok"@] == JsonModel::Bool(false)
            &&& members["error"@] == JsonModel::Text(error)
        },
{
    lemma_member_names();
    let members = response_error_model(id, error)->Object_0;
    assert(members.dom() =~= set!["kind"@, "id"@, "ok"@, "error"@]);
}

/// An event carries its stream and what it says, unchanged.
pub proof fn events_carry_their_stream(stream: Seq<char>, event: JsonModel)
    ensures
        event_model(stream, event) matches JsonModel::Object(members) && {
            &&& members.dom() == set!["kind"@, "stream"@, "event"@]
            &&& members["kind"@] == JsonModel::Text("event"@)
            &&& members["stream"@] == JsonModel::Text(stream)
            &&& members["event"@] == event
        },
{
    lemma_member_names();
    let members = event_model(stream, event)->Object_0;
    assert(members.dom() =~= set!["kind"@, "stream"@, "event"@]);
}

/// A notification carries its kind and the error.
pub proof fn notifications_carry_their_error(kind: Seq<char>, error: Seq<char>)
    ensures
        error_model(kind, error) matches JsonModel::Object(members) && {
            &&& members.dom() == set!["kind"@, "error"@]
            &&& members["kind"@] == JsonModel::Text(kind)
            &&& members["error"@] == JsonModel::Text(error)
        },
{
    lemma_member_names();
    let members = error_model(kind, error)->Object_0;
    assert(members.dom() =~= set!["kind"@, "error"@]);
}

/// A shutdown is acknowledged by a successful response to its request.
pub proof fn shutdowns_are_acknowledged(id: Seq<char>)
    ensures
        shutdown_model(id) matches JsonModel::Object(members) && {
            &&& members.dom() == set!["kind"@, "id"@, "ok"@, "response"@]
            &&& members["kind"@] == JsonModel::Text("response"@)
            &&& members["id"@] == JsonModel::Text(id)
            &&& members["ok"@] == JsonModel::Bool(true)
            &&& members["response"@] matches JsonModel::Object(said)
            &&& said == Map::<Seq<char>, JsonModel>::empty().insert(
                "shutdown"@,
                JsonModel::Bool(true),
            )
        },
{
    let said = JsonModel::Object(map!["shutdown"@ => JsonModel::Bool(true)]);
    responses_carry_their_reply(id, said);
}

/// An address is added to a message under a name of its own and changes nothing else in
/// it; a message without an address stays as it is.
pub proof fn addresses_change_nothing_else(
    message: JsonModel,
    route: Option<RouteModel>,
    name: Seq<char>,
)
    requires
        message is Object,
    ensures
        ({
            let before = message->Object_0;
            addressed(message, route) matches JsonModel::Object(after) && {
                &&& name != "route"@ ==> after.contains_key(name) == before.contains_key(name)
                &&& name != "route"@ && before.contains_key(name) ==> after[name] == before[name]
                &&& route matches Some(address) ==> after.contains_key("route"@) && after["route"@]
                    == address.json()
                &&& route is None ==> after == before
            }
        }),
{
}

/// A route on the wire says who is addressed, under which identifier, in which
/// generation, and for what.
pub proof fn routes_are_written_in_full(route: RouteModel)
    ensures
        route.json() matches JsonModel::Object(members) && {
            &&& members.dom() == set!["consumerId"@, "localId"@, "generation"@, "kind"@]
            &&& members["consumerId"@] == JsonModel::Text(route.consumer_id)
            &&& members["localId"@] == JsonModel::Text(route.local_id)
            &&& members["generation"@] == JsonModel::Number(JsonNumber::Unsigned(route.generation))
            &&& members["kind"@] == JsonModel::Text(
                if route.kind is Call {
                    "call"@
                } else if route.kind is Subscription {
                    "subscription"@
                } else if route.kind is BaseSubscription {
                    "base-subscription"@
                } else {
                    "control"@
                },
            )
        },
{
    lemma_member_names();
    let members = route.json()->Object_0;
    assert(members.dom() =~= set!["consumerId"@, "localId"@, "generation"@, "kind"@]);
}

/// Routes that are written alike are the same.
pub proof fn routes_are_told_apart(a: RouteModel, b: RouteModel)
    requires
        a.json() == b.json(),
    ensures
        a == b,
{
    routes_are_written_in_full(a);
    routes_are_written_in_full(b);
    reveal_strlit("call");
    reveal_strlit("subscription");
    reveal_strlit("base-subscription");
    reveal_strlit("control");
    assert("call"@.len() == 4 && "subscription"@.len() == 12);
    assert("base-subscription"@.len() == 17 && "control"@.len() == 7);
}

/// What is known of a route is what it was given with.
pub proof fn routes_are_known_as_given(route: ClientRoute)
    ensures
        route@.consumer_id == route.consumer_id@,
        route@.local_id == route.local_id@,
        route@.generation == route.generation,
        route@.kind == route.kind,
        optional_route(Some(route)) == Some(route@),
        optional_route(None) is None,
        optional_route_ref(Some(&route)) == Some(route@),
        optional_route_ref(None) is None,
{
}

/// An empty message gets its address as its only member.
pub proof fn empty_messages_are_addressed(route: RouteModel)
    ensures
        addressed(JsonModel::Null, Some(route)) == JsonModel::Object(
            Map::<Seq<char>, JsonModel>::empty().insert("route"@, route.json()),
        ),
        addressed(JsonModel::Null, None) == JsonModel::Null,
        addressable(JsonModel::Null),
        addressable(JsonModel::Object(Map::empty())),
{
}

} // verus!
