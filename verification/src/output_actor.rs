//! The state behind the ordered output of the bridge: which identifiers are
//! live, which events wait for their reply, and which late events are dropped.
use std::collections::VecDeque;

use vstd::prelude::*;

use crate::json::{Json, JsonModel};
use crate::jsonl_wire::{
    addressed, addressed_message, error_model, event_message, event_model, optional_route,
    optional_route_ref, protocol_error_message, response_error_message, response_error_model,
    response_message, response_model, shutdown_message, shutdown_model, transport_error_message,
    ClientRoute, RouteModel,
};
use crate::sorted_map::{text_set, texts_ascend, SortedMap};
use crate::text::{optional_text, same_text, text_models, Text};

verus! {

/// What an identifier names.
#[derive(Debug, Clone, Copy, PartialEq, Eq, Structural)]
pub enum TrackedKind {
    Operation,
    Subscription,
}

/// An identifier that a reply brings to life.
#[derive(Debug, PartialEq, Eq)]
pub struct TrackedId {
    pub id: String,
    pub kind: TrackedKind,
}

/// What an optional identifier says.
pub open spec fn optional_tracked(named: Option<TrackedId>) -> Option<(Seq<char>, TrackedKind)> {
    match named {
        Some(named) => Some((named.id@, named.kind)),
        None => None,
    }
}

/// How the messages of a domain are correlated. A policy reads nothing but the
/// message, so that it has one answer for each. The first three methods say what the
/// answers are; they are never run.
pub trait CorrelationPolicy: Send + Sync + 'static {
    /// The identifier that a reply brings to life.
    spec fn tracked_id(&self, response: JsonModel) -> Option<(Text, TrackedKind)>;

    /// The identifier that an event belongs to.
    spec fn owner_id(&self, stream: Text, event: JsonModel) -> Option<Text>;

    /// Whether an event is the last of its identifier.
    spec fn ends(&self, stream: Text, event: JsonModel) -> bool;

    fn response_id(&self, response: &Json) -> (r: Option<TrackedId>)
        ensures
            optional_tracked(r) == self.tracked_id(response@),
    ;

    fn event_id(&self, stream: &str, event: &Json) -> (r: Option<String>)
        ensures
            optional_text(r) == self.owner_id(stream@, event@),
    ;

    fn is_terminal(&self, stream: &str, event: &Json) -> (r: bool)
        ensures
            r == self.ends(stream@, event@),
    ;
}

/// Correlates subscriptions only: a reply names one under
/// `/data/subscription/id`, an event under `subscription_id`.
#[derive(Debug, Clone, Copy, Default)]
pub struct BasicCorrelation;

/// The subscription that a reply names.
pub open spec fn replied_subscription(response: JsonModel) -> Option<Seq<char>> {
    match response.field("data"@) {
        Some(data) => match data.field("subscription"@) {
            Some(subscription) => subscription.field_text("id"@),
            None => None,
        },
        None => None,
    }
}

impl CorrelationPolicy for BasicCorrelation {
    open spec fn tracked_id(&self, response: JsonModel) -> Option<(Seq<char>, TrackedKind)> {
        match replied_subscription(response) {
            Some(id) => Some((id, TrackedKind::Subscription)),
            None => None,
        }
    }

    open spec fn owner_id(&self, stream: Seq<char>, event: JsonModel) -> Option<Seq<char>> {
        event.field_text("subscription_id"@)
    }

    open spec fn ends(&self, stream: Seq<char>, event: JsonModel) -> bool {
        false
    }

    fn response_id(&self, response: &Json) -> (r: Option<TrackedId>) {
        let data = match response.get("data") {
            Some(data) => data,
            None => return None,
        };
        let subscription = match data.get("subscription") {
            Some(subscription) => subscription,
            None => return None,
        };
        match subscription.get_text("id") {
            Some(id) => Some(TrackedId { id: id.to_owned(), kind: TrackedKind::Subscription }),
            None => None,
        }
    }

    fn event_id(&self, stream: &str, event: &Json) -> (r: Option<String>) {
        match event.get_text("subscription_id") {
            Some(id) => Some(id.to_owned()),
            None => None,
        }
    }

    fn is_terminal(&self, stream: &str, event: &Json) -> (r: bool) {
        false
    }
}

/// What is done with an event.
#[derive(Debug, PartialEq, Eq)]
pub enum EventDisposition {
    Emit,
    Buffer(String),
    Drop,
}

/// An event that waits for the reply that names its identifier.
#[derive(Debug, PartialEq)]
pub struct PendingEvent {
    pub id: String,
    pub stream: String,
    pub event: Json,
}

/// What a waiting event says.
#[verifier::ext_equal]
pub struct PendingModel {
    pub id: Seq<char>,
    pub stream: Seq<char>,
    pub event: JsonModel,
}

impl View for PendingEvent {
    type V = PendingModel;

    open spec fn view(&self) -> PendingModel {
        PendingModel { id: self.id@, stream: self.stream@, event: self.event@ }
    }
}

/// What the output knows of its identifiers.
#[verifier::ext_equal]
pub struct OutputModel {
    /// The live identifiers. A subscription keeps the route of its consumer.
    pub active: Map<Seq<char>, Option<RouteModel>>,
    /// Events that wait for their reply, oldest first.
    pub pending: Seq<PendingModel>,
    /// Identifiers whose late events are dropped, oldest first.
    pub suppressed: Seq<Seq<char>>,
    /// How many events may wait, and how many identifiers may be suppressed.
    pub limit: nat,
}

impl OutputModel {
    /// Both queues keep their limit; no identifier is suppressed twice; and an
    /// identifier is at most one of live, suppressed, or waited for.
    pub open spec fn consistent(self) -> bool {
        &&& self.pending.len() <= self.limit
        &&& self.suppressed.len() <= self.limit
        &&& self.suppressed.no_duplicates()
        &&& forall|id: Seq<char>| #[trigger]
            self.active.contains_key(id) ==> !self.suppressed.contains(id)
        &&& forall|i: int|
            0 <= i < self.pending.len() ==> !self.active.contains_key(
                (#[trigger] self.pending[i]).id,
            ) && !self.suppressed.contains(self.pending[i].id)
    }

    /// The waiting events of an identifier.
    pub open spec fn waiting(self, id: Seq<char>) -> Seq<PendingModel> {
        self.pending.filter(|event: PendingModel| event.id == id)
    }

    /// The waiting events of other identifiers.
    pub open spec fn without(self, id: Seq<char>) -> Seq<PendingModel> {
        self.pending.filter(|event: PendingModel| event.id != id)
    }

    /// Suppresses an identifier; the oldest one makes room for it.
    pub open spec fn suppress(self, id: Seq<char>) -> Seq<Seq<char>> {
        if self.limit == 0 || self.suppressed.contains(id) {
            self.suppressed
        } else if self.suppressed.len() >= self.limit {
            self.suppressed.drop_first().push(id)
        } else {
            self.suppressed.push(id)
        }
    }

    /// Retires an identifier.
    pub open spec fn cancelled(self, id: Seq<char>) -> OutputModel {
        OutputModel {
            active: self.active.remove(id),
            pending: self.without(id),
            suppressed: self.suppress(id),
            limit: self.limit,
        }
    }

    /// The route that a reply leaves with its identifier. A repeated response
    /// does not discard an already acknowledged route.
    pub open spec fn kept_route(
        self,
        id: Seq<char>,
        kind: TrackedKind,
        route: Option<RouteModel>,
    ) -> Option<RouteModel> {
        if kind == TrackedKind::Subscription && route is Some {
            route
        } else if self.active.contains_key(id) {
            self.active[id]
        } else {
            None
        }
    }

    /// Brings an identifier to life, unless it is suppressed.
    pub open spec fn activated(
        self,
        named: Option<(Seq<char>, TrackedKind)>,
        route: Option<RouteModel>,
    ) -> OutputModel {
        match named {
            Some((id, kind)) if !self.suppressed.contains(id) => OutputModel {
                active: self.active.insert(id, self.kept_route(id, kind, route)),
                pending: self.without(id),
                ..self
            },
            _ => self,
        }
    }

    /// The events that bringing an identifier to life sets free.
    pub open spec fn set_free(self, named: Option<(Seq<char>, TrackedKind)>) -> Seq<
        PendingModel,
    > {
        match named {
            Some((id, kind)) if !self.suppressed.contains(id) => self.waiting(id),
            _ => Seq::empty(),
        }
    }

    /// Lets an event wait; the oldest one makes room for it.
    pub open spec fn buffered(self, event: PendingModel) -> OutputModel {
        if self.limit == 0 {
            self
        } else if self.pending.len() >= self.limit {
            OutputModel { pending: self.pending.drop_first().push(event), ..self }
        } else {
            OutputModel { pending: self.pending.push(event), ..self }
        }
    }

    /// The route of the consumer whose subscription an event names. Ownership is
    /// independent of how the domain correlates its operations.
    pub open spec fn event_route(self, event: JsonModel) -> Option<RouteModel> {
        match event.field_text("subscription_id"@) {
            Some(id) => if self.active.contains_key(id) {
                self.active[id]
            } else {
                None
            },
            None => None,
        }
    }

    /// The line of an event.
    pub open spec fn event_line(self, stream: Seq<char>, event: JsonModel) -> JsonModel {
        addressed(event_model(stream, event), self.event_route(event))
    }

    /// What is known after an event was emitted: a last event retires its
    /// identifier.
    pub open spec fn after_event<P: CorrelationPolicy>(
        self,
        policy: P,
        stream: Seq<char>,
        event: JsonModel,
    ) -> OutputModel {
        match policy.owner_id(stream, event) {
            Some(id) if policy.ends(stream, event) => self.cancelled(id),
            _ => self,
        }
    }

    /// What is known after a sequence of events was emitted.
    pub open spec fn after_events<P: CorrelationPolicy>(
        self,
        policy: P,
        events: Seq<PendingModel>,
    ) -> OutputModel
        decreases events.len(),
    {
        if events.len() == 0 {
            self
        } else {
            let last = events.last();
            self.after_events(policy, events.drop_last()).after_event(
                policy,
                last.stream,
                last.event,
            )
        }
    }

    /// The lines of a sequence of events.
    pub open spec fn event_lines<P: CorrelationPolicy>(
        self,
        policy: P,
        events: Seq<PendingModel>,
    ) -> Seq<JsonModel>
        decreases events.len(),
    {
        if events.len() == 0 {
            Seq::empty()
        } else {
            let front = events.drop_last();
            let last = events.last();
            self.event_lines(policy, front).push(
                self.after_events(policy, front).event_line(last.stream, last.event),
            )
        }
    }

    /// The identifiers that belong to a consumer in one generation.
    pub open spec fn owned(self, owner: RouteModel) -> Set<Seq<char>> {
        Set::new(
            |id: Seq<char>|
                self.active.contains_key(id) && match self.active[id] {
                    Some(route) => route.consumer_id == owner.consumer_id && route.generation
                        == owner.generation,
                    None => false,
                },
        )
    }

    /// What is known after a connection was lost: nothing.
    pub open spec fn reset(self) -> OutputModel {
        OutputModel {
            active: Map::empty(),
            pending: Seq::empty(),
            suppressed: Seq::empty(),
            limit: self.limit,
        }
    }
}

/// Every element that a filter keeps stood in the sequence and passed.
proof fn lemma_kept<A>(s: Seq<A>, keep: spec_fn(A) -> bool, i: int)
    requires
        0 <= i < s.filter(keep).len(),
    ensures
        keep(s.filter(keep)[i]),
        s.contains(s.filter(keep)[i]),
    decreases s.len(),
{
    s.lemma_filter_pred(keep, i);
    s.lemma_filter_contains_rev(keep, s.filter(keep)[i]);
}

/// Retiring an identifier keeps the state consistent.
pub proof fn lemma_cancelled_consistent(state: OutputModel, id: Seq<char>)
    requires
        state.consistent(),
    ensures
        state.cancelled(id).consistent(),
{
    let after = state.cancelled(id);
    let other = |event: PendingModel| event.id != id;
    state.pending.lemma_filter_len(other);
    let trimmed = if state.suppressed.len() >= state.limit && state.limit > 0 {
        state.suppressed.drop_first()
    } else {
        state.suppressed
    };
    assert forall|x: Seq<char>| trimmed.contains(x) implies state.suppressed.contains(x) by {
        let k = choose|k: int| 0 <= k < trimmed.len() && trimmed[k] == x;
        if trimmed != state.suppressed {
            assert(state.suppressed[k + 1] == x);
        }
    }
    assert forall|x: Seq<char>| after.suppressed.contains(x) implies x == id
        || state.suppressed.contains(x) by {
        let k = choose|k: int| 0 <= k < after.suppressed.len() && after.suppressed[k] == x;
        if after.suppressed != state.suppressed && k < trimmed.len() {
            assert(trimmed[k] == x);
        }
    }
    assert(after.suppressed.no_duplicates()) by {
        if state.limit > 0 && !state.suppressed.contains(id) {
            assert(!trimmed.contains(id));
            assert forall|i: int, j: int|
                0 <= i < after.suppressed.len() && 0 <= j < after.suppressed.len() && i
                    != j implies after.suppressed[i] != after.suppressed[j] by {
                if i < trimmed.len() {
                    assert(trimmed.contains(trimmed[i]));
                }
                if j < trimmed.len() {
                    assert(trimmed.contains(trimmed[j]));
                }
            }
        }
    }
    assert forall|i: int| 0 <= i < after.pending.len() implies !after.active.contains_key(
        (#[trigger] after.pending[i]).id,
    ) && !after.suppressed.contains(after.pending[i].id) by {
        lemma_kept(state.pending, other, i);
        let k = choose|k: int| 0 <= k < state.pending.len() && state.pending[k] == after.pending[i];
        assert(!state.active.contains_key(state.pending[k].id));
    }
}

/// Bringing an identifier to life keeps the state consistent.
pub proof fn lemma_activated_consistent(
    state: OutputModel,
    named: Option<(Seq<char>, TrackedKind)>,
    route: Option<RouteModel>,
)
    requires
        state.consistent(),
    ensures
        state.activated(named, route).consistent(),
{
    if let Some((id, kind)) = named {
        if !state.suppressed.contains(id) {
            let after = state.activated(named, route);
            let other = |event: PendingModel| event.id != id;
            state.pending.lemma_filter_len(other);
            assert forall|i: int| 0 <= i < after.pending.len() implies !after.active.contains_key(
                (#[trigger] after.pending[i]).id,
            ) && !after.suppressed.contains(after.pending[i].id) by {
                lemma_kept(state.pending, other, i);
                let k = choose|k: int|
                    0 <= k < state.pending.len() && state.pending[k] == after.pending[i];
                assert(!state.active.contains_key(state.pending[k].id));
            }
        }
    }
}

/// Letting an event wait keeps the state consistent, where its identifier is
/// neither live nor suppressed.
pub proof fn lemma_buffered_consistent(state: OutputModel, event: PendingModel)
    requires
        state.consistent(),
        !state.active.contains_key(event.id),
        !state.suppressed.contains(event.id),
    ensures
        state.buffered(event).consistent(),
{
    let after = state.buffered(event);
    assert forall|i: int| 0 <= i < after.pending.len() implies !after.active.contains_key(
        (#[trigger] after.pending[i]).id,
    ) && !after.suppressed.contains(after.pending[i].id) by {
        if after.pending[i] != event {
            let k = if state.pending.len() >= state.limit && state.limit > 0 {
                i + 1
            } else {
                i
            };
            assert(after.pending[i] == state.pending[k]);
        }
    }
}

/// Emitting events keeps the state consistent.
pub proof fn lemma_after_events_consistent<P: CorrelationPolicy>(
    state: OutputModel,
    policy: P,
    events: Seq<PendingModel>,
)
    requires
        state.consistent(),
    ensures
        state.after_events(policy, events).consistent(),
    decreases events.len(),
{
    if events.len() > 0 {
        let front = events.drop_last();
        lemma_after_events_consistent(state, policy, front);
        let last = events.last();
        if let Some(id) = policy.owner_id(last.stream, last.event) {
            lemma_cancelled_consistent(state.after_events(policy, front), id);
        }
    }
}

/// What waiting events say.
pub open spec fn pending_models(events: Seq<PendingEvent>) -> Seq<PendingModel> {
    events.map_values(|event: PendingEvent| event@)
}

/// What lines say.
pub open spec fn line_models(lines: Seq<Json>) -> Seq<JsonModel> {
    lines.map_values(|line: Json| line@)
}

/// Parts waiting events into those of an identifier and the others.
fn part_pending(events: VecDeque<PendingEvent>, id: &str) -> (r: (
    VecDeque<PendingEvent>,
    VecDeque<PendingEvent>,
))
    ensures
        pending_models(r.0@) == pending_models(events@).filter(
            |event: PendingModel| event.id == id@,
        ),
        pending_models(r.1@) == pending_models(events@).filter(
            |event: PendingModel| event.id != id@,
        ),
{
    let ghost all = pending_models(events@);
    let ghost same = |event: PendingModel| event.id == id@;
    let ghost other = |event: PendingModel| event.id != id@;
    let mut rest = events;
    let mut matching: VecDeque<PendingEvent> = VecDeque::new();
    let mut retained: VecDeque<PendingEvent> = VecDeque::new();
    let ghost mut done: int = 0;
    proof {
        assert(all.take(0) =~= Seq::empty());
        assert(all.skip(0) =~= all);
        reveal(Seq::filter);
        assert(pending_models(matching@) =~= all.take(0).filter(same));
        assert(pending_models(retained@) =~= all.take(0).filter(other));
    }
    loop
        invariant
            0 <= done <= all.len(),
            all == pending_models(events@),
            pending_models(rest@) == all.skip(done),
            pending_models(matching@) == all.take(done).filter(same),
            pending_models(retained@) == all.take(done).filter(other),
            same == (|event: PendingModel| event.id == id@),
            other == (|event: PendingModel| event.id != id@),
        ensures
            done == all.len(),
        decreases rest@.len(),
    {
        let ghost before = rest@;
        match rest.pop_front() {
            None => {
                assert(all.skip(done).len() == 0);
                break;
            },
            Some(event) => {
                let ghost said = event@;
                proof {
                    assert(pending_models(before)[0] == said);
                    assert(all.skip(done).len() == before.len());
                    assert(all.skip(done)[0] == all[done]);
                    assert(all.take(done + 1) =~= all.take(done).push(said));
                    all.take(done).lemma_filter_push(said, same);
                    all.take(done).lemma_filter_push(said, other);
                    assert(all.skip(done).drop_first() =~= all.skip(done + 1));
                    assert(pending_models(rest@) =~= pending_models(before).drop_first());
                    done = done + 1;
                }
                let ghost matched = matching@;
                let ghost kept = retained@;
                if same_text(event.id.as_str(), id) {
                    matching.push_back(event);
                    assert(pending_models(matching@) =~= pending_models(matched).push(said));
                } else {
                    retained.push_back(event);
                    assert(pending_models(retained@) =~= pending_models(kept).push(said));
                }
            },
        }
    }
    assert(all.take(done) =~= all);
    (matching, retained)
}

/// The state of the ordered output.
pub struct OutputState<P> {
    policy: P,
    // One entry per live operation/subscription; only subscriptions retain a route.
    // Ordinary request addresses live with their task/response, not this map.
    active: SortedMap<Option<ClientRoute>>,
    pending: VecDeque<PendingEvent>,
    suppressed: VecDeque<String>,
    limit: usize,
}

impl<P: CorrelationPolicy> View for OutputState<P> {
    type V = OutputModel;

    closed spec fn view(&self) -> OutputModel {
        OutputModel {
            active: self.active@.map_values(|route: Option<ClientRoute>| optional_route(route)),
            pending: pending_models(self.pending@),
            suppressed: text_models(self.suppressed@),
            limit: self.limit as nat,
        }
    }
}

impl<P: CorrelationPolicy> OutputState<P> {
    /// The policy that correlates messages.
    pub closed spec fn spec_policy(&self) -> P {
        self.policy
    }

    /// Nothing is live, waits or is suppressed.
    pub fn new(policy: P, pending_limit: usize) -> (state: Self)
        ensures
            state@ == (OutputModel {
                active: Map::empty(),
                pending: Seq::empty(),
                suppressed: Seq::empty(),
                limit: pending_limit as nat,
            }),
            state@.consistent(),
            state.spec_policy() == policy,
    {
        let state = OutputState {
            policy,
            active: SortedMap::new(),
            pending: VecDeque::new(),
            suppressed: VecDeque::new(),
            limit: pending_limit,
        };
        assert(state@.active =~= Map::empty());
        assert(state@.pending =~= Seq::empty());
        assert(state@.suppressed =~= Seq::empty());
        state
    }

    /// Whether late events of an identifier are dropped.
    pub fn is_suppressed(&self, id: &str) -> (r: bool)
        ensures
            r == self@.suppressed.contains(id@),
    {
        let mut i: usize = 0;
        while i < self.suppressed.len()
            invariant
                i <= self.suppressed@.len(),
                forall|k: int| 0 <= k < i ==> (#[trigger] self.suppressed@[k])@ != id@,
            decreases self.suppressed@.len() - i,
        {
            if same_text(self.suppressed[i].as_str(), id) {
                assert(self@.suppressed[i as int] == id@);
                return true;
            }
            i += 1;
        }
        proof {
            if self@.suppressed.contains(id@) {
                let k = choose|k: int|
                    0 <= k < self@.suppressed.len() && self@.suppressed[k] == id@;
                assert(self.suppressed@[k]@ == id@);
            }
        }
        false
    }

    /// How many events wait for their reply.
    pub fn pending_len(&self) -> (n: usize)
        ensures
            n == self@.pending.len(),
    {
        self.pending.len()
    }

    /// How many identifiers are suppressed.
    pub fn suppressed_len(&self) -> (n: usize)
        ensures
            n == self@.suppressed.len(),
    {
        self.suppressed.len()
    }

    /// Brings the identifier of a reply to life and hands out the events that
    /// waited for it.
    pub fn activate(&mut self, response: &Json, route: Option<&ClientRoute>) -> (r: VecDeque<
        PendingEvent,
    >)
        requires
            old(self)@.consistent(),
        ensures
            final(self)@ == old(self)@.activated(
                old(self).spec_policy().tracked_id(response@),
                optional_route_ref(route),
            ),
            pending_models(r@) == old(self)@.set_free(
                old(self).spec_policy().tracked_id(response@),
            ),
            final(self)@.consistent(),
            final(self).spec_policy() == old(self).spec_policy(),
    {
        let ghost before = self@;
        let ghost named = self.policy.tracked_id(response@);
        proof {
            lemma_activated_consistent(before, named, optional_route_ref(route));
        }
        let id = match self.policy.response_id(response) {
            Some(named) => named,
            None => {
                let none: VecDeque<PendingEvent> = VecDeque::new();
                assert(pending_models(none@) =~= Seq::empty());
                return none;
            },
        };
        let TrackedId { id, kind } = id;
        if self.is_suppressed(id.as_str()) {
            let none: VecDeque<PendingEvent> = VecDeque::new();
            assert(pending_models(none@) =~= Seq::empty());
            return none;
        }
        let mut events = VecDeque::new();
        std::mem::swap(&mut self.pending, &mut events);
        let (matching, retained) = part_pending(events, id.as_str());
        self.pending = retained;
        let kept: Option<ClientRoute> = match route {
            Some(route) if matches!(kind, TrackedKind::Subscription) => Some(route.duplicate()),
            _ => match self.active.remove(id.as_str()) {
                Some(previous) => previous,
                None => None,
            },
        };
        let _ = self.active.insert(id, kept);
        assert(self@.active =~= before.active.insert(
            id@,
            before.kept_route(id@, kind, optional_route_ref(route)),
        ));
        matching
    }

    /// What is to be done with an event.
    pub fn event_disposition(&self, stream: &str, event: &Json) -> (r: EventDisposition)
        ensures
            match self.spec_policy().owner_id(stream@, event@) {
                None => r is Emit,
                Some(id) => if self@.suppressed.contains(id) {
                    r is Drop
                } else if self@.active.contains_key(id) {
                    r is Emit
                } else {
                    r matches EventDisposition::Buffer(waited) && waited@ == id
                },
            },
    {
        match self.policy.event_id(stream, event) {
            None => EventDisposition::Emit,
            Some(id) => if self.is_suppressed(id.as_str()) {
                EventDisposition::Drop
            } else if self.active.contains_key(id.as_str()) {
                EventDisposition::Emit
            } else {
                EventDisposition::Buffer(id)
            },
        }
    }

    /// Lets an event wait for the reply that names its identifier.
    pub fn buffer(&mut self, id: String, stream: String, event: Json)
        requires
            old(self)@.consistent(),
            !old(self)@.active.contains_key(id@),
            !old(self)@.suppressed.contains(id@),
        ensures
            final(self)@ == old(self)@.buffered(
                PendingModel { id: id@, stream: stream@, event: event@ },
            ),
            final(self)@.consistent(),
            final(self).spec_policy() == old(self).spec_policy(),
    {
        let ghost said = PendingModel { id: id@, stream: stream@, event: event@ };
        proof {
            lemma_buffered_consistent(self@, said);
        }
        if self.limit == 0 {
            return;
        }
        let ghost before = self.pending@;
        if self.pending.len() >= self.limit {
            let _ = self.pending.pop_front();
            assert(pending_models(self.pending@) =~= pending_models(before).drop_first());
        }
        let ghost trimmed = self.pending@;
        self.pending.push_back(PendingEvent { id, stream, event });
        assert(pending_models(self.pending@) =~= pending_models(trimmed).push(said));
    }

    /// Drops late events of an identifier from now on.
    fn suppress(&mut self, id: String)
        ensures
            final(self)@ == (OutputModel {
                suppressed: old(self)@.suppress(id@),
                ..old(self)@
            }),
            final(self).spec_policy() == old(self).spec_policy(),
    {
        if self.limit == 0 || self.is_suppressed(id.as_str()) {
            return;
        }
        let ghost before = self.suppressed@;
        if self.suppressed.len() >= self.limit {
            let _ = self.suppressed.pop_front();
            assert(text_models(self.suppressed@) =~= text_models(before).drop_first());
        }
        let ghost trimmed = self.suppressed@;
        self.suppressed.push_back(id);
        assert(text_models(self.suppressed@) =~= text_models(trimmed).push(id@));
    }

    /// Retires an identifier: it is no longer live, its waiting events are
    /// discarded and its late ones will be.
    pub fn cancelled(&mut self, id: String)
        requires
            old(self)@.consistent(),
        ensures
            final(self)@ == old(self)@.cancelled(id@),
            final(self)@.consistent(),
            final(self).spec_policy() == old(self).spec_policy(),
    {
        let ghost before = self@;
        proof {
            lemma_cancelled_consistent(before, id@);
        }
        let _ = self.active.remove(id.as_str());
        let mut events = VecDeque::new();
        std::mem::swap(&mut self.pending, &mut events);
        let (_, retained) = part_pending(events, id.as_str());
        self.pending = retained;
        assert(self@.active =~= before.active.remove(id@));
        self.suppress(id);
    }

    /// The live identifiers, in order.
    pub fn active_ids(&self) -> (ids: Vec<String>)
        ensures
            text_set(ids@) == self@.active.dom(),
            texts_ascend(ids@),
    {
        let mut ids: Vec<String> = Vec::new();
        let n = self.active.len();
        let mut i: usize = 0;
        while i < n
            invariant
                i <= n,
                n == self.active.in_order().len(),
                ids@.len() == i,
                forall|k: int| 0 <= k < i ==> #[trigger] ids@[k] == self.active.in_order()[k].0,
            decreases n - i,
        {
            ids.push(self.active.key_at(i).clone());
            i += 1;
        }
        proof {
            let order = self.active.in_order();
            assert forall|id: Seq<char>| text_set(ids@).contains(id) == self@.active.contains_key(
                id,
            ) by {
                if text_set(ids@).contains(id) {
                    let k = choose|k: int| 0 <= k < ids@.len() && (#[trigger] ids@[k])@ == id;
                    assert(order[k].0@ == id);
                }
                if self@.active.contains_key(id) {
                    let k = crate::sorted_map::key_index(order, id);
                    assert(ids@[k]@ == id);
                }
            }
            assert(text_set(ids@) =~= self@.active.dom());
        }
        ids
    }

    /// The identifiers that belong to a consumer in one generation, in order.
    pub fn owned_ids(&self, owner: &ClientRoute) -> (ids: Vec<String>)
        ensures
            text_set(ids@) == self@.owned(owner@),
            texts_ascend(ids@),
    {
        let mut ids: Vec<String> = Vec::new();
        let n = self.active.len();
        let ghost order = self.active.in_order();
        let mut i: usize = 0;
        while i < n
            invariant
                i <= n,
                order == self.active.in_order(),
                n == order.len(),
                crate::sorted_map::ascending(order),
                self.active@ == crate::sorted_map::entry_map(order),
                forall|k: int|
                    0 <= k < ids@.len() ==> exists|j: int|
                        0 <= j < i && #[trigger] order[j].0 == #[trigger] ids@[k]
                            && self@.owned(owner@).contains(order[j].0@),
                forall|j: int|
                    0 <= j < i && self@.owned(owner@).contains((#[trigger] order[j]).0@)
                        ==> ids@.contains(order[j].0),
                texts_ascend(ids@),
            decreases n - i,
        {
            let owned = match self.active.value_at(i) {
                Some(route) => same_text(route.consumer_id.as_str(), owner.consumer_id.as_str())
                    && route.generation == owner.generation,
                None => false,
            };
            let ghost before = ids@;
            if owned {
                ids.push(self.active.key_at(i).clone());
                assert(ids@ =~= before.push(order[i as int].0));
                assert(texts_ascend(ids@)) by {
                    assert forall|a: int, b: int| 0 <= a < b < ids@.len() implies
                        crate::text::precedes((#[trigger] ids@[a])@, (#[trigger] ids@[b])@) by {
                        if b == before.len() {
                            let j = choose|j: int|
                                0 <= j < i && #[trigger] order[j].0 == before[a]
                                    && self@.owned(owner@).contains(order[j].0@);
                            assert(crate::text::precedes(order[j].0@, order[i as int].0@));
                        }
                    }
                }
                assert forall|k: int| 0 <= k < ids@.len() implies exists|j: int|
                    0 <= j < i + 1 && #[trigger] order[j].0 == #[trigger] ids@[k]
                        && self@.owned(owner@).contains(order[j].0@) by {
                    if k < before.len() {
                        let j = choose|j: int|
                            0 <= j < i && #[trigger] order[j].0 == before[k]
                                && self@.owned(owner@).contains(order[j].0@);
                        assert(order[j].0 == ids@[k]);
                    } else {
                        assert(order[i as int].0 == ids@[k]);
                    }
                }
                assert(ids@[before.len() as int] == order[i as int].0);
                assert forall|j: int|
                    0 <= j < i + 1 && self@.owned(owner@).contains(
                        (#[trigger] order[j]).0@,
                    ) implies ids@.contains(order[j].0) by {
                    if j < i {
                        let k = choose|k: int| 0 <= k < before.len() && before[k] == order[j].0;
                        assert(ids@[k] == order[j].0);
                    }
                }
            }
            i += 1;
        }
        proof {
            assert forall|id: Seq<char>| text_set(ids@).contains(id) == self@.owned(
                owner@,
            ).contains(id) by {
                if text_set(ids@).contains(id) {
                    let k = choose|k: int| 0 <= k < ids@.len() && (#[trigger] ids@[k])@ == id;
                    let j = choose|j: int|
                        0 <= j < n && #[trigger] order[j].0 == ids@[k]
                            && self@.owned(owner@).contains(order[j].0@);
                    assert(order[j].0@ == id);
                }
                if self@.owned(owner@).contains(id) {
                    let j = crate::sorted_map::key_index(order, id);
                    assert(order[j].0@ == id);
                    assert(ids@.contains(order[j].0));
                }
            }
            assert(text_set(ids@) =~= self@.owned(owner@));
        }
        ids
    }

    /// The line of an event. A last event retires its identifier, after its
    /// route was looked up.
    pub fn event_message(&mut self, stream: &str, event: Json) -> (line: Json)
        requires
            old(self)@.consistent(),
        ensures
            line@ == old(self)@.event_line(stream@, event@),
            final(self)@ == old(self)@.after_event(old(self).spec_policy(), stream@, event@),
            final(self)@.consistent(),
            final(self).spec_policy() == old(self).spec_policy(),
    {
        let ghost said = event@;
        let ended: Option<String> = if self.policy.is_terminal(stream, &event) {
            self.policy.event_id(stream, &event)
        } else {
            None
        };
        let route: Option<&ClientRoute> = match event.get_text("subscription_id") {
            Some(id) => match self.active.get(id) {
                Some(route) => route.as_ref(),
                None => None,
            },
            None => None,
        };
        assert(optional_route_ref(route) == self@.event_route(said));
        let line = addressed_message(event_message(stream, event), route);
        if let Some(id) = ended {
            self.cancelled(id);
        }
        line
    }

    /// Forgets everything about a connection that was lost.
    pub fn reset_correlation(&mut self)
        ensures
            final(self)@ == old(self)@.reset(),
            final(self)@.consistent(),
            final(self).spec_policy() == old(self).spec_policy(),
    {
        self.active = SortedMap::new();
        self.pending.clear();
        self.suppressed.clear();
        assert(self@.active =~= Map::empty());
        assert(self@.pending =~= Seq::empty());
        assert(self@.suppressed =~= Seq::empty());
    }
}

/// What the output is asked to do.
#[derive(Debug, PartialEq)]
pub enum OutputCommand {
    Response {
        id: String,
        result: Result<Json, String>,
        cancelled_request_id: Option<String>,
        route: Option<ClientRoute>,
    },
    ActiveIds { route: Option<ClientRoute> },
    Cancelled(String),
    Event { stream: String, event: Json },
    ProtocolError(String),
    TransportError(String),
    ResetCorrelation,
    Shutdown(String),
}

/// What a command says.
#[verifier::ext_equal]
pub enum CommandModel {
    Response {
        id: Seq<char>,
        result: Result<JsonModel, Seq<char>>,
        cancelled: Option<Seq<char>>,
        route: Option<RouteModel>,
    },
    ActiveIds { route: Option<RouteModel> },
    Cancelled(Seq<char>),
    Event { stream: Seq<char>, event: JsonModel },
    ProtocolError(Seq<char>),
    TransportError(Seq<char>),
    ResetCorrelation,
    Shutdown(Seq<char>),
}

/// What a result says.
pub open spec fn result_model(result: Result<Json, String>) -> Result<JsonModel, Seq<char>> {
    match result {
        Ok(response) => Ok(response@),
        Err(error) => Err(error@),
    }
}

impl View for OutputCommand {
    type V = CommandModel;

    open spec fn view(&self) -> CommandModel {
        match *self {
            OutputCommand::Response { id, result, cancelled_request_id, route } =>
                CommandModel::Response {
                id: id@,
                result: result_model(result),
                cancelled: optional_text(cancelled_request_id),
                route: optional_route(route),
            },
            OutputCommand::ActiveIds { route } => CommandModel::ActiveIds {
                route: optional_route(route),
            },
            OutputCommand::Cancelled(id) => CommandModel::Cancelled(id@),
            OutputCommand::Event { stream, event } => CommandModel::Event {
                stream: stream@,
                event: event@,
            },
            OutputCommand::ProtocolError(error) => CommandModel::ProtocolError(error@),
            OutputCommand::TransportError(error) => CommandModel::TransportError(error@),
            OutputCommand::ResetCorrelation => CommandModel::ResetCorrelation,
            OutputCommand::Shutdown(id) => CommandModel::Shutdown(id@),
        }
    }
}

/// Which queue a command waits in. Responses overtake queued events.
#[derive(Debug, Clone, Copy, PartialEq, Eq)]
pub enum OutputQueue {
    Priority,
    Events,
}

/// The queue of a command: events have one of their own.
pub open spec fn queue_of(command: CommandModel) -> OutputQueue {
    if command is Event {
        OutputQueue::Events
    } else {
        OutputQueue::Priority
    }
}

impl OutputCommand {
    /// The queue of a command: events have one of their own.
    pub fn queue(&self) -> (queue: OutputQueue)
        ensures
            queue == queue_of(self@),
    {
        match self {
            OutputCommand::Event { .. } => OutputQueue::Events,
            _ => OutputQueue::Priority,
        }
    }
}

/// The queue that is served next, by whether each of them holds a command.
pub open spec fn served_next(priority: bool, events: bool) -> Option<OutputQueue> {
    if priority {
        Some(OutputQueue::Priority)
    } else if events {
        Some(OutputQueue::Events)
    } else {
        None
    }
}

/// The queue that is served next. An event waits as long as anything else does.
pub fn next_queue(priority: bool, events: bool) -> (r: Option<OutputQueue>)
    ensures
        r == served_next(priority, events),
{
    if priority {
        Some(OutputQueue::Priority)
    } else if events {
        Some(OutputQueue::Events)
    } else {
        None
    }
}

/// The order in which the commands of both queues are served.
pub open spec fn serving_order(
    priority: Seq<CommandModel>,
    events: Seq<CommandModel>,
) -> Seq<CommandModel>
    decreases priority.len() + events.len(),
{
    match served_next(priority.len() > 0, events.len() > 0) {
        Some(OutputQueue::Priority) => seq![priority[0]] + serving_order(
            priority.drop_first(),
            events,
        ),
        Some(OutputQueue::Events) => seq![events[0]] + serving_order(
            priority,
            events.drop_first(),
        ),
        None => Seq::empty(),
    }
}

/// Responses overtake queued events: all that waits in the other queue is served before
/// the first event, and each queue is served in order.
pub proof fn responses_overtake_events(priority: Seq<CommandModel>, events: Seq<CommandModel>)
    ensures
        serving_order(priority, events) == priority + events,
    decreases priority.len() + events.len(),
{
    if priority.len() > 0 {
        responses_overtake_events(priority.drop_first(), events);
        assert(seq![priority[0]] + (priority.drop_first() + events) =~= priority + events);
    } else if events.len() > 0 {
        responses_overtake_events(priority, events.drop_first());
        assert(seq![events[0]] + (priority + events.drop_first()) =~= priority + events);
    } else {
        assert(priority + events =~= Seq::empty());
    }
}

/// What a command comes to: the lines to write and, for a query, the
/// identifiers to answer with.
#[derive(Debug, PartialEq)]
pub struct OutputEffect {
    pub lines: Vec<Json>,
    pub ids: Option<Vec<String>>,
}

impl OutputModel {
    /// What is known after an acknowledged cancellation, if there was one.
    pub open spec fn after_cancellation(self, cancelled: Option<Seq<char>>) -> OutputModel {
        match cancelled {
            Some(id) => self.cancelled(id),
            None => self,
        }
    }

    /// What is known after a command.
    pub open spec fn stepped<P: CorrelationPolicy>(
        self,
        policy: P,
        command: CommandModel,
    ) -> OutputModel {
        match command {
            CommandModel::Response { id, result, cancelled, route } => {
                let current = self.after_cancellation(cancelled);
                match result {
                    Ok(response) => {
                        let named = policy.tracked_id(response);
                        current.activated(named, route).after_events(
                            policy,
                            current.set_free(named),
                        )
                    },
                    Err(_) => current,
                }
            },
            CommandModel::Cancelled(id) => self.cancelled(id),
            CommandModel::Event { stream, event } => match policy.owner_id(stream, event) {
                None => self.after_event(policy, stream, event),
                Some(id) => if self.suppressed.contains(id) {
                    self
                } else if self.active.contains_key(id) {
                    self.after_event(policy, stream, event)
                } else {
                    self.buffered(PendingModel { id, stream, event })
                },
            },
            CommandModel::ResetCorrelation => self.reset(),
            _ => self,
        }
    }

    /// The lines that a command writes.
    pub open spec fn lines<P: CorrelationPolicy>(
        self,
        policy: P,
        command: CommandModel,
    ) -> Seq<JsonModel> {
        match command {
            CommandModel::Response { id, result, cancelled, route } => {
                let current = self.after_cancellation(cancelled);
                match result {
                    Ok(response) => {
                        let named = policy.tracked_id(response);
                        seq![addressed(response_model(id, response), route)] + current.activated(
                            named,
                            route,
                        ).event_lines(policy, current.set_free(named))
                    },
                    Err(error) => seq![addressed(response_error_model(id, error), route)],
                }
            },
            CommandModel::Event { stream, event } => match policy.owner_id(stream, event) {
                None => seq![self.event_line(stream, event)],
                Some(id) => if !self.suppressed.contains(id) && self.active.contains_key(id) {
                    seq![self.event_line(stream, event)]
                } else {
                    Seq::empty()
                },
            },
            CommandModel::ProtocolError(error) => seq![error_model("protocol-error"@, error)],
            CommandModel::TransportError(error) => seq![error_model("transport-error"@, error)],
            CommandModel::Shutdown(id) => seq![shutdown_model(id)],
            _ => Seq::empty(),
        }
    }

    /// The identifiers that a command asks for.
    pub open spec fn asked(self, command: CommandModel) -> Option<Set<Seq<char>>> {
        match command {
            CommandModel::ActiveIds { route: None } => Some(self.active.dom()),
            CommandModel::ActiveIds { route: Some(route) } => Some(self.owned(route)),
            _ => None,
        }
    }
}

/// The lines of a response: the reply, then the events that it sets free.
pub fn emit_response<P: CorrelationPolicy>(
    state: &mut OutputState<P>,
    id: String,
    result: Result<Json, String>,
    cancelled_request_id: Option<String>,
    route: Option<&ClientRoute>,
) -> (lines: Vec<Json>)
    requires
        old(state)@.consistent(),
    ensures
        ({
            let command = CommandModel::Response {
                id: id@,
                result: result_model(result),
                cancelled: optional_text(cancelled_request_id),
                route: optional_route_ref(route),
            };
            let policy = old(state).spec_policy();
            &&& final(state)@ == old(state)@.stepped(policy, command)
            &&& line_models(lines@) == old(state)@.lines(policy, command)
        }),
        final(state)@.consistent(),
        final(state).spec_policy() == old(state).spec_policy(),
{
    if let Some(cancelled) = cancelled_request_id {
        state.cancelled(cancelled);
    }
    let ghost current = state@;
    let (line, pending) = match result {
        Ok(response) => {
            let pending = state.activate(&response, route);
            (response_message(id.as_str(), response), pending)
        },
        Err(error) => (response_error_message(id.as_str(), error.as_str()), VecDeque::new()),
    };
    let ghost policy = state.spec_policy();
    let ghost start = state@;
    let ghost reply = addressed(line@, optional_route_ref(route));
    let ghost events = pending_models(pending@);
    let mut lines: Vec<Json> = Vec::new();
    lines.push(addressed_message(line, route));
    let mut rest = pending;
    let ghost mut done: int = 0;
    proof {
        assert(events.take(0) =~= Seq::empty());
        assert(events.skip(0) =~= events);
        assert(line_models(lines@) =~= seq![reply] + start.event_lines(policy, events.take(0)));
    }
    loop
        invariant
            0 <= done <= events.len(),
            pending_models(rest@) == events.skip(done),
            state@ == start.after_events(policy, events.take(done)),
            line_models(lines@) == seq![reply] + start.event_lines(policy, events.take(done)),
            state@.consistent(),
            state.spec_policy() == policy,
        ensures
            done == events.len(),
        decreases rest@.len(),
    {
        let ghost before = rest@;
        match rest.pop_front() {
            None => {
                assert(events.skip(done).len() == 0);
                break;
            },
            Some(event) => {
                let ghost said = event@;
                let ghost written = lines@;
                proof {
                    assert(pending_models(before)[0] == said);
                    assert(events.skip(done).len() == before.len());
                    assert(events.skip(done)[0] == events[done]);
                    assert(events.take(done + 1) =~= events.take(done).push(said));
                    assert(events.take(done + 1).drop_last() =~= events.take(done));
                    assert(events.skip(done).drop_first() =~= events.skip(done + 1));
                    assert(pending_models(rest@) =~= pending_models(before).drop_first());
                    done = done + 1;
                }
                let PendingEvent { id: _, stream, event } = event;
                let line = state.event_message(stream.as_str(), event);
                lines.push(line);
                assert(line_models(lines@) =~= line_models(written).push(line@));
                assert(line_models(lines@) =~= seq![reply] + start.event_lines(
                    policy,
                    events.take(done),
                ));
            },
        }
    }
    assert(events.take(done) =~= events);
    lines
}

/// The lines of an event: one, or none where it waits or is dropped.
pub fn emit_event<P: CorrelationPolicy>(
    state: &mut OutputState<P>,
    stream: String,
    event: Json,
) -> (lines: Vec<Json>)
    requires
        old(state)@.consistent(),
    ensures
        ({
            let command = CommandModel::Event { stream: stream@, event: event@ };
            let policy = old(state).spec_policy();
            &&& final(state)@ == old(state)@.stepped(policy, command)
            &&& line_models(lines@) == old(state)@.lines(policy, command)
        }),
        final(state)@.consistent(),
        final(state).spec_policy() == old(state).spec_policy(),
{
    let mut lines: Vec<Json> = Vec::new();
    let ghost command = CommandModel::Event { stream: stream@, event: event@ };
    let ghost expected = state@.lines(state.spec_policy(), command);
    match state.event_disposition(stream.as_str(), &event) {
        EventDisposition::Emit => {
            lines.push(state.event_message(stream.as_str(), event));
        },
        EventDisposition::Buffer(id) => {
            state.buffer(id, stream, event);
        },
        EventDisposition::Drop => {},
    }
    assert(line_models(lines@) =~= expected);
    lines
}

/// Carries out a command.
pub fn emit_command<P: CorrelationPolicy>(
    state: &mut OutputState<P>,
    command: OutputCommand,
) -> (effect: OutputEffect)
    requires
        old(state)@.consistent(),
    ensures
        final(state)@ == old(state)@.stepped(old(state).spec_policy(), command@),
        line_models(effect.lines@) == old(state)@.lines(old(state).spec_policy(), command@),
        match effect.ids {
            Some(ids) => old(state)@.asked(command@) == Some(text_set(ids@)) && texts_ascend(ids@),
            None => old(state)@.asked(command@) is None,
        },
        final(state)@.consistent(),
        final(state).spec_policy() == old(state).spec_policy(),
{
    let mut lines: Vec<Json> = Vec::new();
    let mut ids: Option<Vec<String>> = None;
    let ghost expected = state@.lines(state.spec_policy(), command@);
    match command {
        OutputCommand::Response { id, result, cancelled_request_id, route } => {
            lines = emit_response(state, id, result, cancelled_request_id, route.as_ref());
        },
        OutputCommand::ActiveIds { route } => {
            ids = Some(
                match &route {
                    Some(route) => state.owned_ids(route),
                    None => state.active_ids(),
                },
            );
        },
        OutputCommand::Cancelled(id) => {
            state.cancelled(id);
        },
        OutputCommand::Event { stream, event } => {
            lines = emit_event(state, stream, event);
        },
        OutputCommand::ProtocolError(error) => {
            lines.push(protocol_error_message(error.as_str()));
        },
        OutputCommand::TransportError(error) => {
            lines.push(transport_error_message(error.as_str()));
        },
        OutputCommand::ResetCorrelation => {
            state.reset_correlation();
        },
        OutputCommand::Shutdown(id) => {
            lines.push(shutdown_message(id.as_str()));
        },
    }
    assert(line_models(lines@) =~= expected);
    OutputEffect { lines, ids }
}

/// A message as a line: a line feed ends it.
pub open spec fn framed(message: Seq<u8>) -> Seq<u8> {
    message.push(10)
}

/// Ends a serialized message as a line.
pub fn frame_line(message: Vec<u8>) -> (line: Vec<u8>)
    ensures
        line@ == framed(message@),
{
    let mut line = message;
    line.push(10);
    line
}

/// Every command keeps the state consistent: the queues keep their limit, and an
/// identifier is at most one of live, suppressed, or waited for.
pub proof fn commands_keep_consistency<P: CorrelationPolicy>(
    state: OutputModel,
    policy: P,
    command: CommandModel,
)
    requires
        state.consistent(),
    ensures
        state.stepped(policy, command).consistent(),
        state.stepped(policy, command).limit == state.limit,
{
    match command {
        CommandModel::Response { id, result, cancelled, route } => {
            if let Some(retired) = cancelled {
                lemma_cancelled_consistent(state, retired);
            }
            let current = state.after_cancellation(cancelled);
            if let Ok(response) = result {
                let named = policy.tracked_id(response);
                lemma_activated_consistent(current, named, route);
                let live = current.activated(named, route);
                lemma_after_events_consistent(live, policy, current.set_free(named));
                lemma_after_events_limit(live, policy, current.set_free(named));
            }
        },
        CommandModel::Cancelled(id) => {
            lemma_cancelled_consistent(state, id);
        },
        CommandModel::Event { stream, event } => {
            if let Some(id) = policy.owner_id(stream, event) {
                lemma_cancelled_consistent(state, id);
                if !state.suppressed.contains(id) && !state.active.contains_key(id) {
                    lemma_buffered_consistent(state, PendingModel { id, stream, event });
                }
            }
        },
        _ => {},
    }
}

/// Emitting events does not change the limit.
proof fn lemma_after_events_limit<P: CorrelationPolicy>(
    state: OutputModel,
    policy: P,
    events: Seq<PendingModel>,
)
    ensures
        state.after_events(policy, events).limit == state.limit,
    decreases events.len(),
{
    if events.len() > 0 {
        lemma_after_events_limit(state, policy, events.drop_last());
    }
}

/// An event whose identifier is neither live nor suppressed writes nothing. It
/// waits, as the last of its identifier, wherever events may wait at all.
pub proof fn early_events_wait<P: CorrelationPolicy>(
    state: OutputModel,
    policy: P,
    stream: Seq<char>,
    event: JsonModel,
    id: Seq<char>,
)
    requires
        policy.owner_id(stream, event) == Some(id),
        !state.active.contains_key(id),
        !state.suppressed.contains(id),
    ensures
        state.lines(policy, CommandModel::Event { stream, event }) == Seq::<JsonModel>::empty(),
        state.limit > 0 ==> {
            let after = state.stepped(policy, CommandModel::Event { stream, event });
            &&& after.waiting(id).len() > 0
            &&& after.waiting(id).last() == PendingModel { id, stream, event }
        },
{
    let event = PendingModel { id, stream, event };
    let same = |event: PendingModel| event.id == id;
    state.pending.lemma_filter_push(event, same);
    state.pending.drop_first().lemma_filter_push(event, same);
}

/// Whether none of the first events is a last one.
pub open spec fn lasting<P: CorrelationPolicy>(
    policy: P,
    events: Seq<PendingModel>,
    n: int,
) -> bool {
    forall|i: int|
        0 <= i < n ==> !policy.ends((#[trigger] events[i]).stream, events[i].event)
}

/// Each event is written by what is known after the events before it, which is what is
/// known now as long as none of them is a last one.
proof fn lemma_event_lines<P: CorrelationPolicy>(
    state: OutputModel,
    policy: P,
    events: Seq<PendingModel>,
)
    ensures
        state.event_lines(policy, events).len() == events.len(),
        forall|i: int|
            0 <= i < events.len() ==> #[trigger] state.event_lines(policy, events)[i]
                == state.after_events(policy, events.take(i)).event_line(
                events[i].stream,
                events[i].event,
            ),
        forall|i: int|
            0 <= i <= events.len() && lasting(policy, events, i) ==> #[trigger] state.after_events(
                policy,
                events.take(i),
            ) == state,
        lasting(policy, events, events.len() as int) ==> state.after_events(policy, events)
            == state,
    decreases events.len(),
{
    if events.len() > 0 {
        let front = events.drop_last();
        let n = front.len() as int;
        lemma_event_lines(state, policy, front);
        assert(events.take(n) =~= front);
        assert forall|i: int| 0 <= i < events.len() implies #[trigger] state.event_lines(
            policy,
            events,
        )[i] == state.after_events(policy, events.take(i)).event_line(
            events[i].stream,
            events[i].event,
        ) by {
            if i < n {
                assert(events.take(i) =~= front.take(i));
                assert(events[i] == front[i]);
                assert(state.event_lines(policy, events)[i] == state.event_lines(
                    policy,
                    front,
                )[i]);
            }
        }
        assert forall|i: int|
            0 <= i <= events.len() && lasting(policy, events, i) implies #[trigger] state.after_events(
            policy,
            events.take(i),
        ) == state by {
            let m = if i <= n {
                i
            } else {
                n
            };
            assert(events.take(m) =~= front.take(m));
            assert forall|j: int| 0 <= j < m implies !policy.ends(
                (#[trigger] front[j]).stream,
                front[j].event,
            ) by {
                assert(front[j] == events[j]);
            }
            assert(lasting(policy, front, m));
            if i > n {
                assert(events.take(i) =~= events);
                assert(front.take(n) =~= front);
                assert(!policy.ends(events[n].stream, events[n].event));
            }
        }
        assert(events.take(events.len() as int) =~= events);
    } else {
        assert(events.take(0) =~= events);
    }
}

/// Emitting events retires identifiers and brings none to life.
proof fn lemma_after_events_shrink<P: CorrelationPolicy>(
    state: OutputModel,
    policy: P,
    events: Seq<PendingModel>,
    id: Seq<char>,
)
    ensures
        state.after_events(policy, events).active.contains_key(id) ==> state.active.contains_key(
            id,
        ) && state.after_events(policy, events).active[id] == state.active[id],
        forall|i: int|
            0 <= i < state.after_events(policy, events).pending.len() ==> state.pending.contains(
                #[trigger] state.after_events(policy, events).pending[i],
            ),
    decreases events.len(),
{
    if events.len() > 0 {
        let front = events.drop_last();
        lemma_after_events_shrink(state, policy, front, id);
        let before = state.after_events(policy, front);
        let after = state.after_events(policy, events);
        if after != before {
            let gone = policy.owner_id(events.last().stream, events.last().event)->0;
            let other = |event: PendingModel| event.id != gone;
            assert forall|i: int| 0 <= i < after.pending.len() implies state.pending.contains(
                #[trigger] after.pending[i],
            ) by {
                lemma_kept(before.pending, other, i);
                let k = choose|k: int|
                    0 <= k < before.pending.len() && before.pending[k] == after.pending[i];
                assert(state.pending.contains(before.pending[k]));
            }
        }
    } else {
        assert forall|i: int| 0 <= i < state.pending.len() implies state.pending.contains(
            #[trigger] state.pending[i],
        ) by {}
    }
}

/// A reply that brings an identifier to life is written first, with its address. The
/// events that waited for it follow in the order in which they came, and no longer wait.
/// Up to the first one that is a last event, which is written like the others, each is
/// addressed by the route of the identifier.
pub proof fn waiting_events_follow_their_reply<P: CorrelationPolicy>(
    state: OutputModel,
    policy: P,
    id: Seq<char>,
    response: JsonModel,
    route: Option<RouteModel>,
    named: Seq<char>,
    kind: TrackedKind,
)
    requires
        policy.tracked_id(response) == Some((named, kind)),
        !state.suppressed.contains(named),
    ensures
        ({
            let command = CommandModel::Response {
                id,
                result: Ok(response),
                cancelled: None,
                route,
            };
            let live = state.activated(Some((named, kind)), route);
            let events = state.waiting(named);
            let lines = state.lines(policy, command);
            let after = state.stepped(policy, command);
            &&& live.active.contains_key(named)
            &&& after.waiting(named) == Seq::<PendingModel>::empty()
            &&& lines.len() == 1 + events.len()
            &&& lines[0] == addressed(response_model(id, response), route)
            &&& forall|i: int|
                0 <= i < events.len() && lasting(policy, events, i) ==> #[trigger] lines[i + 1]
                    == live.event_line(events[i].stream, events[i].event)
            &&& lasting(policy, events, events.len() as int) ==> after == live
        }),
{
    let command = CommandModel::Response { id, result: Ok(response), cancelled: None, route };
    let live = state.activated(Some((named, kind)), route);
    let events = state.waiting(named);
    let lines = state.lines(policy, command);
    let after = state.stepped(policy, command);
    lemma_event_lines(live, policy, events);
    lemma_after_events_shrink(live, policy, events, named);
    assert forall|i: int| 0 <= i < events.len() && lasting(policy, events, i) implies #[trigger] lines[i
        + 1] == live.event_line(events[i].stream, events[i].event) by {
        assert(lines[i + 1] == live.event_lines(policy, events)[i]);
    }
    let other = |event: PendingModel| event.id != named;
    let same = |event: PendingModel| event.id == named;
    assert forall|i: int| 0 <= i < after.pending.len() implies !same(
        #[trigger] after.pending[i],
    ) by {
        let k = choose|k: int|
            0 <= k < live.pending.len() && live.pending[k] == after.pending[i];
        lemma_kept(state.pending, other, k);
    }
    after.pending.lemma_all_neg_filter_empty(same);
    assert(after.waiting(named) =~= Seq::<PendingModel>::empty());
}

/// Events of a routed subscription carry the route that its reply was given.
pub proof fn subscription_events_are_routed(
    state: OutputModel,
    id: Seq<char>,
    route: RouteModel,
    stream: Seq<char>,
    event: JsonModel,
)
    requires
        !state.suppressed.contains(id),
        event.field_text("subscription_id"@) == Some(id),
    ensures
        state.activated(Some((id, TrackedKind::Subscription)), Some(route)).event_line(
            stream,
            event,
        ) == addressed(event_model(stream, event), Some(route)),
        state.activated(Some((id, TrackedKind::Subscription)), Some(route)).owned(route).contains(
            id,
        ),
{
}

/// A repeated reply without an address does not discard the acknowledged route.
pub proof fn repeated_replies_keep_the_route(
    state: OutputModel,
    id: Seq<char>,
    kind: TrackedKind,
)
    requires
        state.active.contains_key(id),
        !state.suppressed.contains(id),
    ensures
        state.activated(Some((id, kind)), None).active == state.active,
{
    assert(state.activated(Some((id, kind)), None).active =~= state.active);
}

/// Once an identifier was retired, its events write nothing and change nothing,
/// and it is neither live nor waited for.
pub proof fn late_events_are_dropped<P: CorrelationPolicy>(
    state: OutputModel,
    policy: P,
    stream: Seq<char>,
    event: JsonModel,
    id: Seq<char>,
)
    requires
        state.limit > 0,
        policy.owner_id(stream, event) == Some(id),
    ensures
        ({
            let retired = state.cancelled(id);
            let late = CommandModel::Event { stream, event };
            &&& !retired.active.contains_key(id)
            &&& retired.suppressed.contains(id)
            &&& retired.lines(policy, late) == Seq::<JsonModel>::empty()
            &&& retired.stepped(policy, late) == retired
        }),
{
    let retired = state.cancelled(id);
    if !state.suppressed.contains(id) {
        assert(retired.suppressed.last() == id);
    }
}

/// A failed reply retires nothing: a cancellation that failed leaves the
/// ownership for later cleanup.
pub proof fn failures_retain_ownership<P: CorrelationPolicy>(
    state: OutputModel,
    policy: P,
    id: Seq<char>,
    error: Seq<char>,
    route: Option<RouteModel>,
)
    ensures
        state.stepped(
            policy,
            CommandModel::Response { id, result: Err(error), cancelled: None, route },
        ) == state,
{
}

/// An acknowledged cancellation retires its identifier. A reply that names the same
/// identifier does not revive it, if identifiers are suppressed at all.
pub proof fn acknowledged_cancellation_retires<P: CorrelationPolicy>(
    state: OutputModel,
    policy: P,
    id: Seq<char>,
    response: JsonModel,
    route: Option<RouteModel>,
    retired: Seq<char>,
)
    requires
        state.limit > 0 || !(policy.tracked_id(response) matches Some((named, kind)) && named
            == retired),
    ensures
        ({
            let command = CommandModel::Response {
                id,
                result: Ok(response),
                cancelled: Some(retired),
                route,
            };
            &&& !state.stepped(policy, command).active.contains_key(retired)
            &&& policy.tracked_id(response) is None ==> state.stepped(policy, command)
                == state.cancelled(retired)
        }),
{
    let current = state.cancelled(retired);
    let named = policy.tracked_id(response);
    if state.limit > 0 && !state.suppressed.contains(retired) {
        assert(current.suppressed.last() == retired);
    }
    lemma_after_events_shrink(
        current.activated(named, route),
        policy,
        current.set_free(named),
        retired,
    );
}

/// Whether the waiting events stand under the identifiers that the policy gives them.
pub open spec fn pending_by_policy<P: CorrelationPolicy>(state: OutputModel, policy: P) -> bool {
    forall|i: int|
        0 <= i < state.pending.len() ==> policy.owner_id(
            (#[trigger] state.pending[i]).stream,
            state.pending[i].event,
        ) == Some(state.pending[i].id)
}

/// Every command keeps the waiting events under the identifiers that the policy gives
/// them.
pub proof fn commands_keep_pending_by_policy<P: CorrelationPolicy>(
    state: OutputModel,
    policy: P,
    command: CommandModel,
)
    requires
        pending_by_policy(state, policy),
    ensures
        pending_by_policy(state.stepped(policy, command), policy),
{
    let after = state.stepped(policy, command);
    if let CommandModel::Response { id, result, cancelled, route } = command {
        let current = state.after_cancellation(cancelled);
        if let Some(gone) = cancelled {
            lemma_without_subset(state, gone);
        }
        assert(pending_by_policy(current, policy)) by {
            if cancelled is Some {
                lemma_subset_by_policy(state, current, policy);
            }
        }
        if let Ok(response) = result {
            let named = policy.tracked_id(response);
            let live = current.activated(named, route);
            if let Some((name, kind)) = named {
                lemma_without_subset(current, name);
            }
            assert(pending_by_policy(live, policy)) by {
                if live.pending != current.pending {
                    lemma_subset_by_policy(current, live, policy);
                }
            }
            lemma_after_events_shrink(live, policy, current.set_free(named), id);
            lemma_subset_by_policy(live, after, policy);
        }
    } else if let CommandModel::Cancelled(id) = command {
        lemma_without_subset(state, id);
        lemma_subset_by_policy(state, after, policy);
    } else if let CommandModel::Event { stream, event } = command {
        if let Some(id) = policy.owner_id(stream, event) {
            lemma_without_subset(state, id);
            if after.pending == state.without(id) {
                lemma_subset_by_policy(state, after, policy);
            }
        }
    }
}

proof fn lemma_without_subset(state: OutputModel, id: Seq<char>)
    ensures
        forall|i: int|
            0 <= i < state.without(id).len() ==> state.pending.contains(
                #[trigger] state.without(id)[i],
            ),
{
    let other = |event: PendingModel| event.id != id;
    assert forall|i: int| 0 <= i < state.without(id).len() implies state.pending.contains(
        #[trigger] state.without(id)[i],
    ) by {
        lemma_kept(state.pending, other, i);
    }
}

proof fn lemma_subset_by_policy<P: CorrelationPolicy>(
    before: OutputModel,
    after: OutputModel,
    policy: P,
)
    requires
        pending_by_policy(before, policy),
        forall|i: int|
            0 <= i < after.pending.len() ==> before.pending.contains(#[trigger] after.pending[i]),
    ensures
        pending_by_policy(after, policy),
{
    assert forall|i: int| 0 <= i < after.pending.len() implies policy.owner_id(
        (#[trigger] after.pending[i]).stream,
        after.pending[i].event,
    ) == Some(after.pending[i].id) by {
        let k = choose|k: int|
            0 <= k < before.pending.len() && before.pending[k] == after.pending[i];
        assert(before.pending[k] == after.pending[i]);
    }
}

/// Whether a command leaves the ownership of an identifier alone: it neither resets
/// everything, nor retires the identifier, nor brings it to life again, nor is its last
/// event.
pub open spec fn leaves_alone<P: CorrelationPolicy>(
    policy: P,
    command: CommandModel,
    id: Seq<char>,
) -> bool {
    match command {
        CommandModel::Response { result, cancelled, .. } => cancelled != Some(id) && match result {
            Ok(response) => !(policy.tracked_id(response) matches Some((named, kind)) && named
                == id),
            Err(_) => true,
        },
        CommandModel::Cancelled(retired) => retired != id,
        CommandModel::Event { stream, event } => policy.owner_id(stream, event) != Some(id)
            || !policy.ends(stream, event),
        CommandModel::ResetCorrelation => false,
        _ => true,
    }
}

proof fn lemma_others_events_keep<P: CorrelationPolicy>(
    state: OutputModel,
    policy: P,
    events: Seq<PendingModel>,
    id: Seq<char>,
)
    requires
        state.active.contains_key(id),
        forall|i: int|
            0 <= i < events.len() ==> policy.owner_id(
                (#[trigger] events[i]).stream,
                events[i].event,
            ) != Some(id),
    ensures
        state.after_events(policy, events).active.contains_key(id),
        state.after_events(policy, events).active[id] == state.active[id],
    decreases events.len(),
{
    if events.len() > 0 {
        let front = events.drop_last();
        assert forall|i: int| 0 <= i < front.len() implies policy.owner_id(
            (#[trigger] front[i]).stream,
            front[i].event,
        ) != Some(id) by {
            assert(front[i] == events[i]);
        }
        lemma_others_events_keep(state, policy, front, id);
        assert(events.last() == events[events.len() - 1]);
    }
}

/// An owned identifier stays with its route, whatever else happens, until it is retired,
/// named by another reply, or everything is reset.
pub proof fn ownership_persists<P: CorrelationPolicy>(
    state: OutputModel,
    policy: P,
    command: CommandModel,
    id: Seq<char>,
)
    requires
        pending_by_policy(state, policy),
        state.active.contains_key(id),
        leaves_alone(policy, command, id),
    ensures
        state.stepped(policy, command).active.contains_key(id),
        state.stepped(policy, command).active[id] == state.active[id],
{
    if let CommandModel::Response { id: request, result, cancelled, route } = command {
        let current = state.after_cancellation(cancelled);
        if let Some(gone) = cancelled {
            lemma_without_subset(state, gone);
            lemma_subset_by_policy(state, current, policy);
        }
        if let Ok(response) = result {
            let named = policy.tracked_id(response);
            let events = current.set_free(named);
            let live = current.activated(named, route);
            assert forall|i: int| 0 <= i < events.len() implies policy.owner_id(
                (#[trigger] events[i]).stream,
                events[i].event,
            ) != Some(id) by {
                let (name, kind) = named->0;
                let same = |event: PendingModel| event.id == name;
                lemma_kept(current.pending, same, i);
                let k = choose|k: int|
                    0 <= k < current.pending.len() && current.pending[k] == events[i];
                assert(current.pending[k].id == name);
            }
            lemma_others_events_keep(live, policy, events, id);
        }
    }
}

/// What is known after commands, one after another.
pub open spec fn stepped_all<P: CorrelationPolicy>(
    state: OutputModel,
    policy: P,
    commands: Seq<CommandModel>,
) -> OutputModel
    decreases commands.len(),
{
    if commands.len() == 0 {
        state
    } else {
        stepped_all(state, policy, commands.drop_last()).stepped(policy, commands.last())
    }
}

/// Notifications of errors are not addressed to anyone.
pub proof fn errors_are_global(error: Seq<char>)
    ensures
        error_model("protocol-error"@, error).field("route"@) is None,
        error_model("transport-error"@, error).field("route"@) is None,
{
    reveal_strlit("route");
    reveal_strlit("kind");
    reveal_strlit("error");
    assert("route"@.len() == 5 && "kind"@.len() == 4 && "error"@.len() == 5);
    assert("route"@[0] == 'r' && "error"@[0] == 'e');
}

/// A reply that names no identifier is written and not retained.
pub proof fn ordinary_replies_are_not_retained<P: CorrelationPolicy>(
    state: OutputModel,
    policy: P,
    id: Seq<char>,
    response: JsonModel,
    route: Option<RouteModel>,
)
    requires
        policy.tracked_id(response) is None,
    ensures
        ({
            let command = CommandModel::Response {
                id,
                result: Ok(response),
                cancelled: None,
                route,
            };
            &&& state.stepped(policy, command) == state
            &&& state.lines(policy, command) == seq![
                addressed(response_model(id, response), route),
            ]
        }),
{
    assert(state.lines(
        policy,
        CommandModel::Response { id, result: Ok(response), cancelled: None, route },
    ) =~= seq![addressed(response_model(id, response), route)]);
}

/// A last event is written with the route of its subscription, and only then
/// retires it.
pub proof fn last_events_keep_their_route<P: CorrelationPolicy>(
    state: OutputModel,
    policy: P,
    stream: Seq<char>,
    event: JsonModel,
    id: Seq<char>,
    route: RouteModel,
)
    requires
        state.consistent(),
        policy.owner_id(stream, event) == Some(id),
        policy.ends(stream, event),
        event.field_text("subscription_id"@) == Some(id),
        state.active.contains_key(id),
        state.active[id] == Some(route),
    ensures
        ({
            let last = CommandModel::Event { stream, event };
            let after = state.stepped(policy, last);
            &&& state.lines(policy, last) == seq![
                addressed(event_model(stream, event), Some(route)),
            ]
            &&& !after.active.contains_key(id)
            &&& state.limit > 0 ==> after.suppressed.contains(id)
        }),
{
    if state.limit > 0 {
        assert(state.cancelled(id).suppressed.last() == id);
    }
}

/// A lost connection leaves nothing live, waiting or suppressed.
pub proof fn reset_forgets<P: CorrelationPolicy>(state: OutputModel, policy: P)
    ensures
        ({
            let after = state.stepped(policy, CommandModel::ResetCorrelation);
            &&& after.active.dom() == Set::<Seq<char>>::empty()
            &&& after.pending.len() == 0
            &&& after.suppressed.len() == 0
        }),
{
    assert(state.reset().active.dom() =~= Set::<Seq<char>>::empty());
}

/// Responses echo the route of their request, successes and failures alike; a
/// request without a route gets a response without one.
pub proof fn responses_echo_their_route(
    id: Seq<char>,
    response: JsonModel,
    error: Seq<char>,
    route: Option<RouteModel>,
)
    ensures
        addressed(response_model(id, response), route).field("route"@) == match route {
            Some(route) => Some(route.json()),
            None => None,
        },
        addressed(response_error_model(id, error), route).field("route"@) == match route {
            Some(route) => Some(route.json()),
            None => None,
        },
        addressed(response_model(id, response), route).field("id"@) == Some(JsonModel::Text(id)),
        addressed(response_error_model(id, error), route).field("id"@) == Some(
            JsonModel::Text(id),
        ),
        addressed(response_error_model(id, error), route).field("error"@) == Some(
            JsonModel::Text(error),
        ),
        addressed(response_model(id, response), route).field("response"@) == Some(response),
{
    reveal_strlit("route");
    reveal_strlit("kind");
    reveal_strlit("id");
    reveal_strlit("ok");
    reveal_strlit("response");
    reveal_strlit("error");
    assert("route"@.len() == 5 && "kind"@.len() == 4 && "id"@.len() == 2 && "ok"@.len() == 2);
    assert("response"@.len() == 8 && "error"@.len() == 5);
    assert("route"@[0] == 'r' && "error"@[0] == 'e');
    assert("id"@[0] == 'i' && "ok"@[0] == 'o');
}

/// An event whose identifier is neither live nor suppressed waits behind all that wait
/// already. Only where as many wait as may, the oldest one goes, and nothing else.
pub proof fn early_events_queue_up<P: CorrelationPolicy>(
    state: OutputModel,
    policy: P,
    stream: Seq<char>,
    event: JsonModel,
    id: Seq<char>,
)
    requires
        policy.owner_id(stream, event) == Some(id),
        !state.active.contains_key(id),
        !state.suppressed.contains(id),
    ensures
        ({
            let after = state.stepped(policy, CommandModel::Event { stream, event });
            let said = PendingModel { id, stream, event };
            &&& after.active == state.active
            &&& after.suppressed == state.suppressed
            &&& after.limit == state.limit
            &&& state.pending.len() < state.limit ==> after.pending == state.pending.push(said)
            &&& state.pending.len() == state.limit && state.limit > 0 ==> after.pending
                == state.pending.skip(1).push(said)
            &&& state.limit == 0 ==> after.pending == state.pending
        }),
{
}

/// Events as commands.
pub open spec fn event_commands(events: Seq<(Seq<char>, JsonModel)>) -> Seq<CommandModel> {
    events.map_values(
        |event: (Seq<char>, JsonModel)| CommandModel::Event { stream: event.0, event: event.1 },
    )
}

proof fn lemma_early_events<P: CorrelationPolicy>(
    state: OutputModel,
    policy: P,
    events: Seq<(Seq<char>, JsonModel)>,
    id: Seq<char>,
)
    requires
        !state.active.contains_key(id),
        !state.suppressed.contains(id),
        state.pending.len() + events.len() <= state.limit,
        forall|i: int|
            0 <= i < events.len() ==> policy.owner_id((#[trigger] events[i]).0, events[i].1)
                == Some(id),
    ensures
        stepped_all(state, policy, event_commands(events)) == (OutputModel {
            pending: state.pending + events.map_values(
                |event: (Seq<char>, JsonModel)|
                    PendingModel { id, stream: event.0, event: event.1 },
            ),
            ..state
        }),
    decreases events.len(),
{
    let said = |event: (Seq<char>, JsonModel)|
        PendingModel { id, stream: event.0, event: event.1 };
    let all = event_commands(events);
    if events.len() > 0 {
        let front = events.drop_last();
        assert forall|i: int| 0 <= i < front.len() implies policy.owner_id(
            (#[trigger] front[i]).0,
            front[i].1,
        ) == Some(id) by {
            assert(front[i] == events[i]);
        }
        lemma_early_events(state, policy, front, id);
        assert(all.drop_last() =~= event_commands(front));
        let last = events.last();
        assert(last == events[events.len() - 1]);
        let before = stepped_all(state, policy, event_commands(front));
        early_events_queue_up(before, policy, last.0, last.1, id);
        assert(events.map_values(said) =~= front.map_values(said).push(said(last)));
        assert(before.pending.push(said(last)) =~= state.pending + events.map_values(said));
    } else {
        assert(state.pending + events.map_values(said) =~= state.pending);
    }
}

/// Events that come before the reply that names their identifier are all written after
/// it, in the order in which they came, as long as they may wait. They carry the route
/// of a subscription that they name, and what waits for others still does.
pub proof fn early_events_follow_their_reply<P: CorrelationPolicy>(
    state: OutputModel,
    policy: P,
    events: Seq<(Seq<char>, JsonModel)>,
    id: Seq<char>,
    response: JsonModel,
    route: Option<RouteModel>,
    named: Seq<char>,
    kind: TrackedKind,
    i: int,
)
    requires
        policy.tracked_id(response) == Some((named, kind)),
        !state.active.contains_key(named),
        !state.suppressed.contains(named),
        state.pending.len() + events.len() <= state.limit,
        forall|k: int| 0 <= k < state.pending.len() ==> (#[trigger] state.pending[k]).id != named,
        forall|k: int|
            0 <= k < events.len() ==> policy.owner_id((#[trigger] events[k]).0, events[k].1)
                == Some(named),
        forall|k: int|
            0 <= k < events.len() ==> !policy.ends((#[trigger] events[k]).0, events[k].1),
        0 <= i < events.len(),
    ensures
        ({
            let waiting = stepped_all(state, policy, event_commands(events));
            let reply = CommandModel::Response { id, result: Ok(response), cancelled: None, route };
            let lines = waiting.lines(policy, reply);
            let after = waiting.stepped(policy, reply);
            &&& waiting.pending.len() == state.pending.len() + events.len()
            &&& lines.len() == 1 + events.len()
            &&& lines[0] == addressed(response_model(id, response), route)
            &&& events[i].1.field_text("subscription_id"@) == Some(named) ==> lines[i + 1]
                == addressed(
                event_model(events[i].0, events[i].1),
                if kind is Subscription {
                    route
                } else {
                    None
                },
            )
            &&& after.pending == state.pending
            &&& after.active.contains_key(named)
            &&& after.suppressed == state.suppressed
        }),
{
    lemma_early_events(state, policy, events, named);
    let waiting = stepped_all(state, policy, event_commands(events));
    let new = events.map_values(
        |event: (Seq<char>, JsonModel)|
            PendingModel { id: named, stream: event.0, event: event.1 },
    );
    assert(new[i] == PendingModel { id: named, stream: events[i].0, event: events[i].1 });
    assert(lasting(policy, new, i) && lasting(policy, new, new.len() as int)) by {
        lemma_all_lasting(policy, events, new, named);
    }
    reveal(answers_with);
    lemma_waiting_parts(waiting, state.pending, new, named);
    lemma_reply_to_waiting(
        waiting,
        state.pending,
        new,
        policy,
        id,
        response,
        route,
        named,
        kind,
        i,
    );
}

/// Whether a reply is followed by the events of its identifier, and leaves the rest.
#[verifier::opaque]
spec fn answers_with<P: CorrelationPolicy>(
    waiting: OutputModel,
    policy: P,
    reply: CommandModel,
    new: Seq<PendingModel>,
    rest: Seq<PendingModel>,
    named: Seq<char>,
    kind: TrackedKind,
    i: int,
) -> bool {
    let lines = waiting.lines(policy, reply);
    let after = waiting.stepped(policy, reply);
    &&& lines.len() == 1 + new.len()
    &&& reply->Response_result is Ok
    &&& lines[0] == addressed(
        response_model(reply->Response_id, reply->Response_result->Ok_0),
        reply->Response_route,
    )
    &&& new[i].event.field_text("subscription_id"@) == Some(named) ==> lines[i + 1] == addressed(
        event_model(new[i].stream, new[i].event),
        if kind is Subscription {
            reply->Response_route
        } else {
            None
        },
    )
    &&& after.pending == rest
    &&& after.active.contains_key(named)
    &&& after.suppressed == waiting.suppressed
}

proof fn lemma_reply_to_waiting<P: CorrelationPolicy>(
    waiting: OutputModel,
    earlier: Seq<PendingModel>,
    new: Seq<PendingModel>,
    policy: P,
    id: Seq<char>,
    response: JsonModel,
    route: Option<RouteModel>,
    named: Seq<char>,
    kind: TrackedKind,
    i: int,
)
    requires
        policy.tracked_id(response) == Some((named, kind)),
        !waiting.active.contains_key(named),
        !waiting.suppressed.contains(named),
        parts_into(waiting, named, new, earlier),
        lasting(policy, new, i),
        lasting(policy, new, new.len() as int),
        0 <= i < new.len(),
    ensures
        answers_with(
            waiting,
            policy,
            CommandModel::Response { id, result: Ok(response), cancelled: None, route },
            new,
            earlier,
            named,
            kind,
            i,
        ),
{
    reveal(parts_into);
    lemma_reply_lines(waiting, policy, id, response, route, named, kind, i);
}

/// What waits for an identifier, and what for others.
#[verifier::opaque]
spec fn parts_into(
    waiting: OutputModel,
    id: Seq<char>,
    new: Seq<PendingModel>,
    rest: Seq<PendingModel>,
) -> bool {
    waiting.waiting(id) == new && waiting.without(id) == rest
}

proof fn lemma_waiting_parts(
    waiting: OutputModel,
    earlier: Seq<PendingModel>,
    new: Seq<PendingModel>,
    id: Seq<char>,
)
    requires
        waiting.pending == earlier + new,
        forall|i: int| 0 <= i < earlier.len() ==> (#[trigger] earlier[i]).id != id,
        forall|i: int| 0 <= i < new.len() ==> (#[trigger] new[i]).id == id,
    ensures
        parts_into(waiting, id, new, earlier),
{
    reveal(parts_into);
    let same = |event: PendingModel| event.id == id;
    let other = |event: PendingModel| event.id != id;
    lemma_filter_parts(earlier, new, same, false, true);
    lemma_filter_parts(earlier, new, other, true, false);
    assert(waiting.waiting(id) =~= new);
    assert(waiting.without(id) =~= earlier);
}

proof fn lemma_reply_lines<P: CorrelationPolicy>(
    waiting: OutputModel,
    policy: P,
    id: Seq<char>,
    response: JsonModel,
    route: Option<RouteModel>,
    named: Seq<char>,
    kind: TrackedKind,
    i: int,
)
    requires
        policy.tracked_id(response) == Some((named, kind)),
        !waiting.active.contains_key(named),
        !waiting.suppressed.contains(named),
        0 <= i < waiting.waiting(named).len(),
        lasting(policy, waiting.waiting(named), i),
        lasting(policy, waiting.waiting(named), waiting.waiting(named).len() as int),
    ensures
        answers_with(
            waiting,
            policy,
            CommandModel::Response { id, result: Ok(response), cancelled: None, route },
            waiting.waiting(named),
            waiting.without(named),
            named,
            kind,
            i,
        ),
{
    reveal(answers_with);
    waiting_events_follow_their_reply(waiting, policy, id, response, route, named, kind);
    let new = waiting.waiting(named);
    let live = waiting.activated(Some((named, kind)), route);
    let lines = waiting.lines(
        policy,
        CommandModel::Response { id, result: Ok(response), cancelled: None, route },
    );
    assert(lines[i + 1] == live.event_line(new[i].stream, new[i].event));
}

proof fn lemma_all_lasting<P: CorrelationPolicy>(
    policy: P,
    events: Seq<(Seq<char>, JsonModel)>,
    new: Seq<PendingModel>,
    id: Seq<char>,
)
    requires
        new == events.map_values(
            |event: (Seq<char>, JsonModel)| PendingModel { id, stream: event.0, event: event.1 },
        ),
        forall|i: int|
            0 <= i < events.len() ==> !policy.ends((#[trigger] events[i]).0, events[i].1),
    ensures
        forall|n: int| 0 <= n <= new.len() ==> #[trigger] lasting(policy, new, n),
{
    assert forall|n: int| 0 <= n <= new.len() implies #[trigger] lasting(policy, new, n) by {
        assert forall|i: int| 0 <= i < n implies !policy.ends(
            (#[trigger] new[i]).stream,
            new[i].event,
        ) by {
            assert(!policy.ends(events[i].0, events[i].1));
        }
    }
}

proof fn lemma_filter_uniform<A>(s: Seq<A>, keep: spec_fn(A) -> bool, keeps: bool)
    requires
        forall|i: int| 0 <= i < s.len() ==> keep(#[trigger] s[i]) == keeps,
    ensures
        s.filter(keep) == (if keeps {
            s
        } else {
            Seq::empty()
        }),
    decreases s.len(),
{
    if s.len() > 0 {
        let init = s.drop_last();
        let last = s[s.len() - 1];
        assert forall|i: int| 0 <= i < init.len() implies keep(#[trigger] init[i]) == keeps by {
            assert(init[i] == s[i]);
        }
        lemma_filter_uniform(init, keep, keeps);
        init.lemma_filter_push(last, keep);
        assert(init.push(last) == s);
    } else {
        s.lemma_filter_len(keep);
        assert(s.filter(keep).len() == 0);
    }
}

proof fn lemma_filter_parts<A>(
    a: Seq<A>,
    b: Seq<A>,
    keep: spec_fn(A) -> bool,
    keeps_a: bool,
    keeps_b: bool,
)
    requires
        forall|i: int| 0 <= i < a.len() ==> keep(#[trigger] a[i]) == keeps_a,
        forall|i: int| 0 <= i < b.len() ==> keep(#[trigger] b[i]) == keeps_b,
    ensures
        (a + b).filter(keep) == (if keeps_a {
            a
        } else {
            Seq::empty()
        }) + (if keeps_b {
            b
        } else {
            Seq::empty()
        }),
{
    lemma_filter_uniform(a, keep, keeps_a);
    lemma_filter_uniform(b, keep, keeps_b);
    Seq::filter_distributes_over_add(a, b, keep);
}

/// A reply that names an identifier brings it to life. A subscription is then owned by
/// the consumer of the request, and an identifier that was live keeps its owner where
/// the reply gives none. Nothing else becomes live, and what waits for other
/// identifiers still does, in order.
pub proof fn replies_bring_identifiers_to_life<P: CorrelationPolicy>(
    state: OutputModel,
    policy: P,
    id: Seq<char>,
    response: JsonModel,
    route: Option<RouteModel>,
    named: Seq<char>,
    kind: TrackedKind,
)
    requires
        policy.tracked_id(response) == Some((named, kind)),
        !state.suppressed.contains(named),
        forall|i: int|
            0 <= i < state.pending.len() && (#[trigger] state.pending[i]).id == named
                ==> !policy.ends(state.pending[i].stream, state.pending[i].event),
    ensures
        ({
            let after = state.stepped(
                policy,
                CommandModel::Response { id, result: Ok(response), cancelled: None, route },
            );
            &&& after.active.dom() == state.active.dom().insert(named)
            &&& after.active.remove(named) == state.active.remove(named)
            &&& kind is Subscription && route is Some ==> after.active[named] == route
            &&& (kind is Operation || route is None) && state.active.contains_key(named)
                ==> after.active[named] == state.active[named]
            &&& (kind is Operation || route is None) && !state.active.contains_key(named)
                ==> after.active[named] is None
            &&& after.pending == state.pending.filter(|event: PendingModel| event.id != named)
            &&& after.suppressed == state.suppressed
            &&& after.limit == state.limit
        }),
{
    let same = |event: PendingModel| event.id == named;
    let events = state.waiting(named);
    assert(lasting(policy, events, events.len() as int)) by {
        assert forall|i: int| 0 <= i < events.len() implies !policy.ends(
            (#[trigger] events[i]).stream,
            events[i].event,
        ) by {
            lemma_kept(state.pending, same, i);
            let k = choose|k: int| 0 <= k < state.pending.len() && state.pending[k] == events[i];
            assert(state.pending[k].id == named);
        }
    }
    waiting_events_follow_their_reply(state, policy, id, response, route, named, kind);
    let live = state.activated(Some((named, kind)), route);
    assert(live.active.dom() =~= state.active.dom().insert(named));
    assert(live.active.remove(named) =~= state.active.remove(named));
}

/// A reply that names a suppressed identifier is written and changes nothing.
pub proof fn suppressed_identifiers_stay_retired<P: CorrelationPolicy>(
    state: OutputModel,
    policy: P,
    id: Seq<char>,
    response: JsonModel,
    route: Option<RouteModel>,
    named: Seq<char>,
    kind: TrackedKind,
)
    requires
        policy.tracked_id(response) == Some((named, kind)),
        state.suppressed.contains(named),
    ensures
        ({
            let reply = CommandModel::Response { id, result: Ok(response), cancelled: None, route };
            &&& state.stepped(policy, reply) == state
            &&& state.lines(policy, reply) == seq![addressed(response_model(id, response), route)]
        }),
{
    let reply = CommandModel::Response { id, result: Ok(response), cancelled: None, route };
    assert(state.lines(policy, reply) =~= seq![addressed(response_model(id, response), route)]);
}

/// A cancellation retires its identifier and no other: it is no longer live, what waits
/// for it goes, and it is suppressed from now on, as the newest one. Only where as many
/// are suppressed as may, the oldest one is let go.
pub proof fn cancellations_retire_one_identifier<P: CorrelationPolicy>(
    state: OutputModel,
    policy: P,
    id: Seq<char>,
)
    ensures
        ({
            let after = state.stepped(policy, CommandModel::Cancelled(id));
            &&& after.active == state.active.remove(id)
            &&& after.pending == state.pending.filter(|event: PendingModel| event.id != id)
            &&& after.limit == state.limit
            &&& state.suppressed.contains(id) || state.limit == 0 ==> after.suppressed
                == state.suppressed
            &&& !state.suppressed.contains(id) && state.suppressed.len() < state.limit
                ==> after.suppressed == state.suppressed.push(id)
            &&& !state.suppressed.contains(id) && state.suppressed.len() == state.limit
                && state.limit > 0 ==> after.suppressed == state.suppressed.skip(1).push(id)
            &&& state.lines(policy, CommandModel::Cancelled(id)) == Seq::<JsonModel>::empty()
        }),
{
}

/// A reply that acknowledges a cancellation is a cancellation followed by the reply.
pub proof fn acknowledged_cancellations_come_first<P: CorrelationPolicy>(
    state: OutputModel,
    policy: P,
    id: Seq<char>,
    result: Result<JsonModel, Seq<char>>,
    route: Option<RouteModel>,
    retired: Seq<char>,
)
    ensures
        ({
            let both = CommandModel::Response { id, result, cancelled: Some(retired), route };
            let reply = CommandModel::Response { id, result, cancelled: None, route };
            let between = state.stepped(policy, CommandModel::Cancelled(retired));
            &&& state.stepped(policy, both) == between.stepped(policy, reply)
            &&& state.lines(policy, both) == between.lines(policy, reply)
        }),
{
}

/// An event without an identifier, or with a live one, is written at once, as it is, to
/// the consumer that owns the subscription which it names. It changes nothing, unless it
/// is the last of its identifier, which is then retired.
pub proof fn live_events_are_written<P: CorrelationPolicy>(
    state: OutputModel,
    policy: P,
    stream: Seq<char>,
    event: JsonModel,
)
    requires
        policy.owner_id(stream, event) matches Some(id) ==> state.active.contains_key(id)
            && !state.suppressed.contains(id),
    ensures
        ({
            let command = CommandModel::Event { stream, event };
            let lines = state.lines(policy, command);
            let after = state.stepped(policy, command);
            &&& lines.len() == 1
            &&& event.field_text("subscription_id"@) is None ==> lines[0] == event_model(
                stream,
                event,
            )
            &&& event.field_text("subscription_id"@) matches Some(named) ==> lines[0] == addressed(
                event_model(stream, event),
                if state.active.contains_key(named) {
                    state.active[named]
                } else {
                    None
                },
            )
            &&& !policy.ends(stream, event) || policy.owner_id(stream, event) is None ==> after
                == state
            &&& policy.ends(stream, event) && policy.owner_id(stream, event) is Some ==> after
                == state.stepped(
                policy,
                CommandModel::Cancelled(policy.owner_id(stream, event)->0),
            )
        }),
{
}

/// An event of a suppressed identifier is lost and changes nothing.
pub proof fn suppressed_events_are_lost<P: CorrelationPolicy>(
    state: OutputModel,
    policy: P,
    stream: Seq<char>,
    event: JsonModel,
    id: Seq<char>,
)
    requires
        policy.owner_id(stream, event) == Some(id),
        state.suppressed.contains(id),
    ensures
        state.lines(policy, CommandModel::Event { stream, event }) == Seq::<JsonModel>::empty(),
        state.stepped(policy, CommandModel::Event { stream, event }) == state,
{
}

/// A failed reply is written to the address of its request and changes nothing;
/// notifications of errors and the acknowledgement of a shutdown are written and change
/// nothing; a reset writes nothing.
pub proof fn other_commands_only_write<P: CorrelationPolicy>(
    state: OutputModel,
    policy: P,
    id: Seq<char>,
    error: Seq<char>,
    route: Option<RouteModel>,
)
    ensures
        ({
            let failed = CommandModel::Response { id, result: Err(error), cancelled: None, route };
            &&& state.lines(policy, failed) == seq![
                addressed(response_error_model(id, error), route),
            ]
            &&& state.stepped(policy, failed) == state
        }),
        state.lines(policy, CommandModel::ProtocolError(error)) == seq![
            error_model("protocol-error"@, error),
        ],
        state.stepped(policy, CommandModel::ProtocolError(error)) == state,
        state.lines(policy, CommandModel::TransportError(error)) == seq![
            error_model("transport-error"@, error),
        ],
        state.stepped(policy, CommandModel::TransportError(error)) == state,
        state.lines(policy, CommandModel::Shutdown(id)) == seq![shutdown_model(id)],
        state.stepped(policy, CommandModel::Shutdown(id)) == state,
        state.lines(policy, CommandModel::ActiveIds { route }) == Seq::<JsonModel>::empty(),
        state.stepped(policy, CommandModel::ActiveIds { route }) == state,
        state.lines(policy, CommandModel::ResetCorrelation) == Seq::<JsonModel>::empty(),
{
}

/// A query for a consumer is answered with the live identifiers that this consumer owns
/// in this generation, whatever else their routes say; a query for nobody with all live
/// ones. No other command is answered with identifiers.
pub proof fn queries_name_what_is_owned(
    state: OutputModel,
    owner: RouteModel,
    id: Seq<char>,
    command: CommandModel,
)
    ensures
        state.asked(CommandModel::ActiveIds { route: None }) == Some(state.active.dom()),
        state.asked(CommandModel::ActiveIds { route: Some(owner) }) matches Some(ids) && (
        ids.contains(id) <==> state.active.contains_key(id) && state.active[id] is Some
            && state.active[id]->0.consumer_id == owner.consumer_id && state.active[id]->0.generation
            == owner.generation),
        state.asked(command) is Some <==> command is ActiveIds,
{
}

/// The basic policy follows subscriptions: a reply names one under `data`, `subscription`
/// and `id`, an event under `subscription_id`, and none has a last event.
pub proof fn subscriptions_are_correlated(
    policy: BasicCorrelation,
    response: JsonModel,
    stream: Seq<char>,
    event: JsonModel,
    id: Seq<char>,
)
    ensures
        policy.tracked_id(response) == Some((id, TrackedKind::Subscription)) <==> (
        response.field("data"@) matches Some(data) && data.field("subscription"@) matches Some(
            subscription,
        ) && subscription.field("id"@) == Some(JsonModel::Text(id))),
        policy.owner_id(stream, event) == Some(id) <==> event.field("subscription_id"@) == Some(
            JsonModel::Text(id),
        ),
        !policy.ends(stream, event),
        !(policy.tracked_id(response) matches Some((named, kind)) && kind is Operation),
{
}

/// Only events wait in the queue of events; responses, cancellations and all other commands
/// go before them.
pub proof fn only_events_wait_in_their_queue(command: CommandModel, event: CommandModel)
    ensures
        queue_of(command) is Events <==> command is Event,
        !(command is Event) && event is Event ==> served_next(
            queue_of(command) is Priority || queue_of(event) is Priority,
            queue_of(command) is Events || queue_of(event) is Events,
        ) == Some(queue_of(command)),
        served_next(true, true) == Some(OutputQueue::Priority),
        served_next(true, false) == Some(OutputQueue::Priority),
        served_next(false, true) == Some(OutputQueue::Events),
        served_next(false, false) is None,
{
}

/// A line is its message with a line feed behind it, so that lines tell messages apart.
pub proof fn lines_end_with_a_line_feed(a: Seq<u8>, b: Seq<u8>)
    ensures
        framed(a) == a + seq![10u8],
        framed(a).last() == '\n' as u8,
        framed(a).drop_last() == a,
        framed(a) == framed(b) ==> a == b,
{
    assert(framed(a).drop_last() =~= a);
    assert(framed(b).drop_last() =~= b);
    assert(framed(a) =~= a + seq![10u8]);
}

proof fn lemma_own_events<P: CorrelationPolicy>(
    live: OutputModel,
    policy: P,
    events: Seq<PendingModel>,
    id: Seq<char>,
)
    requires
        live.without(id) == live.pending,
        forall|i: int|
            0 <= i < events.len() ==> policy.owner_id(
                (#[trigger] events[i]).stream,
                events[i].event,
            ) == Some(id),
    ensures
        live.after_events(policy, events) == if lasting(policy, events, events.len() as int) {
            live
        } else {
            live.cancelled(id)
        },
    decreases events.len(),
{
    if events.len() > 0 {
        let front = events.drop_last();
        let n = events.len() - 1;
        assert forall|i: int| 0 <= i < front.len() implies policy.owner_id(
            (#[trigger] front[i]).stream,
            front[i].event,
        ) == Some(id) by {
            assert(front[i] == events[i]);
        }
        lemma_own_events(live, policy, front, id);
        assert(policy.owner_id(events[n].stream, events[n].event) == Some(id));
        if lasting(policy, events, events.len() as int) {
            assert forall|i: int| 0 <= i < front.len() implies !policy.ends(
                (#[trigger] front[i]).stream,
                front[i].event,
            ) by {
                assert(front[i] == events[i]);
            }
            assert(!policy.ends(events[n].stream, events[n].event));
        } else {
            if lasting(policy, front, front.len() as int) && !policy.ends(
                events[n].stream,
                events[n].event,
            ) {
                assert forall|i: int| 0 <= i < events.len() implies !policy.ends(
                    (#[trigger] events[i]).stream,
                    events[i].event,
                ) by {
                    if i < n {
                        assert(front[i] == events[i]);
                    }
                }
            }
            let gone = live.cancelled(id);
            assert(gone.pending == live.pending);
            assert(gone.cancelled(id).active =~= gone.active);
            if live.limit > 0 && !live.suppressed.contains(id) {
                assert(gone.suppressed.last() == id);
            }
            assert(gone.cancelled(id) =~= gone);
        }
    }
}

/// Where an event that waited for a reply is the last of its identifier, the identifier is
/// retired as soon as all of them are written: it is not live, and its late events are lost
/// like those of one that was cancelled.
pub proof fn waiting_last_events_retire<P: CorrelationPolicy>(
    state: OutputModel,
    policy: P,
    id: Seq<char>,
    response: JsonModel,
    route: Option<RouteModel>,
    named: Seq<char>,
    kind: TrackedKind,
    k: int,
)
    requires
        pending_by_policy(state, policy),
        policy.tracked_id(response) == Some((named, kind)),
        !state.suppressed.contains(named),
        0 <= k < state.pending.len(),
        state.pending[k].id == named,
        policy.ends(state.pending[k].stream, state.pending[k].event),
    ensures
        ({
            let reply = CommandModel::Response { id, result: Ok(response), cancelled: None, route };
            let after = state.stepped(policy, reply);
            &&& state.lines(policy, reply).len() == 1 + state.pending.filter(
                |event: PendingModel| event.id == named,
            ).len()
            &&& after.active == state.active.remove(named)
            &&& after.pending == state.pending.filter(|event: PendingModel| event.id != named)
            &&& after.suppressed == state.stepped(
                policy,
                CommandModel::Cancelled(named),
            ).suppressed
        }),
{
    let same = |event: PendingModel| event.id == named;
    let other = |event: PendingModel| event.id != named;
    let live = state.activated(Some((named, kind)), route);
    let events = state.waiting(named);
    waiting_events_follow_their_reply(state, policy, id, response, route, named, kind);
    assert forall|i: int| 0 <= i < events.len() implies policy.owner_id(
        (#[trigger] events[i]).stream,
        events[i].event,
    ) == Some(named) by {
        lemma_kept(state.pending, same, i);
        let j = choose|j: int| 0 <= j < state.pending.len() && state.pending[j] == events[i];
        assert(policy.owner_id(state.pending[j].stream, state.pending[j].event) == Some(
            state.pending[j].id,
        ));
    }
    assert(live.without(named) == live.pending) by {
        assert forall|i: int| 0 <= i < live.pending.len() implies other(
            #[trigger] live.pending[i],
        ) by {
            lemma_kept(state.pending, other, i);
        }
        lemma_filter_uniform(live.pending, other, true);
    }
    lemma_own_events(live, policy, events, named);
    state.pending.lemma_filter_contains(same, k);
    let i = choose|i: int| 0 <= i < events.len() && events[i] == state.pending[k];
    assert(policy.ends(events[i].stream, events[i].event));
    assert(live.active.remove(named) =~= state.active.remove(named));
}

/// An event that waited for a reply is written as it is, to the consumer of the subscription
/// that it names: that of the reply, if it is the one, or another that is live by then.
pub proof fn waiting_events_carry_their_address<P: CorrelationPolicy>(
    state: OutputModel,
    policy: P,
    id: Seq<char>,
    response: JsonModel,
    route: Option<RouteModel>,
    named: Seq<char>,
    i: int,
)
    requires
        policy.tracked_id(response) == Some((named, TrackedKind::Subscription)),
        !state.suppressed.contains(named),
        0 <= i < state.waiting(named).len(),
        lasting(policy, state.waiting(named), i),
    ensures
        ({
            let reply = CommandModel::Response { id, result: Ok(response), cancelled: None, route };
            let line = state.lines(policy, reply)[i + 1];
            let said = state.pending.filter(|event: PendingModel| event.id == named)[i];
            let plain = event_model(said.stream, said.event);
            match said.event.field_text("subscription_id"@) {
                None => line == plain,
                Some(other) => {
                    &&& other == named && route is Some ==> line == addressed(plain, route)
                    &&& (other != named || route is None) && state.active.contains_key(other)
                        ==> line == addressed(plain, state.active[other])
                    &&& (other != named || route is None) && !state.active.contains_key(other)
                        ==> line == plain
                },
            }
        }),
{
    waiting_events_follow_their_reply(
        state,
        policy,
        id,
        response,
        route,
        named,
        TrackedKind::Subscription,
    );
    let reply = CommandModel::Response { id, result: Ok(response), cancelled: None, route };
    let live = state.activated(Some((named, TrackedKind::Subscription)), route);
    let events = state.waiting(named);
    assert(state.lines(policy, reply)[i + 1] == live.event_line(
        events[i].stream,
        events[i].event,
    ));
}

/// What is known of a command is what it was given with: a reply with its result as it is,
/// what it cancels and where it goes, an event with its stream, and so on.
pub proof fn commands_are_known_as_given(command: OutputCommand)
    ensures
        match command {
            OutputCommand::Response { id, result, cancelled_request_id, route } => {
                &&& command@ is Response
                &&& command@->Response_id == id@
                &&& result matches Ok(response) ==> command@->Response_result == Ok::<
                    _,
                    Seq<char>,
                >(response@)
                &&& result matches Err(error) ==> command@->Response_result == Err::<JsonModel, _>(
                    error@,
                )
                &&& cancelled_request_id matches Some(retired) ==> command@->Response_cancelled
                    == Some(retired@)
                &&& cancelled_request_id is None ==> command@->Response_cancelled is None
                &&& route matches Some(address) ==> command@->Response_route == Some(address@)
                &&& route is None ==> command@->Response_route is None
            },
            OutputCommand::ActiveIds { route: Some(owner) } => command@
                == CommandModel::ActiveIds { route: Some(owner@) },
            OutputCommand::ActiveIds { route: None } => command@ == CommandModel::ActiveIds {
                route: None,
            },
            OutputCommand::Cancelled(id) => command@ == CommandModel::Cancelled(id@),
            OutputCommand::Event { stream, event } => command@ == CommandModel::Event {
                stream: stream@,
                event: event@,
            },
            OutputCommand::ProtocolError(error) => command@ == CommandModel::ProtocolError(error@),
            OutputCommand::TransportError(error) => command@ == CommandModel::TransportError(
                error@,
            ),
            OutputCommand::ResetCorrelation => command@ == CommandModel::ResetCorrelation,
            OutputCommand::Shutdown(id) => command@ == CommandModel::Shutdown(id@),
        },
{
}

/// What is known of a waiting event is what it was given with.
pub proof fn waiting_events_are_known_as_given(event: PendingEvent)
    ensures
        event@.id == event.id@,
        event@.stream == event.stream@,
        event@.event == event.event@,
{
}

} // verus!
