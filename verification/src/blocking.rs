//! Bounded admission for blocking work that cannot be cancelled.
use vstd::prelude::*;

verus! {

/// Why a lane did not run a job.
#[derive(Debug, Clone, Copy, PartialEq, Eq, Structural)]
pub enum LaneError {
    Full,
    Closed,
    Panicked,
}

impl LaneError {
    /// What the error says.
    pub open spec fn text(&self) -> Seq<char> {
        match *self {
            LaneError::Full => "blocking queue is full"@,
            LaneError::Closed => "blocking lane is closed"@,
            LaneError::Panicked => "blocking job panicked"@,
        }
    }

    /// What the error says.
    pub fn message(&self) -> (r: &'static str)
        ensures
            r@ == self.text(),
    {
        match self {
            LaneError::Full => "blocking queue is full",
            LaneError::Closed => "blocking lane is closed",
            LaneError::Panicked => "blocking job panicked",
        }
    }
}

/// How a lane was shut down. Jobs that still run cannot be aborted; they are reported.
#[derive(Debug, Clone, Copy, PartialEq, Eq)]
pub struct LaneShutdown {
    pub dispatcher_stopped: bool,
    pub active_jobs: usize,
}

/// Whether a lane can have these bounds: neither may be zero.
pub open spec fn bounds_accepted(capacity: nat, concurrency: nat) -> bool {
    capacity > 0 && concurrency > 0
}

/// Whether a lane can have these bounds: neither may be zero.
pub fn lane_bounds(capacity: usize, concurrency: usize) -> (r: bool)
    ensures
        r == bounds_accepted(capacity as nat, concurrency as nat),
{
    capacity > 0 && concurrency > 0
}

/// How a job ended, for the one who waits for it.
#[derive(Debug, PartialEq, Eq)]
pub enum JobReply<T> {
    Returned(T),
    Panicked,
    /// The job was dropped before it ran.
    Dropped,
}

/// A lane for blocking work. Jobs wait in a queue of limited capacity. Its dispatcher
/// takes a job only once it holds a permit to run it, and the permit is given back when
/// the job has ended.
#[derive(Debug)]
pub struct BlockingLane {
    capacity: usize,
    queued: usize,
    concurrency: usize,
    active: usize,
    holding: bool,
    stopped: bool,
    closed: bool,
}

/// What the dispatcher of a lane does next.
#[derive(Debug, Clone, Copy, PartialEq, Eq, Structural)]
pub enum DispatchAction {
    /// Wait for a permit.
    AcquirePermit,
    /// Wait for a job.
    ReceiveJob,
    /// Run the job, and wait for another permit.
    RunJob,
    Stop,
}

/// What the dispatcher of a lane got. The signal for shutdown comes before anything else.
#[derive(Debug, Clone, Copy, PartialEq, Eq, Structural)]
pub enum DispatchEvent {
    ShutdownSignalled,
    PermitAcquired,
    PermitsClosed,
    JobReceived,
    QueueClosed,
}

/// What a lane knows.
#[verifier::ext_equal]
pub struct LaneModel {
    /// How many jobs may wait.
    pub capacity: nat,
    /// How many jobs wait.
    pub queued: nat,
    /// How many jobs may run at once.
    pub concurrency: nat,
    /// How many jobs run.
    pub active: nat,
    /// Whether the dispatcher holds a permit for the next job.
    pub holding: bool,
    /// Whether the dispatcher has stopped.
    pub stopped: bool,
    /// Whether submissions are refused.
    pub closed: bool,
}

impl View for BlockingLane {
    type V = LaneModel;

    closed spec fn view(&self) -> LaneModel {
        LaneModel {
            capacity: self.capacity as nat,
            queued: self.queued as nat,
            concurrency: self.concurrency as nat,
            active: self.active as nat,
            holding: self.holding,
            stopped: self.stopped,
            closed: self.closed,
        }
    }
}

impl LaneModel {
    /// How many permits are in use.
    pub open spec fn permits(self) -> nat {
        if self.holding {
            self.active + 1
        } else {
            self.active
        }
    }

    /// Whether no more jobs wait than may, and no more permits are in use than there are.
    pub open spec fn bounded(self) -> bool {
        self.queued <= self.capacity && self.permits() <= self.concurrency
    }

    /// The outcome of a submission: a lane is closed once it was shut down or nobody
    /// takes its jobs any more, and full when its queue holds as many jobs as it may.
    pub open spec fn admission(self, dispatcher_gone: bool) -> Result<(), LaneError> {
        if self.closed || self.stopped || dispatcher_gone {
            Err(LaneError::Closed)
        } else if self.queued >= self.capacity {
            Err(LaneError::Full)
        } else {
            Ok(())
        }
    }

    /// The lane after a submission.
    pub open spec fn submitted(self, dispatcher_gone: bool) -> LaneModel {
        if self.admission(dispatcher_gone) is Ok {
            LaneModel { queued: self.queued + 1, ..self }
        } else {
            self
        }
    }

    /// Whether the dispatcher can get something.
    pub open spec fn expects(self, event: DispatchEvent) -> bool {
        !self.stopped && match event {
            DispatchEvent::ShutdownSignalled => true,
            DispatchEvent::PermitAcquired => !self.holding && self.active < self.concurrency,
            DispatchEvent::PermitsClosed => !self.holding,
            DispatchEvent::JobReceived => self.holding && self.queued > 0,
            DispatchEvent::QueueClosed => self.holding,
        }
    }

    /// The lane after the dispatcher got something. One that stops drops the jobs that
    /// wait.
    pub open spec fn after(self, event: DispatchEvent) -> LaneModel {
        match event {
            DispatchEvent::PermitAcquired => LaneModel { holding: true, ..self },
            DispatchEvent::JobReceived => LaneModel {
                queued: (self.queued - 1) as nat,
                holding: false,
                active: self.active + 1,
                ..self
            },
            _ => LaneModel { queued: 0, holding: false, stopped: true, ..self },
        }
    }
}

impl LaneModel {
    /// The lane once a job has ended.
    pub open spec fn with_job_ended(self) -> LaneModel {
        LaneModel { active: (self.active - 1) as nat, ..self }
    }

    /// The lane once its shutdown has started.
    pub open spec fn shut(self) -> LaneModel {
        LaneModel { closed: true, ..self }
    }
}

/// What a dispatcher does once it got something.
pub open spec fn dispatched(event: DispatchEvent) -> DispatchAction {
    match event {
        DispatchEvent::PermitAcquired => DispatchAction::ReceiveJob,
        DispatchEvent::JobReceived => DispatchAction::RunJob,
        _ => DispatchAction::Stop,
    }
}

/// The outcome of a call: of its submission, and then of its job.
pub open spec fn call_outcome<T>(submitted: Result<(), LaneError>, reply: JobReply<T>) -> Result<
    T,
    LaneError,
> {
    match submitted {
        Err(error) => Err(error),
        Ok(()) => match reply {
            JobReply::Returned(value) => Ok(value),
            JobReply::Panicked => Err(LaneError::Panicked),
            JobReply::Dropped => Err(LaneError::Closed),
        },
    }
}

/// What the shutdown of a lane waits for at first.
pub open spec fn shutdown_start(has_dispatcher: bool) -> ShutdownStep {
    if has_dispatcher {
        ShutdownStep::AwaitDispatcher
    } else {
        ShutdownStep::AwaitIdle { dispatcher_stopped: true }
    }
}

impl BlockingLane {
    /// An open lane whose dispatcher waits for its first permit.
    pub fn start(capacity: usize, concurrency: usize) -> (lane: Self)
        requires
            capacity > 0,
            concurrency > 0,
        ensures
            lane@ == (LaneModel {
                capacity: capacity as nat,
                queued: 0,
                concurrency: concurrency as nat,
                active: 0,
                holding: false,
                stopped: false,
                closed: false,
            }),
            lane@.bounded(),
    {
        BlockingLane {
            capacity,
            queued: 0,
            concurrency,
            active: 0,
            holding: false,
            stopped: false,
            closed: false,
        }
    }

    /// Whether submissions are refused.
    pub fn is_closed(&self) -> (r: bool)
        ensures
            r == self@.closed,
    {
        self.closed
    }

    /// Decides on a submission. A job that is accepted takes a place in the queue.
    pub fn try_submit(&mut self, dispatcher_gone: bool) -> (r: Result<(), LaneError>)
        requires
            old(self)@.bounded(),
        ensures
            r == old(self)@.admission(dispatcher_gone),
            final(self)@ == old(self)@.submitted(dispatcher_gone),
            final(self)@.bounded(),
    {
        if self.closed || self.stopped || dispatcher_gone {
            Err(LaneError::Closed)
        } else if self.queued >= self.capacity {
            Err(LaneError::Full)
        } else {
            self.queued = self.queued + 1;
            Ok(())
        }
    }

    /// The outcome of a call: of its submission, and then of its job.
    pub fn call<T>(submitted: Result<(), LaneError>, reply: JobReply<T>) -> (r: Result<
        T,
        LaneError,
    >)
        ensures
            r == call_outcome(submitted, reply),
    {
        match submitted {
            Err(error) => Err(error),
            Ok(()) => match reply {
                JobReply::Returned(value) => Ok(value),
                JobReply::Panicked => Err(LaneError::Panicked),
                JobReply::Dropped => Err(LaneError::Closed),
            },
        }
    }

    /// Decides what the dispatcher does once it got something.
    pub fn dispatch(&mut self, event: DispatchEvent) -> (action: DispatchAction)
        requires
            old(self)@.bounded(),
            old(self)@.expects(event),
        ensures
            final(self)@ == old(self)@.after(event),
            final(self)@.bounded(),
            action == dispatched(event),
    {
        match event {
            DispatchEvent::PermitAcquired => {
                self.holding = true;
                DispatchAction::ReceiveJob
            },
            DispatchEvent::JobReceived => {
                self.queued = self.queued - 1;
                self.holding = false;
                self.active = self.active + 1;
                DispatchAction::RunJob
            },
            _ => {
                self.queued = 0;
                self.holding = false;
                self.stopped = true;
                DispatchAction::Stop
            },
        }
    }

    /// A job has ended. The result tells whether the lane is idle now.
    pub fn job_ended(&mut self) -> (idle: bool)
        requires
            old(self)@.bounded(),
            old(self)@.active > 0,
        ensures
            final(self)@ == old(self)@.with_job_ended(),
            final(self)@.bounded(),
            idle == (final(self)@.active == 0),
    {
        self.active = self.active - 1;
        self.active == 0
    }

    /// How many jobs run.
    pub fn active_jobs(&self) -> (n: usize)
        ensures
            n == self@.active,
    {
        self.active
    }

    /// Closes the lane and starts its shutdown. The dispatcher may have been joined
    /// before.
    pub fn shutdown(&mut self, has_dispatcher: bool) -> (step: ShutdownStep)
        ensures
            final(self)@ == old(self)@.shut(),
            step == shutdown_start(has_dispatcher),
    {
        self.closed = true;
        if has_dispatcher {
            ShutdownStep::AwaitDispatcher
        } else {
            ShutdownStep::AwaitIdle { dispatcher_stopped: true }
        }
    }

    /// Takes the shutdown of a lane one step further.
    pub fn shutdown_step(step: ShutdownStep, event: ShutdownEvent) -> (progress: ShutdownProgress)
        requires
            shutdown_expects(step, event),
        ensures
            progress == shutdown_progress(step, event),
    {
        match (step, event) {
            (ShutdownStep::AwaitDispatcher, ShutdownEvent::DispatcherStopped) =>
                ShutdownProgress::Continue(ShutdownStep::AwaitIdle { dispatcher_stopped: true }),
            (ShutdownStep::AwaitDispatcher, ShutdownEvent::DispatcherTimedOut) =>
                ShutdownProgress::Continue(ShutdownStep::AbortDispatcher),
            (ShutdownStep::AbortDispatcher, ShutdownEvent::DispatcherJoined) =>
                ShutdownProgress::Continue(ShutdownStep::AwaitIdle { dispatcher_stopped: false }),
            (
                ShutdownStep::AwaitIdle { dispatcher_stopped },
                ShutdownEvent::IdleOrTimedOut(active_jobs),
            ) => ShutdownProgress::Report(
                LaneShutdown { dispatcher_stopped, active_jobs },
                !dispatcher_stopped || active_jobs != 0,
            ),
            (step, _) => ShutdownProgress::Continue(step),
        }
    }
}

/// No more jobs wait than the capacity of a lane allows, whatever is submitted. A
/// submission is refused as full just when that many wait.
pub proof fn lanes_bound_queued_jobs(lane: LaneModel, dispatcher_gone: bool, event: DispatchEvent)
    requires
        lane.bounded(),
        lane.expects(event),
    ensures
        lane.submitted(dispatcher_gone).bounded(),
        lane.submitted(dispatcher_gone).queued <= lane.capacity,
        lane.after(event).queued <= lane.queued,
        !lane.closed && !dispatcher_gone ==> (lane.admission(dispatcher_gone)
            == Err::<(), _>(LaneError::Full) <==> lane.queued == lane.capacity),
        lane.submitted(dispatcher_gone).queued + lane.submitted(dispatcher_gone).active
            <= lane.capacity + lane.concurrency,
{
}

/// No more jobs run than the lane allows, whatever happens. Only the end of a job makes
/// room for another: nothing else lowers their number.
pub proof fn lanes_bound_running_jobs(lane: LaneModel, event: DispatchEvent)
    requires
        lane.bounded(),
        lane.expects(event),
    ensures
        lane.after(event).bounded(),
        lane.active <= lane.after(event).active <= lane.concurrency,
{
}

/// A signal for shutdown stops the dispatcher at once, also with a permit in hand, and
/// a stopped dispatcher takes no job.
pub proof fn shutdown_stops_dispatching(lane: LaneModel, event: DispatchEvent)
    requires
        !lane.stopped,
    ensures
        lane.expects(DispatchEvent::ShutdownSignalled),
        dispatched(DispatchEvent::ShutdownSignalled) == DispatchAction::Stop,
        !lane.after(DispatchEvent::ShutdownSignalled).expects(event),
        lane.after(DispatchEvent::ShutdownSignalled).active == lane.active,
{
}

/// A closed lane refuses every submission, and stays closed.
pub proof fn closed_lanes_refuse_submissions(
    lane: LaneModel,
    dispatcher_gone: bool,
    event: DispatchEvent,
)
    requires
        lane.closed,
    ensures
        lane.admission(dispatcher_gone) == Err::<(), _>(LaneError::Closed),
        lane.submitted(dispatcher_gone) == lane,
        lane.after(event).closed,
{
}

/// What the shutdown of a lane waits for.
#[derive(Debug, Clone, Copy, PartialEq, Eq, Structural)]
pub enum ShutdownStep {
    /// The dispatcher is to stop before the deadline.
    AwaitDispatcher,
    /// It did not, and is aborted and joined.
    AbortDispatcher,
    /// Running jobs are to end before the deadline.
    AwaitIdle { dispatcher_stopped: bool },
}

/// What the shutdown of a lane got.
#[derive(Debug, Clone, Copy, PartialEq, Eq, Structural)]
pub enum ShutdownEvent {
    DispatcherStopped,
    DispatcherTimedOut,
    DispatcherJoined,
    /// No job runs any more, or the deadline has passed; so many jobs still run.
    IdleOrTimedOut(usize),
}

/// How the shutdown of a lane goes on.
#[derive(Debug, Clone, Copy, PartialEq, Eq)]
pub enum ShutdownProgress {
    Continue(ShutdownStep),
    /// It is over. The flag tells whether to warn that it timed out.
    Report(LaneShutdown, bool),
}

/// Whether an event can happen in the shutdown of a lane.
pub open spec fn shutdown_expects(step: ShutdownStep, event: ShutdownEvent) -> bool {
    match step {
        ShutdownStep::AwaitDispatcher => event is DispatcherStopped || event is DispatcherTimedOut,
        ShutdownStep::AbortDispatcher => event is DispatcherJoined,
        ShutdownStep::AwaitIdle { .. } => event is IdleOrTimedOut,
    }
}

/// How the shutdown of a lane goes on.
pub open spec fn shutdown_progress(step: ShutdownStep, event: ShutdownEvent) -> ShutdownProgress {
    match (step, event) {
        (ShutdownStep::AwaitDispatcher, ShutdownEvent::DispatcherStopped) =>
            ShutdownProgress::Continue(ShutdownStep::AwaitIdle { dispatcher_stopped: true }),
        (ShutdownStep::AwaitDispatcher, ShutdownEvent::DispatcherTimedOut) =>
            ShutdownProgress::Continue(ShutdownStep::AbortDispatcher),
        (ShutdownStep::AbortDispatcher, ShutdownEvent::DispatcherJoined) =>
            ShutdownProgress::Continue(ShutdownStep::AwaitIdle { dispatcher_stopped: false }),
        (
            ShutdownStep::AwaitIdle { dispatcher_stopped },
            ShutdownEvent::IdleOrTimedOut(active_jobs),
        ) => ShutdownProgress::Report(
            LaneShutdown { dispatcher_stopped, active_jobs },
            !dispatcher_stopped || active_jobs != 0,
        ),
        _ => ShutdownProgress::Continue(step),
    }
}

/// A shutdown claims no more than it saw: it reports the jobs that still run, and that
/// the dispatcher stopped only where it was not aborted.
pub proof fn shutdown_reports_remaining_work(first: ShutdownEvent, active_jobs: usize)
    requires
        shutdown_expects(ShutdownStep::AwaitDispatcher, first),
    ensures
        ({
            let next = shutdown_progress(ShutdownStep::AwaitDispatcher, first)->Continue_0;
            let waiting = if next is AbortDispatcher {
                shutdown_progress(next, ShutdownEvent::DispatcherJoined)->Continue_0
            } else {
                next
            };
            shutdown_progress(waiting, ShutdownEvent::IdleOrTimedOut(active_jobs))
                == ShutdownProgress::Report(
                LaneShutdown { dispatcher_stopped: first is DispatcherStopped, active_jobs },
                first is DispatcherTimedOut || active_jobs != 0,
            )
        }),
{
}

/// A lane with accepted bounds takes a job and lets its dispatcher run it; with any other
/// bounds it could do nothing.
pub proof fn accepted_bounds_let_jobs_run(capacity: nat, concurrency: nat)
    ensures
        ({
            let lane = LaneModel {
                capacity,
                queued: 0,
                concurrency,
                active: 0,
                holding: false,
                stopped: false,
                closed: false,
            };
            bounds_accepted(capacity, concurrency) <==> lane.admission(false) is Ok
                && lane.expects(DispatchEvent::PermitAcquired)
        }),
{
}

/// A submission is refused as closed by a lane that was shut down or has no dispatcher,
/// as full by one whose queue has no place, and accepted by every other. Only one that is
/// accepted changes the lane, by one more job that waits.
pub proof fn submissions_take_a_place(lane: LaneModel, dispatcher_gone: bool)
    ensures
        lane.admission(dispatcher_gone) == Err::<(), _>(LaneError::Closed) <==> lane.closed
            || lane.stopped || dispatcher_gone,
        lane.admission(dispatcher_gone) is Ok <==> !lane.closed && !lane.stopped
            && !dispatcher_gone && lane.queued < lane.capacity,
        lane.admission(dispatcher_gone) is Ok ==> lane.submitted(dispatcher_gone) == (LaneModel {
            queued: lane.queued + 1,
            ..lane
        }),
        lane.admission(dispatcher_gone) is Err ==> lane.submitted(dispatcher_gone) == lane,
{
}

/// A job that is taken leaves the queue and runs, on the permit that the dispatcher got
/// for it; between the two nothing else of the lane changes.
pub proof fn jobs_run_on_their_permit(lane: LaneModel)
    requires
        lane.queued > 0,
    ensures
        lane.after(DispatchEvent::PermitAcquired) == (LaneModel { holding: true, ..lane }),
        lane.after(DispatchEvent::PermitAcquired).after(DispatchEvent::JobReceived) == (LaneModel {
            queued: (lane.queued - 1) as nat,
            active: lane.active + 1,
            holding: false,
            ..lane
        }),
        dispatched(DispatchEvent::PermitAcquired) is ReceiveJob,
        dispatched(DispatchEvent::JobReceived) is RunJob,
{
}

/// A dispatcher waits for a job only with a permit in hand, and for a permit only while
/// fewer jobs run than may; a closed queue and closed permits stop it.
pub proof fn dispatchers_wait_in_turn(lane: LaneModel, event: DispatchEvent)
    requires
        !lane.stopped,
    ensures
        lane.expects(DispatchEvent::JobReceived) <==> lane.holding && lane.queued > 0,
        lane.expects(DispatchEvent::PermitAcquired) <==> !lane.holding && lane.active
            < lane.concurrency,
        lane.expects(DispatchEvent::QueueClosed) <==> lane.holding,
        lane.expects(DispatchEvent::PermitsClosed) <==> !lane.holding,
        dispatched(event) is Stop <==> lane.after(event).stopped,
        lane.after(event).stopped ==> lane.after(event) == (LaneModel {
            queued: 0,
            holding: false,
            stopped: true,
            ..lane
        }),
        lane.after(event).stopped <==> event is ShutdownSignalled || event is PermitsClosed
            || event is QueueClosed,
{
}

/// A call returns what its job returned, if it was accepted; a job that panicked or was
/// dropped, and a submission that was refused, are told as such.
pub proof fn calls_return_what_their_job_returned<T>(
    value: T,
    error: LaneError,
    reply: JobReply<T>,
)
    ensures
        call_outcome(Ok(()), JobReply::Returned(value)) == Ok::<T, LaneError>(value),
        call_outcome(Ok(()), JobReply::<T>::Panicked) == Err::<T, _>(LaneError::Panicked),
        call_outcome(Ok(()), JobReply::<T>::Dropped) == Err::<T, _>(LaneError::Closed),
        call_outcome(Err(error), reply) == Err::<T, _>(error),
{
}

/// A dispatcher that was joined before counts as stopped; any other is waited for.
pub proof fn shutdowns_wait_for_the_dispatcher(active_jobs: usize)
    ensures
        shutdown_expects(shutdown_start(true), ShutdownEvent::DispatcherStopped),
        shutdown_progress(shutdown_start(false), ShutdownEvent::IdleOrTimedOut(active_jobs))
            == ShutdownProgress::Report(
            LaneShutdown { dispatcher_stopped: true, active_jobs },
            active_jobs != 0,
        ),
{
}

/// The errors of a lane say what happened.
pub proof fn lane_errors_are_told()
    ensures
        LaneError::Full.text() == "blocking queue is full"@,
        LaneError::Closed.text() == "blocking lane is closed"@,
        LaneError::Panicked.text() == "blocking job panicked"@,
{
}

/// A job that has ended makes room for another and changes nothing else; a job that was
/// submitted, run and has ended leaves the lane as it was.
pub proof fn ended_jobs_make_room(lane: LaneModel)
    requires
        lane.active > 0,
    ensures
        lane.with_job_ended().active == lane.active - 1,
        lane.with_job_ended() == (LaneModel { active: lane.with_job_ended().active, ..lane }),
        lane.admission(false) is Ok && !lane.holding ==> lane.submitted(false).after(
            DispatchEvent::PermitAcquired,
        ).after(DispatchEvent::JobReceived).with_job_ended() == lane,
{
}

/// A shutdown refuses what is submitted from then on, and leaves alone what runs and waits.
pub proof fn shutdowns_refuse_new_jobs(lane: LaneModel, dispatcher_gone: bool)
    ensures
        lane.shut().admission(dispatcher_gone) == Err::<(), _>(LaneError::Closed),
        lane.shut() == (LaneModel { closed: lane.shut().closed, ..lane }),
        lane.shut().closed,
{
}

} // verus!
