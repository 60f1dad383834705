//! Detection of resumes from suspend. Changes of the wall clock and stalls while awake
//! are not resumes.
use vstd::prelude::*;

use crate::clock::{clock_gettime, Clock, Reading};

verus! {

/// How often the clocks are sampled, in milliseconds.
pub const POLL_INTERVAL: u64 = 2_000;

/// The delay before signals of resumes are asked for again, in milliseconds.
pub const SIGNAL_RETRY_DELAY: u64 = 3_000;

/// Nanoseconds.
pub open spec fn total_nanos(time: (i64, i64)) -> int {
    time.0 * 1_000_000_000 + time.1
}

/// Nanoseconds.
pub fn nanos(time: (i64, i64)) -> (r: i128)
    ensures
        r == total_nanos(time),
{
    time.0 as i128 * 1_000_000_000 + time.1 as i128
}

/// Half of a number, towards zero.
pub open spec fn half(n: int) -> int {
    if n < 0 {
        -((-n) / 2)
    } else {
        n / 2
    }
}

/// How far one clock is ahead of another that was read before and after it, unless the
/// two readings are too far apart to tell.
pub open spec fn offset_of(before: int, boot: int, after: int) -> Option<int> {
    if after - before < 50_000_000 {
        Some(boot - half(before + after))
    } else {
        None
    }
}

/// What an optional offset amounts to.
pub open spec fn offset_model(offset: Option<i128>) -> Option<int> {
    match offset {
        Some(offset) => Some(offset as int),
        None => None,
    }
}

/// Whether a reading is one that a clock of 64-bit seconds can have.
pub open spec fn clock_range(nanos: i128) -> bool {
    -0x1_0000_0000_0000_0000_0000_0000 < nanos < 0x1_0000_0000_0000_0000_0000_0000
}

/// How far the boot-time clock is ahead of the monotonic one, by three readings. A
/// sample that was preempted is discarded.
pub fn sample_offset(before: i128, boot: i128, after: i128) -> (r: Option<i128>)
    requires
        clock_range(before),
        clock_range(boot),
        clock_range(after),
    ensures
        offset_model(r) == offset_of(before as int, boot as int, after as int),
{
    if after - before < 50_000_000 {
        let sum: i128 = before + after;
        let middle: i128 = if sum < 0 {
            -((-sum) / 2)
        } else {
            sum / 2
        };
        Some(boot - middle)
    } else {
        None
    }
}

/// Whether the boot-time clock was read between two readings of the monotonic one: the
/// three readings were taken in this order, one right after the other.
pub open spec fn sampled(before: Reading, boot: Reading, after: Reading) -> bool {
    &&& before.source() == Clock::Monotonic
    &&& boot.source() == Clock::Boottime
    &&& after.source() == Clock::Monotonic
    &&& boot.turn() == before.turn() + 1
    &&& after.turn() == boot.turn() + 1
}

/// The offset that three readings show.
pub open spec fn offset_between(before: Reading, boot: Reading, after: Reading) -> Option<int> {
    offset_of(total_nanos(before.shown()), total_nanos(boot.shown()), total_nanos(after.shown()))
}

/// How far the boot-time clock is ahead of the monotonic one, which is the time spent
/// in suspend. The boot-time clock is read between two readings of the monotonic one,
/// and a sample that was preempted is discarded.
pub fn suspend_offset() -> (r: Option<i128>)
    ensures
        exists|before: Reading, boot: Reading, after: Reading| #[trigger]
            sampled(before, boot, after) && offset_model(r) == offset_between(before, boot, after),
{
    let before = clock_gettime(Clock::Monotonic, None);
    let boot = clock_gettime(Clock::Boottime, Some(&before));
    let after = clock_gettime(Clock::Monotonic, Some(&boot));
    assert(sampled(before, boot, after));
    sample_offset(nanos(before.time()), nanos(boot.time()), nanos(after.time()))
}

/// Detects resumes from samples of the offset, and from signals that may come late.
#[derive(Debug)]
pub struct ResumeDetector {
    offset: Option<i128>,
    reported_before_signal: bool,
}

/// What a detector knows.
#[verifier::ext_equal]
pub struct DetectorModel {
    pub offset: Option<int>,
    pub reported_before_signal: bool,
}

impl View for ResumeDetector {
    type V = DetectorModel;

    closed spec fn view(&self) -> DetectorModel {
        DetectorModel {
            offset: offset_model(self.offset),
            reported_before_signal: self.reported_before_signal,
        }
    }
}

impl DetectorModel {
    /// Whether a sample shows that time was spent in suspend since the last one.
    pub open spec fn jumped(self, offset: Option<int>) -> bool {
        match (self.offset, offset) {
            (Some(previous), Some(now)) => now - previous > 250_000_000,
            _ => false,
        }
    }

    /// The last sample that was not discarded.
    pub open spec fn latest(self, offset: Option<int>) -> Option<int> {
        if offset is Some {
            offset
        } else {
            self.offset
        }
    }

    /// The detector after a sample.
    pub open spec fn polled(self, offset: Option<int>) -> Self {
        DetectorModel {
            offset: self.latest(offset),
            reported_before_signal: self.reported_before_signal || self.jumped(offset),
        }
    }

    /// Whether a signal announces a resume that was not reported yet.
    pub open spec fn announces(self, offset: Option<int>) -> bool {
        self.jumped(offset) || !self.reported_before_signal
    }

    /// The detector after a signal.
    pub open spec fn signalled(self, offset: Option<int>) -> Self {
        DetectorModel { offset: self.latest(offset), reported_before_signal: false }
    }
}

impl Default for ResumeDetector {
    fn default() -> (detector: Self)
        ensures
            detector@ == (DetectorModel { offset: None, reported_before_signal: false }),
    {
        ResumeDetector { offset: None, reported_before_signal: false }
    }
}

impl ResumeDetector {
    /// Takes a sample, and tells whether it shows that time was spent in suspend.
    fn changed(&mut self, offset: Option<i128>) -> (r: bool)
        ensures
            r == old(self)@.jumped(offset_model(offset)),
            final(self)@ == (DetectorModel {
                offset: old(self)@.latest(offset_model(offset)),
                ..old(self)@
            }),
    {
        match offset {
            Some(now) => {
                let changed = match self.offset {
                    Some(previous) => match previous.checked_add(250_000_000) {
                        Some(limit) => now > limit,
                        None => false,
                    },
                    None => false,
                };
                self.offset = Some(now);
                changed
            },
            None => false,
        }
    }

    /// Takes a sample, and tells whether to report a resume.
    pub fn poll(&mut self, offset: Option<i128>) -> (r: bool)
        ensures
            r == old(self)@.jumped(offset_model(offset)),
            final(self)@ == old(self)@.polled(offset_model(offset)),
    {
        let changed = self.changed(offset);
        self.reported_before_signal = self.reported_before_signal || changed;
        changed
    }

    /// Takes a sample when a resume was signalled, and tells whether to report it.
    pub fn signal(&mut self, offset: Option<i128>) -> (r: bool)
        ensures
            r == old(self)@.announces(offset_model(offset)),
            final(self)@ == old(self)@.signalled(offset_model(offset)),
    {
        let changed = self.changed(offset);
        let announce = changed || !self.reported_before_signal;
        self.reported_before_signal = false;
        announce
    }

    /// Samples the clocks, and tells whether to report a resume.
    pub fn resumed(&mut self) -> (r: bool)
        ensures
            exists|before: Reading, boot: Reading, after: Reading| #[trigger]
                sampled(before, boot, after) && r == old(self)@.jumped(
                    offset_between(before, boot, after),
                ) && final(self)@ == old(self)@.polled(offset_between(before, boot, after)),
    {
        self.poll(suspend_offset())
    }
}

/// What a monitor of resumes got.
#[derive(Debug, Clone, Copy, PartialEq, Eq, Structural)]
pub enum MonitorEvent {
    /// Nobody listens any more.
    ConsumersGone,
    /// It is time for another sample.
    Tick,
    /// A resume was signalled.
    Signal,
}

/// What a monitor of resumes does.
#[derive(Debug, Clone, Copy, PartialEq, Eq, Structural)]
pub enum MonitorAction {
    Stop,
    /// Publish the next number.
    Announce,
    Wait,
}

/// What a monitor of resumes does with a sample.
pub open spec fn monitor_action(
    detector: DetectorModel,
    event: MonitorEvent,
    offset: Option<int>,
) -> MonitorAction {
    match event {
        MonitorEvent::ConsumersGone => MonitorAction::Stop,
        MonitorEvent::Tick => if detector.jumped(offset) {
            MonitorAction::Announce
        } else {
            MonitorAction::Wait
        },
        MonitorEvent::Signal => if detector.announces(offset) {
            MonitorAction::Announce
        } else {
            MonitorAction::Wait
        },
    }
}

/// What a monitor of resumes knows once it has dealt with a sample.
pub open spec fn monitored(
    detector: DetectorModel,
    event: MonitorEvent,
    offset: Option<int>,
) -> DetectorModel {
    match event {
        MonitorEvent::ConsumersGone => detector,
        MonitorEvent::Tick => detector.polled(offset),
        MonitorEvent::Signal => detector.signalled(offset),
    }
}

/// Decides what a monitor of resumes does with a sample.
pub fn monitor(detector: &mut ResumeDetector, event: MonitorEvent, offset: Option<i128>) -> (action:
    MonitorAction)
    ensures
        action == monitor_action(old(detector)@, event, offset_model(offset)),
        final(detector)@ == monitored(old(detector)@, event, offset_model(offset)),
{
    let announce = match event {
        MonitorEvent::ConsumersGone => return MonitorAction::Stop,
        MonitorEvent::Tick => detector.poll(offset),
        MonitorEvent::Signal => detector.signal(offset),
    };
    if announce {
        MonitorAction::Announce
    } else {
        MonitorAction::Wait
    }
}

/// The number of the resume after a number.
pub open spec fn generation_after(generation: u64) -> u64 {
    if generation == u64::MAX {
        generation
    } else {
        (generation + 1) as u64
    }
}

/// The number of the resume after a number.
pub fn next_generation(generation: u64) -> (r: u64)
    ensures
        r == generation_after(generation),
{
    if generation == u64::MAX {
        generation
    } else {
        generation + 1
    }
}

/// A resume that a sample reported is not announced again by its late signal; the next
/// signal is announced again.
pub proof fn late_signals_are_deduplicated(
    detector: DetectorModel,
    sample: Option<int>,
    late: Option<int>,
    later: Option<int>,
)
    requires
        detector.jumped(sample),
        !detector.polled(sample).jumped(late),
    ensures
        !detector.polled(sample).announces(late),
        detector.polled(sample).signalled(late).announces(later),
{
}

/// A signal without a sample that shows it is announced, however short the suspend was,
/// and a sample of the same offset does not report it again.
pub proof fn short_sleeps_are_announced_once(detector: DetectorModel, offset: int)
    requires
        !detector.reported_before_signal,
    ensures
        detector.announces(Some(offset)),
        !detector.signalled(Some(offset)).jumped(Some(offset)),
{
}

/// The first sample, samples without change, and discarded samples report nothing.
pub proof fn startup_and_stalls_are_not_resumes(
    detector: DetectorModel,
    first: Option<int>,
    offset: int,
)
    requires
        detector.offset is None,
    ensures
        !detector.jumped(first),
        !detector.polled(Some(offset)).jumped(Some(offset)),
        !detector.polled(Some(offset)).jumped(None),
        detector.polled(Some(offset)).polled(None) == detector.polled(Some(offset)),
{
}

/// A time is its seconds and the nanoseconds of the next one.
pub proof fn times_are_seconds_and_nanos(seconds: i64, more: i64)
    ensures
        total_nanos((0, more)) == more,
        total_nanos((seconds, more)) == total_nanos((seconds, 0)) + more,
        seconds < i64::MAX ==> total_nanos(((seconds + 1) as i64, more)) == total_nanos(
            (seconds, more),
        ) + 1_000_000_000,
{
}

/// An offset is taken from the middle of the two readings around it, and not at all where
/// these are fifty milliseconds apart or more. What passes in suspend adds to it, and what
/// passes on both clocks does not matter.
pub proof fn offsets_grow_by_the_time_in_suspend(
    before: int,
    boot: int,
    after: int,
    asleep: int,
    awake: int,
)
    ensures
        offset_of(before, boot, after) is None <==> after - before >= 50_000_000,
        offset_of(before, boot, after) is Some ==> {
            &&& -1 <= before + after - 2 * (boot - offset_of(before, boot, after)->0) <= 1
            &&& before + after >= 0 ==> 0 <= before + after - 2 * (boot - offset_of(
                before,
                boot,
                after,
            )->0)
            &&& before + after <= 0 ==> before + after - 2 * (boot - offset_of(
                before,
                boot,
                after,
            )->0) <= 0
            &&& offset_of(before, boot + asleep, after) == Some(
                offset_of(before, boot, after)->0 + asleep,
            )
            &&& before + after >= 0 && awake >= 0 ==> offset_of(
                before + awake,
                boot + awake,
                after + awake,
            ) == offset_of(before, boot, after)
        },
{
}

/// The offset of three readings goes by the times that they show.
pub proof fn readings_are_compared_in_nanos(before: Reading, boot: Reading, after: Reading)
    ensures
        offset_between(before, boot, after) is None <==> total_nanos(after.shown()) - total_nanos(
            before.shown(),
        ) >= 50_000_000,
        offset_between(before, boot, after) is Some && total_nanos(before.shown()) >= 0
            && total_nanos(after.shown()) >= 0 ==> offset_between(before, boot, after) == Some(
            total_nanos(boot.shown()) - (total_nanos(before.shown()) + total_nanos(after.shown()))
                / 2,
        ),
        sampled(before, boot, after) ==> before.source() is Monotonic && boot.source() is Boottime
            && after.source() is Monotonic && boot.turn() - before.turn() == 1 && after.turn()
            - boot.turn() == 1,
{
}

/// A resume shows in an offset that has grown by more than a quarter of a second since the
/// last sample that counted; what was not sampled shows nothing.
pub proof fn resumes_show_in_the_offset(detector: DetectorModel, previous: int, now: int)
    ensures
        detector.offset == Some(previous) ==> (detector.jumped(Some(now)) <==> now > previous
            + 250_000_000),
        detector.offset is None ==> !detector.jumped(Some(now)),
        !detector.jumped(None),
{
}

/// A detector keeps the last sample that counted, and remembers a resume that it reported
/// until the next signal.
pub proof fn samples_are_remembered(detector: DetectorModel, now: int)
    ensures
        detector.polled(Some(now)).offset == Some(now),
        detector.signalled(Some(now)).offset == Some(now),
        detector.polled(None) == detector,
        detector.signalled(None).offset == detector.offset,
        detector.polled(Some(now)).reported_before_signal <==> detector.reported_before_signal
            || detector.jumped(Some(now)),
        !detector.signalled(Some(now)).reported_before_signal,
        !detector.signalled(None).reported_before_signal,
        detector.announces(Some(now)) <==> detector.jumped(Some(now))
            || !detector.reported_before_signal,
        detector.announces(None) <==> !detector.reported_before_signal,
{
}

/// A monitor stops once nobody listens, and takes no sample then. On a tick it announces a
/// resume that shows in the offset, and on a signal also one that was not reported yet.
pub proof fn monitors_announce_resumes(detector: DetectorModel, previous: int, now: int)
    requires
        detector.offset == Some(previous),
    ensures
        monitor_action(detector, MonitorEvent::ConsumersGone, Some(now)) is Stop,
        monitored(detector, MonitorEvent::ConsumersGone, Some(now)) == detector,
        monitor_action(detector, MonitorEvent::Tick, Some(now)) == if now - previous
            > 250_000_000 {
            MonitorAction::Announce
        } else {
            MonitorAction::Wait
        },
        monitor_action(detector, MonitorEvent::Signal, Some(now)) == if now - previous
            > 250_000_000 || !detector.reported_before_signal {
            MonitorAction::Announce
        } else {
            MonitorAction::Wait
        },
        monitored(detector, MonitorEvent::Tick, Some(now)) == (DetectorModel {
            offset: Some(now),
            reported_before_signal: detector.reported_before_signal || now - previous
                > 250_000_000,
        }),
        monitored(detector, MonitorEvent::Signal, Some(now)) == (DetectorModel {
            offset: Some(now),
            reported_before_signal: false,
        }),
{
}

/// Resumes are numbered one by one, up to the last number.
pub proof fn resumes_are_numbered(generation: u64)
    ensures
        generation < u64::MAX ==> generation_after(generation) == generation + 1,
        generation_after(u64::MAX) == u64::MAX,
{
}

} // verus!
