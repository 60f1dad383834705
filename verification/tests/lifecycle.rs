use daemon_framework::blocking::{
    lane_bounds, BlockingLane, DispatchAction, DispatchEvent, JobReply, LaneError, LaneShutdown,
    ShutdownEvent, ShutdownProgress, ShutdownStep,
};
use daemon_framework::forward::{
    broadcast_event, BroadcastEvent, Received, WatchForward, WatchPhase,
};
use daemon_framework::owner::{
    is_owner_loss, is_replacement, published_loss, received_loss, wait, LossSignal, OwnerChange,
    OwnerLossError, WaitAction, WaitEvent,
};
use daemon_framework::resume::{
    monitor, nanos, next_generation, sample_offset, suspend_offset, MonitorAction, MonitorEvent,
    ResumeDetector,
};

#[test]
fn short_sleep_signal_and_clock_fallback_are_deduplicated() {
    let mut detector = ResumeDetector::default();
    assert!(!detector.poll(Some(0)));
    assert!(detector.signal(Some(100_000_000)));
    assert!(!detector.poll(Some(100_000_000)));
    assert!(detector.poll(Some(5_100_000_000)));
    assert!(!detector.signal(Some(5_100_000_000)));
    assert!(detector.signal(Some(10_100_000_000)));
}

#[test]
fn startup_stalls_and_wall_clock_changes_are_not_resumes() {
    let mut detector = ResumeDetector::default();
    assert!(!detector.poll(Some(123_000_000_000)));
    for _ in 0..10 {
        assert!(!detector.poll(Some(123_000_000_000)));
    }
    assert!(!detector.poll(None));
    assert!(suspend_offset().is_some());
}

#[test]
fn jumps_count_beyond_a_quarter_of_a_second() {
    let mut detector = ResumeDetector::default();
    assert!(!detector.poll(Some(-5)));
    assert!(!detector.poll(Some(249_999_995)));
    assert!(detector.poll(Some(499_999_996)));
    assert!(!detector.poll(Some(i128::MIN)));
    assert!(detector.poll(Some(i128::MAX)));
    assert!(!detector.poll(Some(i128::MAX)));
}

#[test]
fn samples_are_taken_between_two_readings() {
    assert_eq!(nanos((2, 5)), 2_000_000_005);
    assert_eq!(nanos((-1, 5)), -999_999_995);
    assert_eq!(sample_offset(100, 1_000, 201), Some(850));
    assert_eq!(sample_offset(-3, 0, 0), Some(1));
    assert_eq!(sample_offset(0, 1_000, 49_999_999), Some(1_000 - 24_999_999));
    assert_eq!(sample_offset(0, 1_000, 50_000_000), None);
    let mut detector = ResumeDetector::default();
    assert!(!detector.resumed());
    assert!(suspend_offset().unwrap() < 1_000_000_000 * 60 * 60 * 24 * 365);
}

#[test]
fn monitors_announce_each_resume_once() {
    let mut detector = ResumeDetector::default();
    let tick = |detector: &mut ResumeDetector, offset| monitor(detector, MonitorEvent::Tick, offset);
    assert_eq!(tick(&mut detector, Some(0)), MonitorAction::Wait);
    assert_eq!(tick(&mut detector, Some(1_000_000_000)), MonitorAction::Announce);
    let late = monitor(&mut detector, MonitorEvent::Signal, Some(1_000_000_000));
    assert_eq!(late, MonitorAction::Wait);
    let next = monitor(&mut detector, MonitorEvent::Signal, None);
    assert_eq!(next, MonitorAction::Announce);
    let gone = monitor(&mut detector, MonitorEvent::ConsumersGone, None);
    assert_eq!(gone, MonitorAction::Stop);
    assert_eq!(next_generation(4), 5);
    assert_eq!(next_generation(u64::MAX), u64::MAX);
}

/// Takes the dispatcher of a lane through one job.
fn take_job(lane: &mut BlockingLane) {
    assert_eq!(lane.dispatch(DispatchEvent::PermitAcquired), DispatchAction::ReceiveJob);
    assert_eq!(lane.dispatch(DispatchEvent::JobReceived), DispatchAction::RunJob);
}

#[test]
fn bounds_admission_contains_panics_and_rejects_after_shutdown() {
    let mut lane = BlockingLane::start(1, 1);
    assert_eq!(lane.try_submit(false), Ok(()));
    take_job(&mut lane);
    let queued = lane.try_submit(false);
    assert_eq!(queued, Ok(()));
    let full = lane.try_submit(false);
    assert_eq!(full, Err(LaneError::Full));
    assert_eq!(BlockingLane::call(full, JobReply::Returned(7)), Err(LaneError::Full));
    assert!(lane.job_ended());
    take_job(&mut lane);
    assert_eq!(BlockingLane::call(queued, JobReply::Returned(42)), Ok(42));
    assert!(lane.job_ended());
    let panicking = lane.try_submit(false);
    take_job(&mut lane);
    assert!(lane.job_ended());
    assert_eq!(BlockingLane::call::<u8>(panicking, JobReply::Panicked), Err(LaneError::Panicked));
    let last = lane.try_submit(false);
    take_job(&mut lane);
    assert!(lane.job_ended());
    assert_eq!(BlockingLane::call(last, JobReply::Returned(7)), Ok(7));
    assert!(!lane.is_closed());
    lane.shutdown(true);
    assert!(lane.is_closed());
    assert_eq!(lane.active_jobs(), 0);
    assert_eq!(lane.try_submit(false), Err(LaneError::Closed));
    assert!(lane_bounds(1, 1));
    assert!(!lane_bounds(0, 1));
    assert!(!lane_bounds(1, 0));
    assert_eq!(LaneError::Full.message(), "blocking queue is full");
    assert_eq!(LaneError::Closed.message(), "blocking lane is closed");
    assert_eq!(LaneError::Panicked.message(), "blocking job panicked");
}

#[test]
fn cancelled_waiters_keep_admission_and_control_lane_stays_available() {
    let mut requests = BlockingLane::start(1, 1);
    let mut controls = BlockingLane::start(1, 1);
    // The waiter of the first job has gone; the job runs on.
    assert_eq!(requests.try_submit(false), Ok(()));
    take_job(&mut requests);
    let queued = requests.try_submit(false);
    assert_eq!(queued, Ok(()));
    assert_eq!(requests.try_submit(false), Err(LaneError::Full));
    let control = controls.try_submit(false);
    take_job(&mut controls);
    assert_eq!(BlockingLane::call(control, JobReply::Returned("cancelled")), Ok("cancelled"));
    assert!(requests.job_ended());
    take_job(&mut requests);
    assert_eq!(BlockingLane::call(queued, JobReply::Returned(42)), Ok(42));
}

#[test]
fn lanes_without_a_dispatcher_are_closed() {
    let mut lane = BlockingLane::start(1, 1);
    assert_eq!(lane.try_submit(true), Err(LaneError::Closed));
    assert_eq!(lane.try_submit(false), Ok(()));
    assert_eq!(lane.try_submit(true), Err(LaneError::Closed));
    assert_eq!(lane.dispatch(DispatchEvent::ShutdownSignalled), DispatchAction::Stop);
    assert_eq!(lane.try_submit(false), Err(LaneError::Closed));
}

#[test]
fn timeout_reports_running_jobs_and_drops_queued_replies() {
    let mut lane = BlockingLane::start(1, 1);
    assert_eq!(lane.try_submit(false), Ok(()));
    take_job(&mut lane);
    let queued = lane.try_submit(false);
    assert_eq!(BlockingLane::call::<u8>(queued, JobReply::Dropped), Err(LaneError::Closed));
    let step = lane.shutdown(true);
    assert_eq!(step, ShutdownStep::AwaitDispatcher);
    let progress = BlockingLane::shutdown_step(step, ShutdownEvent::DispatcherStopped);
    let ShutdownProgress::Continue(step) = progress else {
        panic!("the shutdown waits for running jobs");
    };
    let report = BlockingLane::shutdown_step(step, ShutdownEvent::IdleOrTimedOut(lane.active_jobs()));
    let expected = LaneShutdown { dispatcher_stopped: true, active_jobs: 1 };
    assert_eq!(report, ShutdownProgress::Report(expected, true));
    assert!(lane.job_ended());
    let again =
        BlockingLane::shutdown_step(lane.shutdown(false), ShutdownEvent::IdleOrTimedOut(0));
    let expected = LaneShutdown { dispatcher_stopped: true, active_jobs: 0 };
    assert_eq!(again, ShutdownProgress::Report(expected, false));
}

#[test]
fn stuck_dispatchers_are_aborted_and_reported() {
    let step = BlockingLane::shutdown_step;
    let aborting = step(ShutdownStep::AwaitDispatcher, ShutdownEvent::DispatcherTimedOut);
    assert_eq!(aborting, ShutdownProgress::Continue(ShutdownStep::AbortDispatcher));
    let waiting = ShutdownStep::AwaitIdle { dispatcher_stopped: false };
    let joined = step(ShutdownStep::AbortDispatcher, ShutdownEvent::DispatcherJoined);
    assert_eq!(joined, ShutdownProgress::Continue(waiting));
    let expected = LaneShutdown { dispatcher_stopped: false, active_jobs: 0 };
    let report = step(waiting, ShutdownEvent::IdleOrTimedOut(0));
    assert_eq!(report, ShutdownProgress::Report(expected, true));
}

#[test]
fn dispatchers_hold_a_permit_before_they_take_a_job() {
    let mut lane = BlockingLane::start(4, 1);
    assert_eq!(lane.try_submit(false), Ok(()));
    assert_eq!(lane.dispatch(DispatchEvent::PermitAcquired), DispatchAction::ReceiveJob);
    assert_eq!(lane.active_jobs(), 0);
    assert_eq!(lane.dispatch(DispatchEvent::JobReceived), DispatchAction::RunJob);
    assert_eq!(lane.active_jobs(), 1);
    assert!(lane.job_ended());
    assert_eq!(lane.dispatch(DispatchEvent::PermitAcquired), DispatchAction::ReceiveJob);
    assert_eq!(lane.dispatch(DispatchEvent::ShutdownSignalled), DispatchAction::Stop);
    let mut other = BlockingLane::start(1, 1);
    assert_eq!(other.dispatch(DispatchEvent::PermitsClosed), DispatchAction::Stop);
}

#[test]
fn watch_emits_once_releases_borrow_and_stops_when_closed() {
    let (forward, phase) = WatchForward::Fresh.next(false);
    assert_eq!(phase, Some(WatchPhase::Initial));
    let (forward, phase) = forward.next(true);
    assert_eq!(phase, Some(WatchPhase::Changed));
    let (forward, phase) = forward.next(false);
    assert_eq!((forward, phase), (WatchForward::Ended, None));
    assert_eq!(forward.next(true), (WatchForward::Ended, None));
}

#[test]
fn lag_is_delivered_before_surviving_items() {
    let received = vec![Received::Lagged(1), Received::Item(2), Received::Closed];
    let events: Vec<_> = received.into_iter().map_while(broadcast_event).collect();
    assert_eq!(events, vec![BroadcastEvent::Lagged(1), BroadcastEvent::Item(2)]);
}

fn change(name: &str, old: &str, new: &str) -> OwnerChange {
    OwnerChange { name: name.to_owned(), old: old.to_owned(), new: new.to_owned() }
}

#[test]
fn unique_names_are_lost_and_watched_names_replaced() {
    assert!(is_owner_loss(&change(":1.1", ":1.1", "")));
    assert!(!is_owner_loss(&change("org.test", ":1.1", "")));
    assert!(!is_owner_loss(&change(":1.1", "", ":1.1")));
    assert!(!is_owner_loss(&change(":1.1", ":1.1", ":1.2")));
    assert!(!is_owner_loss(&change("", ":1.1", "")));
    assert_eq!(published_loss(Some(change(":1.1", ":1.1", ""))).as_deref(), Some(":1.1"));
    assert_eq!(published_loss(Some(change(":1.1", "", ""))), None);
    assert_eq!(published_loss(None), None);
    assert!(is_replacement("org.test", &change("org.test", ":1.1", ":1.2")));
    assert!(is_replacement("org.test", &change("org.test", ":1.1", "")));
    assert!(!is_replacement("org.test", &change("org.test", "", ":1.2")));
    assert!(!is_replacement("org.test", &change("org.test", ":1.1", ":1.1")));
    assert!(!is_replacement("org.test", &change("org.other", ":1.1", ":1.2")));
}

#[test]
fn stopped_monitor_wakes_existing_and_late_receivers() {
    let stopped = Err(OwnerLossError::Stopped);
    assert_eq!(received_loss(true, LossSignal::Lost(":1.1".to_owned())), stopped);
    assert_eq!(received_loss(true, LossSignal::Closed), stopped);
}

#[test]
fn lag_is_explicit_and_dropped_monitor_is_terminal() {
    assert_eq!(received_loss(false, LossSignal::Lagged(1)), Err(OwnerLossError::Lagged(1)));
    assert_eq!(
        received_loss(false, LossSignal::Lost(":1.2".to_owned())).unwrap(),
        ":1.2"
    );
    assert_eq!(received_loss(false, LossSignal::Closed), Err(OwnerLossError::Stopped));
    assert_eq!(OwnerLossError::Lagged(12).message(), "missed 12 D-Bus owner losses");
    assert_eq!(OwnerLossError::Stopped.message(), "D-Bus owner monitor stopped");
}

#[test]
fn waits_check_ownership_after_subscribing_and_after_lag() {
    assert_eq!(wait(":1.1", WaitEvent::Subscribed), WaitAction::CheckOwner);
    assert_eq!(wait(":1.1", WaitEvent::HasOwner(true)), WaitAction::Receive);
    assert_eq!(wait(":1.1", WaitEvent::HasOwner(false)), WaitAction::Lost);
    let lost = |name: &str| WaitEvent::Received(Ok(name.to_owned()));
    assert_eq!(wait(":1.1", lost(":1.1")), WaitAction::Lost);
    assert_eq!(wait(":1.1", lost(":1.2")), WaitAction::Receive);
    let failed = |error| WaitEvent::Received(Err(error));
    assert_eq!(wait(":1.1", failed(OwnerLossError::Lagged(3))), WaitAction::CheckOwner);
    assert_eq!(
        wait(":1.1", failed(OwnerLossError::Stopped)),
        WaitAction::Fail(OwnerLossError::Stopped)
    );
}
