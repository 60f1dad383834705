use std::time::{Duration, Instant};

use daemon_framework::id::IdSequence;
use daemon_framework::operation::{
    OperationAdmissionError, OperationLimits, OwnedOperations, RecentResults,
};
use daemon_framework::subscription::{OwnedTaskRegistry, TaskAdmissionError, TaskLimits};
use daemon_framework::task::{panic_report, TaskGroup};

#[test]
fn generates_prefixed_monotonic_ids() {
    let mut ids = IdSequence::default();
    assert_eq!(ids.next("subscription"), "subscription-1");
    assert_eq!(ids.next("request"), "request-2");
}

#[test]
fn ids_start_over_past_the_last_number() {
    let mut ids = IdSequence::new(u64::MAX);
    assert_eq!(ids.next("x"), "x-18446744073709551615");
    assert_eq!(ids.next("x"), "x-0");
}

#[test]
fn numbers_tell_ids_apart_whatever_the_prefixes() {
    let mut ids = IdSequence::new(1);
    let made: Vec<_> = ["a", "a-1", "a-", "", "a"].iter().map(|prefix| ids.next(prefix)).collect();
    assert_eq!(made, ["a-1", "a-1-2", "a--3", "-4", "a-5"]);
}

#[test]
fn admission_and_terminal_claim_are_owner_scoped() {
    let mut active = OwnedOperations::new(OperationLimits { total: 2, per_owner: 1 });
    active.insert("one".into(), Some("a".into()), 1).unwrap();
    assert_eq!(active.check_admission(Some("a")), Err(OperationAdmissionError::Full));
    active.insert("two".into(), Some("b".into()), 2).unwrap();
    assert_eq!(active.check_admission(Some("c")), Err(OperationAdmissionError::Full));
    assert!(active.claim_owned("one", Some("b")).is_none());
    assert_eq!(active.claim_owned("one", Some("a")).unwrap().value, 1);
    assert!(active.claim("one").is_none());
    assert!(active.check_admission(Some("a")).is_ok());
}

#[test]
fn writing_keeps_limits() {
    let mut active = OwnedOperations::new(OperationLimits { total: 2, per_owner: 1 });
    active.insert("one".into(), Some("a".into()), 1).unwrap();
    *active.get_mut("one").unwrap() = 5;
    assert_eq!(active.len(), 1);
    assert_eq!(active.check_admission(Some("a")), Err(OperationAdmissionError::Full));
    assert!(active.check_admission(Some("b")).is_ok());
    assert_eq!(active.claim_owned("one", Some("a")).unwrap().value, 5);
}

#[test]
fn operations_are_found_changed_and_listed() {
    let mut active = OwnedOperations::new(OperationLimits { total: 9, per_owner: 9 });
    active.insert("b".into(), None, 2).unwrap();
    active.insert("a".into(), Some("x".into()), 1).unwrap();
    let duplicate = active.insert("a".into(), Some("y".into()), 3);
    assert_eq!(duplicate, Err(OperationAdmissionError::DuplicateId));
    assert_eq!(active.get_owned("a", Some("x")), Some(&1));
    assert_eq!(active.get_owned("a", None), None);
    assert_eq!(active.get_owned("b", None), Some(&2));
    *active.get_mut("a").unwrap() = 7;
    assert!(active.get_mut("c").is_none());
    let listed: Vec<_> = active.iter().into_iter().map(|(id, op)| (id.clone(), op.value)).collect();
    assert_eq!(listed, [("a".to_owned(), 7), ("b".to_owned(), 2)]);
    assert_eq!(active.len(), 2);
    assert_eq!(active.claim("a").unwrap().owner.as_deref(), Some("x"));
    assert!(!active.contains("a"));
    assert_eq!(active.get("b").unwrap().value, 2);
    assert_eq!(
        OperationAdmissionError::Full.message(),
        "too many active operations; retry after an operation finishes"
    );
    assert_eq!(OperationAdmissionError::DuplicateId.message(), "operation ID is already active");
}

#[test]
fn operations_are_taken_by_owner() {
    let mut active = OwnedOperations::new(OperationLimits { total: 9, per_owner: 9 });
    for (id, owner) in [("d", "x"), ("a", "y"), ("c", "x"), ("b", "y")] {
        active.insert(id.into(), Some(owner.into()), ()).unwrap();
    }
    let taken: Vec<_> = active.take_owned(Some("x")).into_iter().map(|(id, _)| id).collect();
    assert_eq!(taken, ["c", "d"]);
    assert_eq!(active.len(), 2);
    let rest: Vec<_> = active.take_all().into_iter().map(|(id, _)| id).collect();
    assert_eq!(rest, ["a", "b"]);
    assert_eq!(active.len(), 0);
}

#[test]
fn terminal_results_are_bounded_replaced_and_expire() {
    let ttl = Duration::from_secs(5);
    let mut recent = RecentResults::new(2, Some(ttl));
    for id in 0..3 {
        recent.record(id.to_string(), Some("a".into()), id);
    }
    assert!(recent.get_owned("0", Some("a")).is_none());
    assert!(recent.get_owned("1", Some("b")).is_none());
    recent.record("1".into(), Some("a".into()), 42);
    assert_eq!(recent.values().into_iter().copied().collect::<Vec<_>>(), vec![2, 42]);
    recent.prune(Instant::now() + ttl);
    assert!(recent.is_empty());
}

#[test]
fn results_expire_at_the_nanosecond() {
    let mut recent = RecentResults::new(4, Some(Duration::from_nanos(10)));
    recent.record_at("a".into(), None, 1, 100);
    recent.record_at("b".into(), None, 2, 105);
    assert_eq!(recent.get_owned_at("a", None, 109), Some(&1));
    assert_eq!(recent.get_owned_at("a", None, 90), Some(&1));
    assert_eq!(recent.values_at(110), [&2]);
    recent.prune_at(115);
    assert!(recent.is_empty());
    let mut kept = RecentResults::new(1, None);
    kept.record_at("a".into(), None, 1, 0);
    assert_eq!(kept.get_owned_at("a", None, u128::MAX), Some(&1));
    kept.record_at("b".into(), Some("o".into()), 2, 1);
    assert_eq!(kept.values_at(1), [&2]);
    assert_eq!(kept.get_owned_at("b", None, 1), None);
}

#[test]
fn admission_cancellation_and_shutdown_are_owner_scoped() {
    let mut registry = OwnedTaskRegistry::with_limits(1, TaskLimits { total: 2, per_owner: 1 });
    registry.spawn_until("one".into(), Some("a".into()), 1).unwrap();
    assert_eq!(
        registry.spawn_until("two".into(), Some("a".into()), 2),
        Err(TaskAdmissionError::Full)
    );
    registry.spawn_until("two".into(), Some("b".into()), 2).unwrap();
    assert_eq!(
        registry.spawn_until("three".into(), Some("c".into()), 3),
        Err(TaskAdmissionError::Full)
    );
    assert!(registry.cancel_owned("one", Some("b")).is_none());
    assert_eq!(registry.cancel_owner("a"), [("one".to_owned(), 1)]);
    assert_eq!(registry.cancel_owned("two", Some("b")), Some(2));
    assert!(registry.shutdown().is_empty());
    assert_eq!(registry.spawn_until("late".into(), None, 4), Err(TaskAdmissionError::Closed));
    assert_eq!(registry.admission("late", None), Err(TaskAdmissionError::Closed));
}

#[test]
fn immediate_completion_panic_and_stop_remove_registration() {
    let mut registry = OwnedTaskRegistry::default();
    let complete = registry.spawn_until("complete".into(), None, ()).unwrap();
    let panic = registry.spawn_until("panic".into(), None, ()).unwrap();
    let stop = registry.spawn_until("stop".into(), None, ()).unwrap();
    assert!(registry.release("complete", complete));
    assert!(!registry.release("complete", complete));
    assert!(!registry.is_empty());
    // The guard of a task that panics gives its registration back like any other.
    assert!(registry.release("panic", panic));
    assert!(!registry.is_empty());
    assert!(registry.release("stop", stop));
    assert!(registry.is_empty());
}

#[test]
fn old_cleanup_cannot_remove_reused_id() {
    let mut registry = OwnedTaskRegistry::default();
    let old = registry.spawn_until("id".into(), None, 1).unwrap();
    assert_eq!(registry.cancel_owned("id", None), Some(1));
    let new = registry.spawn_until("id".into(), None, 2).unwrap();
    assert_ne!(old, new);
    assert!(!registry.release("id", old));
    assert_eq!(registry.cancel_owned("id", None), Some(2));
}

#[test]
fn registries_number_tasks_and_give_up_their_handles() {
    let mut registry = OwnedTaskRegistry::new(7);
    assert_eq!(registry.next_id("subscription"), "subscription-7");
    assert_eq!(registry.next_id("subscription"), "subscription-8");
    for i in 0..64 {
        registry.spawn_until(i.to_string(), None, i).unwrap();
    }
    assert_eq!(registry.spawn_until("x".into(), None, 64), Err(TaskAdmissionError::Full));
    assert_eq!(registry.spawn_until("3".into(), None, 3), Err(TaskAdmissionError::DuplicateId));
    assert_eq!(registry.cancel_all().len(), 64);
    assert!(registry.is_empty());
    assert!(registry.admission("x", None).is_ok());
    for (error, text) in [
        (TaskAdmissionError::Closed, "task registry is shutting down"),
        (TaskAdmissionError::Full, "too many active tasks; retry after a task finishes"),
        (TaskAdmissionError::DuplicateId, "task ID is already active"),
    ] {
        assert_eq!(error.message(), text);
    }
}

#[test]
fn shutdown_joins_and_rejects_late_spawns() {
    let mut tasks = TaskGroup::default();
    assert!(tasks.spawn(vec![], 1));
    assert!(tasks.spawn(vec![false], 2));
    assert!(tasks.spawn(vec![true, false], 3));
    assert_eq!(tasks.handles(), &[2, 3]);
    assert_eq!(tasks.shutdown(), [2, 3]);
    assert!(!tasks.spawn(vec![], 4));
    assert!(tasks.shutdown().is_empty());
}

#[test]
fn abort_closes_the_group_before_cancellation() {
    let mut tasks = TaskGroup::new();
    assert!(tasks.spawn(vec![], 1));
    assert!(!tasks.is_closed());
    assert_eq!(tasks.abort(), &[1]);
    assert!(tasks.is_closed());
    assert!(!tasks.spawn(vec![false], 2));
    assert_eq!(tasks.shutdown(), [1]);
}

#[test]
fn panics_are_reported_by_name() {
    assert_eq!(panic_report("operation", Some("injected")), "operation panicked: injected");
    assert_eq!(panic_report("operation", None), "operation panicked: non-string panic");
}
