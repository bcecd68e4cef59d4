use omega_daemon::hosts::execution::{connected, startup_failed};
use omega_daemon::hosts::invocations::{Invocations, RECENT_FAILURES, RETAINED};
use omega_daemon::hosts::processes::{Processes, Readiness};
use omega_daemon::hosts::startup::{
    BackoffSchedule, CommandHostPhase, Lifetime, ProcessPhase, StartPolicy, Startup, ERROR_LIMIT,
};
use omega_daemon::refusal::ErrorCode;

const MS: u64 = 1_000_000;

fn schedule() -> BackoffSchedule {
    BackoffSchedule {
        healthy: 30_000 * MS,
        delays: vec![250 * MS, 500 * MS, 1_000 * MS, 2_000 * MS, 5_000 * MS],
    }
}

#[test]
fn eligibility_and_last_failure_are_independent_of_process_readiness() {
    let schedule = schedule();
    let mut startup = Startup::new();
    let lifetime = Lifetime::Persistent(StartPolicy::OnDemand);
    let mut now = 10 * MS;
    assert_eq!(startup.phase(&vec![], lifetime, now), CommandHostPhase::Idle);
    startup.reserve(now, &schedule).unwrap();
    startup.failed("cannot spawn");
    assert_eq!(startup.phase(&vec![], lifetime, now), CommandHostPhase::Backoff);
    assert!(startup.reserve(now, &schedule).is_err());
    assert_eq!(startup.error(), Some("cannot spawn"));
    now += 1_000 * MS;
    assert!(startup.retry_after(now).is_none());
    assert_eq!(startup.phase(&vec![], lifetime, now), CommandHostPhase::Failed);
    startup.succeeded();
    assert_eq!(startup.phase(&vec![], lifetime, now), CommandHostPhase::Idle);
    assert!(startup.error().is_none());
}

#[test]
fn active_processes_take_precedence_and_failure_text_is_bounded() {
    let mut startup = Startup::new();
    startup.failed(&"é".repeat(1000));
    assert_eq!(startup.error().unwrap().chars().count(), 512);
    assert_eq!(ERROR_LIMIT, 512);
    for (phase, expected) in [
        (ProcessPhase::Running, CommandHostPhase::Running),
        (ProcessPhase::Starting, CommandHostPhase::Starting),
        (ProcessPhase::Stopping, CommandHostPhase::Stopping),
    ] {
        assert_eq!(startup.phase(&vec![phase], Lifetime::OneShot, 0), expected);
    }
}

#[test]
fn a_refused_reservation_says_why_and_retry_after_rounds_up() {
    let schedule = schedule();
    let mut startup = Startup::new();
    startup.reserve(0, &schedule).unwrap();
    let refusal = startup.reserve(MS, &schedule).unwrap_err();
    assert_eq!(refusal.code, ErrorCode::Unavailable);
    assert_eq!(refusal.message, "command host is waiting for restart backoff");
    // 250 ms after 0, asked at 1.5 ms: 248.5 ms, rounded up.
    assert_eq!(startup.retry_after(MS + MS / 2), Some(249));
    assert_eq!(startup.retry_after(250 * MS), None);
}

#[test]
fn backoff_grows_and_resets_after_a_healthy_run() {
    let schedule = schedule();
    let mut startup = Startup::new();
    startup.reserve(0, &schedule).unwrap();
    assert_eq!(startup.next, Some(250 * MS));
    startup.reserve(250 * MS, &schedule).unwrap();
    assert_eq!(startup.next, Some(750 * MS));
    startup.reserve(750 * MS, &schedule).unwrap();
    assert_eq!(startup.next, Some(1_750 * MS));
    // Long after the last start the schedule starts over.
    let later = 100_000 * MS;
    startup.reserve(later, &schedule).unwrap();
    assert_eq!(startup.next, Some(later + 250 * MS));
}

#[test]
fn an_eager_host_without_processes_is_starting() {
    let startup = Startup::new();
    assert_eq!(
        startup.phase(&vec![], Lifetime::Persistent(StartPolicy::Eager), 0),
        CommandHostPhase::Starting
    );
}

#[test]
fn activity_counts_current_work_and_retains_only_recent_failures_for_its_host() {
    let mut registry = Invocations::new();
    let mut pending = Vec::new();
    for index in 0..3 {
        let id = registry.record("worker".to_string(), "test.run".to_string(), 0).unwrap();
        if index > 0 {
            registry.starting(id, 0);
        }
        pending.push(id);
    }
    registry.dispatched(pending[2], 1);
    for index in 0..8 {
        let id = registry.record("worker".to_string(), format!("test.fail{index}"), 0).unwrap();
        registry.finish(id, Err(ErrorCode::Unavailable), 0);
    }
    let other = registry.record("other".to_string(), "test.secret".to_string(), 0).unwrap();
    registry.finish(other, Err(ErrorCode::InvalidArgument), 0);
    let activity = registry.activity("worker", 0);
    assert_eq!((activity.queued, activity.active), (1, 2));
    assert_eq!(activity.failures.len(), RECENT_FAILURES);
    assert_eq!(activity.failures[0].command, "test.fail7");
    assert_eq!(activity.failures[4].command, "test.fail3");
    registry.finish(pending[1], Ok(()), 0);
    // The remaining calls went away unanswered.
    registry.complete(pending[0], omega_daemon::hosts::invocations::Completion::Abandoned, 0);
    registry.complete(pending[2], omega_daemon::hosts::invocations::Completion::Abandoned, 0);
    let activity = registry.activity("worker", 0);
    assert_eq!((activity.queued, activity.active), (0, 0));
    assert_eq!(activity.failures.len(), 5);
}

#[test]
fn tracking_is_bounded_and_separates_queue_and_execution_time() {
    let mut registry = Invocations::new();
    let id = registry.record("worker".to_string(), "test.run".to_string(), 0).unwrap();
    registry.starting(id, 20 * MS);
    registry.dispatched(id, 7);
    registry.finish(id, Ok(()), 50 * MS);
    let view = registry.inspect("worker", "test.run", 60 * MS);
    assert_eq!(view[0].queue_ms, 20);
    assert_eq!(view[0].execution_ms, 30);
    assert_eq!(view[0].process_id, 7);
    for _ in 0..100 {
        let id = registry.record("worker".to_string(), "test.run".to_string(), 60 * MS).unwrap();
        registry.complete(id, omega_daemon::hosts::invocations::Completion::Abandoned, 60 * MS);
    }
    assert_eq!(registry.inspect("worker", "test.run", 60 * MS).len(), RETAINED);
    assert_eq!(RETAINED, 64);
}

#[test]
fn invocation_identities_count_up_from_one() {
    let mut registry = Invocations::new();
    assert_eq!(registry.record("h".to_string(), "c".to_string(), 0).unwrap(), 1);
    assert_eq!(registry.record("h".to_string(), "c".to_string(), 0).unwrap(), 2);
}

#[test]
fn startup_failure_cannot_overwrite_a_connected_process_or_admit_a_stopped_one() {
    let mut processes = Processes::new();
    let mut startup = Startup::new();
    startup.failed("previous failure");
    let (id, _token) = processes.prepare("worker".to_string(), None, "hash-1".to_string()).unwrap();
    assert!(connected(&mut startup, &mut processes, id).is_ok());
    assert!(startup.error().is_none());
    processes.disconnect(id);
    assert!(!startup_failed(&mut startup, &mut processes, id, "exited before handshake"));
    assert!(startup.error().is_none());
    processes.remove(id);

    let (id, _token) = processes.prepare("worker".to_string(), None, "hash-1".to_string()).unwrap();
    assert!(startup_failed(&mut startup, &mut processes, id, "handshake timed out"));
    assert!(!startup_failed(&mut startup, &mut processes, id, "process disconnected"));
    assert_eq!(startup.error(), Some("handshake timed out"));
    assert!(connected(&mut startup, &mut processes, id).is_err());
    processes.remove(id);
    assert!(processes.is_empty());
}

#[test]
fn authentication_pins_pid_manifest_and_connection_and_revokes_on_exit() {
    let mut processes = Processes::new();
    let (id, token) = processes.prepare("worker".to_string(), None, "hash-1".to_string()).unwrap();
    processes.bind(id, 42);
    assert!(processes.authenticate(43, token.as_str(), "hash-1").is_err());
    assert!(processes.authenticate(42, token.as_str(), "wrong").is_err());
    assert!(processes.authenticate(42, "unknown", "hash-1").unwrap().is_none());
    let (found, host, invocation) = processes.authenticate(42, token.as_str(), "hash-1").unwrap().unwrap();
    assert_eq!((found, host.as_str(), invocation), (id, "worker", None));
    assert!(processes.connect(id).is_ok());
    assert!(processes.connect(id).is_err());
    assert!(matches!(processes.ready(id), Ok(Readiness::Ready)));
    processes.disconnect(id);
    assert!(processes.ready(id).is_err());
    assert!(processes.authenticate(42, token.as_str(), "hash-1").is_err());
    processes.remove(id);
    assert!(processes.is_empty());
    assert!(processes.ready(id).is_err());
}

#[test]
fn a_process_is_pending_until_it_connects() {
    let mut processes = Processes::new();
    let (id, token) = processes.prepare("worker".to_string(), Some(9), "h".to_string()).unwrap();
    assert_eq!(token.as_str().len(), 32);
    assert!(matches!(processes.ready(id), Ok(Readiness::Pending)));
    let statuses = processes.inspect("worker");
    assert_eq!(statuses.len(), 1);
    assert_eq!(statuses[0].phase, ProcessPhase::Starting);
    processes.connect(id).unwrap();
    assert_eq!(processes.inspect("worker")[0].phase, ProcessPhase::Running);
    assert!(processes.inspect("other").is_empty());
}
