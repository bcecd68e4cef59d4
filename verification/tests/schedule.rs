use omega_daemon::refusal::{ErrorCode, Refusable};
use omega_daemon::schedule::{ScheduleError, Timers};

fn start(timers: &mut Timers, id: &str, declared: &[u8], period_fits: bool, shutting_down: bool) -> Result<(), ScheduleError> {
    timers.check_start(Ok(()), period_fits, Ok(()), shutting_down)?;
    timers.install(id.to_string(), declared.to_vec(), shutting_down)
}

fn declared(timers: &Timers) -> Vec<(String, Vec<u8>)> {
    timers.declared().clone()
}

#[test]
fn an_unrepresentable_period_preserves_the_existing_timer() {
    let mut timers = Timers::new();
    start(&mut timers, "tick", b"every 1s", true, false).unwrap();
    assert_eq!(start(&mut timers, "tick", b"every huge", false, false), Err(ScheduleError::PeriodOutOfRange));
    assert_eq!(declared(&timers), vec![("tick".to_string(), b"every 1s".to_vec())]);
}

#[test]
fn a_triggered_shutdown_refuses_new_timers() {
    let mut timers = Timers::new();
    assert_eq!(start(&mut timers, "tick", b"every 1s", true, true), Err(ScheduleError::Stopped));
    assert!(declared(&timers).is_empty());
}

#[test]
fn shutdown_joins_timers_and_closes_admission_on_every_handle() {
    let mut timers = Timers::new();
    start(&mut timers, "tick", b"every 1s", true, false).unwrap();
    start(&mut timers, "beat", b"every 2s", true, false).unwrap();
    assert_eq!(timers.close(), vec!["beat".to_string(), "tick".to_string()]);
    assert!(declared(&timers).is_empty());
    assert_eq!(start(&mut timers, "tick", b"every 1s", true, false), Err(ScheduleError::Stopped));
    assert!(timers.close().is_empty());
}

#[test]
fn a_start_replaces_the_schedule_with_its_identity() {
    let mut timers = Timers::new();
    start(&mut timers, "tick", b"every 1s", true, false).unwrap();
    start(&mut timers, "tick", b"every 2s", true, false).unwrap();
    assert_eq!(declared(&timers), vec![("tick".to_string(), b"every 2s".to_vec())]);
    // A shutdown that began while the old timer was being joined: the old
    // one is gone and the new one is refused.
    assert_eq!(timers.install("tick".to_string(), b"every 3s".to_vec(), true), Err(ScheduleError::Stopped));
    assert!(declared(&timers).is_empty());
    assert!(!timers.remove("tick"));
}

#[test]
fn malformed_schedules_are_refused_in_order() {
    let timers = Timers::new();
    let cadence = timers.check_start(Err("every 0s".to_string()), false, Err("bad".to_string()), true).unwrap_err();
    assert_eq!(cadence, ScheduleError::Cadence("every 0s".to_string()));
    let action = timers.check_start(Ok(()), true, Err("bad action".to_string()), true).unwrap_err();
    assert_eq!(action.refusal().code, ErrorCode::InvalidArgument);
    assert_eq!(action.refusal().message, "bad action");
    let stopped = ScheduleError::Stopped.refusal();
    assert_eq!((stopped.code, stopped.message.as_str()), (ErrorCode::FailedPrecondition, "schedules are shutting down"));
    assert_eq!(ScheduleError::PeriodOutOfRange.describe(), "schedule period exceeds the monotonic clock range");
}
