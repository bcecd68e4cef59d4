use omega_daemon::broker::{
    action_outcome, admit_action, serve_start, settle, Awaited, BrokerFailure, Contact, DriverState, Due, RetainFailure,
    Routes, ServeStart, BYTE_LIMIT, QUEUE,
};
use omega_daemon::hosts::calls::Pool;
use omega_daemon::plugins::session::Slot;

const FRAME: usize = 16 * 1024 * 1024;

#[test]
fn connection_deadline_releases_partial_connection_and_retries() {
    let mut driver = DriverState::new();
    assert_eq!(driver.due(), Due::Connect);
    assert!(driver.opened(false));
    assert_eq!(driver.contact, Contact::Closed);
    assert_eq!(driver.failures, 1);
    assert!(!driver.opened(true));
    assert_eq!(driver.contact, Contact::Opened);
}

#[test]
fn reading_deadline_reconnects_before_reading_again() {
    let mut driver = DriverState::new();
    driver.opened(true);
    assert_eq!(driver.due(), Due::ReadNow);
    assert!(driver.read(false, true));
    assert_eq!(driver.contact, Contact::Closed);
    assert_eq!(driver.due(), Due::Connect);
    driver.opened(true);
    assert!(!driver.read(true, true));
    assert_eq!(driver.contact, Contact::Primed);
    assert_eq!(driver.failures, 0);
}

#[test]
fn action_deadline_answers_and_discards_the_connection() {
    let mut driver = DriverState::new();
    driver.opened(true);
    let (answer, reconnect) = action_outcome(Err(BrokerFailure::Timeout), Ok(()));
    assert_eq!(answer, Err(BrokerFailure::Timeout));
    assert!(reconnect);
    driver.pause();
    assert_eq!(driver.contact, Contact::Closed);
}

#[test]
fn an_expired_queued_action_is_answered_without_touching_the_broker() {
    assert_eq!(serve_start(false, 10, 10), ServeStart::Expired);
    assert_eq!(serve_start(false, 9, 10), ServeStart::Act);
}

#[test]
fn abandoned_requests_do_not_start_external_actions() {
    assert_eq!(serve_start(true, 0, 10), ServeStart::Skip);
}

#[test]
fn only_a_reporting_broker_waits_before_reading() {
    let mut driver = DriverState::new();
    driver.opened(true);
    assert_eq!(driver.due(), Due::ReadNow);
    driver.read(true, true);
    assert_eq!(driver.due(), Due::AwaitWake);
    driver.wake_failed();
    assert_eq!(driver.due(), Due::Connect);
}

#[test]
fn a_change_that_cannot_be_retained_is_refused_and_reconnects() {
    assert_eq!(action_outcome(Ok(()), Err(RetainFailure::TooLarge)), (Err(BrokerFailure::TooLarge), true));
    assert_eq!(action_outcome(Ok(()), Err(RetainFailure::Other)), (Err(BrokerFailure::Full), true));
    assert_eq!(action_outcome(Ok(()), Ok(())), (Ok(()), false));
    assert_eq!(action_outcome(Err(BrokerFailure::Gone), Ok(())), (Err(BrokerFailure::Gone), false));
}

#[test]
fn admission_bounds_bytes_before_cloning_and_releases_them_with_requests() {
    let mut bytes = Pool::new(BYTE_LIMIT);
    let size = 3 * 1024 * 1024;
    assert!(admit_action(size, FRAME, &mut bytes, Slot::Ready).is_ok());
    assert!(admit_action(size, FRAME, &mut bytes, Slot::Ready).is_ok());
    assert_eq!(admit_action(size, FRAME, &mut bytes, Slot::Ready), Err(BrokerFailure::Full));
    bytes.give(size);
    bytes.give(size);
    assert_eq!(bytes.free(), BYTE_LIMIT);
    assert_eq!(admit_action(FRAME + 1, FRAME, &mut bytes, Slot::Ready), Err(BrokerFailure::TooLarge));
}

#[test]
fn count_saturation_refuses_without_waiting_or_leaking_bytes() {
    let mut bytes = Pool::new(BYTE_LIMIT);
    assert_eq!(admit_action(1, FRAME, &mut bytes, Slot::Full), Err(BrokerFailure::Full));
    assert_eq!(bytes.free(), BYTE_LIMIT);
    assert_eq!(admit_action(1, FRAME, &mut bytes, Slot::Closed), Err(BrokerFailure::Gone));
    assert_eq!(bytes.free(), BYTE_LIMIT);
    assert_eq!(QUEUE, 8);
}

#[test]
fn queue_wait_has_a_deadline() {
    assert_eq!(settle(Awaited::TimedOut), Err(BrokerFailure::Timeout));
    assert_eq!(settle(Awaited::Dropped), Err(BrokerFailure::Gone));
    assert_eq!(settle(Awaited::Answered(Ok(()))), Ok(()));
}

#[test]
fn the_last_broker_to_claim_a_kind_serves_it() {
    let mut routes = Routes::new();
    assert_eq!(routes.add(&vec![1, 2]), 0);
    assert_eq!(routes.add(&vec![2]), 1);
    assert_eq!(routes.route(1), Some(0));
    assert_eq!(routes.route(2), Some(1));
    assert_eq!(routes.route(3), None);
}
