use omega_daemon::broker::BrokerFailure;
use omega_daemon::refusal::{compose, ErrorCode, Refusable, RefusableResult, Refusal};

#[test]
fn broker_operation_failures_are_not_missing_handlers() {
    for (error, code) in [
        (BrokerFailure::Timeout, ErrorCode::DeadlineExceeded),
        (BrokerFailure::Full, ErrorCode::ResourceExhausted),
        (BrokerFailure::TooLarge, ErrorCode::PayloadTooLarge),
        (BrokerFailure::Gone, ErrorCode::Unavailable),
    ] {
        assert_eq!(error.refusal().code, code);
    }
    assert_eq!(BrokerFailure::Unserved("lock".to_string()).refusal().code, ErrorCode::Unimplemented);
}

#[test]
fn a_broker_failure_says_what_went_wrong() {
    assert_eq!(BrokerFailure::Unserved("lock".to_string()).refusal().message, "no broker serves lock actions");
    assert_eq!(BrokerFailure::Io("reset".to_string()).refusal().code, ErrorCode::Unavailable);
    assert_eq!(BrokerFailure::Unreadable("junk".to_string()).refusal().code, ErrorCode::Unavailable);
    assert_eq!(BrokerFailure::Unsupported("no".to_string()).refusal().code, ErrorCode::Unimplemented);
}

#[test]
fn each_constructor_carries_its_code_and_message() {
    let cases = [
        (Refusal::invalid("a".to_string()), ErrorCode::InvalidArgument),
        (Refusal::precondition("b".to_string()), ErrorCode::FailedPrecondition),
        (Refusal::unavailable("c".to_string()), ErrorCode::Unavailable),
        (Refusal::unimplemented("d".to_string()), ErrorCode::Unimplemented),
        (Refusal::deadline("e".to_string()), ErrorCode::DeadlineExceeded),
        (Refusal::exhausted("f".to_string()), ErrorCode::ResourceExhausted),
        (Refusal::too_large("g".to_string()), ErrorCode::PayloadTooLarge),
        (Refusal::denied("h".to_string()), ErrorCode::PermissionDenied),
        (Refusal::unauthenticated("i".to_string()), ErrorCode::Unauthenticated),
    ];
    for (refusal, code) in cases {
        assert_eq!(refusal.code, code);
        assert_eq!(refusal.message.len(), 1);
    }
    assert_eq!(compose("unknown plugin ", "wifi", "!"), "unknown plugin wifi!");
}

#[test]
fn a_domain_error_becomes_its_refusal() {
    let result: Result<(), BrokerFailure> = Err(BrokerFailure::Timeout);
    assert_eq!(result.or_refuse().unwrap_err().code, ErrorCode::DeadlineExceeded);
    let fine: Result<u8, BrokerFailure> = Ok(3);
    assert_eq!(fine.or_refuse().unwrap(), 3);
}
