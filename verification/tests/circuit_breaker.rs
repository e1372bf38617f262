use whatsapp_bridge::circuit_breaker::{CircuitBreaker, CircuitState};

#[test]
fn test_starts_closed() {
    let mut cb = CircuitBreaker::new(None, None);
    assert_eq!(cb.state(), CircuitState::Closed);
    assert!(cb.allow_request());
}

#[test]
fn test_trips_after_threshold() {
    let mut cb = CircuitBreaker::with_limits(3, 30);

    cb.record_failure();
    cb.record_failure();
    assert_eq!(cb.state(), CircuitState::Closed);

    cb.record_failure();
    assert_eq!(cb.state(), CircuitState::Open);
    assert!(!cb.allow_request());
}

#[test]
fn test_resets_on_success() {
    let mut cb = CircuitBreaker::with_limits(2, 0);

    cb.record_failure();
    cb.record_failure();

    assert_eq!(cb.state(), CircuitState::HalfOpen);
    assert!(cb.allow_request());

    cb.record_success();
    assert_eq!(cb.state(), CircuitState::Closed);
}

#[test]
fn the_default_threshold_is_five() {
    let mut cb = CircuitBreaker::new(Some("many"), None);
    for _ in 0..4 {
        cb.record_failure_at(100);
    }
    assert_eq!(cb.state_at(100), CircuitState::Closed);
    cb.record_failure_at(100);
    assert_eq!(cb.state_at(100), CircuitState::Open);
}

#[test]
fn the_default_timeout_is_thirty_seconds() {
    let mut cb = CircuitBreaker::new(Some("1"), Some("-3"));
    cb.record_failure_at(100);
    assert_eq!(cb.state_at(129), CircuitState::Open);
    assert_eq!(cb.state_at(130), CircuitState::HalfOpen);
}

#[test]
fn configured_numbers_are_read() {
    let mut cb = CircuitBreaker::new(Some("2"), Some("+7"));
    cb.record_failure_at(100);
    assert_eq!(cb.state_at(100), CircuitState::Closed);
    cb.record_failure_at(100);
    assert_eq!(cb.state_at(106), CircuitState::Open);
    assert_eq!(cb.state_at(107), CircuitState::HalfOpen);
}

#[test]
fn a_half_open_circuit_lets_one_probe_through() {
    let mut cb = CircuitBreaker::with_limits(1, 10);
    cb.record_failure_at(100);
    assert!(!cb.allow_request_at(109));
    assert!(cb.allow_request_at(110));
    assert!(!cb.allow_request_at(110));
    assert!(!cb.allow_request_at(500));
}

#[test]
fn a_failed_probe_opens_the_circuit_for_another_timeout() {
    let mut cb = CircuitBreaker::with_limits(3, 10);
    for _ in 0..3 {
        cb.record_failure_at(100);
    }
    assert!(cb.allow_request_at(110));
    cb.record_failure_at(112);
    assert!(!cb.allow_request_at(121));
    assert!(cb.allow_request_at(122));
}

#[test]
fn a_success_forgets_earlier_failures() {
    let mut cb = CircuitBreaker::with_limits(2, 10);
    cb.record_failure_at(1);
    cb.record_success();
    cb.record_failure_at(2);
    assert_eq!(cb.state_at(2), CircuitState::Closed);
}

#[test]
fn a_clock_that_goes_back_counts_as_no_time() {
    let mut cb = CircuitBreaker::with_limits(1, 10);
    cb.record_failure_at(100);
    assert_eq!(cb.state_at(5), CircuitState::Open);
}

#[test]
fn looking_at_a_circuit_changes_nothing_for_a_request() {
    let mut cb = CircuitBreaker::with_limits(1, 10);
    cb.record_failure_at(100);
    assert_eq!(cb.state_at(110), CircuitState::HalfOpen);
    assert_eq!(cb.state_at(111), CircuitState::HalfOpen);
    assert!(cb.allow_request_at(112));
}
