use whatsapp_bridge::rate_limit::{RateLimitDenied, RateLimiter, SlidingWindow, WINDOW};

const SECOND: u64 = 1_000_000_000;

#[test]
fn the_window_is_a_minute() {
    assert_eq!(WINDOW, 60 * SECOND);
}

#[test]
fn a_window_forgets_what_is_a_minute_old() {
    let mut w = SlidingWindow::new();
    w.record(0);
    w.record(30 * SECOND);
    assert_eq!(w.count_and_prune(60 * SECOND - 1), 2);
    assert_eq!(w.count_and_prune(60 * SECOND), 1);
    assert_eq!(w.timestamps, vec![30 * SECOND]);
    assert_eq!(w.count_and_prune(90 * SECOND), 0);
}

#[test]
fn a_sender_gets_ten_messages_a_minute_by_default() {
    let mut l = RateLimiter::new(None, Some("no number"));
    for i in 0..10 {
        assert_eq!(l.check_and_record_at(i * SECOND, "acme", "phone"), Ok(()));
    }
    assert_eq!(
        l.check_and_record_at(10 * SECOND, "acme", "phone"),
        Err(RateLimitDenied::Phone)
    );
    assert_eq!(l.check_and_record_at(60 * SECOND, "acme", "phone"), Ok(()));
    assert_eq!(
        l.check_and_record_at(60 * SECOND, "acme", "phone"),
        Err(RateLimitDenied::Phone)
    );
}

#[test]
fn a_tenant_gets_a_hundred_messages_a_minute_by_default() {
    let mut l = RateLimiter::new(None, None);
    for i in 0..100 {
        assert_eq!(l.check_and_record_at(5, "acme", &format!("p{i}")), Ok(()));
    }
    assert_eq!(l.check_and_record_at(5, "acme", "one more"), Err(RateLimitDenied::Tenant));
    assert_eq!(l.check_and_record_at(5, "other", "one more"), Ok(()));
}

#[test]
fn configured_limits_are_read() {
    let mut l = RateLimiter::new(Some("2"), Some("3"));
    assert_eq!(l.check_and_record_at(1, "t", "a"), Ok(()));
    assert_eq!(l.check_and_record_at(1, "t", "a"), Ok(()));
    assert_eq!(l.check_and_record_at(1, "t", "a"), Err(RateLimitDenied::Phone));
    assert_eq!(l.check_and_record_at(1, "t", "b"), Ok(()));
    assert_eq!(l.check_and_record_at(1, "t", "b"), Err(RateLimitDenied::Tenant));
    assert_eq!(l.check_and_record_at(1, "t", "b"), Err(RateLimitDenied::Tenant));
}

#[test]
fn senders_do_not_count_for_each_other() {
    let mut l = RateLimiter::new(Some("1"), None);
    assert_eq!(l.check_and_record_at(1, "t", "a"), Ok(()));
    assert_eq!(l.check_and_record_at(1, "t", "b"), Ok(()));
    assert_eq!(l.check_and_record_at(1, "u", "a"), Ok(()));
    assert_eq!(l.check_and_record_at(1, "t", "a"), Err(RateLimitDenied::Phone));
}

#[test]
fn a_refused_message_leaves_no_trace() {
    let mut l = RateLimiter::new(Some("1"), Some("0"));
    assert_eq!(l.check_and_record_at(1, "t", "a"), Err(RateLimitDenied::Tenant));
    assert_eq!(l.check_and_record_at(2, "t", "a"), Err(RateLimitDenied::Tenant));

    let mut l = RateLimiter::new(Some("1"), Some("1"));
    assert_eq!(l.check_and_record_at(0, "t", "a"), Ok(()));
    assert_eq!(l.check_and_record_at(59 * SECOND, "t", "b"), Err(RateLimitDenied::Tenant));
    assert_eq!(l.check_and_record_at(59 * SECOND, "t", "a"), Err(RateLimitDenied::Phone));
    assert_eq!(l.check_and_record_at(60 * SECOND, "t", "b"), Ok(()));
}

#[test]
fn ids_with_colons_are_kept_apart() {
    let mut l = RateLimiter::new(Some("1"), None);
    assert_eq!(l.check_and_record_at(1, "a", "whatsapp:telegram:5"), Ok(()));
    assert_eq!(l.check_and_record_at(1, "a:whatsapp", "telegram:5"), Ok(()));
    assert_eq!(l.check_and_record_at(1, "", "1:a:5"), Ok(()));
    assert_eq!(l.check_and_record_at(1, "a", "5"), Ok(()));
}

#[test]
fn many_senders_are_kept_apart_through_pruning() {
    let mut l = RateLimiter::new(Some("1"), Some("100000"));
    for i in 0..5100 {
        assert_eq!(l.check_and_record_at(1, "t", &format!("p{i}")), Ok(()));
    }
    assert_eq!(l.check_and_record_at(2, "t", "p5099"), Err(RateLimitDenied::Phone));
    assert_eq!(l.check_and_record_at(61 * SECOND, "t", "fresh"), Ok(()));
    assert_eq!(l.check_and_record_at(61 * SECOND, "t", "fresh"), Err(RateLimitDenied::Phone));
    assert_eq!(l.check_and_record_at(61 * SECOND, "t", "p5099"), Ok(()));
}

#[test]
fn the_limiter_goes_by_the_clock() {
    let mut l = RateLimiter::new(Some("1"), None);
    assert_eq!(l.check_and_record("t", "a"), Ok(()));
    assert_eq!(l.check_and_record("t", "a"), Err(RateLimitDenied::Phone));
}
