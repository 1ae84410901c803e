use market_sifter::limiter::{Admission, RateLimiter, MAX_CONCURRENT_REQUESTS, SECONDS_TO_WAIT};

#[test]
fn two_permits_five_fetches() {
    let mut limiter = RateLimiter::new(2, 2);
    assert_eq!(limiter.request(), Admission::Start { delay_secs: 2 });
    assert_eq!(limiter.request(), Admission::Start { delay_secs: 2 });
    assert_eq!(limiter.in_flight(), 2);
    assert_eq!(limiter.request(), Admission::Wait);
    assert_eq!(limiter.request(), Admission::Wait);
    assert_eq!(limiter.request(), Admission::Wait);
    assert_eq!(limiter.in_flight(), 2);
    assert_eq!(limiter.waiting(), 3);
    assert_eq!(limiter.available_permits(), 0);
    assert_eq!(limiter.release(), Some(Admission::Start { delay_secs: 2 }));
    assert_eq!(limiter.in_flight(), 2);
    assert_eq!(limiter.waiting(), 2);
    assert_eq!(limiter.release(), Some(Admission::Start { delay_secs: 2 }));
    assert_eq!(limiter.release(), Some(Admission::Start { delay_secs: 2 }));
    assert_eq!(limiter.in_flight(), 2);
    assert_eq!(limiter.waiting(), 0);
    assert_eq!(limiter.release(), None);
    assert_eq!(limiter.in_flight(), 1);
    assert_eq!(limiter.release(), None);
    assert_eq!(limiter.in_flight(), 0);
    assert_eq!(limiter.available_permits(), 2);
}

#[test]
fn in_flight_never_exceeds_the_permits() {
    let mut limiter = RateLimiter::new(3, 0);
    for round in 0..20 {
        if round % 3 == 2 {
            limiter.release();
        } else {
            limiter.request();
        }
        assert!(limiter.in_flight() <= limiter.capacity());
        if limiter.waiting() > 0 {
            assert_eq!(limiter.in_flight(), limiter.capacity());
        }
    }
}

#[test]
fn release_with_nothing_under_way_changes_nothing() {
    let mut limiter = RateLimiter::new(1, 5);
    assert_eq!(limiter.release(), None);
    assert_eq!(limiter.in_flight(), 0);
    assert_eq!(limiter.waiting(), 0);
    assert_eq!(limiter.request(), Admission::Start { delay_secs: 5 });
}

#[test]
fn limiter_without_permits_lets_nothing_start() {
    let mut limiter = RateLimiter::new(0, 1);
    assert_eq!(limiter.request(), Admission::Wait);
    assert_eq!(limiter.waiting(), 1);
    assert_eq!(limiter.release(), None);
    assert_eq!(limiter.waiting(), 1);
}

#[test]
fn default_limiter_has_thirty_permits_and_two_seconds() {
    let limiter = RateLimiter::default();
    assert_eq!(MAX_CONCURRENT_REQUESTS, 30);
    assert_eq!(SECONDS_TO_WAIT, 2);
    assert_eq!(limiter.capacity(), 30);
    assert_eq!(limiter.delay_secs(), 2);
    assert_eq!(limiter.in_flight(), 0);
    assert_eq!(limiter.available_permits(), 30);
}
