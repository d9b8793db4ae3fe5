use std::time::Duration;

use ticketing_api::middleware::{entry_for, LimitRejection, Limiter};

#[test]
fn sheds_excess_requests_when_over_capacity() {
    let capacity = 2;
    let attempts = 10;

    let limiter = Limiter::new(capacity, Duration::from_secs(5));

    // the requests arrive one after another in this test, and every admitted
    // request keeps its permit while the others arrive
    let mut permits = Vec::new();
    let mut served = 0;
    let mut shed = 0;
    for _ in 0..attempts {
        match limiter.try_enter() {
            Ok(permit) => {
                permits.push(permit);
                served += 1;
            }
            Err(LimitRejection::Overloaded) => shed += 1,
            Err(other) => panic!("unexpected status: {other:?}"),
        }
    }

    assert_eq!(served, capacity, "only `capacity` requests should be served");
    assert_eq!(shed, attempts - capacity, "the rest must be shed with 503");
}

#[test]
fn permits_come_back_when_requests_finish() {
    let limiter = Limiter::new(1, Duration::from_secs(5));
    let first = limiter.try_enter().expect("the first request is let in");
    assert!(limiter.try_enter().is_err(), "a second request waits for the permit");
    drop(first);
    assert!(limiter.try_enter().is_ok(), "the permit is free again once the first request is done");
}

#[test]
fn limiter_keeps_its_timeout() {
    let limiter = Limiter::new(3, Duration::from_secs(7));
    assert_eq!(limiter.request_timeout(), Duration::from_secs(7));
}

#[test]
fn rejections_are_answered_with_their_status() {
    let overloaded = LimitRejection::Overloaded.reply();
    assert_eq!(overloaded.status, 503);
    assert_eq!(overloaded.message, "overloaded, retry shortly");
    assert_eq!(overloaded.retry_after, Some(1));

    let timed_out = LimitRejection::TimedOut.reply();
    assert_eq!(timed_out.status, 408);
    assert_eq!(timed_out.message, "request timed out");
    assert_eq!(timed_out.retry_after, None);
}

#[test]
fn a_request_without_a_permit_is_turned_away() {
    assert!(matches!(entry_for(None), Err(LimitRejection::Overloaded)));
    let limiter = Limiter::new(1, Duration::from_secs(5));
    let permit = limiter.try_enter().expect("a free permit is granted");
    assert!(entry_for(Some(permit)).is_ok());
}

#[test]
fn clones_of_a_limiter_share_its_permits() {
    let limiter = Limiter::new(1, Duration::from_secs(4));
    let other = limiter.clone();
    assert_eq!(other.request_timeout(), Duration::from_secs(4));
    let permit = limiter.try_enter().expect("the one permit is free");
    assert!(other.try_enter().is_err(), "the clone sees the permit taken");
    drop(permit);
    assert!(other.try_enter().is_ok(), "and sees it given back");
}
