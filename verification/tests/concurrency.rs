use ticketing_api::error::AppError;
use ticketing_api::repo::BookingStatus;
use ticketing_api::store::SeatStore;

// These scenarios run against the in-memory ledger, whose operations are
// atomic: the requests of each scenario arrive one after another. That
// interleaved requests keep the same guarantees is proved over a model of
// Postgres's row locks and unique key (see `racing`), not run here.

const NOW: i64 = 1_700_000_000;

fn seed_event(store: &mut SeatStore, seats: i32) -> u128 {
    store.create_event("test-event", seats).unwrap().event_id
}

fn count_status(store: &SeatStore, event_id: u128, status: &str) -> i64 {
    let a = store.event_availability(event_id).unwrap();
    match status {
        "available" => a.available,
        "held" => a.held,
        "booked" => a.booked,
        other => panic!("unknown status {other}"),
    }
}

#[test]
fn does_not_oversell_under_concurrency() {
    let mut store = SeatStore::new();
    let seat_count: i64 = 50;
    let attempts: i64 = 200;
    let event_id = seed_event(&mut store, seat_count as i32);

    let mut held = 0;
    let mut sold_out = 0;
    for i in 0..attempts {
        let key = format!("key-{event_id}-{i}");
        match store.reserve_any_seat(event_id, &format!("user-{i}"), &key, 120, NOW) {
            Ok(_) => held += 1,
            Err(AppError::SoldOut) => sold_out += 1,
            Err(err) => panic!("unexpected error: {err:?}"),
        }
    }

    assert_eq!(held, seat_count, "exactly every seat should be held once");
    assert_eq!(sold_out, attempts - seat_count, "the rest must be rejected");
    assert_eq!(count_status(&store, event_id, "held"), seat_count, "no seat may be held twice");
}

#[test]
fn repeated_key_returns_same_booking() {
    let mut store = SeatStore::new();
    let event_id = seed_event(&mut store, 10);
    let key = "3f2c1d7e-8a4b-4c6d-9e0f-1a2b3c4d5e6f".to_string();

    let first = store.reserve_any_seat(event_id, "alice", &key, 120, NOW).unwrap();
    let second = store.reserve_any_seat(event_id, "alice", &key, 120, NOW).unwrap();

    assert_eq!(first.booking_id, second.booking_id, "same key, same booking");
    assert_eq!(first.seat_id, second.seat_id, "same key, same seat");
    assert_eq!(count_status(&store, event_id, "held"), 1, "a repeated key must not consume a second seat");
}

#[test]
fn concurrent_requests_with_same_key_book_once() {
    let mut store = SeatStore::new();
    let event_id = seed_event(&mut store, 100);
    let key = "9b8a7c6d-5e4f-4a3b-8c2d-1e0f9a8b7c6d".to_string();
    let attempts = 30;

    let mut booking_ids = std::collections::HashSet::new();
    for _ in 0..attempts {
        let reserved = store
            .reserve_any_seat(event_id, "alice", &key, 120, NOW)
            .expect("idempotent reserve should succeed");
        booking_ids.insert(reserved.booking_id);
    }

    assert_eq!(booking_ids.len(), 1, "all requests with the same key must resolve to one booking");
    assert_eq!(count_status(&store, event_id, "held"), 1, "the shared key must consume exactly one seat");
}

#[test]
fn confirm_turns_hold_into_booking() {
    let mut store = SeatStore::new();
    let event_id = seed_event(&mut store, 5);
    let key = "0a1b2c3d-4e5f-4a6b-8c7d-9e0f1a2b3c4d".to_string();

    let held = store.reserve_any_seat(event_id, "alice", &key, 120, NOW).unwrap();
    assert_eq!(held.status.as_str(), "held");
    assert_eq!(count_status(&store, event_id, "held"), 1);

    let confirmed = store.confirm_reservation(&key, NOW + 1).unwrap();
    assert_eq!(confirmed.status.as_str(), "booked");
    assert_eq!(confirmed.seat_id, held.seat_id);
    assert_eq!(count_status(&store, event_id, "booked"), 1);
    assert_eq!(count_status(&store, event_id, "held"), 0);

    let again = store.confirm_reservation(&key, NOW + 2).unwrap();
    assert_eq!(again.status, BookingStatus::Booked, "confirming twice is idempotent");
}

#[test]
fn expired_hold_is_reclaimed() {
    let mut store = SeatStore::new();
    let event_id = seed_event(&mut store, 1);
    let key = "5d4c3b2a-1f0e-4d9c-8b7a-6f5e4d3c2b1a".to_string();

    let held = store.reserve_any_seat(event_id, "alice", &key, 1, NOW).unwrap();
    assert_eq!(held.status.as_str(), "held");
    assert_eq!(count_status(&store, event_id, "available"), 0);

    // two seconds later
    let reclaimed = store.sweep_expired_holds(NOW + 2);
    assert!(reclaimed >= 1, "the expired hold should be swept back");

    assert_eq!(count_status(&store, event_id, "available"), 1, "the seat is bookable again after expiry");
    assert_eq!(count_status(&store, event_id, "held"), 0);
}

#[test]
fn create_event_handles_large_seat_counts() {
    let mut store = SeatStore::new();
    let count: i32 = 20_000;
    let created = store.create_event("big", count).unwrap();

    assert_eq!(created.seat_count, count as i64, "every seat must get a unique label even past 9999");
}

#[test]
fn availability_reflects_holds_and_bookings() {
    let mut store = SeatStore::new();
    let event_id = seed_event(&mut store, 10);
    let confirm_key = "c0ffee00-1111-4222-8333-444455556666".to_string();

    store.reserve_any_seat(event_id, "u", &confirm_key, 120, NOW).unwrap();
    store.reserve_any_seat(event_id, "u", "c0ffee01-1111-4222-8333-444455556666", 120, NOW).unwrap();
    store.reserve_any_seat(event_id, "u", "c0ffee02-1111-4222-8333-444455556666", 120, NOW).unwrap();
    store.confirm_reservation(&confirm_key, NOW).unwrap();

    let availability = store.event_availability(event_id).unwrap();
    assert_eq!(availability.total, 10);
    assert_eq!(availability.booked, 1);
    assert_eq!(availability.held, 2);
    assert_eq!(availability.available, 7);

    assert!(store.event_availability(event_id + 1_000_000).is_none());
}
