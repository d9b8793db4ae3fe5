use ticketing_api::error::{AppError, DbError};
use ticketing_api::repo::BookingStatus;
use ticketing_api::store::SeatStore;

const NOW: i64 = 1_700_000_000;

#[test]
fn reserving_for_an_unknown_event_is_not_found() {
    let mut store = SeatStore::new();
    let r = store.reserve_any_seat(42, "alice", "k", 120, NOW);
    assert!(matches!(r, Err(AppError::NotFound("event not found"))));
}

#[test]
fn a_retry_names_the_booking_whatever_else_it_says() {
    let mut store = SeatStore::new();
    let a = store.create_event("a", 2).unwrap().event_id;
    let b = store.create_event("b", 2).unwrap().event_id;
    let first = store.reserve_any_seat(a, "alice", "k", 120, NOW).unwrap();
    let retry = store.reserve_any_seat(b, "bob", "k", 5, NOW + 60).unwrap();
    assert_eq!(first.booking_id, retry.booking_id);
    assert_eq!(first.seat_label, retry.seat_label);
    assert_eq!(retry.expires_at, Some(NOW + 120));
    assert_eq!(store.event_availability(b).unwrap().available, 2);
}

#[test]
fn holds_take_seats_in_label_order() {
    let mut store = SeatStore::new();
    let e = store.create_event("e", 3).unwrap().event_id;
    let labels: Vec<String> = (0..3)
        .map(|i| store.reserve_any_seat(e, "u", &format!("k{i}"), 60, NOW).unwrap().seat_label)
        .collect();
    assert_eq!(labels, vec!["S0001", "S0002", "S0003"]);
}

#[test]
fn a_hold_lapses_after_its_time() {
    let mut store = SeatStore::new();
    let e = store.create_event("e", 1).unwrap().event_id;
    let held = store.reserve_any_seat(e, "u", "k", 30, NOW).unwrap();
    assert_eq!(held.status, BookingStatus::Held);
    assert_eq!(held.expires_at, Some(NOW + 30));
    assert!(matches!(store.confirm_reservation("k", NOW + 30), Err(AppError::Conflict("hold has expired"))));
    assert!(store.confirm_reservation("k", NOW + 29).is_ok());
}

#[test]
fn confirming_an_unknown_key_is_not_found() {
    let mut store = SeatStore::new();
    assert!(matches!(store.confirm_reservation("nope", NOW), Err(AppError::NotFound("reservation not found"))));
}

#[test]
fn a_sweep_spares_live_holds_and_bookings() {
    let mut store = SeatStore::new();
    let e = store.create_event("e", 4).unwrap().event_id;
    store.reserve_any_seat(e, "u", "short", 10, NOW).unwrap();
    store.reserve_any_seat(e, "u", "long", 1_000, NOW).unwrap();
    store.reserve_any_seat(e, "u", "kept", 10, NOW).unwrap();
    store.confirm_reservation("kept", NOW).unwrap();
    assert_eq!(store.sweep_expired_holds(NOW + 100), 1);
    let a = store.event_availability(e).unwrap();
    assert_eq!((a.available, a.held, a.booked), (2, 1, 1));
    assert_eq!(a.total, a.available + a.held + a.booked);
    assert_eq!(store.sweep_expired_holds(NOW + 100), 0);
    // the swept key is free again and takes a new seat
    let again = store.reserve_any_seat(e, "u", "short", 10, NOW + 100).unwrap();
    assert_eq!(again.status, BookingStatus::Held);
    assert_eq!(store.event_availability(e).unwrap().held, 2);
}

#[test]
fn a_hold_whose_expiry_overflows_is_refused() {
    let mut store = SeatStore::new();
    let e = store.create_event("e", 1).unwrap().event_id;
    let r = store.reserve_any_seat(e, "u", "k", i64::MAX, NOW);
    assert!(matches!(r, Err(AppError::Db(DbError::Other))));
    assert_eq!(store.event_availability(e).unwrap().available, 1);
}

#[test]
fn creating_an_event_validates_the_seat_count() {
    let mut store = SeatStore::new();
    assert!(matches!(store.create_event("x", 0), Err(AppError::Invalid("seat_count must be greater than zero"))));
    assert!(matches!(store.create_event("x", 100_001), Err(AppError::Invalid("seat_count must be 100000 or fewer"))));
    let created = store.create_event("x", 3).unwrap();
    assert_eq!(created.name, "x");
    assert_eq!(created.seat_count, 3);
    let a = store.event_availability(created.event_id).unwrap();
    assert_eq!((a.total, a.available, a.held, a.booked), (3, 3, 0, 0));
}

#[test]
fn labels_sort_as_text_past_9999() {
    let mut store = SeatStore::new();
    let e = store.create_event("e", 10_000).unwrap().event_id;
    let mut last = String::new();
    for i in 0..1_001 {
        last = store.reserve_any_seat(e, "u", &format!("k{i}"), 60, NOW).unwrap().seat_label;
    }
    // S0001 .. S1000 go first; "S10000" sorts before "S1001"
    assert_eq!(last, "S10000");
    let next = store.reserve_any_seat(e, "u", "k-next", 60, NOW).unwrap().seat_label;
    assert_eq!(next, "S1001");
}
