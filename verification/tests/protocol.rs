use ticketing_api::confirm::{ConfirmAction, ConfirmEvent, Confirmation};
use ticketing_api::error::{AppError, DbError};
use ticketing_api::repo::{BookingStatus, ReservedSeat};
use ticketing_api::reserve::{ReserveAction, ReserveEvent, Reservation};

fn held_booking(booking_id: u128, seat_id: u128, expires_at: i64) -> ReservedSeat {
    ReservedSeat {
        booking_id,
        seat_id,
        seat_label: "S0001".to_string(),
        status: BookingStatus::Held,
        expires_at: Some(expires_at),
    }
}

#[test]
fn reservation_runs_every_statement_in_order() {
    let (m, a) = Reservation::new(5, "alice".to_string(), "k".to_string(), 120);
    assert!(matches!(a, ReserveAction::FindBookingByKey { ref key } if key == "k"));
    let (m, a) = m.step(ReserveEvent::Found(None));
    assert!(matches!(a, ReserveAction::Begin));
    let (m, a) = m.step(ReserveEvent::Completed);
    assert!(matches!(a, ReserveAction::CheckEvent { event_id: 5 }));
    let (m, a) = m.step(ReserveEvent::EventChecked(true));
    assert!(matches!(a, ReserveAction::LockSeat { event_id: 5 }));
    let (m, a) = m.step(ReserveEvent::SeatLocked(Some((7, "S0001".to_string()))));
    match &a {
        ReserveAction::InsertBooking { event_id, seat_id, user_ref, key, hold_ttl_secs } => {
            assert_eq!(*event_id, 5);
            assert_eq!(*seat_id, 7);
            assert_eq!(user_ref, "alice");
            assert_eq!(key, "k");
            assert_eq!(*hold_ttl_secs, 120);
        }
        other => panic!("expected an insert, got {other:?}"),
    }
    let (m, a) = m.step(ReserveEvent::Inserted { booking_id: 9, expires_at: 1_000 });
    assert!(matches!(a, ReserveAction::HoldSeat { booking_id: 9, seat_id: 7 }));
    let (m, a) = m.step(ReserveEvent::Completed);
    assert!(matches!(a, ReserveAction::Commit));
    let (_m, a) = m.step(ReserveEvent::Completed);
    match a {
        ReserveAction::Finish(Ok(b)) => {
            assert_eq!(b.booking_id, 9);
            assert_eq!(b.seat_id, 7);
            assert_eq!(b.seat_label, "S0001");
            assert_eq!(b.status, BookingStatus::Held);
            assert_eq!(b.expires_at, Some(1_000));
        }
        other => panic!("expected a booking, got {other:?}"),
    }
}

#[test]
fn reservation_with_known_key_returns_it_at_once() {
    let (m, _) = Reservation::new(5, "alice".to_string(), "k".to_string(), 120);
    let (_m, a) = m.step(ReserveEvent::Found(Some(held_booking(3, 4, 50))));
    match a {
        ReserveAction::Finish(Ok(b)) => {
            assert_eq!(b.booking_id, 3);
            assert_eq!(b.seat_id, 4);
        }
        other => panic!("expected the stored booking, got {other:?}"),
    }
}

#[test]
fn reservation_for_missing_event_is_not_found() {
    let (m, _) = Reservation::new(5, "alice".to_string(), "k".to_string(), 120);
    let (m, _) = m.step(ReserveEvent::Found(None));
    let (m, _) = m.step(ReserveEvent::Completed);
    let (_m, a) = m.step(ReserveEvent::EventChecked(false));
    match a {
        ReserveAction::Finish(Err(e)) => {
            assert!(matches!(e, AppError::NotFound("event not found")));
            assert_eq!(e.reply().status, 404);
        }
        other => panic!("expected not found, got {other:?}"),
    }
}

#[test]
fn reservation_without_free_seat_is_sold_out() {
    let (m, _) = Reservation::new(5, "alice".to_string(), "k".to_string(), 120);
    let (m, _) = m.step(ReserveEvent::Found(None));
    let (m, _) = m.step(ReserveEvent::Completed);
    let (m, _) = m.step(ReserveEvent::EventChecked(true));
    let (_m, a) = m.step(ReserveEvent::SeatLocked(None));
    assert!(matches!(a, ReserveAction::Finish(Err(AppError::SoldOut))));
}

#[test]
fn reservation_that_loses_the_key_race_returns_the_winner() {
    let (m, _) = Reservation::new(5, "alice".to_string(), "k".to_string(), 120);
    let (m, _) = m.step(ReserveEvent::Found(None));
    let (m, _) = m.step(ReserveEvent::Completed);
    let (m, _) = m.step(ReserveEvent::EventChecked(true));
    let (m, _) = m.step(ReserveEvent::SeatLocked(Some((7, "S0001".to_string()))));
    let (m, a) = m.step(ReserveEvent::UniqueViolation);
    assert!(matches!(a, ReserveAction::Rollback));
    let (m, a) = m.step(ReserveEvent::Completed);
    assert!(matches!(a, ReserveAction::FindBookingByKey { ref key } if key == "k"));
    let (_m, a) = m.step(ReserveEvent::Found(Some(held_booking(11, 12, 99))));
    match a {
        ReserveAction::Finish(Ok(b)) => assert_eq!(b.booking_id, 11),
        other => panic!("expected the winner's booking, got {other:?}"),
    }
}

#[test]
fn reservation_whose_winner_vanished_reports_the_violation() {
    let (m, _) = Reservation::new(5, "alice".to_string(), "k".to_string(), 120);
    let (m, _) = m.step(ReserveEvent::Found(None));
    let (m, _) = m.step(ReserveEvent::Completed);
    let (m, _) = m.step(ReserveEvent::EventChecked(true));
    let (m, _) = m.step(ReserveEvent::SeatLocked(Some((7, "S0001".to_string()))));
    let (m, _) = m.step(ReserveEvent::UniqueViolation);
    let (m, _) = m.step(ReserveEvent::Completed);
    let (_m, a) = m.step(ReserveEvent::Found(None));
    assert!(matches!(a, ReserveAction::Finish(Err(AppError::Db(DbError::UniqueViolation)))));
}

#[test]
fn reservation_stops_on_a_failed_statement() {
    let (m, _) = Reservation::new(5, "alice".to_string(), "k".to_string(), 120);
    let (m, _) = m.step(ReserveEvent::Found(None));
    let (m, _) = m.step(ReserveEvent::Completed);
    let (m, _) = m.step(ReserveEvent::EventChecked(true));
    let (m, _) = m.step(ReserveEvent::SeatLocked(Some((7, "S0001".to_string()))));
    let (m, _) = m.step(ReserveEvent::Inserted { booking_id: 9, expires_at: 1_000 });
    let (_m, a) = m.step(ReserveEvent::Failed(DbError::PoolTimedOut));
    match a {
        ReserveAction::Finish(Err(e)) => {
            assert!(matches!(e, AppError::Db(DbError::PoolTimedOut)));
            let reply = e.reply();
            assert_eq!(reply.status, 503);
            assert_eq!(reply.retry_after, Some(1));
        }
        other => panic!("expected the failure, got {other:?}"),
    }
}

#[test]
fn reservation_answered_out_of_turn_fails() {
    let (m, _) = Reservation::new(5, "alice".to_string(), "k".to_string(), 120);
    let (_m, a) = m.step(ReserveEvent::Completed);
    assert!(matches!(a, ReserveAction::Finish(Err(AppError::Db(DbError::Other)))));
}

#[test]
fn confirmation_of_a_live_hold_books_it() {
    let (m, a) = Confirmation::new("k".to_string());
    assert!(matches!(a, ConfirmAction::Begin));
    let (m, a) = m.step(ConfirmEvent::Completed);
    assert!(matches!(a, ConfirmAction::LockBookingByKey { ref key } if key == "k"));
    let (m, a) = m.step(ConfirmEvent::Locked { booking: Some(held_booking(3, 4, 500)), now: 100 });
    assert!(matches!(a, ConfirmAction::ConfirmBooking { booking_id: 3, seat_id: 4 }));
    let (m, a) = m.step(ConfirmEvent::Completed);
    assert!(matches!(a, ConfirmAction::Commit));
    let (_m, a) = m.step(ConfirmEvent::Completed);
    match a {
        ConfirmAction::Finish(Ok(b)) => {
            assert_eq!(b.booking_id, 3);
            assert_eq!(b.status, BookingStatus::Booked);
            assert_eq!(b.expires_at, None);
        }
        other => panic!("expected the booking, got {other:?}"),
    }
}

#[test]
fn confirmation_of_a_lapsed_hold_is_refused() {
    let (m, _) = Confirmation::new("k".to_string());
    let (m, _) = m.step(ConfirmEvent::Completed);
    let (_m, a) = m.step(ConfirmEvent::Locked { booking: Some(held_booking(3, 4, 100)), now: 100 });
    match a {
        ConfirmAction::Finish(Err(e)) => {
            assert!(matches!(e, AppError::Conflict("hold has expired")));
            assert_eq!(e.reply().status, 409);
            assert_eq!(e.reply().message, "hold has expired");
        }
        other => panic!("expected a conflict, got {other:?}"),
    }
}

#[test]
fn confirmation_of_a_booked_seat_changes_nothing() {
    let (m, _) = Confirmation::new("k".to_string());
    let (m, _) = m.step(ConfirmEvent::Completed);
    let booked = ReservedSeat {
        booking_id: 3,
        seat_id: 4,
        seat_label: "S0001".to_string(),
        status: BookingStatus::Booked,
        expires_at: None,
    };
    let (_m, a) = m.step(ConfirmEvent::Locked { booking: Some(booked), now: 100 });
    assert!(matches!(a, ConfirmAction::Finish(Ok(ref b)) if b.booking_id == 3 && b.status == BookingStatus::Booked));
}

#[test]
fn confirmation_of_an_unknown_key_is_not_found() {
    let (m, _) = Confirmation::new("k".to_string());
    let (m, _) = m.step(ConfirmEvent::Completed);
    let (_m, a) = m.step(ConfirmEvent::Locked { booking: None, now: 100 });
    match a {
        ConfirmAction::Finish(Err(e)) => {
            assert!(matches!(e, AppError::NotFound("reservation not found")));
            assert_eq!(e.reply().status, 404);
        }
        other => panic!("expected not found, got {other:?}"),
    }
}
