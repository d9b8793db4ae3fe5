//! The protocol that reserves a seat: a state machine that decides, from the
//! answer to each database statement, which statement comes next.
use vstd::prelude::*;
use crate::error::{AppError, DbError};
use crate::repo::{BookingStatus, ReservedSeat};

verus! {

/// How far a reservation has come; each phase waits for the answer to the
/// statement that was last issued.
#[derive(Debug)]
pub enum ReservePhase {
    /// Waiting for the booking already stored under the idempotency key, if any.
    FindingExisting,
    /// Waiting for the transaction to open.
    Beginning,
    /// Waiting to learn whether the event exists.
    CheckingEvent,
    /// Waiting for a free seat to be locked.
    LockingSeat,
    /// Waiting for the booking row to be inserted.
    Inserting { seat_id: u128, seat_label: String },
    /// Waiting for the seat to be marked as held.
    Holding { booking_id: u128, seat_id: u128, seat_label: String, expires_at: i64 },
    /// Waiting for the transaction to commit.
    Committing { booking_id: u128, seat_id: u128, seat_label: String, expires_at: i64 },
    /// Waiting for the rollback after another request won the idempotency key.
    RollingBack,
    /// Waiting for the booking of the request that won the idempotency key.
    FindingWinner,
    /// The outcome has been handed out.
    Finished,
}

/// A statement for the database, or the final outcome.
#[derive(Debug)]
pub enum ReserveAction {
    /// Look up the booking stored under an idempotency key.
    FindBookingByKey { key: String },
    /// Open a transaction at `READ COMMITTED`.
    Begin,
    /// Ask whether an event exists.
    CheckEvent { event_id: u128 },
    /// Lock one available seat of the event, skipping seats other
    /// transactions have locked.
    LockSeat { event_id: u128 },
    /// Insert the booking as a hold that lapses `hold_ttl_secs` from now.
    InsertBooking { event_id: u128, seat_id: u128, user_ref: String, key: String, hold_ttl_secs: i64 },
    /// Mark the seat as held by the booking.
    HoldSeat { booking_id: u128, seat_id: u128 },
    Commit,
    Rollback,
    /// The request is over, with this outcome.
    Finish(Result<ReservedSeat, AppError>),
}

/// The database's answer to the last statement.
#[derive(Debug)]
pub enum ReserveEvent {
    /// The booking stored under the key, if there is one.
    Found(Option<ReservedSeat>),
    /// Whether the event exists.
    EventChecked(bool),
    /// The seat that was locked (its id and label), or none when all are taken.
    SeatLocked(Option<(u128, String)>),
    /// The new booking's id and the time its hold lapses.
    Inserted { booking_id: u128, expires_at: i64 },
    /// The insert broke the uniqueness of the idempotency key.
    UniqueViolation,
    /// A statement without a result went through.
    Completed,
    Failed(DbError),
}

/// One request to reserve any free seat of an event.
#[derive(Debug)]
pub struct Reservation {
    pub event_id: u128,
    pub user_ref: String,
    pub key: String,
    pub hold_ttl_secs: i64,
    pub phase: ReservePhase,
}

pub open spec fn with_phase(m: Reservation, phase: ReservePhase) -> Reservation {
    Reservation { phase, ..m }
}

/// The outcome when the database answers out of turn, or fails.
pub open spec fn abort(m: Reservation, e: ReserveEvent) -> (Reservation, ReserveAction) {
    let err = match e {
        ReserveEvent::Failed(d) => d,
        _ => DbError::Other,
    };
    (with_phase(m, ReservePhase::Finished), ReserveAction::Finish(Err(AppError::Db(err))))
}

/// The next phase and statement, given the answer to the last statement.
pub open spec fn reserve_transition(m: Reservation, e: ReserveEvent) -> (Reservation, ReserveAction) {
    match m.phase {
        ReservePhase::FindingExisting => match e {
            ReserveEvent::Found(Some(b)) =>
                (with_phase(m, ReservePhase::Finished), ReserveAction::Finish(Ok(b))),
            ReserveEvent::Found(None) => (with_phase(m, ReservePhase::Beginning), ReserveAction::Begin),
            _ => abort(m, e),
        },
        ReservePhase::Beginning => match e {
            ReserveEvent::Completed =>
                (with_phase(m, ReservePhase::CheckingEvent), ReserveAction::CheckEvent { event_id: m.event_id }),
            _ => abort(m, e),
        },
        ReservePhase::CheckingEvent => match e {
            ReserveEvent::EventChecked(true) =>
                (with_phase(m, ReservePhase::LockingSeat), ReserveAction::LockSeat { event_id: m.event_id }),
            ReserveEvent::EventChecked(false) =>
                (with_phase(m, ReservePhase::Finished),
                 ReserveAction::Finish(Err(AppError::NotFound("event not found")))),
            _ => abort(m, e),
        },
        ReservePhase::LockingSeat => match e {
            ReserveEvent::SeatLocked(Some((seat_id, seat_label))) =>
                (with_phase(m, ReservePhase::Inserting { seat_id, seat_label }),
                 ReserveAction::InsertBooking {
                    event_id: m.event_id,
                    seat_id,
                    user_ref: m.user_ref,
                    key: m.key,
                    hold_ttl_secs: m.hold_ttl_secs,
                }),
            ReserveEvent::SeatLocked(None) =>
                (with_phase(m, ReservePhase::Finished), ReserveAction::Finish(Err(AppError::SoldOut))),
            _ => abort(m, e),
        },
        ReservePhase::Inserting { seat_id, seat_label } => match e {
            ReserveEvent::Inserted { booking_id, expires_at } =>
                (with_phase(m, ReservePhase::Holding { booking_id, seat_id, seat_label, expires_at }),
                 ReserveAction::HoldSeat { booking_id, seat_id }),
            ReserveEvent::UniqueViolation =>
                (with_phase(m, ReservePhase::RollingBack), ReserveAction::Rollback),
            _ => abort(m, e),
        },
        ReservePhase::Holding { booking_id, seat_id, seat_label, expires_at } => match e {
            ReserveEvent::Completed =>
                (with_phase(m, ReservePhase::Committing { booking_id, seat_id, seat_label, expires_at }),
                 ReserveAction::Commit),
            _ => abort(m, e),
        },
        ReservePhase::Committing { booking_id, seat_id, seat_label, expires_at } => match e {
            ReserveEvent::Completed =>
                (with_phase(m, ReservePhase::Finished),
                 ReserveAction::Finish(Ok(ReservedSeat {
                    booking_id,
                    seat_id,
                    seat_label,
                    status: BookingStatus::Held,
                    expires_at: Some(expires_at),
                }))),
            _ => abort(m, e),
        },
        ReservePhase::RollingBack => match e {
            ReserveEvent::Completed =>
                (with_phase(m, ReservePhase::FindingWinner), ReserveAction::FindBookingByKey { key: m.key }),
            _ => abort(m, e),
        },
        ReservePhase::FindingWinner => match e {
            ReserveEvent::Found(Some(b)) =>
                (with_phase(m, ReservePhase::Finished), ReserveAction::Finish(Ok(b))),
            ReserveEvent::Found(None) =>
                (with_phase(m, ReservePhase::Finished),
                 ReserveAction::Finish(Err(AppError::Db(DbError::UniqueViolation)))),
            _ => abort(m, e),
        },
        ReservePhase::Finished => abort(m, e),
    }
}

/// How many answers a reservation can still wait for at most.
pub open spec fn reserve_rank(p: ReservePhase) -> nat {
    match p {
        ReservePhase::FindingExisting => 9,
        ReservePhase::Beginning => 8,
        ReservePhase::CheckingEvent => 7,
        ReservePhase::LockingSeat => 6,
        ReservePhase::Inserting { .. } => 5,
        ReservePhase::Holding { .. } => 4,
        ReservePhase::Committing { .. } => 3,
        ReservePhase::RollingBack => 2,
        ReservePhase::FindingWinner => 1,
        ReservePhase::Finished => 0,
    }
}

impl Reservation {
    /// Starts a reservation; its first statement looks for a booking already
    /// stored under the idempotency key, so that a retry never takes a second seat.
    pub fn new(event_id: u128, user_ref: String, key: String, hold_ttl_secs: i64) -> (r: (Reservation, ReserveAction))
        ensures
            r.0 == (Reservation { event_id, user_ref, key, hold_ttl_secs, phase: ReservePhase::FindingExisting }),
            r.1 == (ReserveAction::FindBookingByKey { key }),
    {
        let lookup = key.clone();
        (Reservation { event_id, user_ref, key, hold_ttl_secs, phase: ReservePhase::FindingExisting },
         ReserveAction::FindBookingByKey { key: lookup })
    }

    /// Takes the database's answer to the last statement and gives the next one.
    pub fn step(self, e: ReserveEvent) -> (r: (Reservation, ReserveAction))
        ensures
            r == reserve_transition(self, e),
    {
        let Reservation { event_id, user_ref, key, hold_ttl_secs, phase } = self;
        match phase {
            ReservePhase::FindingExisting => match e {
                ReserveEvent::Found(Some(b)) =>
                    (Reservation { event_id, user_ref, key, hold_ttl_secs, phase: ReservePhase::Finished },
                     ReserveAction::Finish(Ok(b))),
                ReserveEvent::Found(None) =>
                    (Reservation { event_id, user_ref, key, hold_ttl_secs, phase: ReservePhase::Beginning },
                     ReserveAction::Begin),
                _ => Self::aborted(event_id, user_ref, key, hold_ttl_secs, e),
            },
            ReservePhase::Beginning => match e {
                ReserveEvent::Completed =>
                    (Reservation { event_id, user_ref, key, hold_ttl_secs, phase: ReservePhase::CheckingEvent },
                     ReserveAction::CheckEvent { event_id }),
                _ => Self::aborted(event_id, user_ref, key, hold_ttl_secs, e),
            },
            ReservePhase::CheckingEvent => match e {
                ReserveEvent::EventChecked(true) =>
                    (Reservation { event_id, user_ref, key, hold_ttl_secs, phase: ReservePhase::LockingSeat },
                     ReserveAction::LockSeat { event_id }),
                ReserveEvent::EventChecked(false) =>
                    (Reservation { event_id, user_ref, key, hold_ttl_secs, phase: ReservePhase::Finished },
                     ReserveAction::Finish(Err(AppError::NotFound("event not found")))),
                _ => Self::aborted(event_id, user_ref, key, hold_ttl_secs, e),
            },
            ReservePhase::LockingSeat => match e {
                ReserveEvent::SeatLocked(Some((seat_id, seat_label))) => {
                    let action = ReserveAction::InsertBooking {
                        event_id,
                        seat_id,
                        user_ref: user_ref.clone(),
                        key: key.clone(),
                        hold_ttl_secs,
                    };
                    (Reservation {
                        event_id, user_ref, key, hold_ttl_secs,
                        phase: ReservePhase::Inserting { seat_id, seat_label },
                    }, action)
                },
                ReserveEvent::SeatLocked(None) =>
                    (Reservation { event_id, user_ref, key, hold_ttl_secs, phase: ReservePhase::Finished },
                     ReserveAction::Finish(Err(AppError::SoldOut))),
                _ => Self::aborted(event_id, user_ref, key, hold_ttl_secs, e),
            },
            ReservePhase::Inserting { seat_id, seat_label } => match e {
                ReserveEvent::Inserted { booking_id, expires_at } =>
                    (Reservation {
                        event_id, user_ref, key, hold_ttl_secs,
                        phase: ReservePhase::Holding { booking_id, seat_id, seat_label, expires_at },
                    }, ReserveAction::HoldSeat { booking_id, seat_id }),
                ReserveEvent::UniqueViolation =>
                    (Reservation { event_id, user_ref, key, hold_ttl_secs, phase: ReservePhase::RollingBack },
                     ReserveAction::Rollback),
                _ => Self::aborted(event_id, user_ref, key, hold_ttl_secs, e),
            },
            ReservePhase::Holding { booking_id, seat_id, seat_label, expires_at } => match e {
                ReserveEvent::Completed =>
                    (Reservation {
                        event_id, user_ref, key, hold_ttl_secs,
                        phase: ReservePhase::Committing { booking_id, seat_id, seat_label, expires_at },
                    }, ReserveAction::Commit),
                _ => Self::aborted(event_id, user_ref, key, hold_ttl_secs, e),
            },
            ReservePhase::Committing { booking_id, seat_id, seat_label, expires_at } => match e {
                ReserveEvent::Completed =>
                    (Reservation { event_id, user_ref, key, hold_ttl_secs, phase: ReservePhase::Finished },
                     ReserveAction::Finish(Ok(ReservedSeat {
                        booking_id,
                        seat_id,
                        seat_label,
                        status: BookingStatus::Held,
                        expires_at: Some(expires_at),
                    }))),
                _ => Self::aborted(event_id, user_ref, key, hold_ttl_secs, e),
            },
            ReservePhase::RollingBack => match e {
                ReserveEvent::Completed => {
                    let lookup = key.clone();
                    (Reservation { event_id, user_ref, key, hold_ttl_secs, phase: ReservePhase::FindingWinner },
                     ReserveAction::FindBookingByKey { key: lookup })
                },
                _ => Self::aborted(event_id, user_ref, key, hold_ttl_secs, e),
            },
            ReservePhase::FindingWinner => match e {
                ReserveEvent::Found(Some(b)) =>
                    (Reservation { event_id, user_ref, key, hold_ttl_secs, phase: ReservePhase::Finished },
                     ReserveAction::Finish(Ok(b))),
                ReserveEvent::Found(None) =>
                    (Reservation { event_id, user_ref, key, hold_ttl_secs, phase: ReservePhase::Finished },
                     ReserveAction::Finish(Err(AppError::Db(DbError::UniqueViolation)))),
                _ => Self::aborted(event_id, user_ref, key, hold_ttl_secs, e),
            },
            ReservePhase::Finished => Self::aborted(event_id, user_ref, key, hold_ttl_secs, e),
        }
    }

    fn aborted(event_id: u128, user_ref: String, key: String, hold_ttl_secs: i64, e: ReserveEvent)
        -> (r: (Reservation, ReserveAction))
        ensures
            r == abort(Reservation { event_id, user_ref, key, hold_ttl_secs, phase: ReservePhase::Finished }, e),
    {
        let err = match e {
            ReserveEvent::Failed(d) => d,
            _ => DbError::Other,
        };
        (Reservation { event_id, user_ref, key, hold_ttl_secs, phase: ReservePhase::Finished },
         ReserveAction::Finish(Err(AppError::Db(err))))
    }
}

} // verus!
