//! The protocol that turns a hold into a booking: a state machine over the
//! answers to the database statements it issues.
use vstd::prelude::*;
use crate::error::{AppError, DbError};
use crate::repo::{BookingStatus, ReservedSeat};

verus! {

#[derive(Debug)]
pub enum ConfirmPhase {
    /// Waiting for the transaction to open.
    Beginning,
    /// Waiting for the booking stored under the key, locked for update, and
    /// the database's clock.
    Locking,
    /// Waiting for the booking and its seat to be marked as booked.
    Confirming { booking: ReservedSeat },
    /// Waiting for the transaction to commit.
    Committing { booking: ReservedSeat },
    /// The outcome has been handed out.
    Finished,
}

#[derive(Debug)]
pub enum ConfirmAction {
    /// Open a transaction.
    Begin,
    /// Fetch and lock the booking stored under the key, with its seat, and
    /// read the current time.
    LockBookingByKey { key: String },
    /// Mark the booking and its seat as booked; the hold no longer lapses.
    ConfirmBooking { booking_id: u128, seat_id: u128 },
    Commit,
    /// The request is over, with this outcome.
    Finish(Result<ReservedSeat, AppError>),
}

#[derive(Debug)]
pub enum ConfirmEvent {
    /// The booking found under the key, if any, and the time now, in the
    /// same unit as the booking's expiry.
    Locked { booking: Option<ReservedSeat>, now: i64 },
    /// A statement without a result went through.
    Completed,
    Failed(DbError),
}

/// One request to confirm the hold stored under an idempotency key.
#[derive(Debug)]
pub struct Confirmation {
    pub key: String,
    pub phase: ConfirmPhase,
}

/// Whether a hold with this expiry has lapsed at time `now`.
pub open spec fn lapsed(expires_at: Option<i64>, now: i64) -> bool {
    match expires_at {
        Some(t) => t <= now,
        None => false,
    }
}

/// The booking as it reads once confirmed.
pub open spec fn confirmed(b: ReservedSeat) -> ReservedSeat {
    ReservedSeat { status: BookingStatus::Booked, expires_at: None, ..b }
}

pub open spec fn confirm_abort(m: Confirmation, e: ConfirmEvent) -> (Confirmation, ConfirmAction) {
    let err = match e {
        ConfirmEvent::Failed(d) => d,
        _ => DbError::Other,
    };
    (Confirmation { key: m.key, phase: ConfirmPhase::Finished }, ConfirmAction::Finish(Err(AppError::Db(err))))
}

/// The next phase and statement, given the answer to the last statement.
pub open spec fn confirm_transition(m: Confirmation, e: ConfirmEvent) -> (Confirmation, ConfirmAction) {
    match m.phase {
        ConfirmPhase::Beginning => match e {
            ConfirmEvent::Completed =>
                (Confirmation { key: m.key, phase: ConfirmPhase::Locking }, ConfirmAction::LockBookingByKey { key: m.key }),
            _ => confirm_abort(m, e),
        },
        ConfirmPhase::Locking => match e {
            ConfirmEvent::Locked { booking: None, now } =>
                (Confirmation { key: m.key, phase: ConfirmPhase::Finished },
                 ConfirmAction::Finish(Err(AppError::NotFound("reservation not found")))),
            ConfirmEvent::Locked { booking: Some(b), now } =>
                if b.status == BookingStatus::Booked {
                    (Confirmation { key: m.key, phase: ConfirmPhase::Finished }, ConfirmAction::Finish(Ok(b)))
                } else if lapsed(b.expires_at, now) {
                    (Confirmation { key: m.key, phase: ConfirmPhase::Finished },
                     ConfirmAction::Finish(Err(AppError::Conflict("hold has expired"))))
                } else {
                    (Confirmation { key: m.key, phase: ConfirmPhase::Confirming { booking: b } },
                     ConfirmAction::ConfirmBooking { booking_id: b.booking_id, seat_id: b.seat_id })
                },
            _ => confirm_abort(m, e),
        },
        ConfirmPhase::Confirming { booking } => match e {
            ConfirmEvent::Completed =>
                (Confirmation { key: m.key, phase: ConfirmPhase::Committing { booking } }, ConfirmAction::Commit),
            _ => confirm_abort(m, e),
        },
        ConfirmPhase::Committing { booking } => match e {
            ConfirmEvent::Completed =>
                (Confirmation { key: m.key, phase: ConfirmPhase::Finished },
                 ConfirmAction::Finish(Ok(confirmed(booking)))),
            _ => confirm_abort(m, e),
        },
        ConfirmPhase::Finished => confirm_abort(m, e),
    }
}

/// How many answers a confirmation can still wait for at most.
pub open spec fn confirm_rank(p: ConfirmPhase) -> nat {
    match p {
        ConfirmPhase::Beginning => 4,
        ConfirmPhase::Locking => 3,
        ConfirmPhase::Confirming { .. } => 2,
        ConfirmPhase::Committing { .. } => 1,
        ConfirmPhase::Finished => 0,
    }
}

impl Confirmation {
    /// Starts a confirmation by opening a transaction.
    pub fn new(key: String) -> (r: (Confirmation, ConfirmAction))
        ensures
            r.0 == (Confirmation { key, phase: ConfirmPhase::Beginning }),
            r.1 == ConfirmAction::Begin,
    {
        (Confirmation { key, phase: ConfirmPhase::Beginning }, ConfirmAction::Begin)
    }

    /// Takes the database's answer to the last statement and gives the next one.
    pub fn step(self, e: ConfirmEvent) -> (r: (Confirmation, ConfirmAction))
        ensures
            r == confirm_transition(self, e),
    {
        let Confirmation { key, phase } = self;
        match phase {
            ConfirmPhase::Beginning => match e {
                ConfirmEvent::Completed => {
                    let lookup = key.clone();
                    (Confirmation { key, phase: ConfirmPhase::Locking }, ConfirmAction::LockBookingByKey { key: lookup })
                },
                _ => Self::aborted(key, e),
            },
            ConfirmPhase::Locking => match e {
                ConfirmEvent::Locked { booking: None, now } =>
                    (Confirmation { key, phase: ConfirmPhase::Finished },
                     ConfirmAction::Finish(Err(AppError::NotFound("reservation not found")))),
                ConfirmEvent::Locked { booking: Some(b), now } => {
                    let expired = match b.expires_at {
                        Some(t) => t <= now,
                        None => false,
                    };
                    if b.status == BookingStatus::Booked {
                        (Confirmation { key, phase: ConfirmPhase::Finished }, ConfirmAction::Finish(Ok(b)))
                    } else if expired {
                        (Confirmation { key, phase: ConfirmPhase::Finished },
                         ConfirmAction::Finish(Err(AppError::Conflict("hold has expired"))))
                    } else {
                        let booking_id = b.booking_id;
                        let seat_id = b.seat_id;
                        (Confirmation { key, phase: ConfirmPhase::Confirming { booking: b } },
                         ConfirmAction::ConfirmBooking { booking_id, seat_id })
                    }
                },
                _ => Self::aborted(key, e),
            },
            ConfirmPhase::Confirming { booking } => match e {
                ConfirmEvent::Completed =>
                    (Confirmation { key, phase: ConfirmPhase::Committing { booking } }, ConfirmAction::Commit),
                _ => Self::aborted(key, e),
            },
            ConfirmPhase::Committing { booking } => match e {
                ConfirmEvent::Completed => {
                    let ReservedSeat { booking_id, seat_id, seat_label, .. } = booking;
                    (Confirmation { key, phase: ConfirmPhase::Finished },
                     ConfirmAction::Finish(Ok(ReservedSeat {
                        booking_id,
                        seat_id,
                        seat_label,
                        status: BookingStatus::Booked,
                        expires_at: None,
                    })))
                },
                _ => Self::aborted(key, e),
            },
            ConfirmPhase::Finished => Self::aborted(key, e),
        }
    }

    fn aborted(key: String, e: ConfirmEvent) -> (r: (Confirmation, ConfirmAction))
        ensures
            r == confirm_abort(Confirmation { key, phase: ConfirmPhase::Finished }, e),
    {
        let err = match e {
            ConfirmEvent::Failed(d) => d,
            _ => DbError::Other,
        };
        (Confirmation { key, phase: ConfirmPhase::Finished }, ConfirmAction::Finish(Err(AppError::Db(err))))
    }
}

} // verus!
