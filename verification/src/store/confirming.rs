//! Confirming a hold in the ledger by running the confirmation protocol.
use vstd::prelude::*;
use crate::confirm::{ConfirmAction, ConfirmEvent, ConfirmPhase, Confirmation, confirm_rank, confirmed, lapsed};
use crate::error::AppError;
use crate::repo::{BookingStatus, ReservedSeat};
use super::{lemma_seats_carried_over, BookingRow, SeatRow, SeatStatus, SeatStore, Tables, lemma_seat_from, seat_exists, seat_from, seat_owned, seat_status_for};

verus! {

/// What confirming the hold stored under `key` at time `now` does to the
/// tables `t` (giving `t2`) and answers: a booking already confirmed is
/// answered as it is; a live hold becomes a booking; a lapsed hold is refused.
pub open spec fn confirm_post(t: Tables, t2: Tables, key: Seq<char>, now: i64, r: Result<ReservedSeat, AppError>) -> bool {
    match t.key_index(key) {
        None => t2 == t && r == Err::<ReservedSeat, AppError>(AppError::NotFound("reservation not found")),
        Some(b) => if t.bookings[b].status == BookingStatus::Booked {
            t2 == t && r == Ok::<ReservedSeat, AppError>(t.reserved(b))
        } else if lapsed(t.bookings[b].expires_at, now) {
            t2 == t && r == Err::<ReservedSeat, AppError>(AppError::Conflict("hold has expired"))
        } else {
            &&& t2 == t.with_confirmed(b, seat_from(t.seats, t.bookings[b].seat_id, 0).unwrap())
            &&& r == Ok::<ReservedSeat, AppError>(confirmed(t.reserved(b)))
        },
    }
}

/// Where a confirmation run against the ledger stands.
pub open spec fn confirm_progress(
    t0: Tables,
    t: Tables,
    m: Confirmation,
    a: ConfirmAction,
    b: int,
    s: int,
    marked: bool,
    key: Seq<char>,
    now: i64,
) -> bool {
    let target = t == t0 && t0.key_index(key) == Some(b) && 0 <= b < t0.bookings.len()
        && seat_from(t0.seats, t0.bookings[b].seat_id, 0) == Some(s) && 0 <= s < t0.seats.len()
        && t0.bookings[b].status == BookingStatus::Held && !lapsed(t0.bookings[b].expires_at, now);
    &&& m.key@ == key
    &&& match m.phase {
        ConfirmPhase::Beginning => t == t0 && !marked && a is Begin,
        ConfirmPhase::Locking => t == t0 && !marked && (a matches ConfirmAction::LockBookingByKey { key: kk } && kk@ == key),
        ConfirmPhase::Confirming { booking } => target && !marked && booking == t0.reserved(b)
            && a == (ConfirmAction::ConfirmBooking { booking_id: booking.booking_id, seat_id: booking.seat_id }),
        ConfirmPhase::Committing { booking } => target && marked && booking == t0.reserved(b) && a is Commit,
        ConfirmPhase::Finished => a matches ConfirmAction::Finish(r) && confirm_post(t0, t, key, now, r),
    }
}

impl SeatStore {
    /// Marks booking `b` and its seat `s` as booked.
    fn commit_confirm(&mut self, b: usize, s: usize)
        requires
            old(self).wf(),
            b < old(self)@.bookings.len(),
            s < old(self)@.seats.len(),
            old(self)@.seats[s as int].id == old(self)@.bookings[b as int].seat_id,
        ensures
            final(self)@ == old(self)@.with_confirmed(b as int, s as int),
            final(self).wf(),
    {
        let ghost t0 = self@;
        let seat = SeatRow {
            id: self.seats[s].id,
            event_id: self.seats[s].event_id,
            label: self.seats[s].label.clone(),
            status: SeatStatus::Booked,
        };
        let booking = BookingRow {
            id: self.bookings[b].id,
            event_id: self.bookings[b].event_id,
            seat_id: self.bookings[b].seat_id,
            user_ref: self.bookings[b].user_ref.clone(),
            key: self.bookings[b].key.clone(),
            status: BookingStatus::Booked,
            expires_at: None,
        };
        self.seats[s] = seat;
        self.bookings[b] = booking;
        proof {
            lemma_confirm_keeps_wf(t0, b as int, s as int);
            assert(self@ == t0.with_confirmed(b as int, s as int));
        }
    }

    /// Confirms the hold stored under `key` at time `now`, by running the
    /// confirmation protocol against the ledger. Confirming twice gives the
    /// same booking and changes nothing the second time.
    pub fn confirm_reservation(&mut self, key: &str, now: i64) -> (r: Result<ReservedSeat, AppError>)
        requires
            old(self).wf(),
        ensures
            final(self).wf(),
            confirm_post(old(self)@, final(self)@, key@, now, r),
    {
        let ghost t0 = self@;
        let (mut m, mut action) = Confirmation::new(key.to_owned());
        let mut b: usize = 0;
        let mut s: usize = 0;
        let mut marked = false;
        loop
            invariant
                self.wf(),
                t0 == old(self)@,
                confirm_progress(t0, self@, m, action, b as int, s as int, marked, key@, now),
            decreases confirm_rank(m.phase),
        {
            let event = match action {
                ConfirmAction::Finish(r) => {
                    return r;
                },
                ConfirmAction::Begin => ConfirmEvent::Completed,
                ConfirmAction::LockBookingByKey { key } => {
                    match self.locate(&key) {
                        Some((bi, si)) => {
                            b = bi;
                            s = si;
                            proof {
                                lemma_seat_from(self@.seats, self@.bookings[b as int].seat_id, 0);
                            }
                            ConfirmEvent::Locked { booking: Some(self.reserved_at(bi, si)), now }
                        },
                        None => ConfirmEvent::Locked { booking: None, now },
                    }
                },
                ConfirmAction::ConfirmBooking { .. } => {
                    marked = true;
                    ConfirmEvent::Completed
                },
                ConfirmAction::Commit => {
                    proof {
                        lemma_seat_from(self@.seats, self@.bookings[b as int].seat_id, 0);
                    }
                    self.commit_confirm(b, s);
                    ConfirmEvent::Completed
                },
            };
            let (m2, a2) = m.step(event);
            m = m2;
            action = a2;
        }
    }
}

/// Confirming a booking together with its seat keeps the ledger's invariant.
pub proof fn lemma_confirm_keeps_wf(t0: Tables, bi: int, si: int)
    requires
        t0.wf(),
        0 <= bi < t0.bookings.len(),
        0 <= si < t0.seats.len(),
        t0.seats[si].id == t0.bookings[bi].seat_id,
    ensures
        t0.with_confirmed(bi, si).wf(),
{
    let t = t0.with_confirmed(bi, si);
    lemma_seats_carried_over(t0, t);
    assert forall|i: int, j: int| 0 <= i < t.bookings.len() && 0 <= j < t.bookings.len() && i != j
        implies #[trigger] t.bookings[i].id != #[trigger] t.bookings[j].id by {
        assert(t.bookings[i].id == t0.bookings[i].id);
        assert(t.bookings[j].id == t0.bookings[j].id);
    }
    assert forall|i: int| 0 <= i < t.bookings.len() implies #[trigger] t.bookings[i].id < t.next_id by {
        assert(t.bookings[i].id == t0.bookings[i].id);
    }
    assert forall|i: int, j: int| 0 <= i < t.bookings.len() && 0 <= j < t.bookings.len() && i != j
        implies #[trigger] t.bookings[i].key@ != #[trigger] t.bookings[j].key@ by {
        assert(t.bookings[i].key == t0.bookings[i].key);
        assert(t.bookings[j].key == t0.bookings[j].key);
    }
    assert forall|i: int, j: int| 0 <= i < t.bookings.len() && 0 <= j < t.bookings.len() && i != j
        implies #[trigger] t.bookings[i].seat_id != #[trigger] t.bookings[j].seat_id by {
        assert(t.bookings[i].seat_id == t0.bookings[i].seat_id);
        assert(t.bookings[j].seat_id == t0.bookings[j].seat_id);
    }
    assert(t.no_seat_taken_twice());
    assert forall|x: int| 0 <= x < t.bookings.len()
        implies seat_exists(t.seats, #[trigger] t.bookings[x].seat_id) by {
        assert(t.bookings[x].seat_id == t0.bookings[x].seat_id);
        assert(seat_exists(t0.seats, t0.bookings[x].seat_id));
            let y = choose|y: int| 0 <= y < t0.seats.len() && #[trigger] t0.seats[y].id == t0.bookings[x].seat_id;
        assert(t.seats[y].id == t0.seats[y].id);
    }
    assert forall|x: int, y: int| 0 <= x < t.bookings.len() && 0 <= y < t.seats.len()
        && #[trigger] t.bookings[x].seat_id == #[trigger] t.seats[y].id
        implies t.seats[y].status == seat_status_for(t.bookings[x].status)
            && t.seats[y].event_id == t.bookings[x].event_id by {
        assert(t.bookings[x].seat_id == t0.bookings[x].seat_id);
        assert(t.seats[y].id == t0.seats[y].id);
        assert(t0.seats[si].id == t0.bookings[bi].seat_id);
        if x == bi {
            if y != si {
                assert(t0.seats[y].id == t0.seats[si].id);
            }
        } else {
            if y == si {
                assert(t0.bookings[x].seat_id == t0.bookings[bi].seat_id);
            }
        }
    }
    assert forall|x: int| 0 <= x < t.bookings.len()
        implies ((#[trigger] t.bookings[x]).status == BookingStatus::Held) == (t.bookings[x].expires_at is Some) by {
        if x != bi {
            assert(t.bookings[x] == t0.bookings[x]);
        }
    }
    assert forall|y: int| 0 <= y < t.seats.len() && (#[trigger] t.seats[y]).status != SeatStatus::Available
        implies seat_owned(t.bookings, t.seats[y].id) by {
        if y == si {
            assert(t.bookings[bi].seat_id == t.seats[y].id);
        } else {
            assert(t.seats[y] == t0.seats[y]);
            assert(seat_owned(t0.bookings, t0.seats[y].id));
            let x = choose|x: int| 0 <= x < t0.bookings.len() && #[trigger] t0.bookings[x].seat_id == t0.seats[y].id;
            assert(t.bookings[x].seat_id == t0.bookings[x].seat_id);
        }
    }
}

} // verus!
