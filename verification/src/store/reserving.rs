//! Reserving a seat in the ledger by running the reservation protocol.
use vstd::prelude::*;
use crate::error::{AppError, DbError};
use crate::repo::{BookingStatus, ReservedSeat};
use crate::reserve::{Reservation, ReserveAction, ReserveEvent, ReservePhase, reserve_rank};
use super::{lemma_next_id_raised_keeps_wf, lemma_seats_carried_over, BookingRow, SeatRow, SeatStatus, SeatStore, Tables, lemma_least_free, lemma_key_from, seat_exists, seat_owned, seat_status_for};

verus! {

impl SeatStore {
    /// Applies a new hold: seat `s` becomes held and booking `b` is stored.
    fn commit_hold(&mut self, s: usize, b: BookingRow)
        requires
            old(self).wf(),
            s < old(self)@.seats.len(),
            old(self)@.seats[s as int].status == SeatStatus::Available,
            b.seat_id == old(self)@.seats[s as int].id,
            b.event_id == old(self)@.seats[s as int].event_id,
            b.id == old(self)@.next_id,
            old(self)@.next_id < u128::MAX,
            old(self)@.key_index(b.key@) is None,
            b.status == BookingStatus::Held,
            b.expires_at is Some,
        ensures
            final(self)@ == old(self)@.with_hold(s as int, b),
            final(self).wf(),
    {
        let ghost t0 = self@;
        let row = SeatRow {
            id: self.seats[s].id,
            event_id: self.seats[s].event_id,
            label: self.seats[s].label.clone(),
            status: SeatStatus::Held,
        };
        self.seats[s] = row;
        self.bookings.push(b);
        self.next_id = self.next_id + 1;
        proof {
            lemma_hold_keeps_wf(t0, s as int, b);
            assert(self@ == t0.with_hold(s as int, b));
        }
    }
}

/// What reserving a seat does to the tables `t` (giving `t2`) and answers:
/// the booking already stored under the key, if any; otherwise the free seat
/// of the event with the least label is held for `ttl` seconds from `now` by a new booking.
pub open spec fn reserve_post(
    t: Tables,
    t2: Tables,
    event_id: u128,
    user_ref: Seq<char>,
    key: Seq<char>,
    ttl: i64,
    now: i64,
    r: Result<ReservedSeat, AppError>,
) -> bool {
    match t.key_index(key) {
        Some(b) => t2 == t && r == Ok::<ReservedSeat, AppError>(t.reserved(b)),
        None => if !t.event_exists(event_id) {
            t2 == t && r == Err::<ReservedSeat, AppError>(AppError::NotFound("event not found"))
        } else {
            match t.seat_to_hold(event_id) {
                None => t2 == t && r == Err::<ReservedSeat, AppError>(AppError::SoldOut),
                Some(s) => if t.next_id == u128::MAX || now + ttl < i64::MIN || now + ttl > i64::MAX {
                    t2 == t && r == Err::<ReservedSeat, AppError>(AppError::Db(DbError::Other))
                } else {
                    let b = t2.bookings.last();
                    &&& t2 == t.with_hold(s, b)
                    &&& b.id == t.next_id
                    &&& b.event_id == event_id
                    &&& b.seat_id == t.seats[s].id
                    &&& b.user_ref@ == user_ref
                    &&& b.key@ == key
                    &&& b.status == BookingStatus::Held
                    &&& b.expires_at == Some((now + ttl) as i64)
                    &&& r == Ok::<ReservedSeat, AppError>(ReservedSeat {
                        booking_id: t.next_id,
                        seat_id: t.seats[s].id,
                        seat_label: t.seats[s].label,
                        status: BookingStatus::Held,
                        expires_at: Some((now + ttl) as i64),
                    })
                }
            }
        }
    }
}

/// Where a reservation run against the ledger stands: which answers it has
/// had, and what it has staged for the commit.
pub open spec fn reserve_progress(
    t0: Tables,
    t: Tables,
    m: Reservation,
    a: ReserveAction,
    locked: int,
    staged: Option<BookingRow>,
    hold: bool,
    event_id: u128,
    user_ref: Seq<char>,
    key: Seq<char>,
    ttl: i64,
    now: i64,
) -> bool {
    let before_write = t == t0 && t0.key_index(key) is None;
    let seat_ok = t0.event_exists(event_id) && t0.seat_to_hold(event_id) == Some(locked);
    &&& m.event_id == event_id
    &&& m.user_ref@ == user_ref
    &&& m.key@ == key
    &&& m.hold_ttl_secs == ttl
    &&& match m.phase {
        ReservePhase::FindingExisting => t == t0 && !hold && (a matches ReserveAction::FindBookingByKey { key: kk } && kk@ == key),
        ReservePhase::Beginning => before_write && !hold && a is Begin,
        ReservePhase::CheckingEvent => before_write && !hold && a == (ReserveAction::CheckEvent { event_id }),
        ReservePhase::LockingSeat => before_write && !hold && t0.event_exists(event_id)
            && a == (ReserveAction::LockSeat { event_id }),
        ReservePhase::Inserting { seat_id, seat_label } => before_write && !hold && seat_ok
            && seat_id == t0.seats[locked].id && seat_label == t0.seats[locked].label
            && (a matches ReserveAction::InsertBooking { event_id: ee, seat_id: ss, user_ref: uu, key: kk, hold_ttl_secs: tt }
                && ee == event_id && ss == seat_id && uu@ == user_ref && kk@ == key && tt == ttl),
        ReservePhase::Holding { booking_id, seat_id, seat_label, expires_at } => before_write && seat_ok
            && seat_id == t0.seats[locked].id && seat_label == t0.seats[locked].label
            && staged_ok(t0, staged, locked, booking_id, expires_at, event_id, user_ref, key, ttl, now)
            && !hold && a == (ReserveAction::HoldSeat { booking_id, seat_id }),
        ReservePhase::Committing { booking_id, seat_id, seat_label, expires_at } => before_write && seat_ok
            && seat_id == t0.seats[locked].id && seat_label == t0.seats[locked].label
            && staged_ok(t0, staged, locked, booking_id, expires_at, event_id, user_ref, key, ttl, now)
            && hold && a is Commit,
        ReservePhase::RollingBack => false,
        ReservePhase::FindingWinner => false,
        ReservePhase::Finished => a matches ReserveAction::Finish(r)
            && reserve_post(t0, t, event_id, user_ref, key, ttl, now, r),
    }
}

/// The booking staged for the commit is the new hold on seat `locked`.
pub open spec fn staged_ok(
    t0: Tables,
    staged: Option<BookingRow>,
    locked: int,
    booking_id: u128,
    expires_at: i64,
    event_id: u128,
    user_ref: Seq<char>,
    key: Seq<char>,
    ttl: i64,
    now: i64,
) -> bool {
    &&& staged is Some
    &&& t0.next_id < u128::MAX
    &&& i64::MIN <= now + ttl <= i64::MAX
    &&& expires_at == now + ttl
    &&& booking_id == t0.next_id
    &&& staged.unwrap().id == booking_id
    &&& staged.unwrap().event_id == event_id
    &&& staged.unwrap().seat_id == t0.seats[locked].id
    &&& staged.unwrap().user_ref@ == user_ref
    &&& staged.unwrap().key@ == key
    &&& staged.unwrap().status == BookingStatus::Held
    &&& staged.unwrap().expires_at == Some(expires_at)
}

impl SeatStore {
    /// Reserves any free seat of the event for `user_ref`, as a hold that lapses
    /// `hold_ttl_secs` after `now`, by running the reservation protocol
    /// against the ledger. A retry under the same idempotency key gets the
    /// booking it already has.
    pub fn reserve_any_seat(
        &mut self,
        event_id: u128,
        user_ref: &str,
        key: &str,
        hold_ttl_secs: i64,
        now: i64,
    ) -> (r: Result<ReservedSeat, AppError>)
        requires
            old(self).wf(),
        ensures
            final(self).wf(),
            reserve_post(old(self)@, final(self)@, event_id, user_ref@, key@, hold_ttl_secs, now, r),
    {
        let ghost t0 = self@;
        let (mut m, mut action) = Reservation::new(event_id, user_ref.to_owned(), key.to_owned(), hold_ttl_secs);
        let mut locked: usize = 0;
        let mut staged: Option<BookingRow> = None;
        let mut hold = false;
        loop
            invariant
                self.wf(),
                t0 == old(self)@,
                reserve_progress(t0, self@, m, action, locked as int, staged, hold,
                    event_id, user_ref@, key@, hold_ttl_secs, now),
            decreases reserve_rank(m.phase),
        {
            let ghost m0 = m;
            let event = match action {
                ReserveAction::Finish(r) => {
                    return r;
                },
                ReserveAction::FindBookingByKey { key } => ReserveEvent::Found(self.find_booking_by_key(&key)),
                ReserveAction::Begin => ReserveEvent::Completed,
                ReserveAction::CheckEvent { event_id } => ReserveEvent::EventChecked(self.event_exists(event_id)),
                ReserveAction::LockSeat { event_id } => {
                    match self.free_seat_to_hold(event_id) {
                        Some(i) => {
                            locked = i;
                            ReserveEvent::SeatLocked(Some((self.seats[i].id, self.seats[i].label.clone())))
                        },
                        None => ReserveEvent::SeatLocked(None),
                    }
                },
                ReserveAction::InsertBooking { event_id, seat_id, user_ref, key, hold_ttl_secs } => {
                    if self.find_booking_by_key(&key).is_some() {
                        ReserveEvent::UniqueViolation
                    } else if self.next_id == u128::MAX {
                        ReserveEvent::Failed(DbError::Other)
                    } else {
                        match now.checked_add(hold_ttl_secs) {
                            None => ReserveEvent::Failed(DbError::Other),
                            Some(expires_at) => {
                                let booking_id = self.next_id;
                                staged = Some(BookingRow {
                                    id: booking_id,
                                    event_id,
                                    seat_id,
                                    user_ref,
                                    key,
                                    status: BookingStatus::Held,
                                    expires_at: Some(expires_at),
                                });
                                ReserveEvent::Inserted { booking_id, expires_at }
                            },
                        }
                    }
                },
                ReserveAction::HoldSeat { .. } => {
                    hold = true;
                    ReserveEvent::Completed
                },
                ReserveAction::Commit => {
                    let b = staged.unwrap();
                    staged = None;
                    proof {
                        lemma_least_free(self@.seats, event_id, self@.seats.len() as int);
                    }
                    self.commit_hold(locked, b);
                    ReserveEvent::Completed
                },
                ReserveAction::Rollback => {
                    staged = None;
                    ReserveEvent::Completed
                },
            };
            let (m2, a2) = m.step(event);
            m = m2;
            action = a2;
        }
    }
}

/// Holding a free seat for a new booking with a fresh id and a fresh key
/// keeps the ledger's invariant.
pub proof fn lemma_hold_keeps_wf(t0: Tables, si: int, b: BookingRow)
    requires
        t0.wf(),
        0 <= si < t0.seats.len(),
        t0.seats[si].status == SeatStatus::Available,
        b.seat_id == t0.seats[si].id,
        b.event_id == t0.seats[si].event_id,
        b.id == t0.next_id,
        t0.next_id < u128::MAX,
        t0.key_index(b.key@) is None,
        b.status == BookingStatus::Held,
        b.expires_at is Some,
    ensures
        t0.with_hold(si, b).wf(),
{
    let t1 = t0.with_next_id((t0.next_id + 1) as u128);
    lemma_next_id_raised_keeps_wf(t0, (t0.next_id + 1) as u128);
    assert forall|x: int| 0 <= x < t1.bookings.len() implies #[trigger] t1.bookings[x].id != b.id by {
        assert(t0.bookings[x].id < t0.next_id);
    }
    lemma_commit_keeps_wf(t1, si, b);
    assert(t1.with_commit(si, b) =~= t0.with_hold(si, b));
}

/// Committing a transaction that inserted booking `b`, with an id drawn from
/// the sequence and a key no stored booking has, for free seat `si`, keeps
/// the ledger's invariant.
pub proof fn lemma_commit_keeps_wf(t0: Tables, si: int, b: BookingRow)
    requires
        t0.wf(),
        0 <= si < t0.seats.len(),
        t0.seats[si].status == SeatStatus::Available,
        b.seat_id == t0.seats[si].id,
        b.event_id == t0.seats[si].event_id,
        b.id < t0.next_id,
        forall|x: int| 0 <= x < t0.bookings.len() ==> #[trigger] t0.bookings[x].id != b.id,
        t0.key_index(b.key@) is None,
        b.status == BookingStatus::Held,
        b.expires_at is Some,
    ensures
        t0.with_commit(si, b).wf(),
{
    let t = t0.with_commit(si, b);
    lemma_seats_carried_over(t0, t);
    let nb = t0.bookings.len() as int;
    lemma_key_from(t0.bookings, b.key@, 0);
    // no old booking owns the seat that was free
    assert forall|x: int| 0 <= x < t0.bookings.len() implies #[trigger] t0.bookings[x].seat_id != b.seat_id by {
        if t0.bookings[x].seat_id == b.seat_id {
            assert(t0.bookings[x].seat_id == t0.seats[si].id);
        }
    }
    assert forall|i: int, j: int| 0 <= i < t.bookings.len() && 0 <= j < t.bookings.len() && i != j
        implies #[trigger] t.bookings[i].id != #[trigger] t.bookings[j].id by {
        if i < nb && j < nb {
            assert(t.bookings[i] == t0.bookings[i]);
            assert(t.bookings[j] == t0.bookings[j]);
        } else if i < nb {
            assert(t.bookings[i] == t0.bookings[i]);
        } else if j < nb {
            assert(t.bookings[j] == t0.bookings[j]);
        }
    }
    assert forall|i: int| 0 <= i < t.bookings.len() implies #[trigger] t.bookings[i].id < t.next_id by {
        if i < nb {
            assert(t.bookings[i] == t0.bookings[i]);
        }
    }
    assert forall|i: int, j: int| 0 <= i < t.bookings.len() && 0 <= j < t.bookings.len() && i != j
        implies #[trigger] t.bookings[i].key@ != #[trigger] t.bookings[j].key@ by {
        if i < nb && j < nb {
            assert(t.bookings[i] == t0.bookings[i]);
            assert(t.bookings[j] == t0.bookings[j]);
        } else if i < nb {
            assert(t.bookings[i] == t0.bookings[i]);
        } else if j < nb {
            assert(t.bookings[j] == t0.bookings[j]);
        }
    }
    assert forall|i: int, j: int| 0 <= i < t.bookings.len() && 0 <= j < t.bookings.len() && i != j
        implies #[trigger] t.bookings[i].seat_id != #[trigger] t.bookings[j].seat_id by {
        if i < nb && j < nb {
            assert(t.bookings[i] == t0.bookings[i]);
            assert(t.bookings[j] == t0.bookings[j]);
        } else if i < nb {
            assert(t.bookings[i] == t0.bookings[i]);
        } else if j < nb {
            assert(t.bookings[j] == t0.bookings[j]);
        }
    }
    assert(t.no_seat_taken_twice());
    assert forall|x: int| 0 <= x < t.bookings.len()
        implies seat_exists(t.seats, #[trigger] t.bookings[x].seat_id) by {
        if x < nb {
            assert(t.bookings[x] == t0.bookings[x]);
            assert(seat_exists(t0.seats, t0.bookings[x].seat_id));
            let y = choose|y: int| 0 <= y < t0.seats.len() && #[trigger] t0.seats[y].id == t0.bookings[x].seat_id;
            assert(t.seats[y].id == t0.seats[y].id);
        } else {
            assert(t.seats[si].id == b.seat_id);
        }
    }
    assert forall|x: int, y: int| 0 <= x < t.bookings.len() && 0 <= y < t.seats.len()
        && #[trigger] t.bookings[x].seat_id == #[trigger] t.seats[y].id
        implies t.seats[y].status == seat_status_for(t.bookings[x].status)
            && t.seats[y].event_id == t.bookings[x].event_id by {
        if x < nb {
            assert(t.bookings[x] == t0.bookings[x]);
            if y == si {
                assert(false);
            } else {
                assert(t.seats[y] == t0.seats[y]);
            }
        } else {
            if y != si {
                assert(t.seats[y].id == t0.seats[y].id);
            }
        }
    }
    assert forall|x: int| 0 <= x < t.bookings.len()
        implies ((#[trigger] t.bookings[x]).status == BookingStatus::Held) == (t.bookings[x].expires_at is Some) by {
        if x < nb {
            assert(t.bookings[x] == t0.bookings[x]);
        }
    }
    assert forall|y: int| 0 <= y < t.seats.len() && (#[trigger] t.seats[y]).status != SeatStatus::Available
        implies seat_owned(t.bookings, t.seats[y].id) by {
        if y == si {
            assert(t.bookings[nb].seat_id == t.seats[y].id);
        } else {
            assert(t.seats[y] == t0.seats[y]);
            assert(seat_owned(t0.bookings, t0.seats[y].id));
            let x = choose|x: int| 0 <= x < t0.bookings.len() && #[trigger] t0.bookings[x].seat_id == t0.seats[y].id;
            assert(t.bookings[x] == t0.bookings[x]);
        }
    }
}

} // verus!
