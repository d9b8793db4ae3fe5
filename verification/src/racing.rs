//! Reservations racing one another: many reservation protocols run at once
//! against shared tables, each inside a transaction of its own, while the
//! hold sweeper runs in between. A locked seat is skipped by the other
//! transactions, an insert waits while another open transaction has inserted
//! the same idempotency key, and only a commit makes a transaction's writes
//! visible.
use vstd::prelude::*;
use crate::repo::{BookingStatus, ReservedSeat};
use crate::reserve::{Reservation, ReserveAction, ReserveEvent, ReservePhase, reserve_transition};
use crate::store::{BookingRow, SeatStatus, Tables, is_free, key_from, seat_from, lemma_key_from,
    lemma_next_id_raised_keeps_wf, lemma_seat_from, lemma_seat_from_same_ids, lemma_seat_from_unique};
use crate::store::reserving::lemma_commit_keeps_wf;
use crate::store::sweeping::{kept_origin, lemma_kept_origin, lemma_sweep_keeps_wf};
use crate::laws::lemma_key_from_push_other;

verus! {

/// Whether `a` is the statement that a reservation in `m`'s phase waits on.
pub open spec fn awaits(m: Reservation, a: ReserveAction) -> bool {
    match m.phase {
        ReservePhase::FindingExisting => a == (ReserveAction::FindBookingByKey { key: m.key }),
        ReservePhase::Beginning => a is Begin,
        ReservePhase::CheckingEvent => a == (ReserveAction::CheckEvent { event_id: m.event_id }),
        ReservePhase::LockingSeat => a == (ReserveAction::LockSeat { event_id: m.event_id }),
        ReservePhase::Inserting { seat_id, .. } => a == (ReserveAction::InsertBooking {
            event_id: m.event_id,
            seat_id,
            user_ref: m.user_ref,
            key: m.key,
            hold_ttl_secs: m.hold_ttl_secs,
        }),
        ReservePhase::Holding { booking_id, seat_id, .. } => a == (ReserveAction::HoldSeat { booking_id, seat_id }),
        ReservePhase::Committing { .. } => a is Commit,
        ReservePhase::RollingBack => a is Rollback,
        ReservePhase::FindingWinner => a == (ReserveAction::FindBookingByKey { key: m.key }),
        ReservePhase::Finished => a is Finish,
    }
}

/// Each step of the protocol issues exactly the statement that its new phase
/// waits on, and keeps the request's event, user, key and hold time; so the
/// phase alone says which statement a request has outstanding.
pub proof fn law_step_issues_awaited_statement(m: Reservation, e: ReserveEvent)
    ensures
        awaits(reserve_transition(m, e).0, reserve_transition(m, e).1),
        reserve_transition(m, e).0.event_id == m.event_id,
        reserve_transition(m, e).0.user_ref == m.user_ref,
        reserve_transition(m, e).0.key == m.key,
        reserve_transition(m, e).0.hold_ttl_secs == m.hold_ttl_secs,
{
}

/// One request in flight: its protocol, the seat its transaction has locked,
/// and the booking its transaction has inserted and not yet committed.
pub struct Request {
    pub machine: Reservation,
    pub lock: Option<u128>,
    pub pending: Option<BookingRow>,
}

/// The committed tables, and the requests in flight.
pub struct Race {
    pub tables: Tables,
    pub requests: Seq<Request>,
}

/// Whether a request other than the `i`-th holds the lock on seat `id`.
pub open spec fn locked_by_other(r: Race, i: int, id: u128) -> bool {
    exists|j: int| 0 <= j < r.requests.len() && j != i && #[trigger] r.requests[j].lock == Some(id)
}

/// Whether a request other than the `i`-th has inserted, and not yet
/// committed, a booking under `key`.
pub open spec fn key_pending_elsewhere(r: Race, i: int, key: Seq<char>) -> bool {
    exists|j: int| 0 <= j < r.requests.len() && j != i && (#[trigger] r.requests[j].pending) is Some
        && r.requests[j].pending.unwrap().key@ == key
}

/// The answers the database may give to the statement the `i`-th request has
/// outstanding. Any statement may fail. A lookup sees the committed
/// bookings. Locking takes a committed free seat of the event that no other
/// transaction has locked (the database takes the one with the least label;
/// any such seat is allowed here), and finds none only when every free seat
/// of the event is locked by another transaction. An insert draws the next
/// id from the sequence when no committed booking has the key, and breaks
/// the unique index when one has; while another open transaction has
/// inserted the key, it waits, so it has no answer yet.
pub open spec fn may_answer(r: Race, i: int, e: ReserveEvent) -> bool {
    let t = r.tables;
    let m = r.requests[i].machine;
    if e is Failed {
        !(m.phase is Finished)
    } else {
        match m.phase {
            ReservePhase::FindingExisting => e == ReserveEvent::Found(t.booking_by_key(m.key@)),
            ReservePhase::FindingWinner => e == ReserveEvent::Found(t.booking_by_key(m.key@)),
            ReservePhase::Beginning => e is Completed,
            ReservePhase::CheckingEvent => e == ReserveEvent::EventChecked(t.event_exists(m.event_id)),
            ReservePhase::LockingSeat => match e {
                ReserveEvent::SeatLocked(Some((id, label))) => exists|s: int| 0 <= s < t.seats.len()
                    && #[trigger] is_free(t.seats, s, m.event_id)
                    && t.seats[s].id == id && t.seats[s].label == label && !locked_by_other(r, i, id),
                ReserveEvent::SeatLocked(None) => forall|s: int| 0 <= s < t.seats.len()
                    && #[trigger] is_free(t.seats, s, m.event_id) ==> locked_by_other(r, i, t.seats[s].id),
                _ => false,
            },
            ReservePhase::Inserting { .. } => match e {
                ReserveEvent::Inserted { booking_id, expires_at } => booking_id == t.next_id
                    && t.next_id < u128::MAX && t.key_index(m.key@) is None
                    && !key_pending_elsewhere(r, i, m.key@),
                ReserveEvent::UniqueViolation => t.key_index(m.key@) is Some,
                _ => false,
            },
            ReservePhase::Holding { .. } => e is Completed,
            ReservePhase::Committing { .. } => e is Completed,
            ReservePhase::RollingBack => e is Completed,
            ReservePhase::Finished => false,
        }
    }
}

/// The booking a request in the `Inserting` phase inserts.
pub open spec fn inserted_row(m: Reservation, seat_id: u128, booking_id: u128, expires_at: i64) -> BookingRow {
    BookingRow {
        id: booking_id,
        event_id: m.event_id,
        seat_id,
        user_ref: m.user_ref,
        key: m.key,
        status: BookingStatus::Held,
        expires_at: Some(expires_at),
    }
}

/// The index of the seat with id `id` in the tables.
pub open spec fn seat_index(t: Tables, id: u128) -> int {
    seat_from(t.seats, id, 0).unwrap()
}

/// What the `i`-th request's transaction holds after the answer `e`.
pub open spec fn request_after(r: Race, i: int, e: ReserveEvent) -> Request {
    let q = r.requests[i];
    let m2 = reserve_transition(q.machine, e).0;
    if e is Failed {
        Request { machine: m2, lock: None, pending: None }
    } else {
        match q.machine.phase {
            ReservePhase::LockingSeat => match e {
                ReserveEvent::SeatLocked(Some((id, label))) => Request { machine: m2, lock: Some(id), pending: None },
                _ => Request { machine: m2, lock: q.lock, pending: q.pending },
            },
            ReservePhase::Inserting { seat_id, .. } => match e {
                ReserveEvent::Inserted { booking_id, expires_at } => Request {
                    machine: m2,
                    lock: q.lock,
                    pending: Some(inserted_row(q.machine, seat_id, booking_id, expires_at)),
                },
                _ => Request { machine: m2, lock: q.lock, pending: q.pending },
            },
            ReservePhase::Committing { .. } => match e {
                ReserveEvent::Completed => Request { machine: m2, lock: None, pending: None },
                _ => Request { machine: m2, lock: q.lock, pending: q.pending },
            },
            ReservePhase::RollingBack => match e {
                ReserveEvent::Completed => Request { machine: m2, lock: None, pending: None },
                _ => Request { machine: m2, lock: q.lock, pending: q.pending },
            },
            _ => Request { machine: m2, lock: q.lock, pending: q.pending },
        }
    }
}

/// The committed tables after the answer `e` to the `i`-th request: an
/// insert advances the id sequence, and a commit applies the transaction's
/// booking and hold; nothing else is visible to the others.
pub open spec fn tables_after(r: Race, i: int, e: ReserveEvent) -> Tables {
    let t = r.tables;
    let q = r.requests[i];
    if e is Failed {
        t
    } else {
        match q.machine.phase {
            ReservePhase::Inserting { .. } => match e {
                ReserveEvent::Inserted { .. } => t.with_next_id((t.next_id + 1) as u128),
                _ => t,
            },
            ReservePhase::Committing { .. } => match e {
                ReserveEvent::Completed => t.with_commit(seat_index(t, q.lock.unwrap()), q.pending.unwrap()),
                _ => t,
            },
            _ => t,
        }
    }
}

/// The race after the database gives the answer `e` to the `i`-th request.
pub open spec fn answered(r: Race, i: int, e: ReserveEvent) -> Race {
    Race { tables: tables_after(r, i, e), requests: r.requests.update(i, request_after(r, i, e)) }
}

/// The seat a request has locked is committed as free, and belongs to the
/// request's event.
pub open spec fn holds_lock(t: Tables, q: Request) -> bool {
    q.lock matches Some(id) ==> (seat_from(t.seats, id, 0) matches Some(s)
        && t.seats[s].status == SeatStatus::Available && t.seats[s].event_id == q.machine.event_id)
}

/// The booking a request has inserted is for its locked seat and event, has
/// an id drawn from the sequence that no committed booking has, and a key no
/// committed booking has.
pub open spec fn pending_ok(t: Tables, q: Request) -> bool {
    q.pending matches Some(b) ==> {
        &&& q.lock == Some(b.seat_id)
        &&& b.event_id == q.machine.event_id
        &&& b.key == q.machine.key
        &&& b.id < t.next_id
        &&& forall|x: int| 0 <= x < t.bookings.len() ==> #[trigger] t.bookings[x].id != b.id
        &&& t.key_index(b.key@) is None
        &&& b.status == BookingStatus::Held
        &&& b.expires_at is Some
    }
}

/// What a request's transaction holds matches its phase.
pub open spec fn phase_ok(q: Request) -> bool {
    match q.machine.phase {
        ReservePhase::Inserting { seat_id, .. } => q.lock == Some(seat_id) && q.pending is None,
        ReservePhase::Holding { booking_id, seat_id, .. } => q.lock == Some(seat_id)
            && q.pending is Some && q.pending.unwrap().id == booking_id,
        ReservePhase::Committing { booking_id, seat_id, .. } => q.lock == Some(seat_id)
            && q.pending is Some && q.pending.unwrap().id == booking_id,
        ReservePhase::RollingBack => q.pending is None,
        _ => q.lock is None && q.pending is None,
    }
}

/// A request that lost its key to another one, and is rolling back or
/// looking up the winner, has the winner's booking committed.
pub open spec fn loser_ok(t: Tables, q: Request) -> bool {
    (q.machine.phase is RollingBack || q.machine.phase is FindingWinner) ==> t.key_index(q.machine.key@) is Some
}

pub open spec fn request_ok(t: Tables, q: Request) -> bool {
    holds_lock(t, q) && pending_ok(t, q) && phase_ok(q)
}

/// Two requests in flight never hold the same lock, nor pending bookings
/// with the same key or id.
pub open spec fn apart(p: Request, q: Request) -> bool {
    &&& p.lock is Some ==> q.lock != p.lock
    &&& p.pending is Some && q.pending is Some ==> p.pending.unwrap().key@ != q.pending.unwrap().key@
        && p.pending.unwrap().id != q.pending.unwrap().id
}

/// The safety of racing reservations: the committed tables keep the
/// ledger's invariant, each transaction holds what its phase says, and no
/// two transactions hold the same seat, key or id.
pub open spec fn race_safe(r: Race) -> bool {
    &&& r.tables.wf()
    &&& forall|i: int| 0 <= i < r.requests.len() ==> request_ok(r.tables, #[trigger] r.requests[i])
    &&& forall|i: int, j: int| 0 <= i < r.requests.len() && 0 <= j < r.requests.len() && i != j
        ==> apart(#[trigger] r.requests[i], #[trigger] r.requests[j])
}

/// The invariant of racing reservations: their safety, and every request
/// that lost its key has the winner's booking committed.
pub open spec fn race_inv(r: Race) -> bool {
    &&& race_safe(r)
    &&& forall|i: int| 0 <= i < r.requests.len() ==> loser_ok(r.tables, #[trigger] r.requests[i])
}

/// The race once the hold sweeper has run at `now`: in one statement,
/// beside the open transactions, lapsed holds are deleted and their seats
/// made available again.
pub open spec fn swept_race(r: Race, now: i64) -> Race {
    Race { tables: r.tables.swept(now), requests: r.requests }
}

/// A booking found under a key is still found once another booking is stored.
proof fn lemma_key_from_push_kept(bs: Seq<BookingRow>, b: BookingRow, key: Seq<char>, i: int)
    requires
        0 <= i,
        key_from(bs, key, i) is Some,
    ensures
        key_from(bs.push(b), key, i) == key_from(bs, key, i),
    decreases bs.len() - i,
{
    let bp = bs.push(b);
    if i < bs.len() {
        assert(bp[i] == bs[i]);
        if bs[i].key@ != key {
            lemma_key_from_push_kept(bs, b, key, i + 1);
        }
    }
}

/// A request that lost the race on its key answers with the winner's
/// booking: once its rollback is through, the lookup that the database may
/// answer finds the committed booking under the key, and the request
/// finishes with it. (The invariant this rests on holds between sweeps: a
/// sweep may delete the winner's hold once it has lapsed.)
pub proof fn law_racing_lost_race_returns_winner(r: Race, i: int, e: ReserveEvent)
    requires
        race_inv(r),
        0 <= i < r.requests.len(),
        r.requests[i].machine.phase is FindingWinner,
        may_answer(r, i, e),
        !(e is Failed),
    ensures
        r.tables.booking_by_key(r.requests[i].machine.key@) is Some,
        reserve_transition(r.requests[i].machine, e).1 == ReserveAction::Finish(
            Ok(r.tables.booking_by_key(r.requests[i].machine.key@).unwrap())),
{
    assert(loser_ok(r.tables, r.requests[i]));
}

/// An answer that leaves the committed tables alone, and leaves the request's
/// lock and pending booking as they were or drops them, keeps the invariant.
proof fn lemma_race_quiet(r: Race, i: int, e: ReserveEvent)
    requires
        race_safe(r),
        0 <= i < r.requests.len(),
        may_answer(r, i, e),
        tables_after(r, i, e) == r.tables,
        request_after(r, i, e).lock is None || request_after(r, i, e).lock == r.requests[i].lock,
        request_after(r, i, e).pending is None || request_after(r, i, e).pending == r.requests[i].pending,
        phase_ok(request_after(r, i, e)),
        request_after(r, i, e).machine.event_id == r.requests[i].machine.event_id,
        request_after(r, i, e).machine.key == r.requests[i].machine.key,
    ensures
        race_safe(answered(r, i, e)),
{
    let r2 = answered(r, i, e);
    let q = r.requests[i];
    let q2 = request_after(r, i, e);
    assert(r2.requests[i] == q2);
    assert(request_ok(r.tables, q));
    assert forall|j: int| 0 <= j < r2.requests.len() implies request_ok(r2.tables, #[trigger] r2.requests[j]) by {
        if j != i {
            assert(r2.requests[j] == r.requests[j]);
        }
    }
    assert forall|j: int, k: int| 0 <= j < r2.requests.len() && 0 <= k < r2.requests.len() && j != k
        implies apart(#[trigger] r2.requests[j], #[trigger] r2.requests[k]) by {
        assert(apart(r.requests[j], r.requests[k]));
        if j != i {
            assert(r2.requests[j] == r.requests[j]);
        }
        if k != i {
            assert(r2.requests[k] == r.requests[k]);
        }
    }
}

/// Locking a free seat that no other transaction holds keeps the invariant.
proof fn lemma_race_lock(r: Race, i: int, id: u128, label: String)
    requires
        race_safe(r),
        0 <= i < r.requests.len(),
        r.requests[i].machine.phase is LockingSeat,
        may_answer(r, i, ReserveEvent::SeatLocked(Some((id, label)))),
    ensures
        race_safe(answered(r, i, ReserveEvent::SeatLocked(Some((id, label))))),
{
    let e = ReserveEvent::SeatLocked(Some((id, label)));
    let t = r.tables;
    let m = r.requests[i].machine;
    let s = choose|s: int| 0 <= s < t.seats.len() && #[trigger] is_free(t.seats, s, m.event_id)
        && t.seats[s].id == id && t.seats[s].label == label && !locked_by_other(r, i, id);
    lemma_seat_from_unique(t, s);
    let r2 = answered(r, i, e);
    let q2 = request_after(r, i, e);
    assert(r2.requests[i] == q2);
    assert(request_ok(t, q2));
    assert forall|j: int| 0 <= j < r2.requests.len() implies request_ok(r2.tables, #[trigger] r2.requests[j]) by {
        if j != i {
            assert(r2.requests[j] == r.requests[j]);
        }
    }
    assert forall|j: int, k: int| 0 <= j < r2.requests.len() && 0 <= k < r2.requests.len() && j != k
        implies apart(#[trigger] r2.requests[j], #[trigger] r2.requests[k]) by {
        assert(apart(r.requests[j], r.requests[k]));
        if j != i {
            assert(r2.requests[j] == r.requests[j]);
            assert(r.requests[j].lock != Some(id));
        }
        if k != i {
            assert(r2.requests[k] == r.requests[k]);
            assert(r.requests[k].lock != Some(id));
        }
    }
}

/// Inserting a booking under a key that no committed booking and no other
/// open transaction has, with the next id of the sequence, keeps the
/// invariant.
proof fn lemma_race_insert(r: Race, i: int, booking_id: u128, expires_at: i64)
    requires
        race_safe(r),
        0 <= i < r.requests.len(),
        r.requests[i].machine.phase is Inserting,
        may_answer(r, i, ReserveEvent::Inserted { booking_id, expires_at }),
    ensures
        race_safe(answered(r, i, ReserveEvent::Inserted { booking_id, expires_at })),
{
    let e = ReserveEvent::Inserted { booking_id, expires_at };
    let t = r.tables;
    let q = r.requests[i];
    let r2 = answered(r, i, e);
    let t2 = r2.tables;
    let q2 = request_after(r, i, e);
    lemma_next_id_raised_keeps_wf(t, (t.next_id + 1) as u128);
    assert(t2 == t.with_next_id((t.next_id + 1) as u128));
    assert(request_ok(t, q));
    assert(r2.requests[i] == q2);
    assert forall|x: int| 0 <= x < t2.bookings.len() implies #[trigger] t2.bookings[x].id != booking_id by {
        assert(t.bookings[x].id < t.next_id);
    }
    assert(request_ok(t2, q2));
    assert forall|j: int| 0 <= j < r2.requests.len() implies request_ok(t2, #[trigger] r2.requests[j]) by {
        if j != i {
            assert(r2.requests[j] == r.requests[j]);
            assert(request_ok(t, r.requests[j]));
        }
    }
    assert forall|j: int, k: int| 0 <= j < r2.requests.len() && 0 <= k < r2.requests.len() && j != k
        implies apart(#[trigger] r2.requests[j], #[trigger] r2.requests[k]) by {
        assert(apart(r.requests[j], r.requests[k]));
        if j != i {
            assert(r2.requests[j] == r.requests[j]);
            assert(request_ok(t, r.requests[j]));
            if r.requests[j].pending is Some {
                assert(r.requests[j].pending.unwrap().key@ != q.machine.key@);
            }
        }
        if k != i {
            assert(r2.requests[k] == r.requests[k]);
            assert(request_ok(t, r.requests[k]));
            if r.requests[k].pending is Some {
                assert(r.requests[k].pending.unwrap().key@ != q.machine.key@);
            }
        }
    }
}

/// Committing a transaction that has locked a free seat and inserted its
/// booking keeps the invariant: the seat becomes held, the booking is
/// stored, and what the other transactions hold is still free or unused.
proof fn lemma_race_commit(r: Race, i: int)
    requires
        race_safe(r),
        0 <= i < r.requests.len(),
        r.requests[i].machine.phase is Committing,
    ensures
        race_safe(answered(r, i, ReserveEvent::Completed)),
{
    let e = ReserveEvent::Completed;
    let t = r.tables;
    let q = r.requests[i];
    assert(request_ok(t, q));
    let seat_id = q.lock.unwrap();
    let b = q.pending.unwrap();
    lemma_seat_from(t.seats, seat_id, 0);
    let si = seat_index(t, seat_id);
    lemma_commit_keeps_wf(t, si, b);
    let r2 = answered(r, i, e);
    let t2 = r2.tables;
    assert(t2 == t.with_commit(si, b));
    assert(r2.requests[i] == request_after(r, i, e));
    assert forall|k: int| 0 <= k < t2.seats.len() implies #[trigger] t2.seats[k].id == t.seats[k].id by {
        if k != si {
            assert(t2.seats[k] == t.seats[k]);
        }
    }
    assert forall|j: int| 0 <= j < r2.requests.len() implies request_ok(t2, #[trigger] r2.requests[j]) by {
        if j != i {
            let p = r.requests[j];
            assert(r2.requests[j] == p);
            assert(request_ok(t, p));
            assert(apart(p, q));
            assert(apart(q, p));
            if p.lock is Some {
                let x = p.lock.unwrap();
                lemma_seat_from_same_ids(t2.seats, t.seats, x, 0);
                lemma_seat_from(t.seats, x, 0);
                let sx = seat_from(t.seats, x, 0).unwrap();
                assert(sx != si);
                assert(t2.seats[sx] == t.seats[sx]);
            }
            if p.pending is Some {
                let c = p.pending.unwrap();
                lemma_key_from_push_other(t.bookings, b, c.key@);
                assert forall|x: int| 0 <= x < t2.bookings.len() implies #[trigger] t2.bookings[x].id != c.id by {
                    if x < t.bookings.len() {
                        assert(t2.bookings[x] == t.bookings[x]);
                    }
                }
            }
        }
    }
    assert forall|j: int, k: int| 0 <= j < r2.requests.len() && 0 <= k < r2.requests.len() && j != k
        implies apart(#[trigger] r2.requests[j], #[trigger] r2.requests[k]) by {
        assert(apart(r.requests[j], r.requests[k]));
        if j != i {
            assert(r2.requests[j] == r.requests[j]);
        }
        if k != i {
            assert(r2.requests[k] == r.requests[k]);
        }
    }
}

/// Whichever request the database answers next, with whichever answer it
/// may give, racing reservations stay safe: the committed tables keep the
/// ledger's invariant (no seat is held or booked for two bookings, none is
/// taken without a booking, no two bookings share a key), and no two open
/// transactions hold the same seat, key or id.
pub proof fn law_racing_answers_keep_safety(r: Race, i: int, e: ReserveEvent)
    requires
        race_safe(r),
        0 <= i < r.requests.len(),
        may_answer(r, i, e),
    ensures
        race_safe(answered(r, i, e)),
{
    let q = r.requests[i];
    law_step_issues_awaited_statement(q.machine, e);
    if e is Failed {
        lemma_race_quiet(r, i, e);
    } else {
        match q.machine.phase {
            ReservePhase::LockingSeat => match e {
                ReserveEvent::SeatLocked(Some((id, label))) => lemma_race_lock(r, i, id, label),
                _ => lemma_race_quiet(r, i, e),
            },
            ReservePhase::Inserting { .. } => match e {
                ReserveEvent::Inserted { booking_id, expires_at } => lemma_race_insert(r, i, booking_id, expires_at),
                _ => lemma_race_quiet(r, i, e),
            },
            ReservePhase::Committing { .. } => lemma_race_commit(r, i),
            _ => lemma_race_quiet(r, i, e),
        }
    }
}

/// Answers keep every loser's winner committed: commits only add bookings,
/// and a request starts rolling back only when a committed booking has its key.
proof fn lemma_race_losers(r: Race, i: int, e: ReserveEvent)
    requires
        race_inv(r),
        0 <= i < r.requests.len(),
        may_answer(r, i, e),
    ensures
        forall|j: int| 0 <= j < r.requests.len()
            ==> loser_ok(answered(r, i, e).tables, #[trigger] answered(r, i, e).requests[j]),
{
    let q = r.requests[i];
    let t = r.tables;
    let r2 = answered(r, i, e);
    let t2 = r2.tables;
    law_step_issues_awaited_statement(q.machine, e);
    assert(r2.requests[i] == request_after(r, i, e));
    assert(loser_ok(t, q));
    if q.machine.phase is Committing && e is Completed {
        assert(request_ok(t, q));
        let b = q.pending.unwrap();
        assert(t2.bookings == t.bookings.push(b));
        assert forall|j: int| 0 <= j < r.requests.len() implies loser_ok(t2, #[trigger] r2.requests[j]) by {
            if j != i {
                assert(r2.requests[j] == r.requests[j]);
                assert(loser_ok(t, r.requests[j]));
                if t.key_index(r.requests[j].machine.key@) is Some {
                    lemma_key_from_push_kept(t.bookings, b, r.requests[j].machine.key@, 0);
                }
            }
        }
    } else {
        law_racing_only_commit_is_visible(r, i, e);
        assert forall|j: int| 0 <= j < r.requests.len() implies loser_ok(t2, #[trigger] r2.requests[j]) by {
            if j != i {
                assert(r2.requests[j] == r.requests[j]);
                assert(loser_ok(t, r.requests[j]));
            }
        }
    }
}

/// Racing reservations keep their invariant: they stay safe, and a request
/// that lost its key to another one keeps finding the winner's booking.
pub proof fn law_racing_reservations_keep_invariant(r: Race, i: int, e: ReserveEvent)
    requires
        race_inv(r),
        0 <= i < r.requests.len(),
        may_answer(r, i, e),
    ensures
        race_inv(answered(r, i, e)),
{
    law_racing_answers_keep_safety(r, i, e);
    lemma_race_losers(r, i, e);
}

/// The hold sweeper, running beside open transactions, keeps racing
/// reservations safe: it only frees held seats, which no transaction has
/// locked, and only deletes bookings, so no open transaction's id or key
/// comes to clash with a committed one.
pub proof fn law_racing_sweep_keeps_safety(r: Race, now: i64)
    requires
        race_safe(r),
    ensures
        race_safe(swept_race(r, now)),
{
    let t = r.tables;
    let r2 = swept_race(r, now);
    let t2 = r2.tables;
    lemma_sweep_keeps_wf(t, now);
    lemma_kept_origin(t.bookings, now);
    let origin = kept_origin(t.bookings, now);
    assert forall|k: int| 0 <= k < t2.seats.len() implies #[trigger] t2.seats[k].id == t.seats[k].id by {
    }
    assert forall|j: int| 0 <= j < r2.requests.len() implies request_ok(t2, #[trigger] r2.requests[j]) by {
        let p = r.requests[j];
        assert(request_ok(t, p));
        assert(r2.requests[j] == p);
        if p.lock is Some {
            let x = p.lock.unwrap();
            lemma_seat_from_same_ids(t2.seats, t.seats, x, 0);
            let sx = seat_from(t.seats, x, 0).unwrap();
            lemma_seat_from(t.seats, x, 0);
            assert(t2.seats[sx].status == SeatStatus::Available);
            assert(t2.seats[sx].event_id == t.seats[sx].event_id);
            assert(holds_lock(t2, p));
        }
        if p.pending is Some {
            let c = p.pending.unwrap();
            assert forall|x: int| 0 <= x < t2.bookings.len() implies #[trigger] t2.bookings[x].id != c.id by {
                assert(t2.bookings[x] == t.bookings[origin[x]]);
            }
            lemma_key_from(t.bookings, c.key@, 0);
            lemma_key_from(t2.bookings, c.key@, 0);
            if t2.key_index(c.key@) is Some {
                let x = t2.key_index(c.key@).unwrap();
                assert(t2.bookings[x] == t.bookings[origin[x]]);
            }
            assert(pending_ok(t2, p));
        }
        assert(phase_ok(p));
    }
}

/// One step of a race: the database answers the `i`-th request, or the
/// hold sweeper runs at `now`.
pub enum RaceStep {
    Answer(int, ReserveEvent),
    Sweep(i64),
}

/// The race after the steps in `steps` are taken in turn; `None` when one of
/// them answers a request with an answer the database may not give at that
/// point.
pub open spec fn race_run(r: Race, steps: Seq<RaceStep>) -> Option<Race>
    decreases steps.len(),
{
    if steps.len() == 0 {
        Some(r)
    } else {
        match steps[0] {
            RaceStep::Answer(i, e) => if 0 <= i < r.requests.len() && may_answer(r, i, e) {
                race_run(answered(r, i, e), steps.drop_first())
            } else {
                None
            },
            RaceStep::Sweep(now) => race_run(swept_race(r, now), steps.drop_first()),
        }
    }
}

/// Requests that have just been started, none of them inside a transaction.
/// A request that comes in later is one whose first answer comes later.
pub open spec fn starting(t: Tables, ms: Seq<Reservation>) -> Race {
    Race { tables: t, requests: Seq::new(ms.len(), |k: int| Request { machine: ms[k], lock: None, pending: None }) }
}

/// Requests that have just been started over well-formed tables meet the
/// invariant of racing reservations.
pub proof fn law_racing_starts_sound(t: Tables, ms: Seq<Reservation>)
    requires
        t.wf(),
        forall|k: int| 0 <= k < ms.len() ==> (#[trigger] ms[k]).phase is FindingExisting,
    ensures
        race_inv(starting(t, ms)),
{
    let r = starting(t, ms);
    assert forall|i: int| 0 <= i < r.requests.len() implies request_ok(r.tables, #[trigger] r.requests[i]) by {
        assert(ms[i].phase is FindingExisting);
    }
}

/// Any run from a safe race, sweeps included, ends in a safe race.
pub proof fn lemma_race_run_keeps_safety(r: Race, steps: Seq<RaceStep>)
    requires
        race_safe(r),
        race_run(r, steps) is Some,
    ensures
        race_safe(race_run(r, steps).unwrap()),
    decreases steps.len(),
{
    if steps.len() > 0 {
        match steps[0] {
            RaceStep::Answer(i, e) => {
                law_racing_answers_keep_safety(r, i, e);
                lemma_race_run_keeps_safety(answered(r, i, e), steps.drop_first());
            },
            RaceStep::Sweep(now) => {
                law_racing_sweep_keeps_safety(r, now);
                lemma_race_run_keeps_safety(swept_race(r, now), steps.drop_first());
            },
        }
    }
}

/// Any run of answers alone, with no sweep, keeps the invariant.
pub proof fn lemma_race_run_keeps_invariant(r: Race, steps: Seq<RaceStep>)
    requires
        race_inv(r),
        race_run(r, steps) is Some,
        forall|k: int| 0 <= k < steps.len() ==> (#[trigger] steps[k]) is Answer,
    ensures
        race_inv(race_run(r, steps).unwrap()),
    decreases steps.len(),
{
    if steps.len() > 0 {
        assert(steps[0] is Answer);
        match steps[0] {
            RaceStep::Answer(i, e) => {
                law_racing_reservations_keep_invariant(r, i, e);
                assert forall|k: int| 0 <= k < steps.drop_first().len() implies (#[trigger] steps.drop_first()[k]) is Answer by {
                    assert(steps.drop_first()[k] == steps[k + 1]);
                }
                lemma_race_run_keeps_invariant(answered(r, i, e), steps.drop_first());
            },
            RaceStep::Sweep(_) => {},
        }
    }
}

/// However the database interleaves the statements of reservations that run
/// at once, whichever of its possible answers it gives, and whenever the
/// hold sweeper runs in between, the committed tables never hold a seat for
/// two bookings, never show a seat taken without its booking, never store
/// two bookings under one idempotency key, and keep the rest of the
/// ledger's invariant.
pub proof fn law_racing_reservations_never_oversell(t: Tables, ms: Seq<Reservation>, steps: Seq<RaceStep>)
    requires
        t.wf(),
        forall|k: int| 0 <= k < ms.len() ==> (#[trigger] ms[k]).phase is FindingExisting,
        race_run(starting(t, ms), steps) is Some,
    ensures
        race_safe(race_run(starting(t, ms), steps).unwrap()),
        race_run(starting(t, ms), steps).unwrap().tables.wf(),
        race_run(starting(t, ms), steps).unwrap().tables.no_seat_taken_twice(),
        ({
            let t2 = race_run(starting(t, ms), steps).unwrap().tables;
            forall|i: int, j: int| 0 <= i < t2.bookings.len() && 0 <= j < t2.bookings.len() && i != j
                ==> #[trigger] t2.bookings[i].key@ != #[trigger] t2.bookings[j].key@
        }),
{
    law_racing_starts_sound(t, ms);
    lemma_race_run_keeps_safety(starting(t, ms), steps);
}

/// A request that reports a hold has it committed: when its commit goes
/// through, the committed tables gain its booking, under its key, for the
/// seat it reports, and that seat is held; and the request answers with
/// that booking and seat.
pub proof fn law_racing_reported_hold_is_committed(r: Race, i: int)
    requires
        race_safe(r),
        0 <= i < r.requests.len(),
        r.requests[i].machine.phase is Committing,
    ensures
        ({
            let m = r.requests[i].machine;
            let t2 = answered(r, i, ReserveEvent::Completed).tables;
            let b = t2.bookings.last();
            match m.phase {
                ReservePhase::Committing { booking_id, seat_id, seat_label, expires_at } => {
                    &&& t2.bookings.len() == r.tables.bookings.len() + 1
                    &&& b.id == booking_id
                    &&& b.seat_id == seat_id
                    &&& b.key == m.key
                    &&& b.status == BookingStatus::Held
                    &&& seat_from(t2.seats, seat_id, 0) matches Some(s) && t2.seats[s].status == SeatStatus::Held
                    &&& reserve_transition(m, ReserveEvent::Completed).1 == ReserveAction::Finish(Ok(
                        ReservedSeat {
                            booking_id,
                            seat_id,
                            seat_label,
                            status: BookingStatus::Held,
                            expires_at: Some(expires_at),
                        }))
                },
                _ => false,
            }
        }),
{
    let t = r.tables;
    let q = r.requests[i];
    assert(request_ok(t, q));
    let seat_id = q.lock.unwrap();
    let b = q.pending.unwrap();
    lemma_seat_from(t.seats, seat_id, 0);
    let si = seat_index(t, seat_id);
    let t2 = answered(r, i, ReserveEvent::Completed).tables;
    assert(t2 == t.with_commit(si, b));
    assert forall|k: int| 0 <= k < t2.seats.len() implies #[trigger] t2.seats[k].id == t.seats[k].id by {
        if k != si {
            assert(t2.seats[k] == t.seats[k]);
        }
    }
    lemma_seat_from_same_ids(t2.seats, t.seats, seat_id, 0);
}

/// Only a commit makes a transaction's writes visible to the others: every
/// other answer, failures and rollbacks included, leaves the committed
/// events, seats and bookings as they were (an insert only draws an id from
/// the sequence); and after a failure the request holds no lock and no
/// uncommitted booking, as if it had never begun.
pub proof fn law_racing_only_commit_is_visible(r: Race, i: int, e: ReserveEvent)
    requires
        0 <= i < r.requests.len(),
        may_answer(r, i, e),
        !(r.requests[i].machine.phase is Committing && e is Completed),
    ensures
        tables_after(r, i, e).events == r.tables.events,
        tables_after(r, i, e).seats == r.tables.seats,
        tables_after(r, i, e).bookings == r.tables.bookings,
        tables_after(r, i, e).next_id >= r.tables.next_id,
        e is Failed ==> request_after(r, i, e).lock is None && request_after(r, i, e).pending is None
            && request_after(r, i, e).machine.phase is Finished,
{
}

} // verus!
