//! What holds of the ledger across calls: the promises the service makes.
use vstd::prelude::*;
use crate::error::AppError;
use crate::repo::{BookingStatus, CreatedEvent, ReservedSeat};
use crate::confirm::{ConfirmAction, ConfirmEvent, Confirmation, confirm_rank, confirm_transition};
use crate::error::DbError;
use crate::reserve::{ReserveAction, ReserveEvent, Reservation, reserve_rank, reserve_transition};
use crate::store::{
    BookingRow, SeatRow, SeatStatus, Tables, count_seats, is_free, key_from, least_free,
    lemma_least_free, lemma_key_from, lemma_key_from_push, lemma_key_from_same_keys, lemma_seat_from,
    lemma_seat_from_same_ids, lemma_seat_from_unique, seat_from, seat_status_for,
};
use crate::store::confirming::confirm_post;
use crate::store::creating::{create_post, new_seats};
use crate::store::count_event_seats;
use crate::labels::label_lt;
use crate::store::reserving::reserve_post;
use crate::store::sweeping::{expired, kept_bookings, lemma_counts_bounded, released};

verus! {

/// Seats and bookings match one for one: a held or booked seat is owned by
/// exactly one booking, of its event, whose state it shows; an available
/// seat is owned by none. So no seat is ever sold twice, and no seat is
/// taken without a booking behind it.
pub proof fn law_seats_and_bookings_match(t: Tables, s: int)
    requires
        t.wf(),
        0 <= s < t.seats.len(),
    ensures
        t.seats[s].status != SeatStatus::Available ==> exists|b: int| 0 <= b < t.bookings.len()
            && #[trigger] t.bookings[b].seat_id == t.seats[s].id
            && t.seats[s].status == seat_status_for(t.bookings[b].status)
            && t.seats[s].event_id == t.bookings[b].event_id,
        forall|b1: int, b2: int| 0 <= b1 < t.bookings.len() && 0 <= b2 < t.bookings.len()
            && #[trigger] t.bookings[b1].seat_id == t.seats[s].id && #[trigger] t.bookings[b2].seat_id == t.seats[s].id
            ==> b1 == b2,
        t.seats[s].status == SeatStatus::Available ==> forall|b: int| 0 <= b < t.bookings.len()
            ==> #[trigger] t.bookings[b].seat_id != t.seats[s].id,
{
    if t.seats[s].status != SeatStatus::Available {
        assert(crate::store::seat_owned(t.bookings, t.seats[s].id));
        let b = choose|b: int| 0 <= b < t.bookings.len() && #[trigger] t.bookings[b].seat_id == t.seats[s].id;
        assert(t.seats[s].status == seat_status_for(t.bookings[b].status));
    }
    assert(t.no_seat_taken_twice());
}

/// After a successful reservation, the ledger holds a booking under the key,
/// and a lookup by the key finds exactly the booking that was answered.
pub proof fn lemma_reserved_is_stored(
    t0: Tables,
    t1: Tables,
    event_id: u128,
    user_ref: Seq<char>,
    key: Seq<char>,
    ttl: i64,
    now: i64,
    r: Result<ReservedSeat, AppError>,
)
    requires
        t0.wf(),
        reserve_post(t0, t1, event_id, user_ref, key, ttl, now, r),
        r is Ok,
    ensures
        t1.key_index(key) is Some,
        t1.booking_by_key(key) == Some(r->Ok_0),
{
    match t0.key_index(key) {
        Some(b) => {},
        None => {
            let s = t0.seat_to_hold(event_id).unwrap();
            let b = t1.bookings.last();
            lemma_key_from(t0.bookings, key, 0);
            assert(t1.bookings == t0.bookings.push(b));
            lemma_key_from_push(t0.bookings, b, key, 0);
            let n = t0.bookings.len() as int;
            assert(t1.bookings[n] == b);
            lemma_least_free(t0.seats, event_id, t0.seats.len() as int);
            assert(t1.seats[s].id == t0.seats[s].id);
            assert forall|j: int| 0 <= j < t1.seats.len() implies #[trigger] t1.seats[j].id == t0.seats[j].id by {}
            lemma_seat_from_same_ids(t1.seats, t0.seats, t0.seats[s].id, 0);
            lemma_seat_from_unique(t0, s);
        },
    }
}

/// A retry under the same idempotency key gets the same booking back and
/// leaves the ledger as it was: a client never ends up with two seats,
/// whatever event, user or hold time the retry names.
pub proof fn law_repeated_key_same_booking(
    t0: Tables,
    t1: Tables,
    t2: Tables,
    key: Seq<char>,
    event1: u128,
    user1: Seq<char>,
    ttl1: i64,
    now1: i64,
    r1: Result<ReservedSeat, AppError>,
    event2: u128,
    user2: Seq<char>,
    ttl2: i64,
    now2: i64,
    r2: Result<ReservedSeat, AppError>,
)
    requires
        t0.wf(),
        reserve_post(t0, t1, event1, user1, key, ttl1, now1, r1),
        r1 is Ok,
        reserve_post(t1, t2, event2, user2, key, ttl2, now2, r2),
    ensures
        t2 == t1,
        r2 == r1,
{
    lemma_reserved_is_stored(t0, t1, event1, user1, key, ttl1, now1, r1);
}

/// Holding a free seat of the event moves one seat from available to held.
pub proof fn lemma_count_after_hold(seats: Seq<SeatRow>, s: int, event_id: u128, row: SeatRow)
    requires
        0 <= s < seats.len(),
        is_free(seats, s, event_id),
        row.event_id == event_id,
        row.status == SeatStatus::Held,
    ensures
        count_seats(seats.update(s, row), event_id, SeatStatus::Available) + 1
            == count_seats(seats, event_id, SeatStatus::Available),
        count_seats(seats.update(s, row), event_id, SeatStatus::Held)
            == count_seats(seats, event_id, SeatStatus::Held) + 1,
    decreases seats.len(),
{
    let up = seats.update(s, row);
    if s == seats.len() - 1 {
        assert(up.drop_last() =~= seats.drop_last());
    } else {
        assert(up.drop_last() =~= seats.drop_last().update(s, row));
        lemma_count_after_hold(seats.drop_last(), s, event_id, row);
    }
}

/// An event has no available seat exactly when its count of available seats is zero.
pub proof fn lemma_count_zero_iff_none_free(seats: Seq<SeatRow>, event_id: u128)
    ensures
        (count_seats(seats, event_id, SeatStatus::Available) == 0)
            == (forall|j: int| 0 <= j < seats.len() ==> !#[trigger] is_free(seats, j, event_id)),
    decreases seats.len(),
{
    if seats.len() > 0 {
        let d = seats.drop_last();
        let last = seats.len() - 1;
        lemma_count_zero_iff_none_free(d, event_id);
        assert forall|j: int| 0 <= j < d.len() implies #[trigger] is_free(d, j, event_id) == is_free(seats, j, event_id) by {
            assert(d[j] == seats[j]);
        }
        if count_seats(seats, event_id, SeatStatus::Available) == 0 {
            assert forall|j: int| 0 <= j < seats.len() implies !#[trigger] is_free(seats, j, event_id) by {
                if j < last {
                    assert(!is_free(d, j, event_id));
                }
            }
        } else if !is_free(seats, last, event_id) {
            let j = choose|j: int| 0 <= j < d.len() && #[trigger] is_free(d, j, event_id);
            assert(is_free(seats, j, event_id));
        }
    }
}

/// The event has a seat to hold exactly when its count of available seats is not zero.
pub proof fn lemma_free_iff_count(seats: Seq<SeatRow>, event_id: u128)
    ensures
        (least_free(seats, event_id, seats.len() as int) is None)
            == (count_seats(seats, event_id, SeatStatus::Available) == 0),
{
    lemma_least_free(seats, event_id, seats.len() as int);
    lemma_count_zero_iff_none_free(seats, event_id);
}

pub proof fn lemma_key_from_push_other(bs: Seq<BookingRow>, b: BookingRow, key: Seq<char>)
    requires
        key_from(bs, key, 0) is None,
        b.key@ != key,
    ensures
        key_from(bs.push(b), key, 0) is None,
{
    lemma_key_from(bs, key, 0);
    lemma_key_from(bs.push(b), key, 0);
    let bp = bs.push(b);
    if key_from(bp, key, 0) is Some {
        let x = key_from(bp, key, 0).unwrap();
        if x < bs.len() {
            assert(bp[x] == bs[x]);
        }
    }
}

/// `ts` and `rs` record reservations made one after another for the event,
/// the `i`-th under `users[i]` and `keys[i]`.
pub open spec fn reservation_run(
    ts: Seq<Tables>,
    rs: Seq<Result<ReservedSeat, AppError>>,
    event_id: u128,
    users: Seq<Seq<char>>,
    keys: Seq<Seq<char>>,
    ttl: i64,
    now: i64,
) -> bool {
    &&& ts.len() == rs.len() + 1
    &&& users.len() == rs.len()
    &&& keys.len() == rs.len()
    &&& forall|i: int| 0 <= i < rs.len()
        ==> reserve_post(#[trigger] ts[i], ts[i + 1], event_id, users[i], keys[i], ttl, now, rs[i])
}

pub open spec fn min(a: int, b: int) -> int {
    if a <= b { a } else { b }
}

/// One reservation under a fresh key, for an event that exists, when ids
/// and the clock leave room: it takes a seat when one is free and is
/// answered `SoldOut` otherwise.
proof fn lemma_reserve_step(
    t: Tables,
    t2: Tables,
    event_id: u128,
    user_ref: Seq<char>,
    key: Seq<char>,
    ttl: i64,
    now: i64,
    r: Result<ReservedSeat, AppError>,
)
    requires
        reserve_post(t, t2, event_id, user_ref, key, ttl, now, r),
        t.key_index(key) is None,
        t.event_exists(event_id),
        t.next_id < u128::MAX,
        i64::MIN <= now + ttl <= i64::MAX,
    ensures
        t2.events == t.events,
        ({
            let free = count_seats(t.seats, event_id, SeatStatus::Available);
            let taken: int = if free > 0 { 1 } else { 0 };
            &&& count_seats(t2.seats, event_id, SeatStatus::Available) == free - taken
            &&& count_seats(t2.seats, event_id, SeatStatus::Held)
                == count_seats(t.seats, event_id, SeatStatus::Held) + taken
            &&& t2.next_id == t.next_id + taken
            &&& (r is Ok) == (free > 0)
            &&& (r is Err ==> r == Err::<ReservedSeat, AppError>(AppError::SoldOut))
        }),
        forall|k2: Seq<char>| k2 != key && #[trigger] t.key_index(k2) is None ==> t2.key_index(k2) is None,
{
    lemma_free_iff_count(t.seats, event_id);
    match t.seat_to_hold(event_id) {
        None => {},
        Some(s) => {
            lemma_least_free(t.seats, event_id, t.seats.len() as int);
            let b = t2.bookings.last();
            let row = SeatRow {
                id: t.seats[s].id,
                event_id: t.seats[s].event_id,
                label: t.seats[s].label,
                status: SeatStatus::Held,
            };
            lemma_count_after_hold(t.seats, s, event_id, row);
            assert forall|k2: Seq<char>| k2 != key && #[trigger] t.key_index(k2) is None implies t2.key_index(k2) is None by {
                lemma_key_from_push_other(t.bookings, b, k2);
            }
        },
    }
}

proof fn lemma_run_prefix(
    ts: Seq<Tables>,
    rs: Seq<Result<ReservedSeat, AppError>>,
    event_id: u128,
    users: Seq<Seq<char>>,
    keys: Seq<Seq<char>>,
    ttl: i64,
    now: i64,
    k: int,
)
    requires
        reservation_run(ts, rs, event_id, users, keys, ttl, now),
        0 <= k <= rs.len(),
        ts[0].event_exists(event_id),
        forall|i: int, j: int| 0 <= i < keys.len() && 0 <= j < keys.len() && i != j ==> #[trigger] keys[i] != #[trigger] keys[j],
        forall|i: int| 0 <= i < keys.len() ==> #[trigger] ts[0].key_index(keys[i]) is None,
        ts[0].next_id + rs.len() < u128::MAX,
        i64::MIN <= now + ttl <= i64::MAX,
    ensures
        ({
            let free = count_seats(ts[0].seats, event_id, SeatStatus::Available) as int;
            let taken = min(k, free);
            &&& ts[k].events == ts[0].events
            &&& count_seats(ts[k].seats, event_id, SeatStatus::Available) == free - taken
            &&& count_seats(ts[k].seats, event_id, SeatStatus::Held)
                == count_seats(ts[0].seats, event_id, SeatStatus::Held) + taken
            &&& ts[k].next_id == ts[0].next_id + taken
            &&& forall|j: int| k <= j < keys.len() ==> #[trigger] ts[k].key_index(keys[j]) is None
            &&& forall|i: int| 0 <= i < k ==> (#[trigger] rs[i] is Ok) == (i < free)
                && (rs[i] is Err ==> rs[i] == Err::<ReservedSeat, AppError>(AppError::SoldOut))
        }),
    decreases k,
{
    if k > 0 {
        let p = k - 1;
        lemma_run_prefix(ts, rs, event_id, users, keys, ttl, now, p);
        let t = ts[p];
        let t2 = ts[k];
        assert(reserve_post(t, t2, event_id, users[p], keys[p], ttl, now, rs[p]));
        assert(t.event_exists(event_id)) by {
            let w = choose|i: int| 0 <= i < ts[0].events.len() && #[trigger] ts[0].events[i].id == event_id;
            assert(t.events[w].id == event_id);
        }
        lemma_reserve_step(t, t2, event_id, users[p], keys[p], ttl, now, rs[p]);
        assert forall|j: int| k <= j < keys.len() implies #[trigger] t2.key_index(keys[j]) is None by {
            assert(t.key_index(keys[j]) is None);
            assert(keys[p] != keys[j]);
        }
    }
}

/// Reservations under distinct fresh keys never oversell: of any run of them
/// against an event with `free` available seats, exactly the first
/// `min(run length, free)` succeed, each taking one seat from available to
/// held, and every later one is answered `SoldOut`.
pub proof fn law_no_oversell(
    ts: Seq<Tables>,
    rs: Seq<Result<ReservedSeat, AppError>>,
    event_id: u128,
    users: Seq<Seq<char>>,
    keys: Seq<Seq<char>>,
    ttl: i64,
    now: i64,
)
    requires
        reservation_run(ts, rs, event_id, users, keys, ttl, now),
        ts[0].event_exists(event_id),
        forall|i: int, j: int| 0 <= i < keys.len() && 0 <= j < keys.len() && i != j ==> #[trigger] keys[i] != #[trigger] keys[j],
        forall|i: int| 0 <= i < keys.len() ==> #[trigger] ts[0].key_index(keys[i]) is None,
        ts[0].next_id + rs.len() < u128::MAX,
        i64::MIN <= now + ttl <= i64::MAX,
    ensures
        ({
            let free = count_seats(ts[0].seats, event_id, SeatStatus::Available) as int;
            let sold = min(rs.len() as int, free);
            let last = ts[rs.len() as int];
            &&& forall|i: int| 0 <= i < rs.len() ==> (#[trigger] rs[i] is Ok) == (i < free)
            &&& forall|i: int| 0 <= i < rs.len() && rs[i] is Err
                ==> #[trigger] rs[i] == Err::<ReservedSeat, AppError>(AppError::SoldOut)
            &&& count_seats(last.seats, event_id, SeatStatus::Available) == free - sold
            &&& count_seats(last.seats, event_id, SeatStatus::Held)
                == count_seats(ts[0].seats, event_id, SeatStatus::Held) + sold
        }),
{
    lemma_run_prefix(ts, rs, event_id, users, keys, ttl, now, rs.len() as int);
}

/// Confirming a hold moves one seat of its event from held to booked.
pub proof fn lemma_count_after_confirm(seats: Seq<SeatRow>, s: int, event_id: u128, row: SeatRow)
    requires
        0 <= s < seats.len(),
        seats[s].event_id == event_id,
        seats[s].status == SeatStatus::Held,
        row.event_id == event_id,
        row.status == SeatStatus::Booked,
    ensures
        count_seats(seats.update(s, row), event_id, SeatStatus::Held) + 1
            == count_seats(seats, event_id, SeatStatus::Held),
        count_seats(seats.update(s, row), event_id, SeatStatus::Booked)
            == count_seats(seats, event_id, SeatStatus::Booked) + 1,
        count_seats(seats.update(s, row), event_id, SeatStatus::Available)
            == count_seats(seats, event_id, SeatStatus::Available),
    decreases seats.len(),
{
    let up = seats.update(s, row);
    if s == seats.len() - 1 {
        assert(up.drop_last() =~= seats.drop_last());
    } else {
        assert(up.drop_last() =~= seats.drop_last().update(s, row));
        lemma_count_after_confirm(seats.drop_last(), s, event_id, row);
    }
}

/// Confirming is idempotent: once a confirmation has succeeded, confirming
/// again under the same key answers the same booking, now booked and no
/// longer lapsing, and changes nothing.
pub proof fn law_confirm_twice(
    t0: Tables,
    t1: Tables,
    t2: Tables,
    key: Seq<char>,
    now1: i64,
    r1: Result<ReservedSeat, AppError>,
    now2: i64,
    r2: Result<ReservedSeat, AppError>,
)
    requires
        t0.wf(),
        confirm_post(t0, t1, key, now1, r1),
        r1 is Ok,
        confirm_post(t1, t2, key, now2, r2),
    ensures
        r1->Ok_0.status == BookingStatus::Booked,
        r1->Ok_0.expires_at is None,
        t2 == t1,
        r2 == r1,
{
    let b = t0.key_index(key).unwrap();
    lemma_key_from(t0.bookings, key, 0);
    if t0.bookings[b].status != BookingStatus::Booked {
        let id = t0.bookings[b].seat_id;
        assert(crate::store::seat_exists(t0.seats, id));
        lemma_seat_from(t0.seats, id, 0);
        let s = seat_from(t0.seats, id, 0).unwrap();
        assert forall|j: int| 0 <= j < t0.bookings.len() implies #[trigger] t0.bookings[j].key@ == t1.bookings[j].key@ by {
            if j != b {
                assert(t1.bookings[j] == t0.bookings[j]);
            }
        }
        lemma_key_from_same_keys(t0.bookings, t1.bookings, key, 0);
        assert forall|j: int| 0 <= j < t0.seats.len() implies #[trigger] t0.seats[j].id == t1.seats[j].id by {
            if j != s {
                assert(t1.seats[j] == t0.seats[j]);
            }
        }
        lemma_seat_from_same_ids(t0.seats, t1.seats, id, 0);
        assert(t1.bookings[b].seat_id == id);
    }
}

/// Confirming a hold takes its seat from held to booked, within its event.
pub proof fn law_confirm_moves_seat_to_booked(t0: Tables, t1: Tables, key: Seq<char>, now: i64, r: Result<ReservedSeat, AppError>, event_id: u128)
    requires
        t0.wf(),
        confirm_post(t0, t1, key, now, r),
        r is Ok,
        t0.bookings[t0.key_index(key).unwrap()].status == BookingStatus::Held,
        t0.bookings[t0.key_index(key).unwrap()].event_id == event_id,
    ensures
        count_seats(t1.seats, event_id, SeatStatus::Held) + 1 == count_seats(t0.seats, event_id, SeatStatus::Held),
        count_seats(t1.seats, event_id, SeatStatus::Booked) == count_seats(t0.seats, event_id, SeatStatus::Booked) + 1,
        count_seats(t1.seats, event_id, SeatStatus::Available) == count_seats(t0.seats, event_id, SeatStatus::Available),
{
    let b = t0.key_index(key).unwrap();
    lemma_key_from(t0.bookings, key, 0);
    let id = t0.bookings[b].seat_id;
    assert(crate::store::seat_exists(t0.seats, id));
    lemma_seat_from(t0.seats, id, 0);
    let s = seat_from(t0.seats, id, 0).unwrap();
    let row = SeatRow { id: t0.seats[s].id, event_id: t0.seats[s].event_id, label: t0.seats[s].label, status: SeatStatus::Booked };
    lemma_count_after_confirm(t0.seats, s, event_id, row);
}

pub proof fn lemma_kept_not_expired(bs: Seq<BookingRow>, now: i64)
    ensures
        forall|i: int| 0 <= i < kept_bookings(bs, now).len() ==> !expired(#[trigger] kept_bookings(bs, now)[i], now),
    decreases bs.len(),
{
    if bs.len() > 0 {
        lemma_kept_not_expired(bs.drop_last(), now);
        let rest = kept_bookings(bs.drop_last(), now);
        if !expired(bs.last(), now) {
            assert forall|i: int| 0 <= i < rest.push(bs.last()).len() implies !expired(#[trigger] rest.push(bs.last())[i], now) by {
                if i < rest.len() {
                    assert(rest.push(bs.last())[i] == rest[i]);
                }
            }
        }
    }
}

/// A sweep leaves no lapsed hold behind, and every seat a lapsed hold owned
/// is available again.
pub proof fn law_sweep_reclaims(t: Tables, now: i64)
    ensures
        forall|i: int| 0 <= i < t.swept(now).bookings.len() ==> !expired(#[trigger] t.swept(now).bookings[i], now),
        forall|s: int| 0 <= s < t.seats.len() && released(t.bookings, t.seats[s].id, now)
            ==> #[trigger] t.swept(now).seats[s].status == SeatStatus::Available,
        forall|s: int| 0 <= s < t.seats.len() && !released(t.bookings, t.seats[s].id, now)
            ==> #[trigger] t.swept(now).seats[s] == t.seats[s],
{
    lemma_kept_not_expired(t.bookings, now);
}

/// The seats of an event are each available, held or booked: the three
/// counts add up to the total.
pub proof fn law_availability_adds_up(t: Tables, event_id: u128)
    requires
        t.wf(),
        t.event_exists(event_id),
    ensures
        ({
            let a = t.availability(event_id).unwrap();
            a.total == a.available + a.held + a.booked && a.total >= 0 && a.available >= 0
                && a.held >= 0 && a.booked >= 0
        }),
{
    lemma_counts_bounded(t.seats, event_id);
}

/// A booking found under the idempotency key is handed back as it is; no
/// seat is locked and nothing is written.
pub proof fn law_existing_booking_returned(m: Reservation, b: ReservedSeat)
    requires
        m.phase is FindingExisting,
    ensures
        reserve_transition(m, ReserveEvent::Found(Some(b))).1 == ReserveAction::Finish(Ok(b)),
{
}

/// The reservation commits only once the booking is inserted and the seat
/// is marked held.
pub proof fn law_commit_after_hold(m: Reservation, e: ReserveEvent)
    requires
        reserve_transition(m, e).1 is Commit,
    ensures
        m.phase is Holding,
        e is Completed,
{
}

/// When any statement fails the reservation ends with that error and never
/// commits: the transaction is dropped and nothing it did becomes visible.
pub proof fn law_failure_never_commits(m: Reservation, d: DbError)
    ensures
        reserve_transition(m, ReserveEvent::Failed(d)).1 == ReserveAction::Finish(Err(AppError::Db(d))),
        reserve_transition(m, ReserveEvent::Failed(d)).0.phase is Finished,
{
}

/// When a concurrent request with the same key wins the insert, the
/// transaction is rolled back and the winner's booking is answered.
pub proof fn law_lost_race_returns_winner(m: Reservation, b: ReservedSeat)
    requires
        m.phase is Inserting,
    ensures
        ({
            let (m1, a1) = reserve_transition(m, ReserveEvent::UniqueViolation);
            let (m2, a2) = reserve_transition(m1, ReserveEvent::Completed);
            let (m3, a3) = reserve_transition(m2, ReserveEvent::Found(Some(b)));
            &&& a1 is Rollback
            &&& a2 == (ReserveAction::FindBookingByKey { key: m.key })
            &&& a3 == ReserveAction::Finish(Ok(b))
        }),
{
}

/// Every answer brings a reservation closer to its end, so it issues at most
/// nine statements.
pub proof fn law_reservation_terminates(m: Reservation, e: ReserveEvent)
    requires
        !(m.phase is Finished),
    ensures
        reserve_rank(reserve_transition(m, e).0.phase) < reserve_rank(m.phase),
{
}

/// A confirmation writes only a live hold: a booking already confirmed, a
/// lapsed hold, or a missing key ends the request without writing.
pub proof fn law_confirm_writes_only_live_holds(m: Confirmation, b: ReservedSeat, now: i64)
    requires
        m.phase is Locking,
    ensures
        (confirm_transition(m, ConfirmEvent::Locked { booking: Some(b), now }).1 is ConfirmBooking)
            == (b.status == BookingStatus::Held && !crate::confirm::lapsed(b.expires_at, now)),
        confirm_transition(m, ConfirmEvent::Locked { booking: None, now }).1
            == ConfirmAction::Finish(Err(AppError::NotFound("reservation not found"))),
{
}

/// Every answer brings a confirmation closer to its end.
pub proof fn law_confirmation_terminates(m: Confirmation, e: ConfirmEvent)
    requires
        !(m.phase is Finished),
    ensures
        confirm_rank(confirm_transition(m, e).0.phase) < confirm_rank(m.phase),
{
}

/// A run of seats none of which belongs to the event counts zero for it.
pub proof fn lemma_count_without_event(seats: Seq<SeatRow>, event_id: u128)
    requires
        forall|j: int| 0 <= j < seats.len() ==> (#[trigger] seats[j]).event_id != event_id,
    ensures
        count_event_seats(seats, event_id) == 0,
        count_seats(seats, event_id, SeatStatus::Available) == 0,
    decreases seats.len(),
{
    if seats.len() > 0 {
        let d = seats.drop_last();
        assert forall|j: int| 0 <= j < d.len() implies (#[trigger] d[j]).event_id != event_id by {
            assert(d[j] == seats[j]);
        }
        lemma_count_without_event(d, event_id);
        assert(seats[seats.len() - 1].event_id != event_id);
    }
}

proof fn lemma_count_new_seats(seats: Seq<SeatRow>, start: int, n: int, event_id: u128, first_id: int, k: int)
    requires
        0 <= start,
        0 <= k <= n,
        new_seats(seats, start, n, event_id, first_id),
        forall|j: int| 0 <= j < start ==> (#[trigger] seats[j]).event_id != event_id,
    ensures
        count_event_seats(seats.take(start + k), event_id) == k,
        count_seats(seats.take(start + k), event_id, SeatStatus::Available) == k,
    decreases k,
{
    if k == 0 {
        let p = seats.take(start);
        assert forall|j: int| 0 <= j < p.len() implies (#[trigger] p[j]).event_id != event_id by {
            assert(p[j] == seats[j]);
        }
        lemma_count_without_event(p, event_id);
    } else {
        lemma_count_new_seats(seats, start, n, event_id, first_id, k - 1);
        assert(seats.take(start + k).drop_last() =~= seats.take(start + k - 1));
        assert(seats[start + (k - 1)].event_id == event_id);
        assert(seats.take(start + k).last() == seats[start + (k - 1)]);
    }
}

/// A new event has exactly the seats it was created with, all available:
/// no older seat belongs to it.
pub proof fn law_new_event_has_its_seats(t: Tables, t2: Tables, name: Seq<char>, seat_count: i32, r: Result<CreatedEvent, AppError>)
    requires
        t.wf(),
        create_post(t, t2, name, seat_count, r),
        r is Ok,
    ensures
        count_event_seats(t2.seats, r->Ok_0.event_id) == seat_count,
        count_seats(t2.seats, r->Ok_0.event_id, SeatStatus::Available) == seat_count,
{
    let id = t.next_id;
    let s0 = t.seats.len() as int;
    assert forall|j: int| 0 <= j < s0 implies (#[trigger] t2.seats[j]).event_id != id by {
        assert(t2.seats.subrange(0, s0)[j] == t2.seats[j]);
        assert(t.event_exists(t.seats[j].event_id));
        let w = choose|w: int| 0 <= w < t.events.len() && #[trigger] t.events[w].id == t.seats[j].event_id;
    }
    lemma_count_new_seats(t2.seats, s0, seat_count as int, id, id + 1, seat_count as int);
    assert(t2.seats.take(s0 + seat_count) =~= t2.seats);
}

/// A reservation that takes a new seat takes the available seat of the
/// event with the least label.
pub proof fn law_reservation_takes_least_label(
    t: Tables,
    t2: Tables,
    event_id: u128,
    user_ref: Seq<char>,
    key: Seq<char>,
    ttl: i64,
    now: i64,
    r: Result<ReservedSeat, AppError>,
)
    requires
        reserve_post(t, t2, event_id, user_ref, key, ttl, now, r),
        t.key_index(key) is None,
        r is Ok,
    ensures
        exists|s: int| 0 <= s < t.seats.len() && #[trigger] is_free(t.seats, s, event_id)
            && r->Ok_0.seat_id == t.seats[s].id
            && r->Ok_0.seat_label == t.seats[s].label
            && forall|j: int| 0 <= j < t.seats.len() && is_free(t.seats, j, event_id)
                ==> !label_lt(#[trigger] t.seats[j].label@, t.seats[s].label@),
{
    lemma_least_free(t.seats, event_id, t.seats.len() as int);
    let s = t.seat_to_hold(event_id).unwrap();
    assert(is_free(t.seats, s, event_id));
}

/// Two available seats of an event with one available seat are the same seat.
pub proof fn lemma_count_one(seats: Seq<SeatRow>, event_id: u128, i: int, j: int)
    requires
        count_seats(seats, event_id, SeatStatus::Available) == 1,
        0 <= i < seats.len(),
        0 <= j < seats.len(),
        is_free(seats, i, event_id),
        is_free(seats, j, event_id),
    ensures
        i == j,
    decreases seats.len(),
{
    let d = seats.drop_last();
    let last = seats.len() - 1;
    if i < last {
        assert(d[i] == seats[i]);
    }
    if j < last {
        assert(d[j] == seats[j]);
    }
    if is_free(seats, last, event_id) {
        lemma_count_zero_iff_none_free(d, event_id);
        if i < last {
            assert(is_free(d, i, event_id));
        }
        if j < last {
            assert(is_free(d, j, event_id));
        }
    } else {
        lemma_count_one(d, event_id, i, j);
    }
}

/// A seat freed by a sweep can be held again: after a sweep at `now` that
/// released a seat of the event, a reservation under a fresh key succeeds,
/// and when that seat is the event's only available one, it is the seat taken.
pub proof fn law_swept_seat_is_bookable_again(
    t: Tables,
    now: i64,
    s: int,
    t2: Tables,
    event_id: u128,
    user_ref: Seq<char>,
    key: Seq<char>,
    ttl: i64,
    now2: i64,
    r: Result<ReservedSeat, AppError>,
)
    requires
        t.wf(),
        0 <= s < t.seats.len(),
        t.seats[s].event_id == event_id,
        released(t.bookings, t.seats[s].id, now),
        reserve_post(t.swept(now), t2, event_id, user_ref, key, ttl, now2, r),
        t.swept(now).key_index(key) is None,
        t.next_id < u128::MAX,
        i64::MIN <= now2 + ttl <= i64::MAX,
    ensures
        r is Ok,
        r->Ok_0.status == BookingStatus::Held,
        count_seats(t.swept(now).seats, event_id, SeatStatus::Available) == 1 ==> r->Ok_0.seat_id == t.seats[s].id,
{
    let sw = t.swept(now);
    assert(sw.seats[s].status == SeatStatus::Available);
    assert(is_free(sw.seats, s, event_id));
    assert(t.event_exists(t.seats[s].event_id));
    let w = choose|w: int| 0 <= w < t.events.len() && #[trigger] t.events[w].id == t.seats[s].event_id;
    assert(sw.events[w].id == event_id);
    lemma_least_free(sw.seats, event_id, sw.seats.len() as int);
    let x = sw.seat_to_hold(event_id).unwrap();
    if count_seats(sw.seats, event_id, SeatStatus::Available) == 1 {
        lemma_count_one(sw.seats, event_id, x, s);
    }
}

} // verus!
