//! Releasing lapsed holds, and counting an event's seats.
use vstd::prelude::*;
use crate::confirm::lapsed;
use crate::repo::{Availability, BookingStatus};
use super::{lemma_seats_carried_over, BookingRow, SeatRow, SeatStatus, SeatStore, Tables, count_event_seats, count_seats, seat_exists, seat_owned, seat_status_for};

verus! {

/// A hold whose time has run out at `now`.
pub open spec fn expired(b: BookingRow, now: i64) -> bool {
    b.status == BookingStatus::Held && lapsed(b.expires_at, now)
}

/// The bookings that a sweep at `now` leaves in place, in their order.
pub open spec fn kept_bookings(bs: Seq<BookingRow>, now: i64) -> Seq<BookingRow>
    decreases bs.len(),
{
    if bs.len() == 0 {
        Seq::empty()
    } else {
        let rest = kept_bookings(bs.drop_last(), now);
        if expired(bs.last(), now) { rest } else { rest.push(bs.last()) }
    }
}

/// How many holds have run out at `now`.
pub open spec fn count_expired(bs: Seq<BookingRow>, now: i64) -> nat
    decreases bs.len(),
{
    if bs.len() == 0 {
        0
    } else {
        let rest = count_expired(bs.drop_last(), now);
        if expired(bs.last(), now) { rest + 1 } else { rest }
    }
}

/// Whether the seat with this id is owned by a hold that has run out at `now`.
pub open spec fn released(bs: Seq<BookingRow>, seat_id: u128, now: i64) -> bool {
    exists|b: int| 0 <= b < bs.len() && #[trigger] bs[b].seat_id == seat_id && expired(bs[b], now)
}

/// Whether index `b` is among the recorded indices.
pub open spec fn in_origin(origin: Seq<int>, b: int) -> bool {
    exists|k: int| 0 <= k < origin.len() && #[trigger] origin[k] == b
}

/// The seats once the seats of lapsed holds are available again.
pub open spec fn released_seats(t: Tables, now: i64) -> Seq<SeatRow> {
    Seq::new(t.seats.len(), |i: int| if released(t.bookings, t.seats[i].id, now) {
        SeatRow { id: t.seats[i].id, event_id: t.seats[i].event_id, label: t.seats[i].label, status: SeatStatus::Available }
    } else {
        t.seats[i]
    })
}

impl Tables {
    /// The tables after a sweep at `now`: lapsed holds are deleted and their
    /// seats are available again.
    pub open spec fn swept(self, now: i64) -> Tables {
        Tables {
            events: self.events,
            seats: released_seats(self, now),
            bookings: kept_bookings(self.bookings, now),
            next_id: self.next_id,
        }
    }

    /// The split of the event's seats, or `None` when there is no such event.
    pub open spec fn availability(self, event_id: u128) -> Option<Availability> {
        if self.event_exists(event_id) {
            Some(Availability {
                event_id,
                total: count_event_seats(self.seats, event_id) as i64,
                available: count_seats(self.seats, event_id, SeatStatus::Available) as i64,
                held: count_seats(self.seats, event_id, SeatStatus::Held) as i64,
                booked: count_seats(self.seats, event_id, SeatStatus::Booked) as i64,
            })
        } else {
            None
        }
    }
}

/// For each booking that a sweep at `now` keeps, its index among the
/// bookings before the sweep.
pub open spec fn kept_origin(bs: Seq<BookingRow>, now: i64) -> Seq<int>
    decreases bs.len(),
{
    if bs.len() == 0 {
        Seq::empty()
    } else {
        let rest = kept_origin(bs.drop_last(), now);
        if expired(bs.last(), now) { rest } else { rest.push(bs.len() - 1) }
    }
}

/// The bookings a sweep keeps are the bookings that have not run out, each
/// once and in their order.
pub proof fn lemma_kept_origin(bs: Seq<BookingRow>, now: i64)
    ensures
        kept_origin(bs, now).len() == kept_bookings(bs, now).len(),
        forall|k: int| 0 <= k < kept_origin(bs, now).len() ==> 0 <= #[trigger] kept_origin(bs, now)[k] < bs.len()
            && kept_bookings(bs, now)[k] == bs[kept_origin(bs, now)[k]] && !expired(bs[kept_origin(bs, now)[k]], now),
        forall|k1: int, k2: int| 0 <= k1 < k2 < kept_origin(bs, now).len()
            ==> #[trigger] kept_origin(bs, now)[k1] < #[trigger] kept_origin(bs, now)[k2],
        forall|b: int| 0 <= b < bs.len() && !expired(#[trigger] bs[b], now) ==> in_origin(kept_origin(bs, now), b),
    decreases bs.len(),
{
    if bs.len() > 0 {
        let d = bs.drop_last();
        lemma_kept_origin(d, now);
        let o0 = kept_origin(d, now);
        let o = kept_origin(bs, now);
        let last = bs.len() - 1;
        if expired(bs.last(), now) {
            assert forall|b: int| 0 <= b < bs.len() && !expired(#[trigger] bs[b], now) implies in_origin(o, b) by {
                assert(b != last);
                assert(d[b] == bs[b]);
            }
        } else {
            assert forall|k: int| 0 <= k < o.len() implies 0 <= #[trigger] o[k] < bs.len()
                && kept_bookings(bs, now)[k] == bs[o[k]] && !expired(bs[o[k]], now) by {
                if k < o0.len() {
                    assert(o[k] == o0[k]);
                    assert(d[o0[k]] == bs[o0[k]]);
                }
            }
            assert forall|k1: int, k2: int| 0 <= k1 < k2 < o.len() implies #[trigger] o[k1] < #[trigger] o[k2] by {
                assert(o[k1] == o0[k1]);
                if k2 < o0.len() {
                    assert(o[k2] == o0[k2]);
                }
            }
            assert forall|b: int| 0 <= b < bs.len() && !expired(#[trigger] bs[b], now) implies in_origin(o, b) by {
                if b < last {
                    assert(d[b] == bs[b]);
                    assert(in_origin(o0, b));
                    let k = choose|k: int| 0 <= k < o0.len() && #[trigger] o0[k] == b;
                    assert(o[k] == b);
                } else {
                    assert(o[o.len() - 1] == b);
                }
            }
        }
    }
}

/// A sweep keeps the ledger's invariant.
pub proof fn lemma_sweep_keeps_wf(t0: Tables, now: i64)
    requires
        t0.wf(),
    ensures
        t0.swept(now).wf(),
{
    let t = t0.swept(now);
    let bs = t0.bookings;
    let origin = kept_origin(bs, now);
    lemma_kept_origin(bs, now);
    // a kept booking never owns a released seat
    assert forall|k: int, y: int| 0 <= k < t.bookings.len() && 0 <= y < t.seats.len()
        && #[trigger] t.bookings[k].seat_id == #[trigger] t.seats[y].id
        implies t.seats[y] == t0.seats[y] by {
        let o = origin[k];
        assert(t.bookings[k] == bs[o]);
        assert(t.seats[y].id == t0.seats[y].id);
        if released(bs, t0.seats[y].id, now) {
            let x = choose|x: int| 0 <= x < bs.len() && #[trigger] bs[x].seat_id == t0.seats[y].id && expired(bs[x], now);
            assert(x != o);
            assert(bs[x].seat_id == bs[o].seat_id);
        }
    }
    assert forall|j1: int| 0 <= j1 < t.seats.len() implies (#[trigger] t.seats[j1]).id == t0.seats[j1].id
        && t.seats[j1].event_id == t0.seats[j1].event_id by {
    }
    lemma_seats_carried_over(t0, t);
    assert forall|i1: int| 0 <= i1 < t.bookings.len() implies #[trigger] t.bookings[i1].id < t.next_id by {
        assert(t.bookings[i1] == bs[origin[i1]]);
    }
    assert forall|k1: int, k2: int| 0 <= k1 < t.bookings.len() && 0 <= k2 < t.bookings.len() && k1 != k2
        implies #[trigger] t.bookings[k1].id != #[trigger] t.bookings[k2].id
            && t.bookings[k1].key@ != t.bookings[k2].key@
            && t.bookings[k1].seat_id != t.bookings[k2].seat_id by {
        assert(t.bookings[k1] == bs[origin[k1]]);
        assert(t.bookings[k2] == bs[origin[k2]]);
        if k1 < k2 {
            assert(origin[k1] < origin[k2]);
        } else {
            assert(origin[k2] < origin[k1]);
        }
    }
    assert forall|k1: int, k2: int| 0 <= k1 < t.bookings.len() && 0 <= k2 < t.bookings.len() && k1 != k2
        implies #[trigger] t.bookings[k1].key@ != #[trigger] t.bookings[k2].key@ by {
        assert(t.bookings[k1].id != t.bookings[k2].id);
    }
    assert forall|k1: int, k2: int| 0 <= k1 < t.bookings.len() && 0 <= k2 < t.bookings.len() && k1 != k2
        implies #[trigger] t.bookings[k1].seat_id != #[trigger] t.bookings[k2].seat_id by {
        assert(t.bookings[k1].id != t.bookings[k2].id);
    }
    assert(t.no_seat_taken_twice());
    assert forall|b: int| 0 <= b < t.bookings.len()
        implies seat_exists(t.seats, #[trigger] t.bookings[b].seat_id) by {
        let o = origin[b];
        assert(t.bookings[b] == bs[o]);
        assert(0 <= o < bs.len());
        assert(seat_exists(t0.seats, t0.bookings[o].seat_id));
        let y = choose|y: int| 0 <= y < t0.seats.len() && #[trigger] t0.seats[y].id == t0.bookings[o].seat_id;
        assert(0 <= y < t0.seats.len() && t0.seats[y].id == t0.bookings[o].seat_id);
        assert(t.seats[y].id == t0.seats[y].id);
        assert(0 <= y < t.seats.len() && t.seats[y].id == t.bookings[b].seat_id);
    }

    assert forall|x: int, y: int| 0 <= x < t.bookings.len() && 0 <= y < t.seats.len()
        && #[trigger] t.bookings[x].seat_id == #[trigger] t.seats[y].id
        implies t.seats[y].status == seat_status_for(t.bookings[x].status)
            && t.seats[y].event_id == t.bookings[x].event_id by {
        let o = origin[x];
        assert(t.bookings[x] == bs[o]);
        assert(t.seats[y] == t0.seats[y]);
    }
    assert forall|x: int| 0 <= x < t.bookings.len()
        implies ((#[trigger] t.bookings[x]).status == BookingStatus::Held) == (t.bookings[x].expires_at is Some) by {
        assert(t.bookings[x] == bs[origin[x]]);
    }
    assert forall|y: int| 0 <= y < t.seats.len() && (#[trigger] t.seats[y]).status != SeatStatus::Available
        implies seat_owned(t.bookings, t.seats[y].id) by {
        assert(t.seats[y] == t0.seats[y]);
        assert(seat_owned(t0.bookings, t0.seats[y].id));
        let x = choose|x: int| 0 <= x < bs.len() && #[trigger] bs[x].seat_id == t0.seats[y].id;
        if expired(bs[x], now) {
            assert(released(bs, t0.seats[y].id, now));
        }
        assert(in_origin(origin, x));
        let k = choose|k: int| 0 <= k < origin.len() && #[trigger] origin[k] == x;
        assert(t.bookings[k] == bs[x]);
    }
}

/// A sweep at `now` keeps exactly the bookings that are not holds whose
/// time ran out at or before `now`, in their order; and the number it
/// answers is the number of bookings it removed, which is the number of
/// such lapsed holds.
pub proof fn law_sweep_answers_what_it_removed(t: Tables, now: i64)
    ensures
        t.swept(now).bookings == t.bookings.filter(|b: BookingRow|
            !(b.status == BookingStatus::Held && b.expires_at is Some && b.expires_at.unwrap() <= now)),
        count_expired(t.bookings, now) == t.bookings.len() - t.swept(now).bookings.len(),
        count_expired(t.bookings, now) == t.bookings.filter(|b: BookingRow|
            b.status == BookingStatus::Held && b.expires_at is Some && b.expires_at.unwrap() <= now).len(),
{
    lemma_sweep_filters(t.bookings, now);
}

proof fn lemma_sweep_filters(bs: Seq<BookingRow>, now: i64)
    ensures
        kept_bookings(bs, now) == bs.filter(|b: BookingRow|
            !(b.status == BookingStatus::Held && b.expires_at is Some && b.expires_at.unwrap() <= now)),
        count_expired(bs, now) + kept_bookings(bs, now).len() == bs.len(),
        count_expired(bs, now) == bs.filter(|b: BookingRow|
            b.status == BookingStatus::Held && b.expires_at is Some && b.expires_at.unwrap() <= now).len(),
    decreases bs.len(),
{
    reveal_with_fuel(Seq::filter, 2);
    if bs.len() > 0 {
        lemma_sweep_filters(bs.drop_last(), now);
    }
}

pub proof fn lemma_counts_bounded(seats: Seq<SeatRow>, event_id: u128)
    ensures
        count_event_seats(seats, event_id) <= seats.len(),
        count_event_seats(seats, event_id) == count_seats(seats, event_id, SeatStatus::Available)
            + count_seats(seats, event_id, SeatStatus::Held) + count_seats(seats, event_id, SeatStatus::Booked),
    decreases seats.len(),
{
    if seats.len() > 0 {
        lemma_counts_bounded(seats.drop_last(), event_id);
    }
}

pub proof fn lemma_count_expired_bounded(bs: Seq<BookingRow>, now: i64)
    ensures
        count_expired(bs, now) <= bs.len(),
    decreases bs.len(),
{
    if bs.len() > 0 {
        lemma_count_expired_bounded(bs.drop_last(), now);
    }
}

fn contains_id(v: &Vec<u128>, id: u128) -> (r: bool)
    ensures
        r == v@.contains(id),
{
    let mut i: usize = 0;
    while i < v.len()
        invariant
            i <= v@.len(),
            forall|j: int| 0 <= j < i ==> v@[j] != id,
        decreases v@.len() - i,
    {
        if v[i] == id {
            assert(v@[i as int] == id);
            return true;
        }
        i = i + 1;
    }
    false
}

impl SeatStore {
    /// Deletes every hold that has run out at `now` and makes its seat
    /// available again; answers how many holds were deleted.
    pub fn sweep_expired_holds(&mut self, now: i64) -> (n: u64)
        requires
            old(self).wf(),
        ensures
            final(self).wf(),
            final(self)@ == old(self)@.swept(now),
            n == count_expired(old(self)@.bookings, now),
            n == old(self)@.bookings.len() - final(self)@.bookings.len(),
            final(self)@.bookings == old(self)@.bookings.filter(|b: BookingRow|
                !(b.status == BookingStatus::Held && b.expires_at is Some && b.expires_at.unwrap() <= now)),
    {
        let ghost t0 = self@;
        let ghost bs = t0.bookings;
        let mut kept: Vec<BookingRow> = Vec::new();
        let mut freed: Vec<u128> = Vec::new();
        let mut count: u64 = 0;
        let mut i: usize = 0;
        while i < self.bookings.len()
            invariant
                self@ == t0,
                bs == t0.bookings,
                i <= bs.len(),
                kept@ == kept_bookings(bs.take(i as int), now),
                count == count_expired(bs.take(i as int), now),
                count <= i,
                forall|id: u128| freed@.contains(id) <==>
                    exists|b: int| 0 <= b < i && #[trigger] bs[b].seat_id == id && expired(bs[b], now),
            decreases bs.len() - i,
        {
            let ghost pre = bs.take(i as int);
            assert(bs.take(i as int + 1).drop_last() =~= pre);
            assert(bs.take(i as int + 1).last() == bs[i as int]);
            let b = &self.bookings[i];
            let lapsed_now = match b.expires_at {
                Some(t) => t <= now,
                None => false,
            };
            if b.status == BookingStatus::Held && lapsed_now {
                let ghost freed0 = freed@;
                freed.push(b.seat_id);
                count = count + 1;
                proof {
                    assert forall|id: u128| freed@.contains(id) <==>
                        exists|x: int| 0 <= x < i + 1 && #[trigger] bs[x].seat_id == id && expired(bs[x], now) by {
                        if freed@.contains(id) {
                            let k = choose|k: int| 0 <= k < freed@.len() && freed@[k] == id;
                            if k < freed@.len() - 1 {
                                assert(freed0[k] == id);
                                assert(freed0.contains(id));
                            } else {
                                assert(bs[i as int].seat_id == id);
                            }
                        }
                        if exists|x: int| 0 <= x < i + 1 && #[trigger] bs[x].seat_id == id && expired(bs[x], now) {
                            let x = choose|x: int| 0 <= x < i + 1 && #[trigger] bs[x].seat_id == id && expired(bs[x], now);
                            if x < i {
                                assert(freed0.contains(id));
                                let k = choose|k: int| 0 <= k < freed0.len() && freed0[k] == id;
                                assert(freed@[k] == id);
                            } else {
                                assert(freed@[freed@.len() - 1] == id);
                            }
                        }
                    }
                }
            } else {
                let row = BookingRow {
                    id: b.id,
                    event_id: b.event_id,
                    seat_id: b.seat_id,
                    user_ref: b.user_ref.clone(),
                    key: b.key.clone(),
                    status: b.status,
                    expires_at: b.expires_at,
                };
                kept.push(row);
            }
            i = i + 1;
        }
        assert(bs.take(bs.len() as int) =~= bs);
        // release the seats of lapsed holds
        let ghost seats0 = t0.seats;
        let mut j: usize = 0;
        while j < self.seats.len()
            invariant
                self@.events == t0.events,
                self@.bookings == t0.bookings,
                self@.next_id == t0.next_id,
                self@.seats.len() == seats0.len(),
                seats0 == t0.seats,
                j <= seats0.len(),
                forall|id: u128| freed@.contains(id) <==> released(bs, id, now),
                bs == t0.bookings,
                forall|k: int| 0 <= k < j ==> #[trigger] self@.seats[k] == released_seats(t0, now)[k],
                forall|k: int| j <= k < seats0.len() ==> #[trigger] self@.seats[k] == seats0[k],
            decreases seats0.len() - j,
        {
            if contains_id(&freed, self.seats[j].id) {
                let row = SeatRow {
                    id: self.seats[j].id,
                    event_id: self.seats[j].event_id,
                    label: self.seats[j].label.clone(),
                    status: SeatStatus::Available,
                };
                self.seats[j] = row;
            }
            j = j + 1;
        }
        self.bookings = kept;
        proof {
            let sw = t0.swept(now);
            assert(self@.seats =~= sw.seats);
            assert(self@ == sw);
            lemma_count_expired_bounded(bs, now);
            lemma_sweep_keeps_wf(t0, now);
            law_sweep_answers_what_it_removed(t0, now);
        }
        count
    }

    /// How the event's seats are split between available, held and booked.
    pub fn event_availability(&self, event_id: u128) -> (r: Option<Availability>)
        requires
            self.wf(),
        ensures
            r == self@.availability(event_id),
    {
        if !self.event_exists(event_id) {
            return None;
        }
        let mut total: i64 = 0;
        let mut available: i64 = 0;
        let mut held: i64 = 0;
        let mut booked: i64 = 0;
        let mut j: usize = 0;
        while j < self.seats.len()
            invariant
                self@.wf(),
                j <= self@.seats.len(),
                total == count_event_seats(self@.seats.take(j as int), event_id),
                available == count_seats(self@.seats.take(j as int), event_id, SeatStatus::Available),
                held == count_seats(self@.seats.take(j as int), event_id, SeatStatus::Held),
                booked == count_seats(self@.seats.take(j as int), event_id, SeatStatus::Booked),
            decreases self@.seats.len() - j,
        {
            let ghost pre = self@.seats.take(j as int);
            assert(self@.seats.take(j as int + 1).drop_last() =~= pre);
            proof {
                lemma_counts_bounded(pre, event_id);
            }
            if self.seats[j].event_id == event_id {
                total = total + 1;
                match self.seats[j].status {
                    SeatStatus::Available => available = available + 1,
                    SeatStatus::Held => held = held + 1,
                    SeatStatus::Booked => booked = booked + 1,
                }
            }
            j = j + 1;
        }
        assert(self@.seats.take(self@.seats.len() as int) =~= self@.seats);
        Some(Availability { event_id, total, available, held, booked })
    }
}

} // verus!
