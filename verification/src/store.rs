//! An in-memory seat ledger: the events, seats and bookings tables, with the
//! statements the reservation protocols issue, each applied atomically.
use vstd::prelude::*;
use crate::labels::{label_less, label_lt, lemma_label_lt_irreflexive, lemma_label_lt_transitive};
use crate::repo::{BookingStatus, ReservedSeat};

pub mod confirming;
pub mod creating;
pub mod reserving;
pub mod sweeping;

verus! {

#[derive(Debug, Clone, Copy, PartialEq, Eq, Structural)]
pub enum SeatStatus {
    Available,
    Held,
    Booked,
}

#[derive(Debug)]
pub struct EventRow {
    pub id: u128,
    pub name: String,
}

#[derive(Debug)]
pub struct SeatRow {
    pub id: u128,
    pub event_id: u128,
    pub label: String,
    pub status: SeatStatus,
}

#[derive(Debug)]
pub struct BookingRow {
    pub id: u128,
    pub event_id: u128,
    pub seat_id: u128,
    pub user_ref: String,
    pub key: String,
    pub status: BookingStatus,
    pub expires_at: Option<i64>,
}

/// The contents of the three tables, and the next id to hand out.
#[verifier::ext_equal]
pub struct Tables {
    pub events: Seq<EventRow>,
    pub seats: Seq<SeatRow>,
    pub bookings: Seq<BookingRow>,
    pub next_id: u128,
}

/// The state a seat is in while a booking of the given status owns it.
pub open spec fn seat_status_for(s: BookingStatus) -> SeatStatus {
    match s {
        BookingStatus::Held => SeatStatus::Held,
        BookingStatus::Booked => SeatStatus::Booked,
    }
}

/// Whether some booking owns the seat with this id.
pub open spec fn seat_owned(bookings: Seq<BookingRow>, id: u128) -> bool {
    exists|b: int| 0 <= b < bookings.len() && #[trigger] bookings[b].seat_id == id
}

/// Whether some seat has this id.
pub open spec fn seat_exists(seats: Seq<SeatRow>, id: u128) -> bool {
    exists|s: int| 0 <= s < seats.len() && #[trigger] seats[s].id == id
}

pub open spec fn is_free(seats: Seq<SeatRow>, i: int, event_id: u128) -> bool {
    seats[i].event_id == event_id && seats[i].status == SeatStatus::Available
}

/// Among the first `n` seats, the available seat of the event with the
/// least label (the earliest one, where labels tie).
pub open spec fn least_free(seats: Seq<SeatRow>, event_id: u128, n: int) -> Option<int>
    decreases n,
{
    if n <= 0 {
        None
    } else {
        let best = least_free(seats, event_id, n - 1);
        if is_free(seats, n - 1, event_id)
            && (best is None || label_lt(seats[n - 1].label@, seats[best.unwrap()].label@)) {
            Some(n - 1)
        } else {
            best
        }
    }
}

/// The index of the first booking stored under `key` at or after index `i`.
pub open spec fn key_from(bookings: Seq<BookingRow>, key: Seq<char>, i: int) -> Option<int>
    decreases bookings.len() - i,
{
    if i < 0 || i >= bookings.len() {
        None
    } else if bookings[i].key@ == key {
        Some(i)
    } else {
        key_from(bookings, key, i + 1)
    }
}

/// The index of the first seat with id `id` at or after index `i`.
pub open spec fn seat_from(seats: Seq<SeatRow>, id: u128, i: int) -> Option<int>
    decreases seats.len() - i,
{
    if i < 0 || i >= seats.len() {
        None
    } else if seats[i].id == id {
        Some(i)
    } else {
        seat_from(seats, id, i + 1)
    }
}

/// The number of seats of the event in the given state.
pub open spec fn count_seats(seats: Seq<SeatRow>, event_id: u128, status: SeatStatus) -> nat
    decreases seats.len(),
{
    if seats.len() == 0 {
        0
    } else {
        let rest = count_seats(seats.drop_last(), event_id, status);
        if seats.last().event_id == event_id && seats.last().status == status { rest + 1 } else { rest }
    }
}

/// The number of seats of the event, whatever their state.
pub open spec fn count_event_seats(seats: Seq<SeatRow>, event_id: u128) -> nat
    decreases seats.len(),
{
    if seats.len() == 0 {
        0
    } else {
        let rest = count_event_seats(seats.drop_last(), event_id);
        if seats.last().event_id == event_id { rest + 1 } else { rest }
    }
}

impl Tables {
    /// The ledger's invariant: ids are unique and below `next_id`; every seat
    /// belongs to an existing event; no two bookings share an idempotency key
    /// or a seat; every booking owns an existing seat of its event, whose
    /// state matches the booking's; every held or booked seat has its booking.
    pub open spec fn wf(self) -> bool {
        &&& forall|i: int, j: int| 0 <= i < self.events.len() && 0 <= j < self.events.len() && i != j
            ==> #[trigger] self.events[i].id != #[trigger] self.events[j].id
        &&& forall|i: int, j: int| 0 <= i < self.seats.len() && 0 <= j < self.seats.len() && i != j
            ==> #[trigger] self.seats[i].id != #[trigger] self.seats[j].id
        &&& forall|i: int, j: int| 0 <= i < self.bookings.len() && 0 <= j < self.bookings.len() && i != j
            ==> #[trigger] self.bookings[i].id != #[trigger] self.bookings[j].id
        &&& forall|i: int| 0 <= i < self.events.len() ==> #[trigger] self.events[i].id < self.next_id
        &&& forall|i: int| 0 <= i < self.seats.len() ==> #[trigger] self.seats[i].id < self.next_id
        &&& forall|i: int| 0 <= i < self.bookings.len() ==> #[trigger] self.bookings[i].id < self.next_id
        &&& forall|i: int, j: int| 0 <= i < self.bookings.len() && 0 <= j < self.bookings.len() && i != j
            ==> #[trigger] self.bookings[i].key@ != #[trigger] self.bookings[j].key@
        &&& self.no_seat_taken_twice()
        &&& forall|s: int| 0 <= s < self.seats.len() ==> self.event_exists(#[trigger] self.seats[s].event_id)
        &&& forall|b: int| 0 <= b < self.bookings.len()
            ==> seat_exists(self.seats, #[trigger] self.bookings[b].seat_id)
        &&& forall|s: int| 0 <= s < self.seats.len() && (#[trigger] self.seats[s]).status != SeatStatus::Available
            ==> seat_owned(self.bookings, self.seats[s].id)
        &&& forall|b: int, s: int| 0 <= b < self.bookings.len() && 0 <= s < self.seats.len()
            && #[trigger] self.bookings[b].seat_id == #[trigger] self.seats[s].id
            ==> self.seats[s].status == seat_status_for(self.bookings[b].status)
                && self.seats[s].event_id == self.bookings[b].event_id
        &&& forall|b: int| 0 <= b < self.bookings.len()
            ==> ((#[trigger] self.bookings[b]).status == BookingStatus::Held) == (self.bookings[b].expires_at is Some)
        &&& self.seats.len() <= i64::MAX
    }

    /// No seat is owned by two bookings.
    pub open spec fn no_seat_taken_twice(self) -> bool {
        forall|i: int, j: int| 0 <= i < self.bookings.len() && 0 <= j < self.bookings.len() && i != j
            ==> #[trigger] self.bookings[i].seat_id != #[trigger] self.bookings[j].seat_id
    }

    pub open spec fn event_exists(self, event_id: u128) -> bool {
        exists|i: int| 0 <= i < self.events.len() && #[trigger] self.events[i].id == event_id
    }

    pub open spec fn key_index(self, key: Seq<char>) -> Option<int> {
        key_from(self.bookings, key, 0)
    }

    /// The seat a reservation for the event takes: the available one with
    /// the least label.
    pub open spec fn seat_to_hold(self, event_id: u128) -> Option<int> {
        least_free(self.seats, event_id, self.seats.len() as int)
    }

    /// The booking at index `b` as the client sees it.
    pub open spec fn reserved(self, b: int) -> ReservedSeat {
        let booking = self.bookings[b];
        ReservedSeat {
            booking_id: booking.id,
            seat_id: booking.seat_id,
            seat_label: self.seats[seat_from(self.seats, booking.seat_id, 0).unwrap()].label,
            status: booking.status,
            expires_at: booking.expires_at,
        }
    }

    /// The tables once seat `s` is held by the new booking `b`.
    pub open spec fn with_hold(self, s: int, b: BookingRow) -> Tables {
        Tables {
            events: self.events,
            seats: self.seats.update(s, SeatRow {
                id: self.seats[s].id,
                event_id: self.seats[s].event_id,
                label: self.seats[s].label,
                status: SeatStatus::Held,
            }),
            bookings: self.bookings.push(b),
            next_id: (self.next_id + 1) as u128,
        }
    }

    /// The tables once a transaction that inserted booking `b` for seat `s`
    /// commits: the seat is held and the booking stored; the id sequence
    /// advanced already when the booking was inserted.
    pub open spec fn with_commit(self, s: int, b: BookingRow) -> Tables {
        Tables {
            events: self.events,
            seats: self.seats.update(s, SeatRow {
                id: self.seats[s].id,
                event_id: self.seats[s].event_id,
                label: self.seats[s].label,
                status: SeatStatus::Held,
            }),
            bookings: self.bookings.push(b),
            next_id: self.next_id,
        }
    }

    /// The same tables, with the id sequence at `next_id`.
    pub open spec fn with_next_id(self, next_id: u128) -> Tables {
        Tables { events: self.events, seats: self.seats, bookings: self.bookings, next_id }
    }

    /// The tables once booking `b`, whose seat is at index `s`, is confirmed.
    pub open spec fn with_confirmed(self, b: int, s: int) -> Tables {
        Tables {
            events: self.events,
            seats: self.seats.update(s, SeatRow {
                id: self.seats[s].id,
                event_id: self.seats[s].event_id,
                label: self.seats[s].label,
                status: SeatStatus::Booked,
            }),
            bookings: self.bookings.update(b, BookingRow {
                id: self.bookings[b].id,
                event_id: self.bookings[b].event_id,
                seat_id: self.bookings[b].seat_id,
                user_ref: self.bookings[b].user_ref,
                key: self.bookings[b].key,
                status: BookingStatus::Booked,
                expires_at: None,
            }),
            next_id: self.next_id,
        }
    }

    /// What a lookup by idempotency key finds.
    pub open spec fn booking_by_key(self, key: Seq<char>) -> Option<ReservedSeat> {
        match self.key_index(key) {
            Some(b) => Some(self.reserved(b)),
            None => None,
        }
    }
}

/// The in-memory ledger.
pub struct SeatStore {
    events: Vec<EventRow>,
    seats: Vec<SeatRow>,
    bookings: Vec<BookingRow>,
    next_id: u128,
}

impl View for SeatStore {
    type V = Tables;

    closed spec fn view(&self) -> Tables {
        Tables { events: self.events@, seats: self.seats@, bookings: self.bookings@, next_id: self.next_id }
    }
}

impl SeatStore {
    /// The ledger's invariant, on its tables.
    pub open spec fn wf(&self) -> bool {
        self@.wf()
    }

    /// An empty ledger.
    pub fn new() -> (s: SeatStore)
        ensures
            s.wf(),
            s@.events.len() == 0,
            s@.seats.len() == 0,
            s@.bookings.len() == 0,
            s@.next_id == 1,
    {
        SeatStore { events: Vec::new(), seats: Vec::new(), bookings: Vec::new(), next_id: 1 }
    }

    /// The index of the seat with the given id.
    fn find_seat(&self, id: u128) -> (r: Option<usize>)
        ensures
            match r {
                Some(i) => seat_from(self@.seats, id, 0) == Some(i as int) && i < self@.seats.len()
                    && self@.seats[i as int].id == id,
                None => seat_from(self@.seats, id, 0) is None
                    && forall|j: int| 0 <= j < self@.seats.len() ==> #[trigger] self@.seats[j].id != id,
            },
    {
        let mut i: usize = 0;
        while i < self.seats.len()
            invariant
                i <= self.seats@.len(),
                seat_from(self@.seats, id, 0) == seat_from(self@.seats, id, i as int),
                forall|j: int| 0 <= j < i ==> #[trigger] self@.seats[j].id != id,
            decreases self.seats@.len() - i,
        {
            if self.seats[i].id == id {
                return Some(i);
            }
            i = i + 1;
        }
        None
    }

    /// Where the booking stored under `key` and its seat stand in the tables.
    fn locate(&self, key: &String) -> (r: Option<(usize, usize)>)
        requires
            self.wf(),
        ensures
            match r {
                Some((b, s)) => self@.key_index(key@) == Some(b as int) && b < self@.bookings.len()
                    && s < self@.seats.len()
                    && seat_from(self@.seats, self@.bookings[b as int].seat_id, 0) == Some(s as int),
                None => self@.key_index(key@) is None,
            },
    {
        let mut i: usize = 0;
        while i < self.bookings.len()
            invariant
                self@.wf(),
                i <= self.bookings@.len(),
                self@.key_index(key@) == key_from(self@.bookings, key@, i as int),
            decreases self.bookings@.len() - i,
        {
            if self.bookings[i].key == *key {
                let found = self.find_seat(self.bookings[i].seat_id);
                proof {
                    let bi = i as int;
                    assert(seat_exists(self@.seats, self@.bookings[bi].seat_id));
                    let w = choose|s: int| 0 <= s < self@.seats.len() && #[trigger] self@.seats[s].id == self@.bookings[bi].seat_id;
                    assert(self@.seats[w].id == self@.bookings[bi].seat_id);
                }
                return Some((i, found.unwrap()));
            }
            i = i + 1;
        }
        None
    }

    /// The booking at index `b`, whose seat is at index `s`, as the client sees it.
    fn reserved_at(&self, b: usize, s: usize) -> (r: ReservedSeat)
        requires
            b < self@.bookings.len(),
            s < self@.seats.len(),
            seat_from(self@.seats, self@.bookings[b as int].seat_id, 0) == Some(s as int),
        ensures
            r == self@.reserved(b as int),
    {
        let booking = &self.bookings[b];
        ReservedSeat {
            booking_id: booking.id,
            seat_id: booking.seat_id,
            seat_label: self.seats[s].label.clone(),
            status: booking.status,
            expires_at: booking.expires_at,
        }
    }

    /// Looks up the booking stored under an idempotency key, with its seat.
    pub fn find_booking_by_key(&self, key: &String) -> (r: Option<ReservedSeat>)
        requires
            self.wf(),
        ensures
            r == self@.booking_by_key(key@),
    {
        match self.locate(key) {
            Some((b, s)) => Some(self.reserved_at(b, s)),
            None => None,
        }
    }

    /// Whether an event with this id exists.
    pub fn event_exists(&self, event_id: u128) -> (r: bool)
        ensures
            r == self@.event_exists(event_id),
    {
        let mut i: usize = 0;
        while i < self.events.len()
            invariant
                i <= self.events@.len(),
                forall|j: int| 0 <= j < i ==> #[trigger] self@.events[j].id != event_id,
            decreases self.events@.len() - i,
        {
            if self.events[i].id == event_id {
                assert(self@.events[i as int].id == event_id);
                return true;
            }
            i = i + 1;
        }
        false
    }

    /// The index of the available seat of the event with the least label.
    fn free_seat_to_hold(&self, event_id: u128) -> (r: Option<usize>)
        ensures
            match r {
                Some(i) => self@.seat_to_hold(event_id) == Some(i as int) && i < self@.seats.len(),
                None => self@.seat_to_hold(event_id) is None,
            },
    {
        let mut best: Option<usize> = None;
        let mut i: usize = 0;
        while i < self.seats.len()
            invariant
                i <= self.seats@.len(),
                match best {
                    Some(b) => least_free(self@.seats, event_id, i as int) == Some(b as int) && b < i,
                    None => least_free(self@.seats, event_id, i as int) is None,
                },
            decreases self.seats@.len() - i,
        {
            if self.seats[i].event_id == event_id && self.seats[i].status == SeatStatus::Available {
                let better = match best {
                    None => true,
                    Some(b) => label_less(&self.seats[i].label, &self.seats[b].label),
                };
                if better {
                    best = Some(i);
                }
            }
            i = i + 1;
        }
        best
    }
}

pub proof fn lemma_key_from(bookings: Seq<BookingRow>, key: Seq<char>, i: int)
    requires
        0 <= i,
    ensures
        match key_from(bookings, key, i) {
            Some(x) => i <= x < bookings.len() && bookings[x].key@ == key,
            None => forall|j: int| i <= j < bookings.len() ==> #[trigger] bookings[j].key@ != key,
        },
    decreases bookings.len() - i,
{
    if i < bookings.len() && bookings[i].key@ != key {
        lemma_key_from(bookings, key, i + 1);
    }
}

/// The seat chosen among the first `n` is available, and no available seat
/// among them has a smaller label; none is chosen only when none is available.
pub proof fn lemma_least_free(seats: Seq<SeatRow>, event_id: u128, n: int)
    requires
        0 <= n <= seats.len(),
    ensures
        match least_free(seats, event_id, n) {
            Some(x) => 0 <= x < n && is_free(seats, x, event_id)
                && forall|j: int| 0 <= j < n && is_free(seats, j, event_id)
                    ==> !label_lt(#[trigger] seats[j].label@, seats[x].label@),
            None => forall|j: int| 0 <= j < n ==> !#[trigger] is_free(seats, j, event_id),
        },
    decreases n,
{
    if n > 0 {
        lemma_least_free(seats, event_id, n - 1);
        let best = least_free(seats, event_id, n - 1);
        let last = n - 1;
        if is_free(seats, last, event_id) && (best is None || label_lt(seats[last].label@, seats[best.unwrap()].label@)) {
            lemma_label_lt_irreflexive(seats[last].label@);
            assert forall|j: int| 0 <= j < n && is_free(seats, j, event_id)
                implies !label_lt(#[trigger] seats[j].label@, seats[last].label@) by {
                if j < last && label_lt(seats[j].label@, seats[last].label@) {
                    lemma_label_lt_transitive(seats[j].label@, seats[last].label@, seats[best.unwrap()].label@);
                }
            }
        }
    }
}

pub proof fn lemma_seat_from(seats: Seq<SeatRow>, id: u128, i: int)
    requires
        0 <= i,
    ensures
        match seat_from(seats, id, i) {
            Some(x) => i <= x < seats.len() && seats[x].id == id,
            None => forall|j: int| i <= j < seats.len() ==> #[trigger] seats[j].id != id,
        },
    decreases seats.len() - i,
{
    if i < seats.len() && seats[i].id != id {
        lemma_seat_from(seats, id, i + 1);
    }
}
pub proof fn lemma_key_from_push(bs: Seq<BookingRow>, b: BookingRow, key: Seq<char>, i: int)
    requires
        0 <= i <= bs.len(),
        b.key@ == key,
        forall|j: int| i <= j < bs.len() ==> #[trigger] bs[j].key@ != key,
    ensures
        key_from(bs.push(b), key, i) == Some(bs.len() as int),
    decreases bs.len() - i,
{
    let bp = bs.push(b);
    if i < bs.len() {
        assert(bp[i] == bs[i]);
        lemma_key_from_push(bs, b, key, i + 1);
    } else {
        assert(bp[i] == b);
    }
}

pub proof fn lemma_key_from_same_keys(b1: Seq<BookingRow>, b2: Seq<BookingRow>, key: Seq<char>, i: int)
    requires
        0 <= i,
        b1.len() == b2.len(),
        forall|j: int| 0 <= j < b1.len() ==> #[trigger] b1[j].key@ == b2[j].key@,
    ensures
        key_from(b1, key, i) == key_from(b2, key, i),
    decreases b1.len() - i,
{
    if i < b1.len() {
        assert(b1[i].key@ == b2[i].key@);
        lemma_key_from_same_keys(b1, b2, key, i + 1);
    }
}

pub proof fn lemma_seat_from_same_ids(s1: Seq<SeatRow>, s2: Seq<SeatRow>, id: u128, i: int)
    requires
        0 <= i,
        s1.len() == s2.len(),
        forall|j: int| 0 <= j < s1.len() ==> #[trigger] s1[j].id == s2[j].id,
    ensures
        seat_from(s1, id, i) == seat_from(s2, id, i),
    decreases s1.len() - i,
{
    if i < s1.len() {
        assert(s1[i].id == s2[i].id);
        lemma_seat_from_same_ids(s1, s2, id, i + 1);
    }
}

/// In a well-formed ledger the lookup of a seat by id finds the one seat with that id.
pub proof fn lemma_seat_from_unique(t: Tables, s: int)
    requires
        t.wf(),
        0 <= s < t.seats.len(),
    ensures
        seat_from(t.seats, t.seats[s].id, 0) == Some(s),
{
    lemma_seat_from(t.seats, t.seats[s].id, 0);
}

/// Drawing ids from the sequence, which only moves it forward, keeps the
/// ledger's invariant.
pub proof fn lemma_next_id_raised_keeps_wf(t: Tables, next_id: u128)
    requires
        t.wf(),
        t.next_id <= next_id,
    ensures
        t.with_next_id(next_id).wf(),
{
    let t1 = t.with_next_id(next_id);
    assert forall|i: int| 0 <= i < t1.events.len() implies #[trigger] t1.events[i].id < t1.next_id by {
        assert(t.events[i].id < t.next_id);
    }
    assert forall|i: int| 0 <= i < t1.seats.len() implies #[trigger] t1.seats[i].id < t1.next_id by {
        assert(t.seats[i].id < t.next_id);
    }
    assert forall|i: int| 0 <= i < t1.bookings.len() implies #[trigger] t1.bookings[i].id < t1.next_id by {
        assert(t.bookings[i].id < t.next_id);
    }
    assert forall|s: int| 0 <= s < t1.seats.len() implies t1.event_exists(#[trigger] t1.seats[s].event_id) by {
        assert(t.event_exists(t.seats[s].event_id));
        let w = choose|w: int| 0 <= w < t.events.len() && #[trigger] t.events[w].id == t.seats[s].event_id;
        assert(t1.events[w].id == t1.seats[s].event_id);
    }
}

/// When an operation keeps the events and every seat's id and event, and
/// does not lower `next_id`, the parts of the invariant about events and seat
/// ids carry over.
pub proof fn lemma_seats_carried_over(t0: Tables, t: Tables)
    requires
        t0.wf(),
        t.events == t0.events,
        t.next_id >= t0.next_id,
        t.seats.len() == t0.seats.len(),
        forall|j: int| 0 <= j < t.seats.len() ==> (#[trigger] t.seats[j]).id == t0.seats[j].id
            && t.seats[j].event_id == t0.seats[j].event_id,
    ensures
        forall|i: int, j: int| 0 <= i < t.events.len() && 0 <= j < t.events.len() && i != j
            ==> #[trigger] t.events[i].id != #[trigger] t.events[j].id,
        forall|i: int, j: int| 0 <= i < t.seats.len() && 0 <= j < t.seats.len() && i != j
            ==> #[trigger] t.seats[i].id != #[trigger] t.seats[j].id,
        forall|i: int| 0 <= i < t.events.len() ==> #[trigger] t.events[i].id < t.next_id,
        forall|i: int| 0 <= i < t.seats.len() ==> #[trigger] t.seats[i].id < t.next_id,
        forall|s: int| 0 <= s < t.seats.len() ==> t.event_exists(#[trigger] t.seats[s].event_id),
        forall|id: u128| seat_exists(t0.seats, id) ==> seat_exists(t.seats, id),
{
    assert forall|i: int, j: int| 0 <= i < t.seats.len() && 0 <= j < t.seats.len() && i != j
        implies #[trigger] t.seats[i].id != #[trigger] t.seats[j].id by {
        assert(t.seats[i].id == t0.seats[i].id);
        assert(t.seats[j].id == t0.seats[j].id);
    }
    assert forall|i: int| 0 <= i < t.seats.len() implies #[trigger] t.seats[i].id < t.next_id by {
        assert(t.seats[i].id == t0.seats[i].id);
    }
    assert forall|y: int| 0 <= y < t.seats.len() implies t.event_exists(#[trigger] t.seats[y].event_id) by {
        assert(t.seats[y].event_id == t0.seats[y].event_id);
        assert(t0.event_exists(t0.seats[y].event_id));
        let w = choose|w: int| 0 <= w < t0.events.len() && #[trigger] t0.events[w].id == t0.seats[y].event_id;
        assert(t.events[w] == t0.events[w]);
    }
    assert forall|id: u128| seat_exists(t0.seats, id) implies seat_exists(t.seats, id) by {
        let y = choose|y: int| 0 <= y < t0.seats.len() && #[trigger] t0.seats[y].id == id;
        assert(t.seats[y].id == id);
    }
}

} // verus!
