//! Creating an event with its seats.
use vstd::prelude::*;
use crate::error::{AppError, DbError};
use crate::labels::{seat_label, seat_label_text};
use crate::repo::{CreatedEvent, seat_count_error, validate_seat_count};
use super::{EventRow, SeatRow, SeatStatus, SeatStore, Tables, seat_exists, seat_owned, seat_status_for};

verus! {

/// The seats from index `start` on are the `n` new seats of event `event_id`,
/// with ids counting up from `first_id` and labels from `S0001`.
pub open spec fn new_seats(seats: Seq<SeatRow>, start: int, n: int, event_id: u128, first_id: int) -> bool {
    &&& seats.len() == start + n
    &&& forall|j: int| 0 <= j < n ==> {
        &&& (#[trigger] seats[start + j]).id == first_id + j
        &&& seats[start + j].event_id == event_id
        &&& seats[start + j].label@ == seat_label_text((j + 1) as nat)
        &&& seats[start + j].status == SeatStatus::Available
    }
}

/// What creating an event named `name` with `seat_count` seats does to the
/// tables `t` (giving `t2`) and answers.
pub open spec fn create_post(t: Tables, t2: Tables, name: Seq<char>, seat_count: i32, r: Result<CreatedEvent, AppError>) -> bool {
    match seat_count_error(seat_count) {
        Some(e) => t2 == t && r == Err::<CreatedEvent, AppError>(e),
        None => if t.next_id as int + seat_count + 1 > u128::MAX || t.seats.len() + seat_count > i64::MAX {
            t2 == t && r == Err::<CreatedEvent, AppError>(AppError::Db(DbError::Other))
        } else {
            &&& t2.events.len() == t.events.len() + 1
            &&& t2.events.drop_last() == t.events
            &&& t2.events.last().id == t.next_id
            &&& t2.events.last().name@ == name
            &&& t2.seats.subrange(0, t.seats.len() as int) == t.seats
            &&& new_seats(t2.seats, t.seats.len() as int, seat_count as int, t.next_id, t.next_id + 1)
            &&& t2.bookings == t.bookings
            &&& t2.next_id == t.next_id + seat_count + 1
            &&& r matches Ok(c) && c.event_id == t.next_id && c.name@ == name && c.seat_count == seat_count
        },
    }
}

impl SeatStore {
    /// Creates an event with `seat_count` available seats labelled `S0001`,
    /// `S0002`, and so on.
    pub fn create_event(&mut self, name: &str, seat_count: i32) -> (r: Result<CreatedEvent, AppError>)
        requires
            old(self).wf(),
        ensures
            final(self).wf(),
            create_post(old(self)@, final(self)@, name@, seat_count, r),
    {
        let ghost t0 = self@;
        match validate_seat_count(seat_count) {
            Err(e) => return Err(e),
            Ok(()) => {},
        }
        let n = seat_count as u32;
        if self.next_id > u128::MAX - (n as u128) - 1 || self.seats.len() as u64 > i64::MAX as u64 - n as u64 {
            return Err(AppError::Db(DbError::Other));
        }
        let event_id = self.next_id;
        self.events.push(EventRow { id: event_id, name: name.to_owned() });
        let start = self.seats.len();
        let mut j: u32 = 0;
        while j < n
            invariant
                j <= n,
                n == seat_count,
                0 < n <= 100000,
                event_id == t0.next_id,
                event_id as int + n + 1 <= u128::MAX,
                start == t0.seats.len(),
                self@.events == t0.events.push(self@.events.last()),
                self@.events.last().id == event_id,
                self@.events.last().name@ == name@,
                self@.bookings == t0.bookings,
                self@.next_id == t0.next_id,
                self@.seats.subrange(0, start as int) == t0.seats,
                new_seats(self@.seats, start as int, j as int, event_id, event_id + 1),
            decreases n - j,
        {
            let ghost before = self@.seats;
            self.seats.push(SeatRow {
                id: event_id + 1 + j as u128,
                event_id,
                label: seat_label(j + 1),
                status: SeatStatus::Available,
            });
            proof {
                assert(self@.seats.subrange(0, start as int) =~= before.subrange(0, start as int));
                assert forall|k: int| 0 <= k < j + 1 implies {
                    &&& (#[trigger] self@.seats[start + k]).id == event_id + 1 + k
                    &&& self@.seats[start + k].event_id == event_id
                    &&& self@.seats[start + k].label@ == seat_label_text((k + 1) as nat)
                    &&& self@.seats[start + k].status == SeatStatus::Available
                } by {
                    if k < j {
                        assert(self@.seats[start + k] == before[start + k]);
                    }
                }
            }
            j = j + 1;
        }
        self.next_id = event_id + n as u128 + 1;
        proof {
            let t = self@;
            let s0 = t0.seats.len() as int;
            assert(t.events.drop_last() =~= t0.events);
            assert forall|i: int| 0 <= i < s0 implies #[trigger] t.seats[i] == t0.seats[i] by {
                assert(t.seats.subrange(0, s0)[i] == t.seats[i]);
            }
            assert forall|i: int| 0 <= i < t.seats.len() implies #[trigger] t.seats[i].id < t.next_id
                && (i < s0 ==> t.seats[i].id < t0.next_id)
                && (i >= s0 ==> t.seats[i].id == event_id + 1 + (i - s0)) by {
                if i >= s0 {
                    assert(t.seats[s0 + (i - s0)].id == event_id + 1 + (i - s0));
                } else {
                    assert(t.seats[i] == t0.seats[i]);
                }
            }
            assert forall|i: int, j2: int| 0 <= i < t.seats.len() && 0 <= j2 < t.seats.len() && i != j2
                implies #[trigger] t.seats[i].id != #[trigger] t.seats[j2].id by {
                if i < s0 && j2 < s0 {
                    assert(t0.seats[i].id != t0.seats[j2].id);
                }
            }
            assert forall|i: int, j2: int| 0 <= i < t.events.len() && 0 <= j2 < t.events.len() && i != j2
                implies #[trigger] t.events[i].id != #[trigger] t.events[j2].id by {
                if i < t0.events.len() && j2 < t0.events.len() {
                    assert(t.events[i] == t0.events[i]);
                    assert(t.events[j2] == t0.events[j2]);
                    assert(t0.events[i].id != t0.events[j2].id);
                } else if i < t0.events.len() {
                    assert(t.events[i] == t0.events[i]);
                } else if j2 < t0.events.len() {
                    assert(t.events[j2] == t0.events[j2]);
                }
            }
            assert forall|i: int| 0 <= i < t.events.len() implies #[trigger] t.events[i].id < t.next_id by {
                if i < t0.events.len() {
                    assert(t.events[i] == t0.events[i]);
                }
            }
            assert forall|b: int| 0 <= b < t.bookings.len() implies seat_exists(t.seats, #[trigger] t.bookings[b].seat_id) by {
                assert(seat_exists(t0.seats, t0.bookings[b].seat_id));
                let y = choose|y: int| 0 <= y < t0.seats.len() && #[trigger] t0.seats[y].id == t0.bookings[b].seat_id;
                assert(t.seats[y] == t0.seats[y]);
            }
            assert forall|x: int, y: int| 0 <= x < t.bookings.len() && 0 <= y < t.seats.len()
                && #[trigger] t.bookings[x].seat_id == #[trigger] t.seats[y].id
                implies t.seats[y].status == seat_status_for(t.bookings[x].status)
                    && t.seats[y].event_id == t.bookings[x].event_id by {
                if y < s0 {
                    assert(t.seats[y] == t0.seats[y]);
                } else {
                    assert(seat_exists(t0.seats, t0.bookings[x].seat_id));
                    let z = choose|z: int| 0 <= z < t0.seats.len() && #[trigger] t0.seats[z].id == t0.bookings[x].seat_id;
                    assert(t0.seats[z].id < t0.next_id);
                }
            }
            assert forall|y: int| 0 <= y < t.seats.len() && (#[trigger] t.seats[y]).status != SeatStatus::Available
                implies seat_owned(t.bookings, t.seats[y].id) by {
                if y < s0 {
                    assert(t.seats[y] == t0.seats[y]);
                } else {
                    assert(t.seats[s0 + (y - s0)].status == SeatStatus::Available);
                }
            }
            let ne = t0.events.len() as int;
            assert forall|y: int| 0 <= y < t.seats.len() implies t.event_exists(#[trigger] t.seats[y].event_id) by {
                if y < s0 {
                    assert(t.seats[y] == t0.seats[y]);
                    assert(t0.event_exists(t0.seats[y].event_id));
                    let w = choose|w: int| 0 <= w < t0.events.len() && #[trigger] t0.events[w].id == t0.seats[y].event_id;
                    assert(t.events[w] == t0.events[w]);
                } else {
                    assert(t.seats[s0 + (y - s0)].event_id == event_id);
                    assert(t.events[ne].id == event_id);
                }
            }
            assert(t.wf());
        }
        Ok(CreatedEvent { event_id, name: name.to_owned(), seat_count: seat_count as i64 })
    }
}

} // verus!
