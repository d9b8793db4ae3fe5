use vstd::prelude::*;
use crate::error::AppError;
use crate::labels::{seat_label, seat_label_text};

verus! {

/// Where a booking stands: a timed hold on a seat, or a confirmed sale.
#[derive(Debug, Clone, Copy, PartialEq, Eq, Structural)]
pub enum BookingStatus {
    Held,
    Booked,
}

impl BookingStatus {
    /// The status as the API and the database spell it.
    pub fn as_str(&self) -> (s: &'static str)
        ensures
            s@ == status_text(*self),
    {
        match self {
            BookingStatus::Held => "held",
            BookingStatus::Booked => "booked",
        }
    }
}

impl BookingStatus {
    /// The status spelled as the database stores it, if it is one.
    pub fn parse(text: &str) -> (r: Option<BookingStatus>)
        ensures
            r == (if text@ == status_text(BookingStatus::Held) {
                Some(BookingStatus::Held)
            } else if text@ == status_text(BookingStatus::Booked) {
                Some(BookingStatus::Booked)
            } else {
                None::<BookingStatus>
            }),
    {
        proof {
            reveal_strlit("held");
            reveal_strlit("booked");
        }
        let t = text.to_owned();
        if t == "held".to_owned() {
            Some(BookingStatus::Held)
        } else if t == "booked".to_owned() {
            Some(BookingStatus::Booked)
        } else {
            None
        }
    }
}

pub open spec fn status_text(s: BookingStatus) -> Seq<char> {
    match s {
        BookingStatus::Held => "held"@,
        BookingStatus::Booked => "booked"@,
    }
}

/// A booking as it is handed back to the client: which seat it holds and how.
#[derive(Debug)]
pub struct ReservedSeat {
    pub booking_id: u128,
    pub seat_id: u128,
    pub seat_label: String,
    pub status: BookingStatus,
    /// When a hold lapses, as Unix time in the clock's unit (seconds in the
    /// in-memory ledger, microseconds against Postgres); `None` once the
    /// booking is confirmed.
    pub expires_at: Option<i64>,
}

/// An event as it stands after it was created with its seats.
#[derive(Debug)]
pub struct CreatedEvent {
    pub event_id: u128,
    pub name: String,
    pub seat_count: i64,
}

/// How the seats of one event are split between the three seat states.
#[derive(Debug, Clone, Copy, PartialEq, Eq)]
pub struct Availability {
    pub event_id: u128,
    pub total: i64,
    pub available: i64,
    pub held: i64,
    pub booked: i64,
}

/// The most seats one event may have.
pub const MAX_SEATS: i32 = 100000;

/// Why a seat count is refused, if it is.
pub open spec fn seat_count_error(seat_count: i32) -> Option<AppError> {
    if seat_count <= 0 {
        Some(AppError::Invalid("seat_count must be greater than zero"))
    } else if seat_count > MAX_SEATS {
        Some(AppError::Invalid("seat_count must be 100000 or fewer"))
    } else {
        None
    }
}

/// Accepts a seat count from 1 to `MAX_SEATS`.
pub fn validate_seat_count(seat_count: i32) -> (r: Result<(), AppError>)
    ensures
        match seat_count_error(seat_count) {
            Some(e) => r == Err::<(), AppError>(e),
            None => r is Ok,
        },
{
    if seat_count <= 0 {
        return Err(AppError::Invalid("seat_count must be greater than zero"));
    }
    if seat_count > MAX_SEATS {
        return Err(AppError::Invalid("seat_count must be 100000 or fewer"));
    }
    Ok(())
}

/// The labels of an event's seats, numbered from 1 to `seat_count`.
pub fn seat_labels(seat_count: u32) -> (labels: Vec<String>)
    ensures
        labels@.len() == seat_count,
        forall|i: int| 0 <= i < seat_count ==> #[trigger] labels@[i]@ == seat_label_text((i + 1) as nat),
{
    let mut labels: Vec<String> = Vec::new();
    let mut n: u32 = 0;
    while n < seat_count
        invariant
            n <= seat_count,
            labels@.len() == n,
            forall|i: int| 0 <= i < n ==> #[trigger] labels@[i]@ == seat_label_text((i + 1) as nat),
        decreases seat_count - n,
    {
        labels.push(seat_label(n + 1));
        n = n + 1;
    }
    labels
}

} // verus!
