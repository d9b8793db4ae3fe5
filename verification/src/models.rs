//! The bodies of the API's requests and replies.
use vstd::prelude::*;

verus! {

/// The body of a request to reserve a seat.
#[derive(Debug, Clone)]
pub struct ReserveRequest {
    pub user_ref: String,
}

/// The reply to a reservation: the booking, its seat, and how it stands.
#[derive(Debug)]
pub struct BookingResponse {
    pub booking_id: u128,
    pub event_id: u128,
    pub seat_id: u128,
    pub seat_label: String,
    pub status: String,
    /// When the hold lapses, as Unix time in the clock's unit; absent once booked.
    pub expires_at: Option<i64>,
}

/// The body of a request to create an event.
#[derive(Debug, Clone)]
pub struct CreateEventRequest {
    pub name: String,
    pub seat_count: i32,
}

#[derive(Debug)]
pub struct CreateEventResponse {
    pub event_id: u128,
    pub name: String,
    pub seat_count: i64,
}

#[derive(Debug, Clone, Copy)]
pub struct EventAvailabilityResponse {
    pub event_id: u128,
    pub total_seats: i64,
    pub available: i64,
    pub held: i64,
    pub booked: i64,
}

} // verus!
