//! What the HTTP handlers answer, given what the database layer returned.
use vstd::prelude::*;
use crate::error::AppError;
use crate::models::{BookingResponse, CreateEventResponse, EventAvailabilityResponse};
use crate::repo::{Availability, CreatedEvent, ReservedSeat, status_text};

verus! {

/// The body of the liveness check.
pub fn health() -> (body: &'static str)
    ensures
        body@ == "ok"@,
{
    "ok"
}

/// The status of the readiness check: 200 when the database answered, 503
/// when it did not.
pub fn readiness(database_reachable: bool) -> (status: u16)
    ensures
        status == (if database_reachable { 200u16 } else { 503u16 }),
{
    if database_reachable { 200 } else { 503 }
}

/// The reply to a reservation of a seat of `event_id`.
pub fn reserve_seat(event_id: u128, reserved: ReservedSeat) -> (r: BookingResponse)
    ensures
        r.booking_id == reserved.booking_id,
        r.event_id == event_id,
        r.seat_id == reserved.seat_id,
        r.seat_label == reserved.seat_label,
        r.status@ == status_text(reserved.status),
        r.expires_at == reserved.expires_at,
{
    let status = reserved.status.as_str().to_owned();
    BookingResponse {
        booking_id: reserved.booking_id,
        event_id,
        seat_id: reserved.seat_id,
        seat_label: reserved.seat_label,
        status,
        expires_at: reserved.expires_at,
    }
}

/// The reply to the creation of an event: `201 Created`, with the event as
/// it was stored.
pub fn create_event(created: CreatedEvent) -> (r: (u16, CreateEventResponse))
    ensures
        r.0 == 201,
        r.1.event_id == created.event_id,
        r.1.name == created.name,
        r.1.seat_count == created.seat_count,
{
    (201, CreateEventResponse { event_id: created.event_id, name: created.name, seat_count: created.seat_count })
}

/// The reply to a request for an event's seats: its split, or `NotFound`
/// when there is no such event.
pub fn get_event(availability: Option<Availability>) -> (r: Result<EventAvailabilityResponse, AppError>)
    ensures
        match availability {
            Some(a) => r == Ok::<EventAvailabilityResponse, AppError>(EventAvailabilityResponse {
                event_id: a.event_id,
                total_seats: a.total,
                available: a.available,
                held: a.held,
                booked: a.booked,
            }),
            None => r == Err::<EventAvailabilityResponse, AppError>(AppError::NotFound("event not found")),
        },
{
    match availability {
        Some(a) => Ok(EventAvailabilityResponse {
            event_id: a.event_id,
            total_seats: a.total,
            available: a.available,
            held: a.held,
            booked: a.booked,
        }),
        None => Err(AppError::NotFound("event not found")),
    }
}

} // verus!
