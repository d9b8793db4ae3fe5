//! Load shedding: at most a fixed number of requests are served at once, and
//! each is given a time limit.
use vstd::prelude::*;
use std::sync::Arc;
use std::time::Duration;
use tokio::sync::{OwnedSemaphorePermit, Semaphore};
use crate::error::ErrorReply;

verus! {

#[verifier::external_type_specification]
#[verifier::external_body]
pub struct ExSemaphore(tokio::sync::Semaphore);

#[verifier::external_type_specification]
#[verifier::external_body]
pub struct ExOwnedSemaphorePermit(tokio::sync::OwnedSemaphorePermit);

/// The number of permits a semaphore was made with.
pub uninterp spec fn permits_made_with(s: Semaphore) -> usize;

/// `tokio::sync::Semaphore::new`: a semaphore made with `permits` permits,
/// all of them free at first. It panics above `Semaphore::MAX_PERMITS`,
/// which is `usize::MAX >> 3`; the `requires` keeps out those counts.
#[verifier::external_body]
fn new_semaphore(permits: usize) -> (s: Semaphore)
    requires
        permits <= usize::MAX / 8,
    ensures
        permits_made_with(s) == permits,
{
    Semaphore::new(permits)
}

/// The semaphore a permit was taken from, as
/// `tokio::sync::OwnedSemaphorePermit::semaphore` returns it.
pub uninterp spec fn permit_source(p: OwnedSemaphorePermit) -> Semaphore;

/// `tokio::sync::Semaphore::try_acquire_owned`, on a new handle to the
/// shared semaphore: a permit taken from that semaphore when one is free,
/// `None` when none is left or the semaphore is closed. Which of these comes
/// back depends on the requests in flight in other tasks, so that is not
/// claimed; only that a permit comes from the semaphore it was asked of.
#[verifier::external_body]
fn try_acquire(permits: &Arc<Semaphore>) -> (p: Option<OwnedSemaphorePermit>)
    ensures
        p matches Some(x) ==> permit_source(x) == **permits,
{
    Arc::clone(permits).try_acquire_owned().ok()
}

/// `Arc::clone`: a new handle to the same semaphore.
#[verifier::external_body]
fn share(permits: &Arc<Semaphore>) -> (r: Arc<Semaphore>)
    ensures
        *r == **permits,
{
    Arc::clone(permits)
}

/// Caps the requests in flight and the time each may take.
pub struct Limiter {
    permits: Arc<Semaphore>,
    request_timeout: Duration,
}

/// Why a request is turned away by the limiter.
#[derive(Debug, Clone, Copy, PartialEq, Eq, Structural)]
pub enum LimitRejection {
    /// All permits are taken.
    Overloaded,
    /// The request ran past its time limit.
    TimedOut,
}

impl LimitRejection {
    /// What a rejected request is answered with.
    pub fn reply(&self) -> (r: ErrorReply)
        ensures
            *self == LimitRejection::Overloaded ==> r.status == 503 && r.message@ == "overloaded, retry shortly"@
                && r.retry_after == Some(1u64),
            *self == LimitRejection::TimedOut ==> r.status == 408 && r.message@ == "request timed out"@
                && r.retry_after is None,
    {
        match self {
            LimitRejection::Overloaded =>
                ErrorReply { status: 503, message: "overloaded, retry shortly".to_owned(), retry_after: Some(1) },
            LimitRejection::TimedOut =>
                ErrorReply { status: 408, message: "request timed out".to_owned(), retry_after: None },
        }
    }
}

impl Limiter {
    /// A limiter that lets `max_in_flight` requests in at once and gives each
    /// `request_timeout` to finish.
    pub fn new(max_in_flight: usize, request_timeout: Duration) -> (l: Limiter)
        requires
            max_in_flight <= usize::MAX / 8,
        ensures
            l.capacity() == max_in_flight,
            l.request_timeout() == request_timeout,
    {
        Limiter { permits: Arc::new(new_semaphore(max_in_flight)), request_timeout }
    }

    /// The semaphore whose permits the limiter hands out.
    pub closed spec fn semaphore(&self) -> Semaphore {
        *self.permits
    }

    /// The number of permits the limiter's semaphore was made with.
    pub closed spec fn capacity(&self) -> usize {
        permits_made_with(*self.permits)
    }

    pub closed spec fn spec_request_timeout(&self) -> Duration {
        self.request_timeout
    }

    /// The time each request is given.
    #[verifier::when_used_as_spec(spec_request_timeout)]
    pub fn request_timeout(&self) -> (d: Duration)
        ensures
            d == self.spec_request_timeout(),
    {
        self.request_timeout
    }

    /// Lets a request in when a permit is free; the permit is given back
    /// when it is dropped. A request that gets no permit is turned away as
    /// `Overloaded`.
    pub fn try_enter(&self) -> (r: Result<OwnedSemaphorePermit, LimitRejection>)
        ensures
            r matches Ok(p) ==> permit_source(p) == self.semaphore(),
            r is Err ==> r == Err::<OwnedSemaphorePermit, LimitRejection>(LimitRejection::Overloaded),
    {
        entry_for(try_acquire(&self.permits))
    }
}

impl Clone for Limiter {
    /// Another handle to the same limiter: it shares the semaphore, and with
    /// it the permits, and has the same time limit.
    fn clone(&self) -> (r: Self)
        ensures
            r.semaphore() == self.semaphore(),
            r.capacity() == self.capacity(),
            r.request_timeout() == self.request_timeout(),
    {
        Limiter { permits: share(&self.permits), request_timeout: self.request_timeout }
    }
}

/// What a request is told, given what the semaphore answered: let in with
/// the permit it got, or turned away as `Overloaded` when it got none.
pub fn entry_for(permit: Option<OwnedSemaphorePermit>) -> (r: Result<OwnedSemaphorePermit, LimitRejection>)
    ensures
        match permit {
            Some(p) => r == Ok::<OwnedSemaphorePermit, LimitRejection>(p),
            None => r == Err::<OwnedSemaphorePermit, LimitRejection>(LimitRejection::Overloaded),
        },
{
    match permit {
        Some(p) => Ok(p),
        None => Err(LimitRejection::Overloaded),
    }
}

} // verus!
