use vstd::prelude::*;

verus! {

/// Failures of the database layer that the service tells apart.
#[derive(Debug, Clone, Copy, PartialEq, Eq, Structural)]
pub enum DbError {
    /// No connection could be had from the pool in time.
    PoolTimedOut,
    /// An insert broke a `UNIQUE` constraint.
    UniqueViolation,
    /// Any other database failure.
    Other,
}

/// Everything a request can fail with.
#[derive(Debug, Clone, Copy)]
pub enum AppError {
    SoldOut,
    NotFound(&'static str),
    Conflict(&'static str),
    Invalid(&'static str),
    Db(DbError),
}

/// What an error is answered with over HTTP.
#[derive(Debug, Clone)]
pub struct ErrorReply {
    pub status: u16,
    pub message: String,
    /// Seconds for the `Retry-After` header, when one is sent.
    pub retry_after: Option<u64>,
}

pub open spec fn status_of(e: AppError) -> u16 {
    match e {
        AppError::SoldOut => 409,
        AppError::NotFound(_) => 404,
        AppError::Conflict(_) => 409,
        AppError::Invalid(_) => 400,
        AppError::Db(DbError::PoolTimedOut) => 503,
        AppError::Db(_) => 500,
    }
}

pub open spec fn message_of(e: AppError) -> Seq<char> {
    match e {
        AppError::SoldOut => "no seats available"@,
        AppError::NotFound(m) => m@,
        AppError::Conflict(m) => m@,
        AppError::Invalid(m) => m@,
        AppError::Db(DbError::PoolTimedOut) => "database busy, retry shortly"@,
        AppError::Db(_) => "internal error"@,
    }
}

impl AppError {
    /// The status line, body message and `Retry-After` header for this error.
    pub fn reply(&self) -> (r: ErrorReply)
        ensures
            r.status == status_of(*self),
            r.message@ == message_of(*self),
            r.retry_after == (if r.status == 503 { Some(1u64) } else { None::<u64> }),
    {
        let (status, message): (u16, &str) = match self {
            AppError::SoldOut => (409, "no seats available"),
            AppError::NotFound(m) => (404, *m),
            AppError::Conflict(m) => (409, *m),
            AppError::Invalid(m) => (400, *m),
            AppError::Db(DbError::PoolTimedOut) => (503, "database busy, retry shortly"),
            AppError::Db(_) => (500, "internal error"),
        };
        let retry_after = if status == 503 { Some(1u64) } else { None };
        ErrorReply { status, message: message.to_owned(), retry_after }
    }
}

} // verus!
