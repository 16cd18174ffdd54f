//! Error values of the runtime and the HTTP shape they are answered with.
use vstd::prelude::*;
use crate::text::{chars_of, contains, contains_seq, push_all, string_from, string_of};

verus! {

/// Body of an error response: a machine code and a human message.
#[derive(Debug)]
pub struct ApiError {
    pub code: String,
    pub message: String,
}

impl ApiError {
    pub fn new(code: &str, message: &str) -> (r: ApiError)
        ensures
            r.code@ == code@,
            r.message@ == message@,
    {
        ApiError { code: string_from(code), message: string_from(message) }
    }
}

/// Errors raised by the runtime, each carrying its message.
#[derive(Debug)]
pub enum AppError {
    BadRequest(String),
    NotFound(String),
    Conflict(String),
    Unauthorized(String),
    Forbidden(String),
    Internal(String),
}

/// A failure as it reaches an HTTP handler: either an error of the runtime,
/// or any other error (storage, I/O) with its display text.
#[derive(Debug)]
pub enum Failure {
    App(AppError),
    Other(String),
}

pub open spec fn message_of(e: AppError) -> Seq<char> {
    match e {
        AppError::BadRequest(m) => m@,
        AppError::NotFound(m) => m@,
        AppError::Conflict(m) => m@,
        AppError::Unauthorized(m) => m@,
        AppError::Forbidden(m) => m@,
        AppError::Internal(m) => m@,
    }
}

pub open spec fn status_of(e: AppError) -> u16 {
    match e {
        AppError::BadRequest(_) => 400,
        AppError::NotFound(_) => 404,
        AppError::Conflict(_) => 409,
        AppError::Unauthorized(_) => 401,
        AppError::Forbidden(_) => 403,
        AppError::Internal(_) => 500,
    }
}

pub open spec fn code_of(e: AppError) -> Seq<char> {
    match e {
        AppError::BadRequest(_) => "bad_request"@,
        AppError::NotFound(_) => "not_found"@,
        AppError::Conflict(_) => "conflict"@,
        AppError::Unauthorized(_) => "unauthorized"@,
        AppError::Forbidden(_) => "forbidden"@,
        AppError::Internal(_) => "internal_error"@,
    }
}

pub fn bad_request(message: &str) -> (e: AppError)
    ensures
        e is BadRequest,
        message_of(e) == message@,
{
    AppError::BadRequest(string_from(message))
}

/// A bad-request error whose message is `prefix` followed by `detail`.
pub fn bad_request_with(prefix: &str, detail: &Vec<char>) -> (e: AppError)
    ensures
        e is BadRequest,
        message_of(e) == prefix@ + detail@,
{
    let mut m = chars_of(prefix);
    push_all(&mut m, detail);
    AppError::BadRequest(string_of(m.as_slice()))
}

impl AppError {
    /// The message the error displays.
    pub fn message(&self) -> (r: String)
        ensures
            r@ == message_of(*self),
    {
        match self {
            AppError::BadRequest(m) => m.clone(),
            AppError::NotFound(m) => m.clone(),
            AppError::Conflict(m) => m.clone(),
            AppError::Unauthorized(m) => m.clone(),
            AppError::Forbidden(m) => m.clone(),
            AppError::Internal(m) => m.clone(),
        }
    }

    /// HTTP status, code and body of the response that answers the error.
    pub fn response_parts(&self) -> (r: (u16, ApiError))
        ensures
            r.0 == status_of(*self),
            r.1.code@ == code_of(*self),
            r.1.message@ == message_of(*self),
    {
        let message = self.message();
        let (status, code) = match self {
            AppError::BadRequest(_) => (400u16, "bad_request"),
            AppError::NotFound(_) => (404u16, "not_found"),
            AppError::Conflict(_) => (409u16, "conflict"),
            AppError::Unauthorized(_) => (401u16, "unauthorized"),
            AppError::Forbidden(_) => (403u16, "forbidden"),
            AppError::Internal(_) => (500u16, "internal_error"),
        };
        (status, ApiError { code: string_from(code), message })
    }

    /// A copy of the error.
    pub fn duplicate(&self) -> (r: AppError)
        ensures
            r == *self,
    {
        match self {
            AppError::BadRequest(m) => AppError::BadRequest(m.clone()),
            AppError::NotFound(m) => AppError::NotFound(m.clone()),
            AppError::Conflict(m) => AppError::Conflict(m.clone()),
            AppError::Unauthorized(m) => AppError::Unauthorized(m.clone()),
            AppError::Forbidden(m) => AppError::Forbidden(m.clone()),
            AppError::Internal(m) => AppError::Internal(m.clone()),
        }
    }
}

/// The error a handler answers with for a failure: runtime errors keep their
/// kind and message, except that the text of an internal error is withheld;
/// any other failure becomes an internal error with its text.
pub fn from_failure(f: Failure) -> (e: AppError)
    ensures
        match f {
            Failure::App(AppError::Internal(_)) => e is Internal && message_of(e)
                == "internal error"@,
            Failure::App(a) => e == a,
            Failure::Other(m) => e == AppError::Internal(m),
        },
{
    match f {
        Failure::App(AppError::Internal(_)) => AppError::Internal(string_from("internal error")),
        Failure::App(a) => a,
        Failure::Other(m) => AppError::Internal(m),
    }
}

/// Maps a storage failure to the error answered to the client: runtime errors
/// as `from_failure` does; a unique-constraint failure becomes a conflict, a
/// foreign-key failure a bad request, anything else an internal error.
pub fn map_db_error(f: Failure) -> (e: AppError)
    ensures
        match f {
            Failure::App(AppError::Internal(_)) => e is Internal && message_of(e)
                == "internal error"@,
            Failure::App(a) => e == a,
            Failure::Other(m) => if contains(m@, "UNIQUE constraint failed"@) {
                e is Conflict && message_of(e) == "duplicate key"@
            } else if contains(m@, "FOREIGN KEY constraint failed"@) {
                e is BadRequest && message_of(e) == "unknown entity_id"@
            } else {
                e == AppError::Internal(m)
            },
        },
{
    match f {
        Failure::Other(m) => {
            let v = chars_of(m.as_str());
            let unique = chars_of("UNIQUE constraint failed");
            let foreign = chars_of("FOREIGN KEY constraint failed");
            if contains_seq(&v, &unique) {
                AppError::Conflict(string_from("duplicate key"))
            } else if contains_seq(&v, &foreign) {
                AppError::BadRequest(string_from("unknown entity_id"))
            } else {
                AppError::Internal(m)
            }
        },
        other => from_failure(other),
    }
}

} // verus!
