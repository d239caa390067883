//! Refusals: an HTTP status and a message for the client.

use vstd::prelude::*;

verus! {

pub const NO_CONTENT: u16 = 204;

pub const BAD_REQUEST: u16 = 400;

pub const UNAUTHORIZED: u16 = 401;

pub const FORBIDDEN: u16 = 403;

pub const NOT_FOUND: u16 = 404;

pub const METHOD_NOT_ALLOWED: u16 = 405;

pub const CONFLICT: u16 = 409;

pub const INTERNAL_SERVER_ERROR: u16 = 500;

pub const BAD_GATEWAY: u16 = 502;

/// Why a request was refused.
#[derive(Debug)]
pub struct ApiError {
    pub status: u16,
    pub error: String,
}

impl View for ApiError {
    type V = Refusal;

    open spec fn view(&self) -> Refusal {
        (self.status, self.error@)
    }
}

/// The status and message of a refusal.
pub type Refusal = (u16, Seq<char>);

/// What a client sees of a result: the value, or the status and message.
pub open spec fn shown<T: View>(r: Result<T, ApiError>) -> Result<T::V, Refusal> {
    match r {
        Ok(t) => Ok(t@),
        Err(e) => Err(e@),
    }
}

/// A result whose error is a message, by its views.
pub open spec fn told<T: View>(r: Result<T, String>) -> Result<T::V, Seq<char>> {
    match r {
        Ok(t) => Ok(t@),
        Err(e) => Err(e@),
    }
}

/// A refusal with this status and message.
pub open spec fn refusal(status: u16, msg: &str) -> Refusal {
    (status, msg@)
}

/// A refusal with this status and message.
pub fn err(status: u16, msg: &str) -> (r: ApiError)
    ensures
        r@ == refusal(status, msg),
{
    ApiError { status, error: msg.to_string() }
}

/// The refusal when the stored tables cannot be read or written.
pub fn db_failure() -> (r: ApiError)
    ensures
        r@ == refusal(INTERNAL_SERVER_ERROR, "db"),
{
    err(INTERNAL_SERVER_ERROR, "db")
}

/// A refusal is told with its status and its message, and a result as what it is.
pub proof fn refusals_are_told_as_they_are(e: ApiError, v: Vec<u8>, s: String, status: u16, msg: &str)
    ensures
        e@.0 == e.status && e@.1 == e.error@,
        shown(Ok::<Vec<u8>, ApiError>(v)) == Ok::<Seq<u8>, Refusal>(v@),
        shown(Err::<Vec<u8>, ApiError>(e)) == Err::<Seq<u8>, Refusal>((e.status, e.error@)),
        told(Ok::<Vec<u8>, String>(v)) == Ok::<Seq<u8>, Seq<char>>(v@),
        told(Err::<Vec<u8>, String>(s)) == Err::<Seq<u8>, Seq<char>>(s@),
        refusal(status, msg) == (status, msg@),
{
}

} // verus!
