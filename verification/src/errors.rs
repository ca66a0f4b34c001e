//! Error codes surfaced by the money-movement services, and their mapping
//! onto HTTP statuses at the gateway.

use vstd::prelude::*;

verus! {

/// The error kinds a back-end service reports to the gateway.
#[derive(Clone, Copy, Debug, PartialEq, Eq, Structural)]
pub enum ErrorCode {
    /// Malformed ids, a non-positive amount, or identical source and destination.
    InvalidArgument,
    /// The referenced account does not exist.
    NotFound,
    /// Insufficient funds for a debit.
    FailedPrecondition,
    /// No token, or a token that does not verify.
    Unauthenticated,
    /// A store failure, such as a balance that would overflow its representation.
    Internal,
}

/// The HTTP status the gateway answers with for each back-end error kind.
pub fn http_status(code: ErrorCode) -> (status: u16)
    ensures
        status == spec_http_status(code),
{
    match code {
        ErrorCode::InvalidArgument => 400,
        ErrorCode::NotFound => 404,
        ErrorCode::FailedPrecondition => 412,
        ErrorCode::Unauthenticated => 401,
        ErrorCode::Internal => 500,
    }
}

pub open spec fn spec_http_status(code: ErrorCode) -> u16 {
    match code {
        ErrorCode::InvalidArgument => 400,
        ErrorCode::NotFound => 404,
        ErrorCode::FailedPrecondition => 412,
        ErrorCode::Unauthenticated => 401,
        ErrorCode::Internal => 500,
    }
}

} // verus!
