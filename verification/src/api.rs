//! Errors that the management interface answers with.

use vstd::prelude::*;

verus! {

pub const UNAUTHORIZED: u16 = 401;

pub const FORBIDDEN: u16 = 403;

pub const NOT_FOUND: u16 = 404;

pub const CONFLICT: u16 = 409;

pub const GONE: u16 = 410;

pub const UNPROCESSABLE_ENTITY: u16 = 422;

pub const INTERNAL_SERVER_ERROR: u16 = 500;

/// An answer that refuses a request: its status and its text.
#[derive(Debug, PartialEq, Eq)]
pub struct ApiError {
    pub status: u16,
    pub text: String,
}

impl View for ApiError {
    type V = (u16, Seq<char>);

    open spec fn view(&self) -> (u16, Seq<char>) {
        (self.status, self.text@)
    }
}

/// A refusal.
pub fn refuse(status: u16, text: &str) -> (r: ApiError)
    ensures
        r@ == (status, text@),
{
    ApiError { status, text: text.to_owned() }
}

/// The refusal in a result, if it is one.
pub open spec fn refusal_of<T>(r: Result<T, ApiError>) -> Option<(u16, Seq<char>)> {
    match r {
        Ok(_) => None,
        Err(e) => Some(e@),
    }
}

} // verus!
