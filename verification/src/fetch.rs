//! The fetcher's decision: what a response to a page request amounts to.
//!
//! The request itself is made by the caller, once and with the identity that
//! [`crate::page::client_identity`] names.

use vstd::prelude::*;

verus! {

/// Why a page could not be had.
#[derive(Clone, Copy, Debug, PartialEq, Eq, Structural)]
pub enum FetchError {
    /// The registry was not reached, or its answer could not be read.
    Transport,
    /// The registry answered with a status outside the success range.
    Status(u16),
}

/// What came of one request.
#[derive(Clone, Debug, PartialEq, Eq)]
pub enum Response {
    /// No answer: a failure of name resolution, connection or transfer.
    Unreachable,
    /// An answer with its status code and its body as text.
    Answered { status: u16, body: String },
}

/// The status codes that stand for success.
pub open spec fn success_status(status: u16) -> bool {
    200 <= status <= 299
}

/// Tests whether `status` stands for success.
pub fn is_success(status: u16) -> (r: bool)
    ensures
        r == success_status(status),
{
    200 <= status && status <= 299
}

/// The document that a response carries, or the error it amounts to.
pub open spec fn document_of(response: Response) -> Result<String, FetchError> {
    match response {
        Response::Unreachable => Err(FetchError::Transport),
        Response::Answered { status, body } => if success_status(status) {
            Ok(body)
        } else {
            Err(FetchError::Status(status))
        },
    }
}

/// The document of a response: the body of an answer with a success status. Any other
/// answer is an error that names its status, and no answer is a transport error.
pub fn interpret(response: Response) -> (r: Result<String, FetchError>)
    ensures
        r == document_of(response),
{
    match response {
        Response::Unreachable => Err(FetchError::Transport),
        Response::Answered { status, body } => if is_success(status) {
            Ok(body)
        } else {
            Err(FetchError::Status(status))
        },
    }
}

} // verus!
