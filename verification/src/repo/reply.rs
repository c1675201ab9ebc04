//! Plain-text answers to a request.

use vstd::prelude::*;

use crate::text::opt_text;

verus! {

/// OK.
pub const OK: u16 = 200;

/// The request is malformed.
pub const BAD_REQUEST: u16 = 400;

/// A rule refuses the package.
pub const FORBIDDEN: u16 = 403;

/// There is nothing under the path.
pub const NOT_FOUND: u16 = 404;

/// The repository does not take this method.
pub const METHOD_NOT_ALLOWED: u16 = 405;

/// The upstream limits the rate of requests.
pub const TOO_MANY_REQUESTS: u16 = 429;

/// Something failed on this side.
pub const INTERNAL_SERVER_ERROR: u16 = 500;

/// The upstream failed.
pub const BAD_GATEWAY: u16 = 502;

/// Try again later.
pub const SERVICE_UNAVAILABLE: u16 = 503;

/// A plain-text answer.
pub struct Reply {
    pub status: u16,
    pub message: String,
    /// The `Retry-After` header.
    pub retry_after: Option<String>,
}

/// What a plain-text answer says.
pub ghost struct Answer {
    pub status: u16,
    pub message: Seq<char>,
    pub retry_after: Option<Seq<char>>,
}

impl View for Reply {
    type V = Answer;

    open spec fn view(&self) -> Answer {
        Answer {
            status: self.status,
            message: self.message@,
            retry_after: opt_text(self.retry_after),
        }
    }
}

/// The answer of status `status` that says `message`.
pub open spec fn answer(status: u16, message: Seq<char>) -> Answer {
    Answer { status, message, retry_after: None }
}

/// The answer, where there is one.
pub open spec fn opt_answer(o: Option<Reply>) -> Option<Answer> {
    match o {
        Some(r) => Some(r@),
        None => None,
    }
}

/// Answers `status` with `message`.
pub fn http_error(status: u16, message: &str) -> (r: Reply)
    ensures
        r@ == answer(status, message@),
{
    Reply { status, message: message.to_owned(), retry_after: None }
}

/// Answers that there is nothing under the path.
pub fn not_found() -> (r: Reply)
    ensures
        r@ == answer(NOT_FOUND, "404 page not found"@),
{
    http_error(NOT_FOUND, "404 page not found")
}

/// The methods that the rules tell apart.
#[derive(Debug, Clone, Copy, PartialEq, Eq, Structural)]
pub enum Method {
    Get,
    Head,
    Put,
    Post,
    Delete,
    Other,
}

/// Whether a request asks for content.
pub open spec fn reads(m: Method) -> bool {
    m == Method::Get || m == Method::Head
}

/// Whether a request asks for content.
pub fn is_read(m: Method) -> (r: bool)
    ensures
        r == reads(m),
{
    m == Method::Get || m == Method::Head
}

} // verus!
