//! The text of a response: status line, blank line, body.

use crate::http::{crlf, parse_request};
use crate::router::{decision, Decision, Dispatch, RouterModel};
use vstd::prelude::*;
use vstd::string::StringExecFns;

verus! {

/// The statuses that the dispatcher answers with.
#[derive(Clone, Copy, Debug, PartialEq, Eq)]
pub enum Status {
    /// 200: a handler answers a request.
    Success,
    /// 400: the request could not be parsed.
    BadRequest,
    /// 404: no route matches the request.
    NotFound,
    /// 500: a handler failed.
    ServerError,
}

/// The body sent where no route matches and no fallback handler is set.
pub const NOT_FOUND_BODY: &'static str = "404 - Page not found";

/// The body sent where the request could not be parsed.
pub const BAD_REQUEST_BODY: &'static str = "400 - Bad request";

/// The body sent where a handler failed.
pub const SERVER_ERROR_BODY: &'static str = "500 - Internal server error";

impl Status {
    /// The status line, without its line end.
    pub open spec fn line(self) -> Seq<char> {
        match self {
            Status::Success => "HTTP/1.1 200 OK"@,
            Status::BadRequest => "HTTP/1.1 400 Bad Request"@,
            Status::NotFound => "HTTP/1.1 404 Not Found"@,
            Status::ServerError => "HTTP/1.1 500 Internal Server Error"@,
        }
    }

    /// The status line, without its line end.
    pub fn status_line(self) -> (r: &'static str)
        ensures
            r@ == self.line(),
    {
        match self {
            Status::Success => "HTTP/1.1 200 OK",
            Status::BadRequest => "HTTP/1.1 400 Bad Request",
            Status::NotFound => "HTTP/1.1 404 Not Found",
            Status::ServerError => "HTTP/1.1 500 Internal Server Error",
        }
    }
}

/// A response as it goes over the wire: the status line, an empty line and
/// the body.
pub open spec fn response(status: Status, body: Seq<char>) -> Seq<char> {
    status.line() + crlf() + crlf() + body
}

/// The response that the dispatcher itself owes for a decision: none where
/// a handler is to answer, the default "not found" response where nothing
/// matched, and the "bad request" response where the request did not parse.
pub open spec fn owed_response<H>(decision: Decision<H>) -> Option<Seq<char>> {
    match decision {
        Decision::Handle(_, _) => None,
        Decision::Fallback(_, _) => None,
        Decision::NotFound => Some(response(Status::NotFound, NOT_FOUND_BODY@)),
        Decision::BadRequest => Some(response(Status::BadRequest, BAD_REQUEST_BODY@)),
    }
}

/// The text of a response with the given status and body.
pub fn response_text(status: Status, body: &str) -> (r: String)
    ensures
        r@ == response(status, body@),
{
    proof {
        reveal_strlit("\r\n\r\n");
        assert("\r\n\r\n"@ =~= crlf() + crlf());
    }
    let mut text = String::from_str(status.status_line());
    text.append("\r\n\r\n");
    text.append(body);
    assert(text@ =~= response(status, body@));
    text
}

/// The response that the dispatcher itself sends for `dispatch`, if any.
///
/// Together with the handler that a decision names, this makes exactly one
/// response for each request.
pub fn default_response<'a, H>(dispatch: &Dispatch<'a, H>) -> (r: Option<String>)
    ensures
        match r {
            Some(text) => owed_response(dispatch@) == Some(text@),
            None => owed_response(dispatch@) is None,
        },
{
    match dispatch {
        Dispatch::Handle(_, _) => None,
        Dispatch::Fallback(_, _) => None,
        Dispatch::NotFound => Some(response_text(Status::NotFound, NOT_FOUND_BODY)),
        Dispatch::BadRequest => Some(response_text(Status::BadRequest, BAD_REQUEST_BODY)),
    }
}

/// Each decision makes for exactly one response: either it names a handler
/// that is to answer, or the dispatcher owes the response itself, never
/// both and never neither.
pub proof fn lemma_one_response_per_decision<H>(decision: Decision<H>)
    ensures
        owed_response(decision) is None <==> (decision is Handle || decision is Fallback),
{
}

/// A request that does not parse is answered by the dispatcher itself, with
/// the "bad request" response, whatever routes and fallback handler there
/// are.
pub proof fn lemma_unparsable_request_is_answered<H>(router: RouterModel<H>, data: Seq<char>)
    requires
        parse_request(data) is Err,
    ensures
        decision(router, data) == Decision::<H>::BadRequest,
        owed_response(decision(router, data)) == Some(
            response(Status::BadRequest, BAD_REQUEST_BODY@),
        ),
{
}

} // verus!
