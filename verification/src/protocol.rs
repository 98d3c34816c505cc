use crate::server::{EnvResponse, EnvResponseView};
use crate::text::{trim, trimmed};
use vstd::prelude::*;
use vstd::string::StringExecFns;

verus! {

/// A connection that waits for the next line. `served` counts the lines
/// that have been read and answered on it.
pub struct Reading {
    served: Ghost<nat>,
}

/// A connection on which a request has been read and is not yet answered.
pub struct Dispatching {
    served: Ghost<nat>,
    request: String,
}

/// A connection on which the answer to a request is ready to be written.
pub struct Responding {
    served: Ghost<nat>,
    response: EnvResponse,
}

impl Reading {
    /// How many requests have been answered on the connection.
    pub closed spec fn served(&self) -> nat {
        self.served@
    }

    /// A connection that has just been accepted.
    pub fn accepted() -> (connection: Reading)
        ensures
            connection.served() == 0,
    {
        Reading { served: Ghost(0) }
    }

    /// Takes the line that was read. Every line is a request, whatever it
    /// holds, and is owed one answer: the request is the line without the
    /// white space around it. A line that holds white space only is the empty
    /// request, which will not parse.
    pub fn line(self, raw: &str) -> (connection: Dispatching)
        ensures
            connection.request() == trimmed(raw@),
            connection.served() == self.served(),
    {
        Dispatching { served: self.served, request: String::from_str(trim(raw)) }
    }
}

impl Dispatching {
    /// How many requests have been answered on the connection.
    pub closed spec fn served(&self) -> nat {
        self.served@
    }

    /// The request that was read.
    pub closed spec fn request(&self) -> Seq<char> {
        self.request@
    }

    /// The request, as it is to be parsed.
    pub fn text(&self) -> (text: &str)
        ensures
            text@ == self.request(),
    {
        self.request.as_str()
    }

    /// The request could not be parsed, for the reason `cause`: the answer is
    /// an error that says so. The connection stays open.
    pub fn malformed(self, cause: &str) -> (connection: Responding)
        ensures
            connection.response() == (EnvResponseView::Error { message: "Failed to parse event: "@ + cause@ }),
            connection.served() == self.served(),
    {
        let mut message = String::from_str("Failed to parse event: ");
        message.append(cause);
        Responding { served: self.served, response: EnvResponse::Error { message } }
    }

    /// The request was handled, with `response` as the answer.
    pub fn answered(self, response: EnvResponse) -> (connection: Responding)
        ensures
            connection.response() == response@,
            connection.served() == self.served(),
    {
        Responding { served: self.served, response }
    }
}

impl Responding {
    /// How many requests have been answered on the connection before this one.
    pub closed spec fn served(&self) -> nat {
        self.served@
    }

    /// The answer that is ready.
    pub closed spec fn response(&self) -> EnvResponseView {
        self.response@
    }

    /// The answer, as it is to be encoded.
    pub fn answer(&self) -> (response: &EnvResponse)
        ensures
            response@ == self.response(),
    {
        &self.response
    }

    /// Frames the encoded answer as one line: one more request has been
    /// served, and the connection waits for the next line. There is no other
    /// way back to waiting: no line is read before the last is answered.
    pub fn written(self, encoded: &str) -> (next: (Reading, String))
        ensures
            next.0.served() == self.served() + 1,
            next.1@ == encoded@ + "\n"@,
    {
        let mut frame = String::from_str(encoded);
        frame.append("\n");
        (Reading { served: Ghost(self.served@ + 1) }, frame)
    }
}

} // verus!
