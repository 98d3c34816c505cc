use crate::env::Env;
use crate::server::{EnvEvent, EnvEventView, EnvResponse, EnvResponseView};
use crate::session::Session;
use crate::text::{blank, is_blank, trim, trimmed};
use vstd::prelude::*;
use vstd::string::StringExecFns;

verus! {

/// The event that tells the daemon that the process `pid` has set `key` to `value`.
pub fn send_set(pid: u32, key: String, value: String) -> (event: EnvEvent)
    ensures
        event@ == (EnvEventView::SetVar { pid, key: key@, value: value@ }),
{
    EnvEvent::SetVar { pid, key, value }
}

/// The event that tells the daemon that the process `pid` has unset `key`.
pub fn send_unset(pid: u32, key: String) -> (event: EnvEvent)
    ensures
        event@ == (EnvEventView::Unset { pid, key: key@ }),
{
    EnvEvent::Unset { pid, key }
}

/// The event that tells the daemon the whole environment of the process `pid`.
pub fn send_capture(pid: u32, env: Env) -> (event: EnvEvent)
    ensures
        event@ == (EnvEventView::Capture { pid, env: env@ }),
{
    EnvEvent::Capture { pid, env }
}

/// The event that asks the daemon for the session of the process `pid`.
pub fn ask_session(pid: u32) -> (event: EnvEvent)
    ensures
        event@ == (EnvEventView::GetSession { pid }),
{
    EnvEvent::GetSession { pid }
}

/// What a client has when it has read the line that the daemon answered with.
#[derive(Debug, PartialEq, Eq)]
pub enum ReplyLine {
    /// The line was blank: the event counts as done.
    Taken { response: EnvResponse },
    /// The line holds an answer that is still to be parsed.
    Encoded { text: String },
}

/// Reads the line that the daemon answered with.
pub fn read_reply(line: &str) -> (reply: ReplyLine)
    ensures
        match reply {
            ReplyLine::Taken { response } => blank(line@) && response@ == EnvResponseView::Done,
            ReplyLine::Encoded { text } => !blank(line@) && text@ == trimmed(line@),
        },
{
    if is_blank(line) {
        ReplyLine::Taken { response: EnvResponse::Done }
    } else {
        ReplyLine::Encoded { text: String::from_str(trim(line)) }
    }
}

/// What a request for a session comes to, given what the daemon answered,
/// if there was a daemon to answer: the session, where it sent one; the
/// daemon's error, in words, where it sent that; and no session otherwise.
pub fn get_session(reply: Option<EnvResponse>) -> (session: Result<Option<Session>, String>)
    ensures
        match reply {
            Some(EnvResponse::Session { session: s }) => session matches Ok(Some(found)) && found@ == s@,
            Some(EnvResponse::Error { message }) => session matches Err(text) && text@
                == "Daemon error fetching session: "@ + message@,
            _ => session == Ok::<Option<Session>, String>(None),
        },
{
    match reply {
        Some(EnvResponse::Session { session }) => Ok(Some(session)),
        Some(EnvResponse::Error { message }) => {
            let mut text = String::from_str("Daemon error fetching session: ");
            text.append(message.as_str());
            Err(text)
        },
        _ => Ok(None),
    }
}

} // verus!
