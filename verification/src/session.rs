use crate::config::Config;
use crate::env::Env;
use vstd::prelude::*;
use vstd::string::StringExecFns;

verus! {

/// A moment in time: whole seconds since the start of 1970 (UTC), and the
/// nanoseconds that have passed within that second.
#[derive(Clone, Copy, Debug, PartialEq, Eq, Structural)]
pub struct Timestamp {
    pub secs: i64,
    pub nanos: u32,
}

impl Timestamp {
    /// `self` is not later than `other`.
    pub open spec fn le(self, other: Timestamp) -> bool {
        self.secs < other.secs || (self.secs == other.secs && self.nanos <= other.nanos)
    }

    /// The later of the two.
    pub open spec fn later(self, other: Timestamp) -> Timestamp {
        if self.le(other) {
            other
        } else {
            self
        }
    }

    /// The moment `nanos` nanoseconds into the second `secs`.
    pub fn new(secs: i64, nanos: u32) -> (t: Timestamp)
        ensures
            t == (Timestamp { secs, nanos }),
    {
        Timestamp { secs, nanos }
    }

    /// Whether `self` is not later than `other`.
    pub fn is_at_or_before(&self, other: &Timestamp) -> (r: bool)
        ensures
            r == self.le(*other),
    {
        self.secs < other.secs || (self.secs == other.secs && self.nanos <= other.nanos)
    }

    /// The later of the two.
    pub fn max(self, other: Timestamp) -> (t: Timestamp)
        ensures
            t == self.later(other),
    {
        if self.is_at_or_before(&other) {
            other
        } else {
            self
        }
    }
}

/// `chrono::Utc::now`: the reading of the system clock, taken apart into
/// seconds and nanoseconds. Nothing is claimed of the reading. Where the
/// system clock stands before 1970, the call does not return.
#[verifier::external_body]
pub(crate) fn clock_now() -> (now: Timestamp) {
    let now = chrono::Utc::now();
    Timestamp { secs: now.timestamp(), nanos: now.timestamp_subsec_nanos() }
}

/// `uuid::Uuid::new_v4`: a random identifier, handed on as its 128-bit
/// value. Nothing is claimed of the value. Where the system has no random
/// bytes to give, the call does not return.
#[verifier::external_body]
pub(crate) fn random_id() -> (id: u128) {
    uuid::Uuid::new_v4().as_u128()
}

/// The sixteen digits of hexadecimal, in lower case.
pub open spec fn hex_digits() -> Seq<char> {
    seq!['0', '1', '2', '3', '4', '5', '6', '7', '8', '9', 'a', 'b', 'c', 'd', 'e', 'f']
}

/// Sixteen to the power of `n`.
pub open spec fn sixteen_to(n: nat) -> nat
    decreases n,
{
    if n == 0 {
        1
    } else {
        16 * sixteen_to((n - 1) as nat)
    }
}

/// The 32 hexadecimal digits of `id`, the most significant first.
pub open spec fn hex_of(id: u128) -> Seq<char> {
    Seq::new(32, |i: int| hex_digits()[((id as nat / sixteen_to((31 - i) as nat)) % 16) as int])
}

/// The identifier with the 128-bit value `id` as text: its 32 hexadecimal
/// digits in lower case, the most significant first, with a hyphen after
/// the eighth, the twelfth, the sixteenth and the twentieth.
pub open spec fn uuid_text(id: u128) -> Seq<char> {
    let hex = hex_of(id);
    hex.subrange(0, 8) + seq!['-'] + hex.subrange(8, 12) + seq!['-'] + hex.subrange(12, 16) + seq!['-']
        + hex.subrange(16, 20) + seq!['-'] + hex.subrange(20, 32)
}

/// `uuid::Uuid::to_string` on `uuid::Uuid::from_u128(id)`: the identifier in
/// hyphenated lower-case form, which `uuid_text` spells out.
#[verifier::external_body]
pub(crate) fn id_text(id: u128) -> (text: String)
    ensures
        text@ == uuid_text(id),
{
    uuid::Uuid::from_u128(id).to_string()
}

/// What a session is: the identity of one tracked shell process.
pub struct SessionView {
    pub id: u128,
    pub pid: u32,
    pub shell: Seq<char>,
    pub started_at: Timestamp,
    pub last_updated: Timestamp,
}

/// The identity of one tracked shell process. The identifier says which
/// session it is; the process id only says where its events come from.
#[derive(Debug, PartialEq, Eq)]
pub struct Session {
    pub id: u128,
    pub pid: u32,
    pub shell: String,
    pub started_at: Timestamp,
    pub last_updated: Timestamp,
}

impl View for Session {
    type V = SessionView;

    open spec fn view(&self) -> SessionView {
        SessionView {
            id: self.id,
            pid: self.pid,
            shell: self.shell@,
            started_at: self.started_at,
            last_updated: self.last_updated,
        }
    }
}

impl Clone for Session {
    fn clone(&self) -> (copy: Session)
        ensures
            copy@ == self@,
    {
        Session {
            id: self.id,
            pid: self.pid,
            shell: self.shell.clone(),
            started_at: self.started_at,
            last_updated: self.last_updated,
        }
    }
}

impl SessionView {
    /// The session as it is once it has been touched at `now`: the time of its
    /// last update never goes back.
    pub open spec fn touched(self, now: Timestamp) -> SessionView {
        SessionView { last_updated: self.last_updated.later(now), ..self }
    }

    /// The session that starts at `now` for the process `pid`.
    pub open spec fn starting(id: u128, pid: u32, shell: Seq<char>, now: Timestamp) -> SessionView {
        SessionView { id, pid, shell, started_at: now, last_updated: now }
    }
}

impl Session {
    /// The session that starts at `now` for the process `pid`, under the identifier `id`.
    pub fn starting(id: u128, pid: u32, shell: String, now: Timestamp) -> (session: Session)
        ensures
            session@ == SessionView::starting(id, pid, shell@, now),
    {
        Session { id, pid, shell, started_at: now, last_updated: now }
    }

    /// A new session for the process `pid`, with a random identifier, started now.
    pub fn new(pid: u32, shell: String) -> (session: Session)
        ensures
            session@.pid == pid,
            session@.shell == shell@,
            session@.started_at == session@.last_updated,
    {
        let now = clock_now();
        let id = random_id();
        Session::starting(id, pid, shell, now)
    }

    /// Where what belongs to the session is kept, from the base directory.
    pub fn session_dir(&self) -> (path: String)
        ensures
            path@ == "sessions"@ + "/"@ + uuid_text(self.id),
    {
        let mut path = Config::sessions_dir();
        path.append("/");
        path.append(id_text(self.id).as_str());
        path
    }

    /// Where the timeline of the session is kept, from the base directory.
    pub fn timeline_path(&self) -> (path: String)
        ensures
            path@ == "sessions"@ + "/"@ + uuid_text(self.id) + "/"@ + "timeline.jsonl"@,
    {
        let mut path = self.session_dir();
        path.append("/");
        path.append("timeline.jsonl");
        path
    }

    /// Where what was last captured of the session is kept, from the base directory.
    pub fn metadata_path(&self) -> (path: String)
        ensures
            path@ == "sessions"@ + "/"@ + uuid_text(self.id) + "/"@ + "metadata.json"@,
    {
        let mut path = self.session_dir();
        path.append("/");
        path.append("metadata.json");
        path
    }

    /// Where the snapshots of the session's scope are kept, from the base directory.
    pub fn snapshots_dir(&self) -> (path: String)
        ensures
            path@ == "sessions"@ + "/"@ + uuid_text(self.id) + "/"@ + "snapshots"@,
    {
        let mut path = self.session_dir();
        path.append("/");
        path.append("snapshots");
        path
    }

    /// What is kept when `env` is captured as the whole environment of the session.
    pub fn save_metadata(&self, env: &Env) -> (metadata: SessionMetadata)
        ensures
            metadata@ == (SessionMetadataView { session: self@, current_env: env@ }),
    {
        SessionMetadata { session: self.clone(), current_env: env.clone() }
    }

    /// Records that the session was active at `now`.
    pub fn touch(&mut self, now: Timestamp)
        ensures
            final(self)@ == old(self)@.touched(now),
    {
        self.last_updated = self.last_updated.max(now);
    }

    /// Records that the session is active now. The time of the last update
    /// moves forward and never back; nothing else changes.
    pub fn update_timestamp(&mut self)
        ensures
            old(self)@.last_updated.le(final(self)@.last_updated),
            final(self)@ == (SessionView { last_updated: final(self)@.last_updated, ..old(self)@ }),
    {
        let now = clock_now();
        self.touch(now);
    }
}

/// What was last captured of a session: the session and its whole environment.
pub struct SessionMetadataView {
    pub session: SessionView,
    pub current_env: Map<Seq<char>, Seq<char>>,
}

/// A session with its whole environment, as it was last captured.
#[derive(Debug, PartialEq, Eq)]
pub struct SessionMetadata {
    pub session: Session,
    pub current_env: Env,
}

impl View for SessionMetadata {
    type V = SessionMetadataView;

    open spec fn view(&self) -> SessionMetadataView {
        SessionMetadataView { session: self.session@, current_env: self.current_env@ }
    }
}

impl Clone for SessionMetadata {
    fn clone(&self) -> (copy: SessionMetadata)
        ensures
            copy@ == self@,
    {
        SessionMetadata { session: self.session.clone(), current_env: self.current_env.clone() }
    }
}

} // verus!
