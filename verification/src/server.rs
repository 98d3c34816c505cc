use crate::config::{Config, ConfigView, FiltersView};
use crate::env::Env;
use crate::registry::{resolved, touched, SessionRegistry};
use crate::session::{clock_now, random_id, Session, SessionMetadata, SessionMetadataView, SessionView, Timestamp};
use crate::model::{StorageView, TimelineEntryView};
use crate::storage::{opt_text, Action, Storage, TimelineEntry};
use vstd::prelude::*;
use vstd::string::StringExecFns;

verus! {

/// What a shell tells the daemon.
#[derive(Debug, PartialEq, Eq)]
pub enum EnvEvent {
    SetVar { pid: u32, key: String, value: String },
    Unset { pid: u32, key: String },
    Capture { pid: u32, env: Env },
    GetSession { pid: u32 },
}

/// What the daemon answers.
#[derive(Debug, PartialEq, Eq)]
pub enum EnvResponse {
    Done,
    Session { session: Session },
    Error { message: String },
}

/// What an event says.
pub enum EnvEventView {
    SetVar { pid: u32, key: Seq<char>, value: Seq<char> },
    Unset { pid: u32, key: Seq<char> },
    Capture { pid: u32, env: Map<Seq<char>, Seq<char>> },
    GetSession { pid: u32 },
}

/// What a response says.
pub enum EnvResponseView {
    Done,
    Session { session: SessionView },
    Error { message: Seq<char> },
}

impl View for EnvEvent {
    type V = EnvEventView;

    open spec fn view(&self) -> EnvEventView {
        match self {
            EnvEvent::SetVar { pid, key, value } => EnvEventView::SetVar { pid: *pid, key: key@, value: value@ },
            EnvEvent::Unset { pid, key } => EnvEventView::Unset { pid: *pid, key: key@ },
            EnvEvent::Capture { pid, env } => EnvEventView::Capture { pid: *pid, env: env@ },
            EnvEvent::GetSession { pid } => EnvEventView::GetSession { pid: *pid },
        }
    }
}

impl View for EnvResponse {
    type V = EnvResponseView;

    open spec fn view(&self) -> EnvResponseView {
        match self {
            EnvResponse::Done => EnvResponseView::Done,
            EnvResponse::Session { session } => EnvResponseView::Session { session: session@ },
            EnvResponse::Error { message } => EnvResponseView::Error { message: message@ },
        }
    }
}

impl Clone for EnvEvent {
    fn clone(&self) -> (copy: EnvEvent)
        ensures
            copy@ == self@,
    {
        match self {
            EnvEvent::SetVar { pid, key, value } => EnvEvent::SetVar {
                pid: *pid,
                key: key.clone(),
                value: value.clone(),
            },
            EnvEvent::Unset { pid, key } => EnvEvent::Unset { pid: *pid, key: key.clone() },
            EnvEvent::Capture { pid, env } => EnvEvent::Capture { pid: *pid, env: env.clone() },
            EnvEvent::GetSession { pid } => EnvEvent::GetSession { pid: *pid },
        }
    }
}

impl Clone for EnvResponse {
    fn clone(&self) -> (copy: EnvResponse)
        ensures
            copy@ == self@,
    {
        match self {
            EnvResponse::Done => EnvResponse::Done,
            EnvResponse::Session { session } => EnvResponse::Session { session: session.clone() },
            EnvResponse::Error { message } => EnvResponse::Error { message: message.clone() },
        }
    }
}

impl EnvEventView {
    /// The process that the event comes from.
    pub open spec fn pid(self) -> u32 {
        match self {
            EnvEventView::SetVar { pid, .. } => pid,
            EnvEventView::Unset { pid, .. } => pid,
            EnvEventView::Capture { pid, .. } => pid,
            EnvEventView::GetSession { pid } => pid,
        }
    }

    /// Whether the filters let the event through. Only the events that set
    /// or unset a variable are filtered, by the name of the variable.
    pub open spec fn passes(self, filters: FiltersView) -> bool {
        match self {
            EnvEventView::SetVar { key, .. } => filters.tracks(key),
            EnvEventView::Unset { key, .. } => filters.tracks(key),
            _ => true,
        }
    }
}

/// What an event asks to be written before it counts as applied.
#[derive(Debug, PartialEq, Eq)]
pub enum Pending {
    /// Nothing is to be written: the response is ready.
    Reply { response: EnvResponse },
    /// An entry is to be appended to the timeline of a session.
    Append { session: Session, entry: TimelineEntry },
    /// A capture is to be kept for a session.
    Keep { metadata: SessionMetadata },
}

/// What is pending.
pub enum PendingView {
    Reply { response: EnvResponseView },
    Append { session: SessionView, entry: TimelineEntryView },
    Keep { metadata: SessionMetadataView },
}

impl View for Pending {
    type V = PendingView;

    open spec fn view(&self) -> PendingView {
        match self {
            Pending::Reply { response } => PendingView::Reply { response: response@ },
            Pending::Append { session, entry } => PendingView::Append { session: session@, entry: entry@ },
            Pending::Keep { metadata } => PendingView::Keep { metadata: metadata@ },
        }
    }
}

/// The text that an outcome of writing fails with, if it fails.
pub open spec fn failure(outcome: Result<(), String>) -> Option<Seq<char>> {
    match outcome {
        Ok(_) => None,
        Err(cause) => Some(cause@),
    }
}

/// What the daemon holds: the sessions by process id, and the store.
pub struct DaemonView {
    pub sessions: Map<u32, SessionView>,
    pub store: StorageView,
}

impl DaemonView {
    /// The first half of handling `event`: the session of its process is
    /// resolved, with `fresh` as the session to make where there is none, and
    /// what is to be written is worked out. An event that the filters hold
    /// back changes nothing and is answered at once. Nothing is stored yet.
    pub open spec fn prepare(self, filters: FiltersView, event: EnvEventView, fresh: SessionView, now: Timestamp) -> (
        DaemonView,
        PendingView,
    ) {
        if !event.passes(filters) {
            (self, PendingView::Reply { response: EnvResponseView::Done })
        } else {
            let sessions = resolved(self.sessions, event.pid(), fresh);
            let session = sessions[event.pid()];
            let next = DaemonView { sessions, ..self };
            match event {
                EnvEventView::SetVar { key, value, .. } => (
                    next,
                    PendingView::Append {
                        session,
                        entry: TimelineEntryView {
                            timestamp: now,
                            action: Action::SetVar,
                            key,
                            value: Some(value),
                            prev: self.store.previous(session.id, key),
                        },
                    },
                ),
                EnvEventView::Unset { key, .. } => (
                    next,
                    PendingView::Append {
                        session,
                        entry: TimelineEntryView {
                            timestamp: now,
                            action: Action::Unset,
                            key,
                            value: None,
                            prev: self.store.previous(session.id, key),
                        },
                    },
                ),
                EnvEventView::Capture { env, .. } => (
                    next,
                    PendingView::Keep { metadata: SessionMetadataView { session, current_env: env } },
                ),
                EnvEventView::GetSession { .. } => (
                    next,
                    PendingView::Reply { response: EnvResponseView::Session { session } },
                ),
            }
        }
    }

    /// The second half: what was to be written has been written, or has
    /// failed to be. Written, it enters the store, and the session of an entry
    /// that sets a variable is touched at `now`. Failed, nothing changes, and
    /// the answer is an error that gives the cause.
    pub open spec fn settle(self, pending: PendingView, failure: Option<Seq<char>>, now: Timestamp) -> (
        DaemonView,
        EnvResponseView,
    ) {
        match pending {
            PendingView::Reply { response } => (self, response),
            PendingView::Append { session, entry } => match failure {
                Some(cause) => (self, EnvResponseView::Error { message: "Failed to append timeline: "@ + cause }),
                None => (
                    DaemonView {
                        sessions: if entry.action == Action::SetVar {
                            touched(self.sessions, session.pid, now)
                        } else {
                            self.sessions
                        },
                        store: self.store.append(session.id, entry),
                    },
                    EnvResponseView::Done,
                ),
            },
            PendingView::Keep { metadata } => match failure {
                Some(cause) => (self, EnvResponseView::Error { message: "Failed to save metadata: "@ + cause }),
                None => (DaemonView { store: self.store.capture(metadata), ..self }, EnvResponseView::Done),
            },
        }
    }

    /// Handling `event` from beginning to end, where writing does not fail.
    pub open spec fn handle(
        self,
        filters: FiltersView,
        event: EnvEventView,
        fresh: SessionView,
        now: Timestamp,
        later: Timestamp,
    ) -> (DaemonView, EnvResponseView) {
        let (next, pending) = self.prepare(filters, event, fresh, now);
        next.settle(pending, None, later)
    }
}

/// The daemon's state: the sessions that it knows, the store, and the configuration.
pub struct EnvHistDaemon {
    storage: Storage,
    sessions: SessionRegistry,
    config: Config,
}

impl View for EnvHistDaemon {
    type V = DaemonView;

    closed spec fn view(&self) -> DaemonView {
        DaemonView { sessions: self.sessions@, store: self.storage@ }
    }
}

impl EnvEvent {
    /// The process that the event comes from.
    pub fn pid(&self) -> (pid: u32)
        ensures
            pid == self@.pid(),
    {
        match self {
            EnvEvent::SetVar { pid, .. } => *pid,
            EnvEvent::Unset { pid, .. } => *pid,
            EnvEvent::Capture { pid, .. } => *pid,
            EnvEvent::GetSession { pid } => *pid,
        }
    }
}

impl EnvHistDaemon {
    /// The configuration that the daemon runs under.
    pub closed spec fn config(&self) -> ConfigView {
        self.config@
    }

    /// A daemon that knows no session and has stored nothing, under the
    /// configuration that holds where nothing was configured.
    pub fn new() -> (daemon: EnvHistDaemon)
        ensures
            daemon@ == (DaemonView { sessions: Map::empty(), store: StorageView::empty() }),
            daemon.config() == ConfigView::default_config(),
    {
        EnvHistDaemon::with_config(Config::default())
    }

    /// A daemon that knows no session and has stored nothing, under `config`.
    pub fn with_config(config: Config) -> (daemon: EnvHistDaemon)
        ensures
            daemon@ == (DaemonView { sessions: Map::empty(), store: StorageView::empty() }),
            daemon.config() == config@,
    {
        let storage = Storage::with_config(config.clone());
        EnvHistDaemon { storage, sessions: SessionRegistry::new(), config }
    }

    /// The store.
    pub fn storage(&self) -> (storage: &Storage)
        ensures
            storage@ == self@.store,
    {
        &self.storage
    }

    /// The sessions that are known.
    pub fn sessions(&self) -> (sessions: &SessionRegistry)
        ensures
            sessions@ == self@.sessions,
    {
        &self.sessions
    }

    /// Whether the filters let `event` through.
    fn passes(&self, event: &EnvEvent) -> (through: bool)
        ensures
            through == event@.passes(self.config().filters),
    {
        match event {
            EnvEvent::SetVar { key, .. } => self.config.should_track(key.as_str()),
            EnvEvent::Unset { key, .. } => self.config.should_track(key.as_str()),
            _ => true,
        }
    }

    /// The session of the process `pid`. Where it has none, a new one is made.
    pub fn get_or_create_session(&mut self, pid: u32, shell: &str) -> (session: Session)
        ensures
            old(self)@.sessions.contains_key(pid) ==> final(self)@ == old(self)@,
            !old(self)@.sessions.contains_key(pid) ==> final(self)@ == (DaemonView {
                sessions: old(self)@.sessions.insert(pid, session@),
                ..old(self)@
            }),
            session@ == final(self)@.sessions[pid],
            session.pid == pid,
            !old(self)@.sessions.contains_key(pid) ==> session@.shell == shell@ && session@.started_at
                == session@.last_updated,
            final(self).config() == old(self).config(),
    {
        self.sessions.resolve(pid, shell)
    }

    /// The last known value of `key` for `session`.
    pub fn get_previous_value(&self, session: &Session, key: &str) -> (value: Option<String>)
        ensures
            opt_text(value) == self@.store.previous(session.id, key@),
    {
        self.storage.resolve_previous(session, key)
    }

    /// The first half of handling `event`, with what the clock and the
    /// random source gave handed in: a session that is made for the event
    /// starts at `started` under the identifier `id`, and an entry is of the
    /// moment `now`.
    pub fn prepare_with(
        &mut self,
        event: EnvEvent,
        shell: &str,
        id: u128,
        started: Timestamp,
        now: Timestamp,
    ) -> (pending: Pending)
        ensures
            (final(self)@, pending@) == old(self)@.prepare(
                old(self).config().filters,
                event@,
                SessionView::starting(id, event@.pid(), shell@, started),
                now,
            ),
            final(self).config() == old(self).config(),
    {
        if !self.passes(&event) {
            return Pending::Reply { response: EnvResponse::Done };
        }
        let pid = event.pid();
        let session = self.sessions.resolve_with(pid, shell, id, started);
        match event {
            EnvEvent::SetVar { pid, key, value } => {
                let prev = self.storage.resolve_previous(&session, key.as_str());
                Pending::Append {
                    session,
                    entry: TimelineEntry { timestamp: now, action: Action::SetVar, key, value: Some(value), prev },
                }
            },
            EnvEvent::Unset { pid, key } => {
                let prev = self.storage.resolve_previous(&session, key.as_str());
                Pending::Append {
                    session,
                    entry: TimelineEntry { timestamp: now, action: Action::Unset, key, value: None, prev },
                }
            },
            EnvEvent::Capture { pid, env } => Pending::Keep {
                metadata: SessionMetadata { session, current_env: env },
            },
            EnvEvent::GetSession { pid } => Pending::Reply { response: EnvResponse::Session { session } },
        }
    }

    /// The second half of handling an event, at the moment `now`: `outcome`
    /// says whether what was pending has been written.
    pub fn settle_at(&mut self, pending: Pending, outcome: Result<(), String>, now: Timestamp) -> (response:
        EnvResponse)
        ensures
            (final(self)@, response@) == old(self)@.settle(pending@, failure(outcome), now),
            final(self).config() == old(self).config(),
    {
        match pending {
            Pending::Reply { response } => response,
            Pending::Append { session, entry } => match outcome {
                Err(cause) => {
                    let mut message = String::from_str("Failed to append timeline: ");
                    message.append(cause.as_str());
                    EnvResponse::Error { message }
                },
                Ok(_) => {
                    let touch = match entry.action {
                        Action::SetVar => true,
                        Action::Unset => false,
                    };
                    self.storage.append_timeline(&session, entry);
                    if touch {
                        self.sessions.touch_at(session.pid, now);
                    }
                    EnvResponse::Done
                },
            },
            Pending::Keep { metadata } => match outcome {
                Err(cause) => {
                    let mut message = String::from_str("Failed to save metadata: ");
                    message.append(cause.as_str());
                    EnvResponse::Error { message }
                },
                Ok(_) => {
                    self.storage.save_metadata(metadata);
                    EnvResponse::Done
                },
            },
        }
    }
}

impl EnvHistDaemon {
    /// The first half of handling `event`. A session that has to be made
    /// gets a random identifier and starts now; an entry is of this moment.
    pub fn prepare(&mut self, event: EnvEvent, shell: &str) -> (pending: Pending)
        ensures
            exists|id: u128, started: Timestamp, now: Timestamp|
                (final(self)@, pending@) == #[trigger] old(self)@.prepare(
                    old(self).config().filters,
                    event@,
                    SessionView::starting(id, event@.pid(), shell@, started),
                    now,
                ),
            final(self).config() == old(self).config(),
    {
        let started = clock_now();
        let id = if self.sessions.contains(event.pid()) {
            0
        } else {
            random_id()
        };
        let now = clock_now();
        self.prepare_with(event, shell, id, started, now)
    }

    /// The second half of handling an event, now: `outcome` says whether
    /// what was pending has been written.
    pub fn settle(&mut self, pending: Pending, outcome: Result<(), String>) -> (response: EnvResponse)
        ensures
            exists|now: Timestamp|
                (final(self)@, response@) == #[trigger] old(self)@.settle(pending@, failure(outcome), now),
            final(self).config() == old(self).config(),
    {
        let now = clock_now();
        self.settle_at(pending, outcome, now)
    }

    /// Handles `event` from beginning to end, with what the clock and the
    /// random source gave handed in. What the event asks to be written enters
    /// the store at once.
    pub fn handle_event_with(
        &mut self,
        event: EnvEvent,
        shell: &str,
        id: u128,
        started: Timestamp,
        now: Timestamp,
        later: Timestamp,
    ) -> (response: EnvResponse)
        ensures
            (final(self)@, response@) == old(self)@.handle(
                old(self).config().filters,
                event@,
                SessionView::starting(id, event@.pid(), shell@, started),
                now,
                later,
            ),
            final(self).config() == old(self).config(),
    {
        let pending = self.prepare_with(event, shell, id, started, now);
        self.settle_at(pending, Ok(()), later)
    }

    /// Handles `event` from beginning to end. What the event asks to be
    /// written enters the store at once.
    pub fn handle_event(&mut self, event: EnvEvent, shell: &str) -> (response: EnvResponse)
        ensures
            exists|id: u128, started: Timestamp, now: Timestamp, later: Timestamp|
                (final(self)@, response@) == #[trigger] old(self)@.handle(
                    old(self).config().filters,
                    event@,
                    SessionView::starting(id, event@.pid(), shell@, started),
                    now,
                    later,
                ),
            final(self).config() == old(self).config(),
    {
        let started = clock_now();
        let id = if self.sessions.contains(event.pid()) {
            0
        } else {
            random_id()
        };
        let now = clock_now();
        let ghost before = self@;
        let ghost asked = event@;
        let pending = self.prepare_with(event, shell, id, started, now);
        let later = clock_now();
        let response = self.settle_at(pending, Ok(()), later);
        assert((self@, response@) == before.handle(
            self.config().filters,
            asked,
            SessionView::starting(id, asked.pid(), shell@, started),
            now,
            later,
        ));
        response
    }
}

} // verus!
