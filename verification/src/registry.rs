use crate::session::{Session, SessionView, Timestamp};
use std::collections::HashMap;
use vstd::prelude::*;
use vstd::string::StringExecFns;

verus! {

broadcast use vstd::std_specs::hash::group_hash_axioms;

/// The sessions once the process `pid` has been resolved: where it had a
/// session, nothing changes; where it had none, `fresh` becomes its session.
pub open spec fn resolved(
    sessions: Map<u32, SessionView>,
    pid: u32,
    fresh: SessionView,
) -> Map<u32, SessionView> {
    if sessions.contains_key(pid) {
        sessions
    } else {
        sessions.insert(pid, fresh)
    }
}

/// The sessions once the process `pid` has been touched at `now`: its
/// session, if it has one, was last updated then; no session is made.
pub open spec fn touched(sessions: Map<u32, SessionView>, pid: u32, now: Timestamp) -> Map<
    u32,
    SessionView,
> {
    if sessions.contains_key(pid) {
        sessions.insert(pid, sessions[pid].touched(now))
    } else {
        sessions
    }
}

/// The sessions once `pid` has been resolved for each of `fresh` in turn.
pub open spec fn resolved_all(
    sessions: Map<u32, SessionView>,
    pid: u32,
    fresh: Seq<SessionView>,
) -> Map<u32, SessionView>
    decreases fresh.len(),
{
    if fresh.len() == 0 {
        sessions
    } else {
        resolved(resolved_all(sessions, pid, fresh.drop_last()), pid, fresh.last())
    }
}

/// However often a process without a session is resolved, one session is
/// made for it, the first one offered, and every call answers with it.
pub proof fn lemma_resolve_makes_one(sessions: Map<u32, SessionView>, pid: u32, fresh: Seq<SessionView>)
    requires
        !sessions.contains_key(pid),
        fresh.len() > 0,
    ensures
        resolved_all(sessions, pid, fresh) == sessions.insert(pid, fresh[0]),
        forall|n: int| 1 <= n <= fresh.len() ==> #[trigger] resolved_all(sessions, pid, fresh.take(n))[pid] == fresh[0],
        sessions.dom().finite() ==> resolved_all(sessions, pid, fresh).dom().len() == sessions.dom().len() + 1,
    decreases fresh.len(),
{
    if fresh.len() == 1 {
        assert(resolved_all(sessions, pid, fresh.drop_last()) == sessions);
    } else {
        lemma_resolve_makes_one(sessions, pid, fresh.drop_last());
    }
    assert forall|n: int| 1 <= n <= fresh.len() implies #[trigger] resolved_all(sessions, pid, fresh.take(n))[pid] == fresh[0] by {
        if n < fresh.len() {
            assert(fresh.take(n) == fresh.drop_last().take(n));
        } else {
            assert(fresh.take(n) == fresh);
        }
    }
}

/// The sessions that are known, by process id.
pub struct SessionRegistry {
    sessions: HashMap<u32, Session>,
}

impl View for SessionRegistry {
    type V = Map<u32, SessionView>;

    closed spec fn view(&self) -> Map<u32, SessionView> {
        Map::new(|pid: u32| self.sessions@.contains_key(pid), |pid: u32| self.sessions@[pid]@)
    }
}

impl SessionRegistry {
    /// Every session is kept under the process id that it is for.
    #[verifier::type_invariant]
    spec fn inv(self) -> bool {
        forall|pid: u32| self.sessions@.contains_key(pid) ==> (#[trigger] self.sessions@[pid]).pid == pid
    }

    /// Every session is kept under the process id that it is for.
    pub open spec fn keyed_by_pid(sessions: Map<u32, SessionView>) -> bool {
        forall|pid: u32| sessions.contains_key(pid) ==> (#[trigger] sessions[pid]).pid == pid
    }

    /// A registry that knows no session.
    pub fn new() -> (registry: SessionRegistry)
        ensures
            registry@ == Map::<u32, SessionView>::empty(),
    {
        let registry = SessionRegistry { sessions: HashMap::new() };
        registry
    }

    /// How many sessions are known.
    pub fn len(&self) -> (n: usize)
        ensures
            n == self@.dom().len(),
            self@.dom().finite(),
            Self::keyed_by_pid(self@),
    {
        proof {
            use_type_invariant(self);
            assert(self@.dom() =~= self.sessions@.dom());
        }
        self.sessions.len()
    }

    /// Whether the process `pid` has a session.
    pub fn contains(&self, pid: u32) -> (known: bool)
        ensures
            known == self@.contains_key(pid),
    {
        self.sessions.contains_key(&pid)
    }

    /// The session of the process `pid`, if it has one. Nothing is made or changed.
    pub fn get(&self, pid: u32) -> (session: Option<Session>)
        ensures
            session is Some == self@.contains_key(pid),
            session is Some ==> session->0@ == self@[pid] && session->0.pid == pid,
    {
        proof {
            use_type_invariant(self);
        }
        match self.sessions.get(&pid) {
            Some(s) => Some(s.clone()),
            None => None,
        }
    }

    /// The session of the process `pid`. Where it has none, one is made that
    /// starts at `now` under the identifier `id`.
    pub fn resolve_with(&mut self, pid: u32, shell: &str, id: u128, now: Timestamp) -> (session: Session)
        ensures
            final(self)@ == resolved(old(self)@, pid, SessionView::starting(id, pid, shell@, now)),
            session@ == final(self)@[pid],
            session.pid == pid,
    {
        proof {
            use_type_invariant(&*self);
        }
        if let Some(s) = self.sessions.get(&pid) {
            return s.clone();
        }
        let session = Session::starting(id, pid, String::from_str(shell), now);
        let copy = session.clone();
        let mut sessions: HashMap<u32, Session> = HashMap::new();
        std::mem::swap(&mut sessions, &mut self.sessions);
        sessions.insert(pid, session);
        self.sessions = sessions;
        copy
    }

    /// The session of the process `pid`. Where it has none, a new one is made
    /// for it, with a random identifier, started now.
    pub fn resolve(&mut self, pid: u32, shell: &str) -> (session: Session)
        ensures
            old(self)@.contains_key(pid) ==> final(self)@ == old(self)@,
            !old(self)@.contains_key(pid) ==> final(self)@ == old(self)@.insert(pid, session@),
            session@ == final(self)@[pid],
            session.pid == pid,
            !old(self)@.contains_key(pid) ==> session@.shell == shell@ && session@.started_at == session@.last_updated,
    {
        proof {
            use_type_invariant(&*self);
        }
        if let Some(s) = self.sessions.get(&pid) {
            return s.clone();
        }
        let fresh = Session::new(pid, String::from_str(shell));
        self.resolve_with(pid, shell, fresh.id, fresh.started_at)
    }

    /// Records that the session of the process `pid` was active at `now`. A
    /// process without a session is left without one.
    pub fn touch_at(&mut self, pid: u32, now: Timestamp)
        ensures
            final(self)@ == touched(old(self)@, pid, now),
    {
        proof {
            use_type_invariant(&*self);
        }
        let mut session = match self.sessions.get(&pid) {
            Some(s) => s.clone(),
            None => {
                return ;
            },
        };
        session.touch(now);
        let mut sessions: HashMap<u32, Session> = HashMap::new();
        std::mem::swap(&mut sessions, &mut self.sessions);
        sessions.insert(pid, session);
        self.sessions = sessions;
    }

    /// Records that the session of the process `pid` is active now. The time
    /// of its last update moves forward and never back. A process without a
    /// session is left without one.
    pub fn touch(&mut self, pid: u32)
        ensures
            exists|now: Timestamp| final(self)@ == touched(old(self)@, pid, now),
    {
        let now = crate::session::clock_now();
        self.touch_at(pid, now);
    }
}

} // verus!
