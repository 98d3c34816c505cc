use crate::config::FiltersView;
use crate::model::{
    by_name, called, distinct_ids, holding, lemma_opened, lemma_with_area, lemma_with_snapshot, of_session,
    with_snapshot, AreaView, SnapshotView, StorageView, TimelineEntryView,
};
use crate::registry::{resolved, touched};
use crate::search::{first_where, lemma_first_where_none};
use crate::server::{DaemonView, EnvEventView, EnvResponseView, PendingView};
use crate::session::{SessionView, Timestamp};
use crate::storage::Action;
use vstd::prelude::*;

verus! {

/// A change to a variable that is to be recorded: whether it was set or
/// unset, its name, the value that it was set to, and when.
pub struct Change {
    pub action: Action,
    pub key: Seq<char>,
    pub value: Option<Seq<char>>,
    pub at: Timestamp,
}

/// The entry that records `change` for the session `id`: it says what was
/// last known of the variable when the change came.
pub open spec fn entry_for(store: StorageView, id: u128, change: Change) -> TimelineEntryView {
    TimelineEntryView {
        timestamp: change.at,
        action: change.action,
        key: change.key,
        value: change.value,
        prev: store.previous(id, change.key),
    }
}

/// The store once `change` has been recorded for the session `id`.
pub open spec fn record(store: StorageView, id: u128, change: Change) -> StorageView {
    store.append(id, entry_for(store, id, change))
}

/// The store once `changes` have been recorded for the session `id`, one after the other.
pub open spec fn record_all(store: StorageView, id: u128, changes: Seq<Change>) -> StorageView
    decreases changes.len(),
{
    if changes.len() == 0 {
        store
    } else {
        record(record_all(store, id, changes.drop_last()), id, changes.last())
    }
}

/// The timeline of a session holds what was recorded for it in the order in
/// which it was recorded, after what it held before, and every entry says
/// what was last known of its variable when it was recorded. The timelines
/// of the other sessions stay as they were.
pub proof fn lemma_timeline_keeps_order(store: StorageView, id: u128, changes: Seq<Change>, other: u128)
    requires
        distinct_ids(store.areas),
    ensures
        distinct_ids(record_all(store, id, changes).areas),
        record_all(store, id, changes).timeline(id) == store.timeline(id) + Seq::new(
            changes.len(),
            |i: int| entry_for(record_all(store, id, changes.take(i)), id, changes[i]),
        ),
        other != id ==> record_all(store, id, changes).timeline(other) == store.timeline(other),
    decreases changes.len(),
{
    let recorded = Seq::new(
        changes.len(),
        |i: int| entry_for(record_all(store, id, changes.take(i)), id, changes[i]),
    );
    if changes.len() == 0 {
        assert(store.timeline(id) + recorded =~= store.timeline(id));
    } else {
        let head = changes.drop_last();
        let before = record_all(store, id, head);
        lemma_timeline_keeps_order(store, id, head, other);
        let entry = entry_for(before, id, changes.last());
        let area = before.area(id);
        lemma_with_area(before, AreaView { timeline: area.timeline.push(entry), ..area }, other);
        let earlier = Seq::new(head.len(), |i: int| entry_for(record_all(store, id, head.take(i)), id, head[i]));
        assert forall|i: int| 0 <= i < head.len() implies earlier[i] == recorded[i] by {
            assert(head.take(i) == changes.take(i));
        }
    }
}

/// The change that an event asks to record at the moment `now`, if it is
/// one that sets or unsets a variable.
pub open spec fn change_of(event: EnvEventView, now: Timestamp) -> Option<Change> {
    match event {
        EnvEventView::SetVar { key, value, .. } => Some(
            Change { action: Action::SetVar, key, value: Some(value), at: now },
        ),
        EnvEventView::Unset { key, .. } => Some(Change { action: Action::Unset, key, value: None, at: now }),
        _ => None,
    }
}

/// An event that sets or unsets a variable, and that the filters let
/// through, records its change for the session of its process, and
/// changes nothing else in the store. The session keeps its identifier.
pub proof fn lemma_event_records(
    state: DaemonView,
    filters: FiltersView,
    event: EnvEventView,
    fresh: SessionView,
    now: Timestamp,
    later: Timestamp,
)
    requires
        change_of(event, now) is Some,
        event.passes(filters),
    ensures
        ({
            let id = resolved(state.sessions, event.pid(), fresh)[event.pid()].id;
            let (next, response) = state.handle(filters, event, fresh, now, later);
            &&& response == EnvResponseView::Done
            &&& next.store == record(state.store, id, change_of(event, now)->0)
            &&& next.sessions.contains_key(event.pid())
            &&& next.sessions[event.pid()].id == id
        }),
{
}

/// An event as it arrives: with the session to make for its process where
/// it has none, the moment of the event, and the later moment at which its
/// session is touched.
pub struct Arrival {
    pub event: EnvEventView,
    pub fresh: SessionView,
    pub now: Timestamp,
    pub later: Timestamp,
}

/// The daemon once it has handled `arrivals`, one after the other.
pub open spec fn handle_all(state: DaemonView, filters: FiltersView, arrivals: Seq<Arrival>) -> DaemonView
    decreases arrivals.len(),
{
    if arrivals.len() == 0 {
        state
    } else {
        let last = arrivals.last();
        handle_all(state, filters, arrivals.drop_last()).handle(filters, last.event, last.fresh, last.now, last.later).0
    }
}

/// The changes that `arrivals` ask to record.
pub open spec fn changes_of(arrivals: Seq<Arrival>) -> Seq<Change> {
    Seq::new(arrivals.len(), |i: int| change_of(arrivals[i].event, arrivals[i].now)->0)
}

/// For every sequence of events that set or unset variables for one process,
/// and that the filters let through: the changes are recorded for one
/// session, that of the process, in the order of the events. With
/// `lemma_timeline_keeps_order` this says what the timeline of that session
/// holds afterwards.
pub proof fn lemma_events_in_order(state: DaemonView, filters: FiltersView, pid: u32, arrivals: Seq<Arrival>)
    requires
        arrivals.len() > 0,
        forall|i: int| 0 <= i < arrivals.len() ==> {
            &&& (#[trigger] arrivals[i]).event.pid() == pid
            &&& change_of(arrivals[i].event, arrivals[i].now) is Some
            &&& arrivals[i].event.passes(filters)
        },
    ensures
        ({
            let id = resolved(state.sessions, pid, arrivals[0].fresh)[pid].id;
            let end = handle_all(state, filters, arrivals);
            &&& end.store == record_all(state.store, id, changes_of(arrivals))
            &&& end.sessions.contains_key(pid)
            &&& end.sessions[pid].id == id
        }),
    decreases arrivals.len(),
{
    let id = resolved(state.sessions, pid, arrivals[0].fresh)[pid].id;
    let head = arrivals.drop_last();
    let last = arrivals.last();
    let before = handle_all(state, filters, head);
    lemma_event_records(before, filters, last.event, last.fresh, last.now, last.later);
    assert(changes_of(arrivals).drop_last() =~= changes_of(head));
    if head.len() == 0 {
        assert(record_all(state.store, id, changes_of(head)) == state.store);
    } else {
        lemma_events_in_order(state, filters, pid, head);
    }
}

/// Touching a session never takes the time of its last update back, and
/// leaves everything else of it, and every other session, as it was.
pub proof fn lemma_touch_moves_forward(sessions: Map<u32, SessionView>, pid: u32, now: Timestamp)
    requires
        sessions.contains_key(pid),
    ensures
        touched(sessions, pid, now).dom() == sessions.dom(),
        sessions[pid].last_updated.le(touched(sessions, pid, now)[pid].last_updated),
        touched(sessions, pid, now)[pid] == (SessionView {
            last_updated: touched(sessions, pid, now)[pid].last_updated,
            ..sessions[pid]
        }),
        forall|other: u32| other != pid && sessions.contains_key(other) ==> touched(sessions, pid, now)[other] == sessions[other],
{
}

/// Whatever the event, and whether or not what it asks for can be written:
/// every session that was known stays known under its identifier, with its
/// start, its process and its shell, and the time of its last update does
/// not go back.
pub proof fn lemma_sessions_only_move_forward(
    state: DaemonView,
    filters: FiltersView,
    event: EnvEventView,
    fresh: SessionView,
    now: Timestamp,
    later: Timestamp,
    failure: Option<Seq<char>>,
    pid: u32,
)
    requires
        state.sessions.contains_key(pid),
    ensures
        ({
            let (mid, pending) = state.prepare(filters, event, fresh, now);
            let next = mid.settle(pending, failure, later).0;
            &&& next.sessions.contains_key(pid)
            &&& next.sessions[pid] == (SessionView {
                last_updated: next.sessions[pid].last_updated,
                ..state.sessions[pid]
            })
            &&& state.sessions[pid].last_updated.le(next.sessions[pid].last_updated)
        }),
{
}

/// Whatever the event, and whether or not what it asks for can be written:
/// what a timeline held it goes on to hold, in the same order. An entry,
/// once appended, is never changed or taken away.
pub proof fn lemma_timelines_only_grow(
    state: DaemonView,
    filters: FiltersView,
    event: EnvEventView,
    fresh: SessionView,
    now: Timestamp,
    later: Timestamp,
    failure: Option<Seq<char>>,
    id: u128,
)
    requires
        distinct_ids(state.store.areas),
    ensures
        ({
            let (mid, pending) = state.prepare(filters, event, fresh, now);
            let next = mid.settle(pending, failure, later).0;
            &&& distinct_ids(next.store.areas)
            &&& state.store.timeline(id).is_prefix_of(next.store.timeline(id))
        }),
{
    match state.prepare(filters, event, fresh, now).1 {
        PendingView::Append { session, entry } => {
            let area = state.store.area(session.id);
            lemma_with_area(state.store, AreaView { timeline: area.timeline.push(entry), ..area }, id);
        },
        PendingView::Keep { metadata } => {
            let area = state.store.area(metadata.session.id);
            lemma_with_area(state.store, AreaView { metadata: Some(metadata), ..area }, id);
        },
        _ => {},
    }
}

/// The entry that an event asks to append sets a value just where it
/// records that a variable was set: an entry for a variable that was unset
/// carries none. What it says of the value before is what was last known.
pub proof fn lemma_entries_are_well_formed(
    state: DaemonView,
    filters: FiltersView,
    event: EnvEventView,
    fresh: SessionView,
    now: Timestamp,
)
    ensures
        state.prepare(filters, event, fresh, now).1 matches PendingView::Append { session, entry } ==> {
            &&& (entry.action == Action::SetVar) == (entry.value is Some)
            &&& entry.prev == state.store.previous(session.id, entry.key)
            &&& entry.timestamp == now
        },
{
}

/// An event that the filters hold back is answered as done, and changes
/// nothing: no entry is made, no session is made or touched.
pub proof fn lemma_rejected_changes_nothing(
    state: DaemonView,
    filters: FiltersView,
    event: EnvEventView,
    fresh: SessionView,
    now: Timestamp,
    later: Timestamp,
)
    requires
        !event.passes(filters),
    ensures
        state.handle(filters, event, fresh, now, later) == (state, EnvResponseView::Done),
{
}

/// A request for the session of a process that has none makes a session for
/// it, whose last update is its start, and answers with it. An event that
/// then sets a variable for that process moves the last update forward,
/// never back, and leaves the identifier and everything else of the session
/// as it was.
pub proof fn lemma_session_is_made_then_touched(
    state: DaemonView,
    filters: FiltersView,
    pid: u32,
    id: u128,
    shell: Seq<char>,
    started: Timestamp,
    asked: (Timestamp, Timestamp),
    key: Seq<char>,
    value: Seq<char>,
    offered: SessionView,
    changed: (Timestamp, Timestamp),
)
    requires
        !state.sessions.contains_key(pid),
        filters.tracks(key),
    ensures
        ({
            let fresh = SessionView::starting(id, pid, shell, started);
            let (made, answer) = state.handle(filters, EnvEventView::GetSession { pid }, fresh, asked.0, asked.1);
            let (next, response) = made.handle(
                filters,
                EnvEventView::SetVar { pid, key, value },
                offered,
                changed.0,
                changed.1,
            );
            &&& answer == EnvResponseView::Session { session: fresh }
            &&& fresh.started_at == fresh.last_updated
            &&& made.sessions == state.sessions.insert(pid, fresh)
            &&& made.store == state.store
            &&& response == EnvResponseView::Done
            &&& next.sessions[pid] == fresh.touched(changed.1)
            &&& next.sessions[pid].id == fresh.id
            &&& fresh.last_updated.le(next.sessions[pid].last_updated)
        }),
{
}

/// The snapshots of a session's scope and those of the global scope do not
/// touch each other: of two snapshots of one name, one saved for a session
/// and one saved globally, in either order, each is what its own scope gives.
pub proof fn lemma_scopes_are_independent(store: StorageView, id: u128, own: SnapshotView, global: SnapshotView)
    requires
        distinct_ids(store.areas),
        own.name == global.name,
    ensures
        store.save(Some(id), own).save(None, global).load(Some(id), own.name) == Some(own),
        store.save(Some(id), own).save(None, global).load(None, own.name) == Some(global),
        store.save(None, global).save(Some(id), own).load(Some(id), own.name) == Some(own),
        store.save(None, global).save(Some(id), own).load(None, own.name) == Some(global),
{
    let name = own.name;
    let area = store.area(id);
    let kept = AreaView { snapshots: with_snapshot(area.snapshots, own), ..area };
    lemma_with_snapshot(area.snapshots, own, name);
    lemma_with_snapshot(store.global, global, name);
    lemma_with_area(store, kept, id);
    let second = store.save(None, global);
    lemma_with_area(second, kept, id);
}

/// Where no scope holds a snapshot of the name, a request to delete it finds
/// none, whatever scope it names, and leaves the store as it is.
pub proof fn lemma_delete_missing(store: StorageView, scope: Option<u128>, name: Seq<char>)
    requires
        by_name(store.global, name) is None,
        forall|i: int| 0 <= i < store.areas.len() ==> by_name((#[trigger] store.areas[i]).snapshots, name) is None,
    ensures
        store.deleted_from(scope, name) is None,
        store.delete(scope, name) == store,
        store.load(scope, name) is None,
{
    assert forall|i: int| 0 <= i < store.areas.len() implies !holding(name)(#[trigger] store.areas[i]) by {}
    lemma_first_where_none(store.areas, holding(name));
    if scope is Some {
        let id = scope->0;
        lemma_opened(store.areas, id);
        if first_where(store.areas, of_session(id)) is None {
            lemma_first_where_none(AreaView::blank(id).snapshots, called(name));
        }
    }
}

} // verus!
