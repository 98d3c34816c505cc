use crate::search::{
    first_at, first_where, last_where, lemma_first_exists, lemma_first_where, lemma_first_where_none,
};
use crate::session::{SessionMetadataView, SessionView, Timestamp};
use crate::storage::Action;
use vstd::prelude::*;

verus! {

/// What an entry of a timeline says.
pub struct TimelineEntryView {
    pub timestamp: Timestamp,
    pub action: Action,
    pub key: Seq<char>,
    pub value: Option<Seq<char>>,
    pub prev: Option<Seq<char>>,
}

impl TimelineEntryView {
    /// The value that the entry leaves known of its variable: the value it
    /// sets, or else the value that the variable had before.
    pub open spec fn known_value(self) -> Option<Seq<char>> {
        if self.value is Some {
            self.value
        } else {
            self.prev
        }
    }
}

/// What a snapshot holds.
pub struct SnapshotView {
    pub name: Seq<char>,
    pub created_at: Timestamp,
    pub description: Option<Seq<char>>,
    pub environment: Map<Seq<char>, Seq<char>>,
    pub tags: Seq<Seq<char>>,
    pub session_id: Option<u128>,
}

/// The entries of `key` among those of a timeline.
pub open spec fn mentions(key: Seq<char>) -> spec_fn(TimelineEntryView) -> bool {
    |e: TimelineEntryView| e.key == key
}

/// The snapshots called `name`.
pub open spec fn called(name: Seq<char>) -> spec_fn(SnapshotView) -> bool {
    |s: SnapshotView| s.name == name
}

/// The snapshot called `name` in `list`, if there is one.
pub open spec fn by_name(list: Seq<SnapshotView>, name: Seq<char>) -> Option<SnapshotView> {
    match first_where(list, called(name)) {
        Some(i) => Some(list[i]),
        None => None,
    }
}

/// `list` with the snapshot `s` in it: in the place of the one of that name,
/// or else at the end.
pub open spec fn with_snapshot(list: Seq<SnapshotView>, s: SnapshotView) -> Seq<SnapshotView> {
    match first_where(list, called(s.name)) {
        Some(i) => list.update(i, s),
        None => list.push(s),
    }
}

/// `list` without the snapshot called `name`.
pub open spec fn without_snapshot(list: Seq<SnapshotView>, name: Seq<char>) -> Seq<SnapshotView> {
    match first_where(list, called(name)) {
        Some(i) => list.remove(i),
        None => list,
    }
}

/// No two snapshots of `list` have the same name.
pub open spec fn distinct_names(list: Seq<SnapshotView>) -> bool {
    forall|i: int, j: int| 0 <= i < j < list.len() ==> (#[trigger] list[i]).name != (#[trigger] list[j]).name
}

/// The snapshots made at the moment `t`.
pub open spec fn made_at(t: Timestamp) -> spec_fn(SnapshotView) -> bool {
    |s: SnapshotView| s.created_at == t
}

/// No snapshot of `list` comes before one that was made later.
pub open spec fn newest_first(list: Seq<SnapshotView>) -> bool {
    forall|i: int, j: int| 0 <= i < j < list.len() ==> (#[trigger] list[j]).created_at.le((#[trigger] list[i]).created_at)
}

/// `sorted` holds the snapshots of `list`, the newest first, and those made
/// at the same moment in the order in which `list` has them.
pub open spec fn in_listing_order(sorted: Seq<SnapshotView>, list: Seq<SnapshotView>) -> bool {
    &&& newest_first(sorted)
    &&& sorted.len() == list.len()
    &&& forall|t: Timestamp| #[trigger] sorted.filter(made_at(t)) == list.filter(made_at(t))
}

/// What is kept for one session: its timeline, what was last captured of
/// it, and the snapshots of its scope.
#[verifier::ext_equal]
pub struct AreaView {
    pub id: u128,
    pub timeline: Seq<TimelineEntryView>,
    pub metadata: Option<SessionMetadataView>,
    pub snapshots: Seq<SnapshotView>,
}

impl AreaView {
    /// What is kept for a session of which nothing was stored yet.
    pub open spec fn blank(id: u128) -> AreaView {
        AreaView { id, timeline: Seq::empty(), metadata: None, snapshots: Seq::empty() }
    }
}

/// The areas of the session `id`.
pub open spec fn of_session(id: u128) -> spec_fn(AreaView) -> bool {
    |a: AreaView| a.id == id
}

/// The place of the area of the session `id` among `areas`: where it is, or
/// else the end, where it would be added.
pub open spec fn slot(areas: Seq<AreaView>, id: u128) -> int {
    match first_where(areas, of_session(id)) {
        Some(i) => i,
        None => areas.len() as int,
    }
}

/// `areas` with an area for the session `id`: a blank one is added at the
/// end where there was none.
pub open spec fn opened(areas: Seq<AreaView>, id: u128) -> Seq<AreaView> {
    if first_where(areas, of_session(id)) is Some {
        areas
    } else {
        areas.push(AreaView::blank(id))
    }
}

/// No session has two areas.
pub open spec fn distinct_ids(areas: Seq<AreaView>) -> bool {
    forall|i: int, j: int| 0 <= i < j < areas.len() ==> (#[trigger] areas[i]).id != (#[trigger] areas[j]).id
}

/// The areas that hold a snapshot called `name`.
pub open spec fn holding(name: Seq<char>) -> spec_fn(AreaView) -> bool {
    |a: AreaView| by_name(a.snapshots, name) is Some
}

/// The areas that hold a capture of a session of the process `pid`.
pub open spec fn captured_for(pid: u32) -> spec_fn(AreaView) -> bool {
    |a: AreaView| a.metadata is Some && a.metadata->0.session.pid == pid
}

/// What the store holds: one area for each session that anything was stored
/// for, in the order in which the areas came, and the snapshots of global
/// scope.
#[verifier::ext_equal]
pub struct StorageView {
    pub areas: Seq<AreaView>,
    pub global: Seq<SnapshotView>,
}

impl StorageView {
    /// The store that holds nothing.
    pub open spec fn empty() -> StorageView {
        StorageView { areas: Seq::empty(), global: Seq::empty() }
    }

    /// No session has two areas, and no scope two snapshots of one name.
    pub open spec fn wf(self) -> bool {
        &&& distinct_ids(self.areas)
        &&& forall|i: int| 0 <= i < self.areas.len() ==> distinct_names((#[trigger] self.areas[i]).snapshots)
        &&& distinct_names(self.global)
    }

    /// What is kept for the session `id`.
    pub open spec fn area(self, id: u128) -> AreaView {
        opened(self.areas, id)[slot(self.areas, id)]
    }

    /// The store with `area` kept for its session.
    pub open spec fn with_area(self, area: AreaView) -> StorageView {
        StorageView { areas: opened(self.areas, area.id).update(slot(self.areas, area.id), area), ..self }
    }

    /// The timeline of the session `id`, oldest entry first.
    pub open spec fn timeline(self, id: u128) -> Seq<TimelineEntryView> {
        self.area(id).timeline
    }

    /// The store once `entry` has been appended to the timeline of the session `id`.
    pub open spec fn append(self, id: u128, entry: TimelineEntryView) -> StorageView {
        let area = self.area(id);
        self.with_area(AreaView { timeline: area.timeline.push(entry), ..area })
    }

    /// The store once `metadata` has been kept as what was last captured of its session.
    pub open spec fn capture(self, metadata: SessionMetadataView) -> StorageView {
        let area = self.area(metadata.session.id);
        self.with_area(AreaView { metadata: Some(metadata), ..area })
    }

    /// The last known value of `key` for the session `id`: the one in the
    /// environment that was last captured, if it has one; or else what the
    /// latest entry of the timeline for `key` leaves known.
    pub open spec fn previous(self, id: u128, key: Seq<char>) -> Option<Seq<char>> {
        let area = self.area(id);
        if area.metadata is Some && area.metadata->0.current_env.contains_key(key) {
            Some(area.metadata->0.current_env[key])
        } else {
            match last_where(area.timeline, mentions(key)) {
                Some(i) => area.timeline[i].known_value(),
                None => None,
            }
        }
    }

    /// The snapshots of a scope: those of the session `scope`, or the global ones.
    pub open spec fn snapshots(self, scope: Option<u128>) -> Seq<SnapshotView> {
        match scope {
            Some(id) => self.area(id).snapshots,
            None => self.global,
        }
    }

    /// The store with other snapshots in a scope.
    pub open spec fn with_snapshots(self, scope: Option<u128>, list: Seq<SnapshotView>) -> StorageView {
        match scope {
            Some(id) => self.with_area(AreaView { snapshots: list, ..self.area(id) }),
            None => StorageView { global: list, ..self },
        }
    }

    /// The store once `snapshot` has been saved in `scope`.
    pub open spec fn save(self, scope: Option<u128>, snapshot: SnapshotView) -> StorageView {
        self.with_snapshots(scope, with_snapshot(self.snapshots(scope), snapshot))
    }

    /// The scope in which a snapshot called `name` is found when it is asked
    /// for in `scope`: that scope itself; or else the global one; or else, for
    /// the global scope only, the first session that holds one. The outer
    /// `None` says that there is none to be found.
    pub open spec fn found_in(self, scope: Option<u128>, name: Seq<char>) -> Option<Option<u128>> {
        if by_name(self.snapshots(scope), name) is Some {
            Some(scope)
        } else if scope is Some {
            if by_name(self.global, name) is Some {
                Some(None)
            } else {
                None
            }
        } else {
            match first_where(self.areas, holding(name)) {
                Some(i) => Some(Some(self.areas[i].id)),
                None => None,
            }
        }
    }

    /// The snapshot that a request for `name` in `scope` gives.
    pub open spec fn load(self, scope: Option<u128>, name: Seq<char>) -> Option<SnapshotView> {
        match self.found_in(scope, name) {
            Some(place) => by_name(self.snapshots(place), name),
            None => None,
        }
    }

    /// The scope from which a request to delete `name` in `scope` takes a
    /// snapshot: that scope itself; or else the global one; or else the first
    /// session that holds one. The outer `None` says that there is none.
    pub open spec fn deleted_from(self, scope: Option<u128>, name: Seq<char>) -> Option<Option<u128>> {
        if by_name(self.snapshots(scope), name) is Some {
            Some(scope)
        } else if by_name(self.global, name) is Some {
            Some(None)
        } else {
            match first_where(self.areas, holding(name)) {
                Some(i) => Some(Some(self.areas[i].id)),
                None => None,
            }
        }
    }

    /// The store once a request to delete `name` in `scope` has been served.
    /// Where there is none to delete, the store stays as it is.
    pub open spec fn delete(self, scope: Option<u128>, name: Seq<char>) -> StorageView {
        match self.deleted_from(scope, name) {
            Some(place) => self.with_snapshots(place, without_snapshot(self.snapshots(place), name)),
            None => self,
        }
    }

    /// The session of the process `pid` as it was last captured: that of
    /// the first area that holds a capture for the process.
    pub open spec fn session_of_pid(self, pid: u32) -> Option<SessionView> {
        match first_where(self.areas, captured_for(pid)) {
            Some(i) => Some(self.areas[i].metadata->0.session),
            None => None,
        }
    }
}

/// What `opened` and `slot` give for one session.
pub proof fn lemma_opened(areas: Seq<AreaView>, id: u128)
    ensures
        first_at(opened(areas, id), of_session(id), slot(areas, id)),
        opened(areas, id)[slot(areas, id)].id == id,
        first_where(areas, of_session(id)) is None ==> opened(areas, id)[slot(areas, id)] == AreaView::blank(id),
        distinct_ids(areas) ==> distinct_ids(opened(areas, id)),
        opened(areas, id).len() >= areas.len(),
        forall|i: int| 0 <= i < areas.len() ==> opened(areas, id)[i] == areas[i],
{
    let p = of_session(id);
    if first_where(areas, p) is None {
        assert forall|j: int| 0 <= j < areas.len() implies !p(#[trigger] areas[j]) by {
            if p(areas[j]) {
                lemma_first_exists(areas, p, j);
            }
        }
        let o = opened(areas, id);
        assert forall|j: int| 0 <= j < areas.len() implies !p(#[trigger] o[j]) by {
            assert(o[j] == areas[j]);
        }
        if distinct_ids(areas) {
            assert forall|i: int, j: int| 0 <= i < j < o.len() implies (#[trigger] o[i]).id != (#[trigger] o[j]).id by {
                if j < areas.len() {
                    assert(o[j] == areas[j]);
                } else {
                    assert(!p(areas[i]));
                }
            }
        }
    }
}

/// Keeping an area for a session changes what is kept for that session, and
/// for no other.
pub proof fn lemma_with_area(store: StorageView, area: AreaView, other: u128)
    requires
        distinct_ids(store.areas),
    ensures
        distinct_ids(store.with_area(area).areas),
        store.with_area(area).area(area.id) == area,
        other != area.id ==> store.with_area(area).area(other) == store.area(other),
        store.with_area(area).global == store.global,
        first_where(store.with_area(area).areas, of_session(area.id)) == Some(slot(store.areas, area.id)),
        store.with_area(area).areas.len() == opened(store.areas, area.id).len(),
{
    let id = area.id;
    let o = opened(store.areas, id);
    let at = slot(store.areas, id);
    let n = o.update(at, area);
    lemma_opened(store.areas, id);
    assert forall|i: int, j: int| 0 <= i < j < n.len() implies (#[trigger] n[i]).id != (#[trigger] n[j]).id by {
        assert(n[i].id == o[i].id && n[j].id == o[j].id);
    }
    assert forall|j: int| 0 <= j < at implies !of_session(id)(#[trigger] n[j]) by {
        assert(n[j] == o[j]);
    }
    lemma_first_where(n, of_session(id), at);
    if other != id {
        let q = of_session(other);
        lemma_opened(store.areas, other);
        lemma_opened(n, other);
        if first_where(store.areas, q) is Some {
            let i = first_where(store.areas, q)->0;
            assert forall|j: int| 0 <= j < i implies !q(#[trigger] n[j]) by {
                if j < store.areas.len() {
                    assert(o[j] == store.areas[j]);
                }
            }
            lemma_first_where(n, q, i);
        } else {
            assert forall|j: int| 0 <= j < n.len() implies !q(#[trigger] n[j]) by {
                if j < store.areas.len() {
                    if q(store.areas[j]) {
                        lemma_first_exists(store.areas, q, j);
                    }
                }
            }
            lemma_first_where_none(n, q);
        }
    }
}

/// The snapshot called by its own name is found where it was put.
pub proof fn lemma_with_snapshot(list: Seq<SnapshotView>, snapshot: SnapshotView, other: Seq<char>)
    ensures
        by_name(with_snapshot(list, snapshot), snapshot.name) == Some(snapshot),
        other != snapshot.name ==> by_name(with_snapshot(list, snapshot), other) == by_name(list, other),
        distinct_names(list) ==> distinct_names(with_snapshot(list, snapshot)),
{
    let p = called(snapshot.name);
    let n = with_snapshot(list, snapshot);
    let at = match first_where(list, p) {
        Some(i) => i,
        None => list.len() as int,
    };
    if first_where(list, p) is None {
        assert forall|j: int| 0 <= j < list.len() implies !p(#[trigger] list[j]) by {
            if p(list[j]) {
                lemma_first_exists(list, p, j);
            }
        }
    }
    assert forall|j: int| 0 <= j < at implies !p(#[trigger] n[j]) by {
        assert(n[j] == list[j]);
    }
    lemma_first_where(n, p, at);
    if distinct_names(list) {
        assert forall|i: int, j: int| 0 <= i < j < n.len() implies (#[trigger] n[i]).name != (#[trigger] n[j]).name by {
            if i != at && j != at {
                assert(n[i] == list[i] && n[j] == list[j]);
            } else if at < list.len() {
                assert(n[i].name == list[i].name && n[j].name == list[j].name);
            } else {
                assert(!p(list[i]));
            }
        }
    }
    if other != snapshot.name {
        let q = called(other);
        if first_where(list, q) is Some {
            let i = first_where(list, q)->0;
            assert forall|j: int| 0 <= j < i implies !q(#[trigger] n[j]) by {
                if j != at {
                    assert(n[j] == list[j]);
                }
            }
            lemma_first_where(n, q, i);
        } else {
            assert forall|j: int| 0 <= j < n.len() implies !q(#[trigger] n[j]) by {
                if j != at {
                    if q(list[j]) {
                        lemma_first_exists(list, q, j);
                    }
                }
            }
            lemma_first_where_none(n, q);
        }
    }
}

/// Taking a snapshot out of a list of distinct names leaves none of its
/// name, and every other where it was found before.
pub proof fn lemma_without_snapshot(list: Seq<SnapshotView>, name: Seq<char>, other: Seq<char>)
    requires
        distinct_names(list),
    ensures
        by_name(without_snapshot(list, name), name) is None,
        other != name ==> by_name(without_snapshot(list, name), other) == by_name(list, other),
        distinct_names(without_snapshot(list, name)),
{
    let p = called(name);
    let n = without_snapshot(list, name);
    if first_where(list, p) is Some {
        let at = first_where(list, p)->0;
        assert forall|j: int| 0 <= j < n.len() implies !p(#[trigger] n[j]) by {
            if j < at {
                assert(n[j] == list[j]);
            } else {
                assert(list[at].name != list[j + 1].name);
            }
        }
        lemma_first_where_none(n, p);
        assert forall|i: int, j: int| 0 <= i < j < n.len() implies (#[trigger] n[i]).name != (#[trigger] n[j]).name by {
            let a = if i < at { i } else { i + 1 };
            let b = if j < at { j } else { j + 1 };
            assert(n[i] == list[a] && n[j] == list[b]);
        }
        if other != name {
            let q = called(other);
            if first_where(list, q) is Some {
                let i = first_where(list, q)->0;
                let k = if i < at { i } else { i - 1 };
                assert forall|j: int| 0 <= j < k implies !q(#[trigger] n[j]) by {
                    let a = if j < at { j } else { j + 1 };
                    assert(n[j] == list[a]);
                }
                lemma_first_where(n, q, k);
            } else {
                assert forall|j: int| 0 <= j < n.len() implies !q(#[trigger] n[j]) by {
                    let a = if j < at { j } else { j + 1 };
                    assert(n[j] == list[a]);
                    if q(list[a]) {
                        lemma_first_exists(list, q, a);
                    }
                }
                lemma_first_where_none(n, q);
            }
        }
    } else {
        assert(n == list);
    }
}

/// Among areas of distinct sessions, each is the area of its session.
pub proof fn lemma_slot_of_area(areas: Seq<AreaView>, i: int)
    requires
        distinct_ids(areas),
        0 <= i < areas.len(),
    ensures
        first_where(areas, of_session(areas[i].id)) == Some(i),
        slot(areas, areas[i].id) == i,
        opened(areas, areas[i].id) == areas,
{
    let p = of_session(areas[i].id);
    assert forall|j: int| 0 <= j < i implies !p(#[trigger] areas[j]) by {
        assert(areas[j].id != areas[i].id);
    }
    lemma_first_where(areas, p, i);
}

/// The store that holds nothing has nothing for any session.
pub proof fn lemma_empty(id: u128)
    ensures
        StorageView::empty().area(id) == AreaView::blank(id),
        StorageView::empty().timeline(id) == Seq::<TimelineEntryView>::empty(),
        StorageView::empty().wf(),
{
    lemma_first_where_none(StorageView::empty().areas, of_session(id));
}

/// An entry that is appended comes at the end of the timeline of its
/// session. Nothing else changes: not what was captured of that session,
/// nor its snapshots, nor anything of another session, nor the global snapshots.
pub proof fn lemma_append(store: StorageView, id: u128, entry: TimelineEntryView, other: u128)
    requires
        distinct_ids(store.areas),
    ensures
        distinct_ids(store.append(id, entry).areas),
        store.append(id, entry).timeline(id) == store.timeline(id).push(entry),
        store.append(id, entry).area(id) == (AreaView {
            timeline: store.timeline(id).push(entry),
            ..store.area(id)
        }),
        other != id ==> store.append(id, entry).area(other) == store.area(other),
        store.append(id, entry).global == store.global,
{
    let area = store.area(id);
    lemma_opened(store.areas, id);
    lemma_with_area(store, AreaView { timeline: area.timeline.push(entry), ..area }, other);
}

/// What is captured of a session takes the place of what was captured of it
/// before. Nothing else changes.
pub proof fn lemma_capture(store: StorageView, metadata: SessionMetadataView, other: u128)
    requires
        distinct_ids(store.areas),
    ensures
        distinct_ids(store.capture(metadata).areas),
        store.capture(metadata).area(metadata.session.id) == (AreaView {
            metadata: Some(metadata),
            ..store.area(metadata.session.id)
        }),
        other != metadata.session.id ==> store.capture(metadata).area(other) == store.area(other),
        store.capture(metadata).global == store.global,
{
    let area = store.area(metadata.session.id);
    lemma_opened(store.areas, metadata.session.id);
    lemma_with_area(store, AreaView { metadata: Some(metadata), ..area }, other);
}

/// A snapshot that is saved is what its scope then gives under its name.
/// The other snapshots of that scope stay, and so does every other scope.
pub proof fn lemma_save(store: StorageView, scope: Option<u128>, snapshot: SnapshotView, other: Option<u128>)
    requires
        distinct_ids(store.areas),
    ensures
        distinct_ids(store.save(scope, snapshot).areas),
        store.save(scope, snapshot).snapshots(scope) == with_snapshot(store.snapshots(scope), snapshot),
        by_name(store.save(scope, snapshot).snapshots(scope), snapshot.name) == Some(snapshot),
        other != scope ==> store.save(scope, snapshot).snapshots(other) == store.snapshots(other),
{
    lemma_with_snapshot(store.snapshots(scope), snapshot, snapshot.name);
    match scope {
        Some(id) => {
            let area = store.area(id);
            let kept = AreaView { snapshots: with_snapshot(area.snapshots, snapshot), ..area };
            lemma_with_area(store, kept, id);
            if other is Some {
                lemma_with_area(store, kept, other->0);
            }
        },
        None => {},
    }
}

/// What passes a filter occurs behind it as often as before it.
proof fn lemma_filter_keeps_count<T>(s: Seq<T>, p: spec_fn(T) -> bool, x: T)
    requires
        p(x),
    ensures
        s.filter(p).to_multiset().count(x) == s.to_multiset().count(x),
    decreases s.len(),
{
    broadcast use vstd::multiset::group_multiset_axioms;

    if s.len() == 0 {
        assert(s.filter(p) =~= s) by {
            reveal(Seq::filter);
        }
    } else {
        let head = s.drop_last();
        let last = s.last();
        assert(s =~= head.push(last));
        lemma_filter_keeps_count(head, p, x);
        head.lemma_filter_push(last, p);
        vstd::seq_lib::to_multiset_build(head, last);
        if p(last) {
            vstd::seq_lib::to_multiset_build(head.filter(p), last);
        }
    }
}

/// A listing in order holds every snapshot of the list that it was made of
/// as often as the list holds it: none is missing, and none comes twice
/// that the list does not hold twice.
pub proof fn lemma_listing_is_a_permutation(sorted: Seq<SnapshotView>, list: Seq<SnapshotView>)
    requires
        in_listing_order(sorted, list),
    ensures
        sorted.to_multiset() == list.to_multiset(),
{
    assert forall|s: SnapshotView| sorted.to_multiset().count(s) == list.to_multiset().count(s) by {
        let p = made_at(s.created_at);
        assert(sorted.filter(p) == list.filter(p));
        lemma_filter_keeps_count(sorted, p, s);
        lemma_filter_keeps_count(list, p, s);
    }
    assert(sorted.to_multiset() =~= list.to_multiset());
}

/// A request to delete that finds a snapshot takes it from the scope where
/// it was found: that scope then holds none of the name, and every other
/// snapshot of that scope stays where it was.
pub proof fn lemma_delete(store: StorageView, scope: Option<u128>, name: Seq<char>, other: Seq<char>)
    requires
        store.wf(),
        store.deleted_from(scope, name) is Some,
    ensures
        ({
            let place = store.deleted_from(scope, name)->0;
            &&& by_name(store.snapshots(place), name) is Some
            &&& by_name(store.delete(scope, name).snapshots(place), name) is None
            &&& other != name ==> by_name(store.delete(scope, name).snapshots(place), other) == by_name(
                store.snapshots(place),
                other,
            )
        }),
{
    let place = store.deleted_from(scope, name)->0;
    if by_name(store.snapshots(scope), name) is None && by_name(store.global, name) is None {
        let i = first_where(store.areas, holding(name))->0;
        lemma_slot_of_area(store.areas, i);
    }
    match place {
        Some(id) => {
            lemma_opened(store.areas, id);
            let area = store.area(id);
            if first_where(store.areas, of_session(id)) is None {
                lemma_first_where_none(area.snapshots, called(name));
            }
            lemma_without_snapshot(area.snapshots, name, other);
            lemma_with_area(store, AreaView { snapshots: without_snapshot(area.snapshots, name), ..area }, id);
        },
        None => {
            lemma_without_snapshot(store.global, name, other);
        },
    }
}

} // verus!
