use crate::config::{clone_texts, texts, Config, ConfigView};
use crate::env::Env;
use crate::model::{
    by_name, called, captured_for, holding, in_listing_order, lemma_listing_is_a_permutation, lemma_opened,
    lemma_slot_of_area, lemma_with_area,
    lemma_with_snapshot, lemma_without_snapshot, made_at, mentions, newest_first, of_session, opened, slot,
    with_snapshot, without_snapshot, AreaView, SnapshotView, StorageView, TimelineEntryView,
};
use crate::search::{
    first_where, last_where, lemma_filter_none, lemma_filter_one, lemma_first_where, lemma_first_where_none,
    lemma_last_where, lemma_last_where_none,
};
use crate::session::{uuid_text, Session, SessionMetadata, SessionMetadataView, SessionView, Timestamp};
use crate::text::same_text;
use vstd::prelude::*;
use vstd::string::StringExecFns;

verus! {

/// What an entry of a timeline records: that a variable was set, or unset.
#[derive(Clone, Copy, Debug, PartialEq, Eq, Structural)]
pub enum Action {
    SetVar,
    Unset,
}

/// The text that an optional string holds, if any.
pub open spec fn opt_text(s: Option<String>) -> Option<Seq<char>> {
    match s {
        Some(s) => Some(s@),
        None => None,
    }
}

/// One entry of a timeline: a variable was set or unset at some moment.
/// `value` is what it was set to, `prev` what was last known of it before.
#[derive(Debug, PartialEq, Eq)]
pub struct TimelineEntry {
    pub timestamp: Timestamp,
    pub action: Action,
    pub key: String,
    pub value: Option<String>,
    pub prev: Option<String>,
}

impl View for TimelineEntry {
    type V = TimelineEntryView;

    open spec fn view(&self) -> TimelineEntryView {
        TimelineEntryView {
            timestamp: self.timestamp,
            action: self.action,
            key: self.key@,
            value: opt_text(self.value),
            prev: opt_text(self.prev),
        }
    }
}

impl Clone for TimelineEntry {
    fn clone(&self) -> (copy: TimelineEntry)
        ensures
            copy@ == self@,
    {
        TimelineEntry {
            timestamp: self.timestamp,
            action: self.action,
            key: self.key.clone(),
            value: clone_opt(&self.value),
            prev: clone_opt(&self.prev),
        }
    }
}

/// A whole environment as it was at some moment, under a name.
#[derive(Debug, PartialEq, Eq)]
pub struct Snapshot {
    pub name: String,
    pub created_at: Timestamp,
    pub description: Option<String>,
    pub environment: Env,
    pub tags: Vec<String>,
    pub session_id: Option<u128>,
}

impl View for Snapshot {
    type V = SnapshotView;

    open spec fn view(&self) -> SnapshotView {
        SnapshotView {
            name: self.name@,
            created_at: self.created_at,
            description: opt_text(self.description),
            environment: self.environment@,
            tags: texts(self.tags@),
            session_id: self.session_id,
        }
    }
}

impl Clone for Snapshot {
    fn clone(&self) -> (copy: Snapshot)
        ensures
            copy@ == self@,
    {
        Snapshot {
            name: self.name.clone(),
            created_at: self.created_at,
            description: clone_opt(&self.description),
            environment: self.environment.clone(),
            tags: clone_texts(&self.tags),
            session_id: self.session_id,
        }
    }
}

/// What a list of entries says, entry by entry.
pub open spec fn entry_views(list: Seq<TimelineEntry>) -> Seq<TimelineEntryView> {
    Seq::new(list.len(), |i: int| list[i]@)
}

/// What a list of snapshots holds, snapshot by snapshot.
pub open spec fn snapshot_views(list: Seq<Snapshot>) -> Seq<SnapshotView> {
    Seq::new(list.len(), |i: int| list[i]@)
}

/// Why a request to the store failed.
#[derive(Debug, PartialEq, Eq)]
pub enum StorageError {
    /// No snapshot of that name was found.
    NotFound { name: String },
}

impl StorageError {
    /// The error in words.
    pub fn message(&self) -> (text: String)
        ensures
            self matches StorageError::NotFound { name } ==> text@ == "Snapshot '"@ + name@ + "' not found"@,
    {
        match self {
            StorageError::NotFound { name } => {
                let mut text = String::from_str("Snapshot '");
                text.append(name.as_str());
                text.append("' not found");
                text
            },
        }
    }
}

/// What is kept for one session.
struct SessionArea {
    id: u128,
    timeline: Vec<TimelineEntry>,
    metadata: Option<SessionMetadata>,
    snapshots: Vec<Snapshot>,
}

impl View for SessionArea {
    type V = AreaView;

    closed spec fn view(&self) -> AreaView {
        AreaView {
            id: self.id,
            timeline: entry_views(self.timeline@),
            metadata: match self.metadata {
                Some(m) => Some(m@),
                None => None,
            },
            snapshots: snapshot_views(self.snapshots@),
        }
    }
}

/// What a list of areas holds, area by area.
spec fn area_views(list: Seq<SessionArea>) -> Seq<AreaView> {
    Seq::new(list.len(), |i: int| list[i]@)
}

/// The store: the timelines, captured environments and snapshots of the
/// sessions, and the snapshots of global scope. It is the store as a value,
/// held in memory: it says what the files of the store hold and where they
/// are kept, and leaves the reading and writing of them to its user.
pub struct Storage {
    config: Config,
    areas: Vec<SessionArea>,
    global: Vec<Snapshot>,
}

impl View for Storage {
    type V = StorageView;

    closed spec fn view(&self) -> StorageView {
        StorageView { areas: area_views(self.areas@), global: snapshot_views(self.global@) }
    }
}

/// The scope that a request names: that of the session, or the global one.
pub open spec fn scope_of(session: Option<&Session>) -> Option<u128> {
    match session {
        Some(s) => Some(s.id),
        None => None,
    }
}

/// What an optional capture holds.
pub open spec fn opt_metadata(m: Option<SessionMetadata>) -> Option<SessionMetadataView> {
    match m {
        Some(m) => Some(m@),
        None => None,
    }
}

/// What an optional snapshot holds.
pub open spec fn opt_snapshot(s: Option<Snapshot>) -> Option<SnapshotView> {
    match s {
        Some(s) => Some(s@),
        None => None,
    }
}

/// The error that says that no snapshot called `name` was found.
pub open spec fn is_not_found(e: StorageError, name: Seq<char>) -> bool {
    e matches StorageError::NotFound { name: n } && n@ == name
}

/// What an optional session is.
pub open spec fn opt_session(s: Option<Session>) -> Option<SessionView> {
    match s {
        Some(s) => Some(s@),
        None => None,
    }
}

/// A copy of an optional string.
pub fn clone_opt(s: &Option<String>) -> (copy: Option<String>)
    ensures
        opt_text(copy) == opt_text(*s),
{
    match s {
        Some(s) => Some(s.clone()),
        None => None,
    }
}

/// A copy of a list of entries.
fn copy_entries(list: &Vec<TimelineEntry>) -> (copy: Vec<TimelineEntry>)
    ensures
        entry_views(copy@) == entry_views(list@),
{
    let mut copy: Vec<TimelineEntry> = Vec::new();
    let mut i: usize = 0;
    while i < list.len()
        invariant
            i <= list@.len(),
            copy@.len() == i,
            forall|j: int| 0 <= j < i ==> copy@[j]@ == list@[j]@,
        decreases list@.len() - i,
    {
        copy.push(list[i].clone());
        i = i + 1;
    }
    copy
}

/// The place of the area of the session `id` in `areas`.
fn locate_area(areas: &Vec<SessionArea>, id: u128) -> (at: Option<usize>)
    ensures
        at is Some == first_where(area_views(areas@), of_session(id)) is Some,
        at is Some ==> first_where(area_views(areas@), of_session(id)) == Some(at->0 as int),
        at is Some ==> at->0 < areas@.len(),
{
    let ghost views = area_views(areas@);
    let mut i: usize = 0;
    while i < areas.len()
        invariant
            i <= areas@.len(),
            views == area_views(areas@),
            forall|j: int| 0 <= j < i ==> !of_session(id)(#[trigger] views[j]),
        decreases areas@.len() - i,
    {
        if areas[i].id == id {
            proof {
                lemma_first_where(views, of_session(id), i as int);
            }
            return Some(i);
        }
        i = i + 1;
    }
    proof {
        lemma_first_where_none(views, of_session(id));
    }
    None
}

/// The place of the snapshot called `name` in `list`.
fn find_snapshot(list: &Vec<Snapshot>, name: &str) -> (at: Option<usize>)
    ensures
        at is Some == first_where(snapshot_views(list@), called(name@)) is Some,
        at is Some ==> first_where(snapshot_views(list@), called(name@)) == Some(at->0 as int),
        at is Some ==> at->0 < list@.len(),
{
    let ghost views = snapshot_views(list@);
    let mut i: usize = 0;
    while i < list.len()
        invariant
            i <= list@.len(),
            views == snapshot_views(list@),
            forall|j: int| 0 <= j < i ==> !called(name@)(#[trigger] views[j]),
        decreases list@.len() - i,
    {
        if same_text(list[i].name.as_str(), name) {
            proof {
                lemma_first_where(views, called(name@), i as int);
            }
            return Some(i);
        }
        i = i + 1;
    }
    proof {
        lemma_first_where_none(views, called(name@));
    }
    None
}

/// Makes sure that `areas` has an area for the session `id`, and gives its place.
fn open_area(areas: &mut Vec<SessionArea>, id: u128) -> (at: usize)
    ensures
        area_views(final(areas)@) == opened(area_views(old(areas)@), id),
        at == slot(area_views(old(areas)@), id),
        at < final(areas)@.len(),
{
    let ghost views = area_views(areas@);
    proof {
        lemma_opened(views, id);
    }
    if let Some(at) = locate_area(areas, id) {
        return at;
    }
    let at = areas.len();
    let area = SessionArea { id, timeline: Vec::new(), metadata: None, snapshots: Vec::new() };
    assert(area@ =~= AreaView::blank(id));
    areas.push(area);
    at
}

/// What the latest entry for `key` in `timeline` leaves known of it.
fn latest_known(timeline: &Vec<TimelineEntry>, key: &str) -> (value: Option<String>)
    ensures
        opt_text(value) == (match last_where(entry_views(timeline@), mentions(key@)) {
            Some(i) => entry_views(timeline@)[i].known_value(),
            None => None,
        }),
{
    let ghost views = entry_views(timeline@);
    let mut i: usize = timeline.len();
    while i > 0
        invariant
            i <= timeline@.len(),
            views == entry_views(timeline@),
            forall|j: int| i <= j < timeline@.len() ==> !mentions(key@)(#[trigger] views[j]),
        decreases i,
    {
        i = i - 1;
        let entry = &timeline[i];
        if same_text(entry.key.as_str(), key) {
            proof {
                lemma_last_where(views, mentions(key@), i as int);
            }
            return match &entry.value {
                Some(v) => Some(v.clone()),
                None => clone_opt(&entry.prev),
            };
        }
    }
    proof {
        lemma_last_where_none(views, mentions(key@));
    }
    None
}

/// Puts `snapshot` into `list`: in the place of the one of its name, or else at the end.
fn put_snapshot(list: &mut Vec<Snapshot>, snapshot: Snapshot)
    ensures
        snapshot_views(final(list)@) == with_snapshot(snapshot_views(old(list)@), snapshot@),
{
    match find_snapshot(list, snapshot.name.as_str()) {
        Some(at) => {
            let _ = list.remove(at);
            list.insert(at, snapshot);
        },
        None => {
            list.push(snapshot);
        },
    }
}

/// Takes the snapshot called `name` out of `list`, and says whether there was one.
fn drop_snapshot(list: &mut Vec<Snapshot>, name: &str) -> (found: bool)
    ensures
        snapshot_views(final(list)@) == without_snapshot(snapshot_views(old(list)@), name@),
        found == by_name(snapshot_views(old(list)@), name@) is Some,
{
    match find_snapshot(list, name) {
        Some(at) => {
            let _ = list.remove(at);
            true
        },
        None => false,
    }
}

/// The snapshot called `name` in `list`, if there is one.
fn pick_snapshot(list: &Vec<Snapshot>, name: &str) -> (found: Option<Snapshot>)
    ensures
        opt_snapshot(found) == by_name(snapshot_views(list@), name@),
{
    match find_snapshot(list, name) {
        Some(at) => Some(list[at].clone()),
        None => None,
    }
}

/// The error that says that no snapshot called `name` was found.
fn not_found(name: &str) -> (e: StorageError)
    ensures
        is_not_found(e, name@),
{
    StorageError::NotFound { name: String::from_str(name) }
}

/// Puts `snapshot` into a listing: behind all that are not older than it.
fn insert_by_age(out: &mut Vec<Snapshot>, snapshot: Snapshot)
    requires
        newest_first(snapshot_views(old(out)@)),
    ensures
        in_listing_order(snapshot_views(final(out)@), snapshot_views(old(out)@).push(snapshot@)),
{
    let ghost views = snapshot_views(out@);
    let mut at: usize = 0;
    while at < out.len() && snapshot.created_at.is_at_or_before(&out[at].created_at)
        invariant
            at <= out@.len(),
            out@ == old(out)@,
            views == snapshot_views(out@),
            forall|j: int| 0 <= j < at ==> snapshot@.created_at.le((#[trigger] views[j]).created_at),
        decreases out@.len() - at,
    {
        at = at + 1;
    }
    out.insert(at, snapshot);
    proof {
        let x = snapshot@;
        let done = snapshot_views(out@);
        let head = views.take(at as int);
        let tail = views.skip(at as int);
        assert(done =~= head + seq![x] + tail);
        assert(views =~= head + tail);
        assert forall|t: Timestamp| #[trigger] done.filter(made_at(t)) == views.push(x).filter(made_at(t)) by {
            let p = made_at(t);
            Seq::filter_distributes_over_add(head + seq![x], tail, p);
            Seq::filter_distributes_over_add(head, seq![x], p);
            Seq::filter_distributes_over_add(head, tail, p);
            Seq::filter_distributes_over_add(views, seq![x], p);
            assert(views.push(x) =~= views + seq![x]);
            lemma_filter_one(x, p);
            if p(x) {
                assert forall|i: int| 0 <= i < tail.len() implies !p(#[trigger] tail[i]) by {
                    assert(views[at + i].created_at.le(views[at as int].created_at));
                }
                lemma_filter_none(tail, p);
            }
        }
    }
}

/// Puts copies of the snapshots of `list` into a listing, one after the other.
pub(crate) fn insert_all_by_age(out: &mut Vec<Snapshot>, list: &[Snapshot])
    requires
        newest_first(snapshot_views(old(out)@)),
    ensures
        in_listing_order(snapshot_views(final(out)@), snapshot_views(old(out)@) + snapshot_views(list@)),
{
    let ghost start = snapshot_views(out@);
    let ghost views = snapshot_views(list@);
    let mut i: usize = 0;
    while i < list.len()
        invariant
            i <= list@.len(),
            views == snapshot_views(list@),
            in_listing_order(snapshot_views(out@), start + views.take(i as int)),
        decreases list@.len() - i,
    {
        let ghost held = snapshot_views(out@);
        let ghost seen = start + views.take(i as int);
        insert_by_age(out, list[i].clone());
        proof {
            let x = views[i as int];
            assert(start + views.take(i + 1) =~= seen.push(x));
            assert forall|t: Timestamp| #[trigger] snapshot_views(out@).filter(made_at(t)) == seen.push(x).filter(made_at(t)) by {
                let p = made_at(t);
                assert(held.push(x) =~= held + seq![x]);
                assert(seen.push(x) =~= seen + seq![x]);
                Seq::filter_distributes_over_add(held, seq![x], p);
                Seq::filter_distributes_over_add(seen, seq![x], p);
            }
        }
        i = i + 1;
    }
    proof {
        assert(views.take(i as int) =~= views);
    }
}

impl Storage {
    /// What holds of every store: no session has two areas, and no scope two
    /// snapshots of one name. Whoever holds a store learns it from
    /// `use_type_invariant`.
    #[verifier::type_invariant]
    pub open spec fn well_formed(self) -> bool {
        self@.wf()
    }

    /// The configuration that the store was made with.
    pub closed spec fn config(&self) -> ConfigView {
        self.config@
    }

    /// An empty store under the configuration that holds where nothing was configured.
    pub fn new() -> (storage: Storage)
        ensures
            storage@ == StorageView::empty(),
            storage@.wf(),
            storage.config() == ConfigView::default_config(),
    {
        Storage::with_config(Config::default())
    }

    /// An empty store under `config`.
    pub fn with_config(config: Config) -> (storage: Storage)
        ensures
            storage@ == StorageView::empty(),
            storage@.wf(),
            storage.config() == config@,
    {
        let storage = Storage { config, areas: Vec::new(), global: Vec::new() };
        storage
    }

    /// The directories that have to be there before anything is stored, from
    /// the base directory, which is the first of them.
    pub fn ensure_directories(&self) -> (dirs: Vec<String>)
        ensures
            texts(dirs@) == seq![""@, "sessions"@, "global"@ + "/"@ + "snapshots"@],
    {
        let mut dirs: Vec<String> = Vec::new();
        dirs.push(String::from_str(""));
        dirs.push(Config::sessions_dir());
        dirs.push(Config::global_snapshots_dir());
        dirs
    }

    /// Where the snapshot called `name` of the scope of `session` is kept,
    /// or that of the global scope where no session is given, from the base
    /// directory.
    pub fn snapshot_path(name: &str, session: Option<&Session>) -> (path: String)
        ensures
            path@ == (match session {
                Some(s) => "sessions"@ + "/"@ + uuid_text(s.id) + "/"@ + "snapshots"@,
                None => "global"@ + "/"@ + "snapshots"@,
            }) + "/"@ + name@ + ".json"@,
    {
        let mut path = match session {
            Some(s) => s.snapshots_dir(),
            None => Config::global_snapshots_dir(),
        };
        path.append("/");
        path.append(name);
        path.append(".json");
        path
    }

    /// The place of the area of the session `id`.
    fn find_area(&self, id: u128) -> (at: Option<usize>)
        ensures
            at is Some == first_where(self@.areas, of_session(id)) is Some,
            at is Some ==> first_where(self@.areas, of_session(id)) == Some(at->0 as int),
            at is Some ==> at->0 < self.areas@.len(),
    {
        locate_area(&self.areas, id)
    }

    /// Appends `entry` to the timeline of `session`.
    pub fn append_timeline(&mut self, session: &Session, entry: TimelineEntry)
        ensures
            final(self)@ == old(self)@.append(session.id, entry@),
            old(self)@.wf() && final(self)@.wf(),
            final(self).config() == old(self).config(),
    {
        proof {
            use_type_invariant(&*self);
        }
        let ghost before = self@;
        let mut areas: Vec<SessionArea> = Vec::new();
        std::mem::swap(&mut areas, &mut self.areas);
        let at = open_area(&mut areas, session.id);
        let ghost open = area_views(areas@);
        areas[at].timeline.push(entry);
        proof {
            let area = before.area(session.id);
            let grown = AreaView { timeline: area.timeline.push(entry@), ..area };
            assert(areas@[at as int]@ =~= grown);
            assert(area_views(areas@) =~= open.update(at as int, grown));
            lemma_with_area(before, grown, 0);
            lemma_opened(before.areas, session.id);
        }
        self.areas = areas;
    }

    /// All entries of the timeline of `session`, in the order in which they
    /// were appended. A session of which nothing was stored has none.
    pub fn read_timeline(&self, session: &Session) -> (entries: Vec<TimelineEntry>)
        ensures
            entry_views(entries@) == self@.timeline(session.id),
            self@.wf(),
    {
        proof {
            use_type_invariant(self);
        }
        match self.find_area(session.id) {
            Some(at) => copy_entries(&self.areas[at].timeline),
            None => {
                let entries: Vec<TimelineEntry> = Vec::new();
                entries
            },
        }
    }

    /// Keeps `metadata` as what was last captured of its session.
    pub fn save_metadata(&mut self, metadata: SessionMetadata)
        ensures
            final(self)@ == old(self)@.capture(metadata@),
            old(self)@.wf() && final(self)@.wf(),
            final(self).config() == old(self).config(),
    {
        proof {
            use_type_invariant(&*self);
        }
        let ghost before = self@;
        let ghost id = metadata.session.id;
        let mut areas: Vec<SessionArea> = Vec::new();
        std::mem::swap(&mut areas, &mut self.areas);
        let at = open_area(&mut areas, metadata.session.id);
        let ghost open = area_views(areas@);
        areas[at].metadata = Some(metadata);
        proof {
            let area = before.area(id);
            let kept = AreaView { metadata: Some(metadata@), ..area };
            assert(area_views(areas@) =~= open.update(at as int, kept));
            lemma_with_area(before, kept, 0);
            lemma_opened(before.areas, id);
        }
        self.areas = areas;
    }

    /// What was last captured of `session`, if anything was.
    pub fn load_metadata(&self, session: &Session) -> (metadata: Option<SessionMetadata>)
        ensures
            opt_metadata(metadata) == self@.area(session.id).metadata,
    {
        proof {
            lemma_opened(self@.areas, session.id);
        }
        match self.find_area(session.id) {
            Some(at) => match &self.areas[at].metadata {
                Some(m) => Some(m.clone()),
                None => None,
            },
            None => None,
        }
    }

    /// The last known value of `key` for `session`: the one in the environment
    /// that was last captured, if it has one; or else what the latest entry of
    /// the timeline for `key` leaves known.
    pub fn resolve_previous(&self, session: &Session, key: &str) -> (value: Option<String>)
        ensures
            opt_text(value) == self@.previous(session.id, key@),
    {
        proof {
            lemma_opened(self@.areas, session.id);
        }
        match self.find_area(session.id) {
            Some(at) => {
                let area = &self.areas[at];
                if let Some(m) = &area.metadata {
                    if let Some(v) = m.current_env.get(key) {
                        return Some(v.clone());
                    }
                }
                latest_known(&area.timeline, key)
            },
            None => {
                proof {
                    lemma_last_where_none(AreaView::blank(session.id).timeline, mentions(key@));
                }
                None
            },
        }
    }

    /// The session of the process `pid` as it was last captured, if any
    /// capture is for that process. This looks into every session in turn.
    pub fn session_for_pid(&self, pid: u32) -> (session: Option<Session>)
        ensures
            opt_session(session) == self@.session_of_pid(pid),
    {
        let ghost views = self@.areas;
        let mut i: usize = 0;
        while i < self.areas.len()
            invariant
                i <= self.areas@.len(),
                views == self@.areas,
                forall|j: int| 0 <= j < i ==> !captured_for(pid)(#[trigger] views[j]),
            decreases self.areas@.len() - i,
        {
            if let Some(m) = &self.areas[i].metadata {
                if m.session.pid == pid {
                    proof {
                        lemma_first_where(views, captured_for(pid), i as int);
                    }
                    return Some(m.session.clone());
                }
            }
            i = i + 1;
        }
        proof {
            lemma_first_where_none(views, captured_for(pid));
        }
        None
    }

    /// The identifiers of the sessions that anything is stored for, in the
    /// order of their areas.
    pub fn session_ids(&self) -> (ids: Vec<u128>)
        ensures
            ids@ == Seq::new(self@.areas.len(), |i: int| self@.areas[i].id),
    {
        let mut ids: Vec<u128> = Vec::new();
        let mut i: usize = 0;
        while i < self.areas.len()
            invariant
                i <= self.areas@.len(),
                ids@ == Seq::new(i as nat, |k: int| self@.areas[k].id),
            decreases self.areas@.len() - i,
        {
            ids.push(self.areas[i].id);
            i = i + 1;
        }
        ids
    }

    /// Saves `snapshot` in the scope of `session`, or in the global scope
    /// where none is given. It takes the place of one of the same name in
    /// that scope.
    pub fn save_snapshot(&mut self, snapshot: Snapshot, session: Option<&Session>)
        ensures
            final(self)@ == old(self)@.save(scope_of(session), snapshot@),
            old(self)@.wf() && final(self)@.wf(),
            final(self).config() == old(self).config(),
    {
        proof {
            use_type_invariant(&*self);
        }
        let ghost before = self@;
        match session {
            Some(sess) => {
                let mut areas: Vec<SessionArea> = Vec::new();
                std::mem::swap(&mut areas, &mut self.areas);
                let at = open_area(&mut areas, sess.id);
                let ghost open = area_views(areas@);
                put_snapshot(&mut areas[at].snapshots, snapshot);
                proof {
                    let area = before.area(sess.id);
                    let kept = AreaView { snapshots: with_snapshot(area.snapshots, snapshot@), ..area };
                    lemma_opened(before.areas, sess.id);
                    assert(area_views(areas@) =~= open.update(at as int, kept));
                    lemma_with_area(before, kept, 0);
                    lemma_with_snapshot(area.snapshots, snapshot@, snapshot@.name);
                }
                self.areas = areas;
            },
            None => {
                let mut global: Vec<Snapshot> = Vec::new();
                std::mem::swap(&mut global, &mut self.global);
                put_snapshot(&mut global, snapshot);
                proof {
                    lemma_with_snapshot(before.global, snapshot@, snapshot@.name);
                }
                self.global = global;
            },
        }
    }

    /// The snapshot called `name`. It is looked for in the scope of
    /// `session`, then in the global scope; asked for in the global scope, it
    /// is looked for there and then in every session in turn, which takes time
    /// in proportion to the number of sessions.
    pub fn load_snapshot(&self, name: &str, session: Option<&Session>) -> (found: Result<Snapshot, StorageError>)
        ensures
            match found {
                Ok(s) => self@.load(scope_of(session), name@) == Some(s@),
                Err(e) => self@.load(scope_of(session), name@) is None && is_not_found(e, name@),
            },
    {
        proof {
            use_type_invariant(self);
        }
        match session {
            Some(sess) => {
                proof {
                    lemma_opened(self@.areas, sess.id);
                }
                if let Some(at) = self.find_area(sess.id) {
                    if let Some(s) = pick_snapshot(&self.areas[at].snapshots, name) {
                        return Ok(s);
                    }
                } else {
                    proof {
                        lemma_first_where_none(AreaView::blank(sess.id).snapshots, called(name@));
                    }
                }
                match pick_snapshot(&self.global, name) {
                    Some(s) => Ok(s),
                    None => Err(not_found(name)),
                }
            },
            None => {
                if let Some(s) = pick_snapshot(&self.global, name) {
                    return Ok(s);
                }
                let found = self.find_snapshot_in_sessions(name);
                proof {
                    if first_where(self@.areas, holding(name@)) is Some {
                        lemma_slot_of_area(self@.areas, first_where(self@.areas, holding(name@))->0);
                    }
                }
                found
            },
        }
    }

    /// The snapshot called `name` of the first session that holds one.
    /// This looks into every session in turn.
    fn find_snapshot_in_sessions(&self, name: &str) -> (found: Result<Snapshot, StorageError>)
        ensures
            match found {
                Ok(s) => first_where(self@.areas, holding(name@)) is Some && Some(s@) == by_name(
                    self@.areas[first_where(self@.areas, holding(name@))->0].snapshots,
                    name@,
                ),
                Err(e) => first_where(self@.areas, holding(name@)) is None && is_not_found(e, name@),
            },
    {
        let ghost views = self@.areas;
        let mut i: usize = 0;
        while i < self.areas.len()
            invariant
                i <= self.areas@.len(),
                views == self@.areas,
                forall|j: int| 0 <= j < i ==> !holding(name@)(#[trigger] views[j]),
            decreases self.areas@.len() - i,
        {
            match pick_snapshot(&self.areas[i].snapshots, name) {
                Some(s) => {
                    proof {
                        lemma_first_where(views, holding(name@), i as int);
                    }
                    return Ok(s);
                },
                None => {},
            }
            i = i + 1;
        }
        proof {
            lemma_first_where_none(views, holding(name@));
        }
        Err(not_found(name))
    }

    /// The snapshots of one scope, the newest first: those of the scope of
    /// `session`, or those of the global scope where none is given.
    pub fn list_snapshots(&self, session: Option<&Session>) -> (list: Vec<Snapshot>)
        ensures
            in_listing_order(snapshot_views(list@), self@.snapshots(scope_of(session))),
            snapshot_views(list@).to_multiset() == self@.snapshots(scope_of(session)).to_multiset(),
            self@.wf(),
    {
        proof {
            use_type_invariant(self);
        }
        let mut list: Vec<Snapshot> = Vec::new();
        let ghost nothing = snapshot_views(list@);
        match session {
            Some(sess) => {
                proof {
                    lemma_opened(self@.areas, sess.id);
                }
                if let Some(at) = self.find_area(sess.id) {
                    insert_all_by_age(&mut list, self.areas[at].snapshots.as_slice());
                }
            },
            None => {
                insert_all_by_age(&mut list, self.global.as_slice());
            },
        }
        proof {
            assert(nothing + self@.snapshots(scope_of(session)) =~= self@.snapshots(scope_of(session)));
            lemma_listing_is_a_permutation(snapshot_views(list@), self@.snapshots(scope_of(session)));
        }
        list
    }

    /// Deletes the snapshot called `name`. It is taken from the scope of
    /// `session` if it is there, else from the global scope, else from the
    /// first session that holds one, and the scope that it was taken from is
    /// returned. Where there is none, the store stays as it is and the error
    /// says so.
    pub fn delete_snapshot(&mut self, name: &str, session: Option<&Session>) -> (done: Result<
        Option<u128>,
        StorageError,
    >)
        ensures
            final(self)@ == old(self)@.delete(scope_of(session), name@),
            old(self)@.wf() && final(self)@.wf(),
            final(self).config() == old(self).config(),
            match done {
                Ok(place) => old(self)@.deleted_from(scope_of(session), name@) == Some(place),
                Err(e) => old(self)@.deleted_from(scope_of(session), name@) is None && is_not_found(e, name@)
                    && final(self)@ == old(self)@,
            },
    {
        proof {
            use_type_invariant(&*self);
        }
        let ghost before = self@;
        let mut areas: Vec<SessionArea> = Vec::new();
        std::mem::swap(&mut areas, &mut self.areas);
        if let Some(sess) = session {
            proof {
                lemma_opened(before.areas, sess.id);
            }
            if let Some(i) = locate_area(&areas, sess.id) {
                if drop_snapshot(&mut areas[i].snapshots, name) {
                    proof {
                        let area = before.area(sess.id);
                        let kept = AreaView { snapshots: without_snapshot(area.snapshots, name@), ..area };
                        assert(area_views(areas@) =~= before.areas.update(i as int, kept));
                        lemma_with_area(before, kept, 0);
                        lemma_without_snapshot(area.snapshots, name@, name@);
                    }
                    self.areas = areas;
                    return Ok(Some(sess.id));
                }
                proof {
                    assert(area_views(areas@) =~= before.areas);
                }
            } else {
                proof {
                    lemma_first_where_none(AreaView::blank(sess.id).snapshots, called(name@));
                }
            }
        }
        self.areas = areas;
        let mut global: Vec<Snapshot> = Vec::new();
        std::mem::swap(&mut global, &mut self.global);
        let found = drop_snapshot(&mut global, name);
        proof {
            lemma_without_snapshot(before.global, name@, name@);
        }
        self.global = global;
        if found {
            return Ok(None);
        }
        let mut areas: Vec<SessionArea> = Vec::new();
        std::mem::swap(&mut areas, &mut self.areas);
        let mut i: usize = 0;
        while i < areas.len()
            invariant
                i <= areas@.len(),
                area_views(areas@) == before.areas,
                self@.global == before.global,
                self.areas@.len() == 0,
                self.config == old(self).config,
                before.wf(),
                before == old(self)@,
                by_name(before.snapshots(scope_of(session)), name@) is None,
                by_name(before.global, name@) is None,
                forall|j: int| 0 <= j < i ==> !holding(name@)(#[trigger] before.areas[j]),
            decreases areas@.len() - i,
        {
            if drop_snapshot(&mut areas[i].snapshots, name) {
                let place = areas[i].id;
                proof {
                    lemma_first_where(before.areas, holding(name@), i as int);
                    let id = before.areas[i as int].id;
                    lemma_slot_of_area(before.areas, i as int);
                    let area = before.area(id);
                    let kept = AreaView { snapshots: without_snapshot(area.snapshots, name@), ..area };
                    assert(area_views(areas@) =~= before.areas.update(i as int, kept));
                    lemma_with_area(before, kept, 0);
                    lemma_without_snapshot(area.snapshots, name@, name@);
                }
                self.areas = areas;
                return Ok(Some(place));
            }
            i = i + 1;
        }
        proof {
            lemma_first_where_none(before.areas, holding(name@));
        }
        self.areas = areas;
        Err(not_found(name))
    }
}

} // verus!
