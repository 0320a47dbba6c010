//! From raw filesystem notifications to updates of the index.
//!
//! A raw notification is classified as a `FileEvent` or dropped. Events are
//! collected, the latest one per path, until the workspace has been quiet
//! for the debounce window. What is then flushed is held against the ignore
//! rules, and each event that stays asks for one update of the index and one
//! notice to the outside.

use vstd::prelude::*;
use crate::ignore_rules::{ignores, IgnoreMatcher, RuleSet};
use crate::paths::{in_internal_dir, is_internal_key, key_of, relative_key};
use crate::seqs::{
    distinct_by, lemma_filter_distinct, lemma_filter_drops_key, lemma_filter_members,
    lemma_push_distinct, lemma_views_push, lemma_views_take_all, lemma_views_take_next, views,
};
use crate::text::{owned, str_eq};

verus! {

/// How long a workspace must be quiet before its collected events are
/// flushed, in milliseconds.
pub const DEBOUNCE_MS: u64 = 300;

/// A change in the workspace, by full path.
#[derive(Debug, PartialEq, Eq)]
pub enum FileEvent {
    Created(String),
    Modified(String),
    Deleted(String),
    /// A rename, from the first path to the second.
    Renamed(String, String),
}

/// What a `FileEvent` stands for.
pub enum EventRecord {
    Created(Seq<char>),
    Modified(Seq<char>),
    Deleted(Seq<char>),
    Renamed(Seq<char>, Seq<char>),
}

impl EventRecord {
    /// The path under which the event is collected: the path it names, and
    /// for a rename the new path.
    pub open spec fn key(self) -> Seq<char> {
        match self {
            EventRecord::Created(p) => p,
            EventRecord::Modified(p) => p,
            EventRecord::Deleted(p) => p,
            EventRecord::Renamed(_, p) => p,
        }
    }
}

impl View for FileEvent {
    type V = EventRecord;

    open spec fn view(&self) -> EventRecord {
        match self {
            FileEvent::Created(p) => EventRecord::Created(p@),
            FileEvent::Modified(p) => EventRecord::Modified(p@),
            FileEvent::Deleted(p) => EventRecord::Deleted(p@),
            FileEvent::Renamed(a, b) => EventRecord::Renamed(a@, b@),
        }
    }
}

impl Clone for FileEvent {
    fn clone(&self) -> (r: Self)
        ensures
            r == *self,
    {
        match self {
            FileEvent::Created(p) => FileEvent::Created(p.clone()),
            FileEvent::Modified(p) => FileEvent::Modified(p.clone()),
            FileEvent::Deleted(p) => FileEvent::Deleted(p.clone()),
            FileEvent::Renamed(a, b) => FileEvent::Renamed(a.clone(), b.clone()),
        }
    }
}

impl FileEvent {
    /// The path under which the event is collected.
    pub fn key(&self) -> (r: &String)
        ensures
            r@ == self@.key(),
    {
        match self {
            FileEvent::Created(p) => p,
            FileEvent::Modified(p) => p,
            FileEvent::Deleted(p) => p,
            FileEvent::Renamed(_, p) => p,
        }
    }
}

/// The kind of a raw notification.
#[derive(Debug, Clone, Copy, PartialEq, Eq, Structural)]
pub enum RawEventKind {
    /// Something was created.
    Create,
    /// The content of a file changed.
    ModifyData,
    /// The metadata of a file changed.
    ModifyMetadata,
    /// A rename, reported with the old and the new path together.
    RenameBoth,
    /// Another kind of modification, such as one half of a rename.
    ModifyOther,
    /// Something was removed.
    Remove,
    /// A file that was open for writing was closed.
    AccessCloseWrite,
    /// Another kind of access.
    AccessOther,
    /// Anything else.
    Other,
}

/// A raw notification: its kind and the paths it names.
#[derive(Debug, PartialEq, Eq)]
pub struct RawEvent {
    pub kind: RawEventKind,
    pub paths: Vec<String>,
}

/// Whether `path` lies in the internal-data directory of `workspace`.
pub open spec fn in_lore_dir(path: Seq<char>, workspace: Seq<char>) -> bool {
    match key_of(workspace, path) {
        None => false,
        Some(key) => is_internal_key(key),
    }
}

/// Whether `path` lies in the internal-data directory of `workspace_path`.
pub fn is_in_lore_dir(path: &str, workspace_path: &str) -> (r: bool)
    ensures
        r == in_lore_dir(path@, workspace_path@),
{
    match relative_key(workspace_path, path) {
        None => false,
        Some(key) => in_internal_dir(key.as_str()),
    }
}

/// Whether one of the paths lies in the internal-data directory.
pub open spec fn any_in_lore_dir(paths: Seq<Seq<char>>, workspace: Seq<char>) -> bool {
    exists|i: int| 0 <= i < paths.len() && in_lore_dir(#[trigger] paths[i], workspace)
}

/// The event that a raw notification stands for, if it stands for one.
///
/// A notification that names a path in the internal-data directory is
/// dropped. So is one that names no path, a rename that does not name both
/// paths, and every kind that is not listed here. Closing a file after
/// writing counts as a modification.
pub open spec fn classified(
    workspace: Seq<char>,
    kind: RawEventKind,
    paths: Seq<Seq<char>>,
) -> Option<EventRecord> {
    if any_in_lore_dir(paths, workspace) {
        None
    } else {
        match kind {
            RawEventKind::Create => if paths.len() >= 1 {
                Some(EventRecord::Created(paths[0]))
            } else {
                None
            },
            RawEventKind::ModifyData | RawEventKind::ModifyMetadata
            | RawEventKind::AccessCloseWrite => if paths.len() >= 1 {
                Some(EventRecord::Modified(paths[0]))
            } else {
                None
            },
            RawEventKind::RenameBoth => if paths.len() >= 2 {
                Some(EventRecord::Renamed(paths[0], paths[1]))
            } else {
                None
            },
            RawEventKind::Remove => if paths.len() >= 1 {
                Some(EventRecord::Deleted(paths[0]))
            } else {
                None
            },
            _ => None,
        }
    }
}

/// Turns the raw notifications of one workspace into events.
#[derive(Debug)]
pub struct FileSystemEventHandler {
    pub workspace_path: String,
}

impl FileSystemEventHandler {
    fn names_lore_dir(&self, paths: &Vec<String>) -> (r: bool)
        ensures
            r == any_in_lore_dir(views(paths@), self.workspace_path@),
    {
        let mut i: usize = 0;
        while i < paths.len()
            invariant
                i <= paths.len(),
                forall|k: int| 0 <= k < i ==> !in_lore_dir(paths@[k]@, self.workspace_path@),
            decreases paths.len() - i,
        {
            if is_in_lore_dir(paths[i].as_str(), self.workspace_path.as_str()) {
                assert(in_lore_dir(views(paths@)[i as int], self.workspace_path@));
                return true;
            }
            i += 1;
        }
        assert(!any_in_lore_dir(views(paths@), self.workspace_path@)) by {
            if any_in_lore_dir(views(paths@), self.workspace_path@) {
                let k = choose|k: int|
                    0 <= k < views(paths@).len() && in_lore_dir(
                        #[trigger] views(paths@)[k],
                        self.workspace_path@,
                    );
                assert(views(paths@)[k] == paths@[k]@);
            }
        }
        false
    }

    /// The event that a raw notification stands for, if it stands for one.
    pub fn handle_event(&self, event: &RawEvent) -> (r: Option<FileEvent>)
        ensures
            match r {
                Some(e) => classified(self.workspace_path@, event.kind, views(event.paths@))
                    == Some(e@),
                None => classified(self.workspace_path@, event.kind, views(event.paths@))
                    is None,
            },
    {
        if self.names_lore_dir(&event.paths) {
            return None;
        }
        let n = event.paths.len();
        match event.kind {
            RawEventKind::Create => {
                if n >= 1 {
                    Some(FileEvent::Created(event.paths[0].clone()))
                } else {
                    None
                }
            },
            RawEventKind::ModifyData | RawEventKind::ModifyMetadata
            | RawEventKind::AccessCloseWrite => {
                if n >= 1 {
                    Some(FileEvent::Modified(event.paths[0].clone()))
                } else {
                    None
                }
            },
            RawEventKind::RenameBoth => {
                if n >= 2 {
                    Some(FileEvent::Renamed(event.paths[0].clone(), event.paths[1].clone()))
                } else {
                    None
                }
            },
            RawEventKind::Remove => {
                if n >= 1 {
                    Some(FileEvent::Deleted(event.paths[0].clone()))
                } else {
                    None
                }
            },
            _ => None,
        }
    }
}

/// The events that are not collected under the path `key`.
pub open spec fn other_than(key: Seq<char>) -> spec_fn(EventRecord) -> bool {
    |e: EventRecord| e.key() != key
}

/// The events that are collected under the path `key`.
pub open spec fn those_of(key: Seq<char>) -> spec_fn(EventRecord) -> bool {
    |e: EventRecord| e.key() == key
}

/// The collected events after `e` came in: `e` takes the place of whatever
/// was collected under its path, and stands last.
pub open spec fn coalesced(pending: Seq<EventRecord>, e: EventRecord) -> Seq<EventRecord> {
    pending.filter(other_than(e.key())).push(e)
}

/// The collected events after `events` came in, one after the other.
pub open spec fn coalesced_all(pending: Seq<EventRecord>, events: Seq<EventRecord>) -> Seq<
    EventRecord,
>
    decreases events.len(),
{
    if events.len() == 0 {
        pending
    } else {
        coalesced(coalesced_all(pending, events.drop_last()), events.last())
    }
}

/// The path under which an event is collected.
pub open spec fn event_key() -> spec_fn(EventRecord) -> Seq<char> {
    |e: EventRecord| e.key()
}

/// Whether at most one event is collected under each path.
pub open spec fn one_event_per_path(pending: Seq<EventRecord>) -> bool {
    distinct_by(pending, event_key())
}

/// Where at most one event is collected under each path, this stays so
/// when an event comes in.
pub proof fn lemma_coalesced_one_per_path(pending: Seq<EventRecord>, e: EventRecord)
    requires
        one_event_per_path(pending),
    ensures
        one_event_per_path(coalesced(pending, e)),
{
    let keep = other_than(e.key());
    lemma_filter_distinct(pending, event_key(), keep);
    assert forall|x: EventRecord| #[trigger] event_key()(x) == e.key() implies !keep(x) by {}
    lemma_filter_drops_key(pending, event_key(), keep, e.key());
    lemma_push_distinct(pending.filter(keep), event_key(), e);
}

/// Once an event has come in, exactly one event is collected under its
/// path: that event.
pub proof fn lemma_coalesced_single(pending: Seq<EventRecord>, e: EventRecord)
    ensures
        coalesced(pending, e).filter(those_of(e.key())) == seq![e],
{
    let rest = pending.filter(other_than(e.key()));
    let mine = rest.filter(those_of(e.key()));
    lemma_filter_members(pending, other_than(e.key()));
    lemma_filter_members(rest, those_of(e.key()));
    if mine.len() > 0 {
        assert(mine.contains(mine[0]));
        assert(rest.contains(mine[0]));
    }
    rest.lemma_filter_push(e, those_of(e.key()));
    assert(mine.push(e) =~= seq![e]);
}

/// However many events come in for one path, they collapse into one: the
/// latest. Nothing else is then collected under that path.
pub proof fn lemma_burst_collapses(
    pending: Seq<EventRecord>,
    events: Seq<EventRecord>,
    path: Seq<char>,
)
    requires
        events.len() > 0,
        forall|i: int| 0 <= i < events.len() ==> (#[trigger] events[i]).key() == path,
    ensures
        coalesced_all(pending, events).filter(those_of(path)) == seq![events.last()],
{
    lemma_coalesced_single(coalesced_all(pending, events.drop_last()), events.last());
}

/// A burst of events for one path, coming in while nothing is collected,
/// leaves exactly one collected event: the latest.
pub proof fn lemma_burst_from_empty(events: Seq<EventRecord>, path: Seq<char>)
    requires
        events.len() > 0,
        forall|i: int| 0 <= i < events.len() ==> (#[trigger] events[i]).key() == path,
    ensures
        coalesced_all(Seq::empty(), events) == seq![events.last()],
    decreases events.len(),
{
    let before = coalesced_all(Seq::empty(), events.drop_last());
    let rest = before.filter(other_than(path));
    lemma_filter_members(before, other_than(path));
    if events.len() > 1 {
        lemma_burst_from_empty(events.drop_last(), path);
        assert(before[0].key() == path);
    }
    if rest.len() > 0 {
        assert(rest.contains(rest[0]));
        assert(before.contains(rest[0]));
        let k = choose|k: int| 0 <= k < before.len() && before[k] == rest[0];
        assert(before[k].key() == path);
    }
    assert(rest.push(events.last()) =~= seq![events.last()]);
}

/// What a `Debouncer` stands for.
pub struct DebouncerView {
    pub pending: Seq<EventRecord>,
    pub last_event_ms: u64,
    pub window_ms: u64,
}

impl DebouncerView {
    /// Whether the collected events are to be flushed at `now_ms`: there are
    /// some, and none came in during the last window.
    pub open spec fn due(self, now_ms: u64) -> bool {
        self.pending.len() > 0 && now_ms >= self.last_event_ms && now_ms - self.last_event_ms
            >= self.window_ms
    }
}

/// Collects events, the latest one per path, until the workspace is quiet.
#[derive(Debug)]
pub struct Debouncer {
    pending: Vec<FileEvent>,
    last_event_ms: u64,
    window_ms: u64,
}

impl View for Debouncer {
    type V = DebouncerView;

    closed spec fn view(&self) -> DebouncerView {
        DebouncerView {
            pending: views(self.pending@),
            last_event_ms: self.last_event_ms,
            window_ms: self.window_ms,
        }
    }
}

impl Debouncer {
    /// At most one event is collected under each path.
    #[verifier::type_invariant]
    spec fn latest_only(self) -> bool {
        one_event_per_path(views(self.pending@))
    }

    /// A debouncer that has collected nothing, with the given window.
    pub fn new(window_ms: u64) -> (r: Debouncer)
        ensures
            r@ == (DebouncerView { pending: Seq::empty(), last_event_ms: 0, window_ms }),
    {
        let pending: Vec<FileEvent> = Vec::new();
        assert(views(pending@) =~= Seq::<EventRecord>::empty());
        Debouncer { pending, last_event_ms: 0, window_ms }
    }

    /// How many events are collected.
    pub fn pending_len(&self) -> (r: usize)
        ensures
            r == self@.pending.len(),
    {
        self.pending.len()
    }

    /// Takes in an event that was seen at `now_ms`.
    pub fn push(&mut self, event: FileEvent, now_ms: u64)
        ensures
            final(self)@ == (DebouncerView {
                pending: coalesced(old(self)@.pending, event@),
                last_event_ms: now_ms,
                window_ms: old(self)@.window_ms,
            }),
    {
        let mut kept: Vec<FileEvent> = Vec::new();
        let mut i: usize = 0;
        let ghost keep = other_than(event@.key());
        proof {
            use_type_invariant(&*self);
            lemma_coalesced_one_per_path(views(self.pending@), event@);
            lemma_views_take_all(self.pending@);
            reveal(Seq::filter);
            assert(views(kept@) =~= Seq::<EventRecord>::empty());
        }
        while i < self.pending.len()
            invariant
                i <= self.pending.len(),
                keep == other_than(event@.key()),
                views(kept@) == views(self.pending@.take(i as int)).filter(keep),
            decreases self.pending.len() - i,
        {
            let e = &self.pending[i];
            proof {
                lemma_views_take_next(self.pending@, i as int);
                views(self.pending@.take(i as int)).lemma_filter_push(e@, keep);
                lemma_views_push(kept@, *e);
            }
            if !str_eq(e.key().as_str(), event.key().as_str()) {
                kept.push(e.clone());
            }
            i += 1;
        }
        proof {
            lemma_views_take_all(self.pending@);
            lemma_views_push(kept@, event);
        }
        kept.push(event);
        self.pending = kept;
        self.last_event_ms = now_ms;
    }

    /// Whether the collected events are to be flushed at `now_ms`.
    pub fn is_due(&self, now_ms: u64) -> (r: bool)
        ensures
            r == self@.due(now_ms),
    {
        self.pending.len() > 0 && now_ms >= self.last_event_ms && now_ms - self.last_event_ms
            >= self.window_ms
    }

    /// Hands out the collected events, in the order in which they stand, if
    /// they are due at `now_ms`; the debouncer has then collected nothing.
    /// Before that it hands out nothing and keeps what it has. No two of
    /// the events handed out are for the same path.
    pub fn take_due(&mut self, now_ms: u64) -> (r: Vec<FileEvent>)
        ensures
            old(self)@.due(now_ms) ==> views(r@) == old(self)@.pending && final(self)@ == (
            DebouncerView {
                pending: Seq::empty(),
                last_event_ms: old(self)@.last_event_ms,
                window_ms: old(self)@.window_ms,
            }),
            !old(self)@.due(now_ms) ==> r@.len() == 0 && final(self)@ == old(self)@,
            one_event_per_path(views(r@)),
    {
        proof {
            use_type_invariant(&*self);
        }
        if self.is_due(now_ms) {
            let empty: Vec<FileEvent> = Vec::new();
            assert(views(empty@) =~= Seq::<EventRecord>::empty());
            let mut full = Debouncer {
                pending: empty,
                last_event_ms: self.last_event_ms,
                window_ms: self.window_ms,
            };
            core::mem::swap(self, &mut full);
            full.pending
        } else {
            let out: Vec<FileEvent> = Vec::new();
            assert(views(out@) =~= Seq::<EventRecord>::empty());
            out
        }
    }

    /// Drops what is collected: nothing of it will be flushed.
    pub fn discard(&mut self)
        ensures
            final(self)@ == (DebouncerView {
                pending: Seq::empty(),
                last_event_ms: old(self)@.last_event_ms,
                window_ms: old(self)@.window_ms,
            }),
    {
        self.pending = Vec::new();
        assert(views(self.pending@) =~= Seq::<EventRecord>::empty());
    }
}

/// What is told to the outside about a change, by key.
#[derive(Debug, PartialEq, Eq)]
pub enum ChangeNotice {
    FileModified { path: String },
    FileDeleted { path: String },
    FileRenamed { old_path: String, new_path: String },
}

/// What a `ChangeNotice` stands for.
pub enum NoticeRecord {
    FileModified { path: Seq<char> },
    FileDeleted { path: Seq<char> },
    FileRenamed { old_path: Seq<char>, new_path: Seq<char> },
}

impl View for ChangeNotice {
    type V = NoticeRecord;

    open spec fn view(&self) -> NoticeRecord {
        match self {
            ChangeNotice::FileModified { path } => NoticeRecord::FileModified { path: path@ },
            ChangeNotice::FileDeleted { path } => NoticeRecord::FileDeleted { path: path@ },
            ChangeNotice::FileRenamed { old_path, new_path } => NoticeRecord::FileRenamed {
                old_path: old_path@,
                new_path: new_path@,
            },
        }
    }
}

/// What one flushed event asks for: the update of the index for one path,
/// then one notice to the outside.
#[derive(Debug, PartialEq, Eq)]
pub struct WatcherAction {
    /// The full path to bring the index up to date with.
    pub update_path: String,
    /// What to tell the outside.
    pub notice: ChangeNotice,
}

/// What a `WatcherAction` stands for.
pub struct ActionRecord {
    pub update_path: Seq<char>,
    pub notice: NoticeRecord,
}

impl View for WatcherAction {
    type V = ActionRecord;

    open spec fn view(&self) -> ActionRecord {
        ActionRecord { update_path: self.update_path@, notice: self.notice@ }
    }
}

/// A flushed event together with whether its path is now a directory.
#[derive(Debug, PartialEq, Eq)]
pub struct ObservedEvent {
    pub event: FileEvent,
    pub is_dir: bool,
}

/// What an `ObservedEvent` stands for.
pub struct ObservedRecord {
    pub event: EventRecord,
    pub is_dir: bool,
}

impl View for ObservedEvent {
    type V = ObservedRecord;

    open spec fn view(&self) -> ObservedRecord {
        ObservedRecord { event: self.event@, is_dir: self.is_dir }
    }
}

/// Whether a flushed event is dropped: the path that the index is to be
/// brought up to date with, for a rename the new path, lies outside the
/// workspace or is left out by the rules. A rename out of the internal-data
/// directory is dropped too, wherever it leads; whether the rules leave out
/// the old path of a rename does not count.
pub open spec fn dropped(rules: RuleSet, observed: ObservedRecord) -> bool {
    match observed.event {
        EventRecord::Renamed(old_path, new_path) => key_of(rules.root, new_path) is None
            || in_lore_dir(old_path, rules.root) || ignores(rules, new_path, observed.is_dir),
        _ => key_of(rules.root, observed.event.key()) is None || ignores(
            rules,
            observed.event.key(),
            observed.is_dir,
        ),
    }
}

/// What is told of a rename from `old_path` to the key `new_key`: a rename
/// with both keys, or, where the old path lies outside the workspace and
/// has no key, that the new path has changed.
pub open spec fn rename_notice(rules: RuleSet, old_path: Seq<char>, new_key: Seq<char>) -> NoticeRecord {
    match key_of(rules.root, old_path) {
        Some(old_key) => NoticeRecord::FileRenamed { old_path: old_key, new_path: new_key },
        None => NoticeRecord::FileModified { path: new_key },
    }
}

/// What a flushed event asks for, if it is not dropped. The index is
/// brought up to date with the path that the event names, for a rename with
/// the new path; the notice names the keys.
pub open spec fn planned(rules: RuleSet, observed: ObservedRecord) -> Option<ActionRecord> {
    if dropped(rules, observed) {
        None
    } else {
        Some(
            match observed.event {
                EventRecord::Created(p) => ActionRecord {
                    update_path: p,
                    notice: NoticeRecord::FileModified { path: key_of(rules.root, p).unwrap() },
                },
                EventRecord::Modified(p) => ActionRecord {
                    update_path: p,
                    notice: NoticeRecord::FileModified { path: key_of(rules.root, p).unwrap() },
                },
                EventRecord::Deleted(p) => ActionRecord {
                    update_path: p,
                    notice: NoticeRecord::FileDeleted { path: key_of(rules.root, p).unwrap() },
                },
                EventRecord::Renamed(a, b) => ActionRecord {
                    update_path: b,
                    notice: rename_notice(rules, a, key_of(rules.root, b).unwrap()),
                },
            },
        )
    }
}

/// What a batch of flushed events asks for, in the order of the events.
pub open spec fn planned_all(rules: RuleSet, batch: Seq<ObservedRecord>) -> Seq<ActionRecord>
    decreases batch.len(),
{
    if batch.len() == 0 {
        Seq::empty()
    } else {
        let before = planned_all(rules, batch.drop_last());
        match planned(rules, batch.last()) {
            Some(a) => before.push(a),
            None => before,
        }
    }
}

/// Whatever the rules are, an event for a path in the internal-data
/// directory asks for nothing.
pub proof fn lemma_internal_event_dropped(rules: RuleSet, observed: ObservedRecord)
    requires
        in_lore_dir(observed.event.key(), rules.root),
    ensures
        planned(rules, observed) is None,
{
}

/// Whatever the rules are, a rename out of the internal-data directory or
/// into it asks for nothing.
pub proof fn lemma_internal_rename_dropped(
    rules: RuleSet,
    old_path: Seq<char>,
    new_path: Seq<char>,
    is_dir: bool,
)
    requires
        in_lore_dir(old_path, rules.root) || in_lore_dir(new_path, rules.root),
    ensures
        planned(rules, ObservedRecord { event: EventRecord::Renamed(old_path, new_path), is_dir })
            is None,
{
}

/// A rename whose new path lies in the workspace and is not left out brings
/// the index up to date with the new path, whatever the rules say of the
/// old path.
pub proof fn lemma_rename_follows_new_path(
    rules: RuleSet,
    old_path: Seq<char>,
    new_path: Seq<char>,
    is_dir: bool,
)
    requires
        key_of(rules.root, new_path) is Some,
        !ignores(rules, new_path, is_dir),
        !in_lore_dir(old_path, rules.root),
    ensures
        planned(rules, ObservedRecord { event: EventRecord::Renamed(old_path, new_path), is_dir })
            == Some(
            ActionRecord {
                update_path: new_path,
                notice: rename_notice(rules, old_path, key_of(rules.root, new_path).unwrap()),
            },
        ),
{
}

/// One flushed event asks for at most one update and one notice, and for
/// exactly one of each unless it is dropped.
pub proof fn lemma_one_event_one_action(rules: RuleSet, observed: ObservedRecord)
    ensures
        planned_all(rules, seq![observed]).len() == if dropped(rules, observed) {
            0nat
        } else {
            1nat
        },
{
    let batch = seq![observed];
    assert(batch.drop_last() =~= Seq::<ObservedRecord>::empty());
    assert(batch.last() == observed);
    assert(planned_all(rules, batch.drop_last()).len() == 0);
}

/// However many events come in for one path before the flush, the flush
/// asks for one update of the index and one notice, and for none at all
/// where the path is left out.
pub proof fn lemma_burst_one_action(
    rules: RuleSet,
    events: Seq<EventRecord>,
    path: Seq<char>,
    is_dir: bool,
)
    requires
        events.len() > 0,
        forall|i: int| 0 <= i < events.len() ==> (#[trigger] events[i]).key() == path,
    ensures
        ({
            let flushed = coalesced_all(Seq::empty(), events);
            let seen = ObservedRecord { event: events.last(), is_dir };
            &&& flushed == seq![events.last()]
            &&& planned_all(rules, seq![seen]).len() == if dropped(rules, seen) {
                0nat
            } else {
                1nat
            }
        }),
{
    lemma_burst_from_empty(events, path);
    lemma_one_event_one_action(rules, ObservedRecord { event: events.last(), is_dir });
}

/// The watcher of one workspace.
pub struct FileSystemWatcher {
    path: String,
    debouncer: Debouncer,
}

impl FileSystemWatcher {
    /// The watcher of the workspace at `workspace_path`, with nothing collected.
    pub fn new(workspace_path: &str) -> (r: FileSystemWatcher)
        ensures
            r.path_of() == workspace_path@,
            r.collected() == (DebouncerView {
                pending: Seq::empty(),
                last_event_ms: 0,
                window_ms: DEBOUNCE_MS,
            }),
    {
        FileSystemWatcher { path: owned(workspace_path), debouncer: Debouncer::new(DEBOUNCE_MS) }
    }

    /// The path of the workspace that is watched.
    pub closed spec fn path_of(&self) -> Seq<char> {
        self.path@
    }

    /// What the watcher has collected.
    pub closed spec fn collected(&self) -> DebouncerView {
        self.debouncer@
    }

    /// The path of the workspace that is watched.
    pub fn path(&self) -> (r: &String)
        ensures
            r@ == self.path_of(),
    {
        &self.path
    }

    /// Takes in an event that was seen at `now_ms`.
    pub fn offer(&mut self, event: FileEvent, now_ms: u64)
        ensures
            final(self).path_of() == old(self).path_of(),
            final(self).collected() == (DebouncerView {
                pending: coalesced(old(self).collected().pending, event@),
                last_event_ms: now_ms,
                window_ms: old(self).collected().window_ms,
            }),
    {
        self.debouncer.push(event, now_ms);
    }

    /// Hands out what is to be flushed at `now_ms`: all that is collected
    /// once the workspace has been quiet for the window, nothing before.
    pub fn flush(&mut self, now_ms: u64) -> (r: Vec<FileEvent>)
        ensures
            final(self).path_of() == old(self).path_of(),
            old(self).collected().due(now_ms) ==> views(r@) == old(self).collected().pending
                && final(self).collected() == (DebouncerView {
                pending: Seq::empty(),
                last_event_ms: old(self).collected().last_event_ms,
                window_ms: old(self).collected().window_ms,
            }),
            !old(self).collected().due(now_ms) ==> r@.len() == 0 && final(self).collected()
                == old(self).collected(),
            one_event_per_path(views(r@)),
    {
        self.debouncer.take_due(now_ms)
    }

    /// Drops what is collected, as when the watcher is stopped.
    pub fn discard(&mut self)
        ensures
            final(self).path_of() == old(self).path_of(),
            final(self).collected() == (DebouncerView {
                pending: Seq::empty(),
                last_event_ms: old(self).collected().last_event_ms,
                window_ms: old(self).collected().window_ms,
            }),
    {
        self.debouncer.discard();
    }

    /// What one flushed event asks for, if it is not dropped.
    pub fn handle_file_change(matcher: &IgnoreMatcher, observed: &ObservedEvent) -> (r: Option<
        WatcherAction,
    >)
        ensures
            match r {
                Some(a) => planned(matcher@, observed@) == Some(a@),
                None => planned(matcher@, observed@) is None,
            },
    {
        let root = matcher.root();
        match &observed.event {
            FileEvent::Renamed(old_path, new_path) => {
                let new_key = match relative_key(root.as_str(), new_path.as_str()) {
                    None => {
                        return None;
                    },
                    Some(k) => k,
                };
                if is_in_lore_dir(old_path.as_str(), root.as_str()) || matcher.should_ignore(
                    new_path.as_str(),
                    observed.is_dir,
                ) {
                    return None;
                }
                let notice = match relative_key(root.as_str(), old_path.as_str()) {
                    Some(old_key) => ChangeNotice::FileRenamed {
                        old_path: old_key,
                        new_path: new_key,
                    },
                    None => ChangeNotice::FileModified { path: new_key },
                };
                Some(WatcherAction { update_path: new_path.clone(), notice })
            },
            other => {
                let path = other.key();
                let key = match relative_key(root.as_str(), path.as_str()) {
                    None => {
                        return None;
                    },
                    Some(k) => k,
                };
                if matcher.should_ignore(path.as_str(), observed.is_dir) {
                    return None;
                }
                let notice = match other {
                    FileEvent::Deleted(_) => ChangeNotice::FileDeleted { path: key },
                    _ => ChangeNotice::FileModified { path: key },
                };
                Some(WatcherAction { update_path: path.clone(), notice })
            },
        }
    }

    /// What a batch of flushed events asks for, in the order of the events.
    pub fn process_events(matcher: &IgnoreMatcher, batch: &Vec<ObservedEvent>) -> (r: Vec<
        WatcherAction,
    >)
        ensures
            views(r@) == planned_all(matcher@, views(batch@)),
    {
        let mut out: Vec<WatcherAction> = Vec::new();
        let mut i: usize = 0;
        proof {
            lemma_views_take_all(batch@);
            assert(views(out@) =~= Seq::<ActionRecord>::empty());
        }
        while i < batch.len()
            invariant
                i <= batch.len(),
                views(out@) == planned_all(matcher@, views(batch@.take(i as int))),
            decreases batch.len() - i,
        {
            proof {
                lemma_views_take_next(batch@, i as int);
                assert(views(batch@.take(i + 1)).drop_last() =~= views(batch@.take(i as int)));
            }
            match Self::handle_file_change(matcher, &batch[i]) {
                Some(action) => {
                    proof {
                        lemma_views_push(out@, action);
                    }
                    out.push(action);
                },
                None => {},
            }
            i += 1;
        }
        proof {
            lemma_views_take_all(batch@);
        }
        out
    }
}

} // verus!
