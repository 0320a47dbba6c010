//! The index of a workspace: its snapshot, the full scan that fills it and
//! the update that follows one changed path.

use vstd::prelude::*;
use crate::model::{
    type_of_name, DirRecord, EditorError, FileRecord, FileType, IndexedDirectory, IndexedFile,
};
use crate::paths::{
    covers, extension, extension_of, file_name, in_internal_dir, is_internal_key, is_under,
    key_of, name_of, relative_key,
};
use crate::seqs::{
    distinct_by, has_key, lemma_filter_distinct, lemma_filter_drops_key, lemma_filter_keeps_all,
    lemma_filter_members, lemma_push_distinct, lemma_views_push, lemma_views_take_all,
    lemma_views_take_next, views,
};
use crate::text::{chars_eq_ignore_ascii_case, chars_of, eq_ignore_ascii_case, owned, str_eq};

verus! {

/// What is found on disk at a path.
#[derive(Debug, Clone, Copy, PartialEq, Eq, Structural)]
pub enum PathState {
    /// A file, with the time of its last change and its size.
    File { last_modified: u64, size: u64 },
    /// A directory.
    Directory,
    /// Something that is neither a file nor a directory.
    Other,
    /// Nothing.
    Missing,
}

/// One entry that a walk of the workspace met.
#[derive(Debug, PartialEq, Eq)]
pub struct WalkedEntry {
    /// The full path of the entry.
    pub path: String,
    /// What the walk found there.
    pub state: PathState,
}

/// What a `WalkedEntry` stands for.
pub struct WalkedRecord {
    pub path: Seq<char>,
    pub state: PathState,
}

impl View for WalkedEntry {
    type V = WalkedRecord;

    open spec fn view(&self) -> WalkedRecord {
        WalkedRecord { path: self.path@, state: self.state }
    }
}

/// The files and directories of a workspace at one moment.
#[derive(Debug, PartialEq, Eq)]
pub struct IndexSnapshot {
    pub files: Vec<IndexedFile>,
    pub directories: Vec<IndexedDirectory>,
    /// When the snapshot was last written, in seconds since the epoch.
    pub timestamp: u64,
}

/// What an `IndexSnapshot` stands for.
pub struct SnapshotView {
    pub files: Seq<FileRecord>,
    pub directories: Seq<DirRecord>,
}

/// The key of a file record.
pub open spec fn file_key() -> spec_fn(FileRecord) -> Seq<char> {
    |f: FileRecord| f.path
}

/// The key of a directory record.
pub open spec fn dir_key() -> spec_fn(DirRecord) -> Seq<char> {
    |d: DirRecord| d.path
}

/// Whether an entry with the key `key` stays when `root` is removed: alone
/// (`subtree` false) or with all that lies below it (`subtree` true).
pub open spec fn stays(root: Seq<char>, subtree: bool, key: Seq<char>) -> bool {
    if subtree {
        !covers(root, key)
    } else {
        key != root
    }
}

/// The files that stay when `root` is removed.
pub open spec fn files_staying(root: Seq<char>, subtree: bool) -> spec_fn(FileRecord) -> bool {
    |f: FileRecord| stays(root, subtree, f.path)
}

/// The directories that stay when `root` is removed.
pub open spec fn dirs_staying(root: Seq<char>, subtree: bool) -> spec_fn(DirRecord) -> bool {
    |d: DirRecord| stays(root, subtree, d.path)
}

impl SnapshotView {
    /// The snapshot without entries.
    pub open spec fn empty() -> SnapshotView {
        SnapshotView { files: Seq::empty(), directories: Seq::empty() }
    }

    /// Whether the snapshot holds an entry, file or directory, with this key.
    pub open spec fn has(self, key: Seq<char>) -> bool {
        has_key(self.files, file_key(), key) || has_key(self.directories, dir_key(), key)
    }

    /// The invariant of a snapshot: no key occurs twice, among files and
    /// directories together, and no key lies in the internal-data directory.
    pub open spec fn wf(self) -> bool {
        &&& distinct_by(self.files, file_key())
        &&& distinct_by(self.directories, dir_key())
        &&& forall|i: int, j: int|
            0 <= i < self.files.len() && 0 <= j < self.directories.len() ==> (
            #[trigger] self.files[i]).path != (#[trigger] self.directories[j]).path
        &&& forall|i: int|
            0 <= i < self.files.len() ==> !is_internal_key((#[trigger] self.files[i]).path)
        &&& forall|j: int|
            0 <= j < self.directories.len() ==> !is_internal_key(
                (#[trigger] self.directories[j]).path,
            )
    }

    /// The snapshot without `root`: without the entry of that key, and with
    /// `subtree` without every entry below it.
    pub open spec fn without(self, root: Seq<char>, subtree: bool) -> SnapshotView {
        SnapshotView {
            files: self.files.filter(files_staying(root, subtree)),
            directories: self.directories.filter(dirs_staying(root, subtree)),
        }
    }

    /// The snapshot in which `rec` is the one entry of its key.
    pub open spec fn with_file(self, rec: FileRecord) -> SnapshotView {
        let rest = self.without(rec.path, false);
        SnapshotView { files: rest.files.push(rec), directories: rest.directories }
    }

    /// The snapshot in which `rec` is the one entry of its key.
    pub open spec fn with_directory(self, rec: DirRecord) -> SnapshotView {
        let rest = self.without(rec.path, false);
        SnapshotView { files: rest.files, directories: rest.directories.push(rec) }
    }
}

impl View for IndexSnapshot {
    type V = SnapshotView;

    open spec fn view(&self) -> SnapshotView {
        SnapshotView { files: views(self.files@), directories: views(self.directories@) }
    }
}

/// The name under which an entry is shown: the last segment of its path, or
/// `unnamed` where that segment is empty.
pub open spec fn display_name(path: Seq<char>) -> Seq<char> {
    if name_of(path).len() == 0 {
        "unnamed"@
    } else {
        name_of(path)
    }
}

/// The icon tag of a directory: the reserved folder name that its name
/// equals up to case, if there is one.
pub open spec fn special_folder_icon(name: Seq<char>) -> Option<Seq<char>> {
    if eq_ignore_ascii_case(name, "characters"@) {
        Some("characters"@)
    } else if eq_ignore_ascii_case(name, "lore"@) {
        Some("lore"@)
    } else if eq_ignore_ascii_case(name, "locations"@) {
        Some("locations"@)
    } else if eq_ignore_ascii_case(name, "story"@) {
        Some("story"@)
    } else if eq_ignore_ascii_case(name, "notes"@) {
        Some("notes"@)
    } else {
        None
    }
}

/// The record of the file at `path`, if `path` lies in the workspace.
pub open spec fn file_record(
    workspace: Seq<char>,
    path: Seq<char>,
    last_modified: u64,
    size: u64,
) -> Option<FileRecord> {
    match key_of(workspace, path) {
        None => None,
        Some(key) => Some(
            FileRecord {
                path: key,
                name: display_name(path),
                extension: extension_of(name_of(path)),
                file_type: type_of_name(name_of(path)),
                last_modified,
                size,
            },
        ),
    }
}

/// The record of the directory at `path`, if `path` lies in the workspace.
pub open spec fn dir_record(workspace: Seq<char>, path: Seq<char>) -> Option<DirRecord> {
    match key_of(workspace, path) {
        None => None,
        Some(key) => Some(
            DirRecord {
                path: key,
                name: display_name(path),
                icon: special_folder_icon(display_name(path)),
            },
        ),
    }
}

/// The snapshot after the path with the key `key` was seen in `state`.
/// Nothing changes for the workspace root that exists and for a key in the
/// internal-data directory. A file or directory becomes the one entry of its
/// key. A missing path leaves the snapshot with all that lay below it.
pub open spec fn after_change(
    snap: SnapshotView,
    workspace: Seq<char>,
    path: Seq<char>,
    key: Seq<char>,
    state: PathState,
) -> SnapshotView {
    if is_internal_key(key) {
        snap
    } else {
        match state {
            PathState::Missing => snap.without(key, true),
            PathState::File { last_modified, size } => if key.len() == 0 {
                snap
            } else {
                snap.with_file(file_record(workspace, path, last_modified, size).unwrap())
            },
            PathState::Directory => if key.len() == 0 {
                snap
            } else {
                snap.with_directory(dir_record(workspace, path).unwrap())
            },
            PathState::Other => snap,
        }
    }
}

/// The snapshot after one walked entry was recorded: a file or a directory
/// in the workspace becomes the one entry of its key; anything else, the
/// workspace root and what lies in the internal-data directory leave the
/// snapshot as it is.
pub open spec fn after_entry(snap: SnapshotView, workspace: Seq<char>, entry: WalkedRecord) -> SnapshotView {
    match key_of(workspace, entry.path) {
        None => snap,
        Some(key) => match entry.state {
            PathState::Missing => snap,
            _ => after_change(snap, workspace, entry.path, key, entry.state),
        },
    }
}

/// The snapshot that a walk of the workspace leaves.
pub open spec fn scan_of(workspace: Seq<char>, walked: Seq<WalkedRecord>) -> SnapshotView
    decreases walked.len(),
{
    if walked.len() == 0 {
        SnapshotView::empty()
    } else {
        after_entry(scan_of(workspace, walked.drop_last()), workspace, walked.last())
    }
}

/// Removing a key, alone or with what lies below it, keeps a snapshot valid
/// and leaves no entry of that key.
pub proof fn lemma_without_wf(snap: SnapshotView, root: Seq<char>, subtree: bool)
    requires
        snap.wf(),
    ensures
        snap.without(root, subtree).wf(),
        !snap.without(root, subtree).has(root),
{
    let r = snap.without(root, subtree);
    let fp = files_staying(root, subtree);
    let dp = dirs_staying(root, subtree);
    lemma_filter_distinct(snap.files, file_key(), fp);
    lemma_filter_distinct(snap.directories, dir_key(), dp);
    lemma_filter_members(snap.files, fp);
    lemma_filter_members(snap.directories, dp);
    assert forall|i: int| 0 <= i < r.files.len() implies snap.files.contains(
        #[trigger] r.files[i],
    ) by {
        assert(r.files.contains(r.files[i]));
    }
    assert forall|j: int| 0 <= j < r.directories.len() implies snap.directories.contains(
        #[trigger] r.directories[j],
    ) by {
        assert(r.directories.contains(r.directories[j]));
    }
    assert forall|x: FileRecord| #[trigger] file_key()(x) == root implies !fp(x) by {}
    assert forall|x: DirRecord| #[trigger] dir_key()(x) == root implies !dp(x) by {}
    lemma_filter_drops_key(snap.files, file_key(), fp, root);
    lemma_filter_drops_key(snap.directories, dir_key(), dp, root);
}

/// Making a file the one entry of its key keeps a snapshot valid.
pub proof fn lemma_with_file_wf(snap: SnapshotView, rec: FileRecord)
    requires
        snap.wf(),
        !is_internal_key(rec.path),
    ensures
        snap.with_file(rec).wf(),
{
    let rest = snap.without(rec.path, false);
    lemma_without_wf(snap, rec.path, false);
    assert(!has_key(rest.files, file_key(), file_key()(rec)));
    lemma_push_distinct(rest.files, file_key(), rec);
    let r = snap.with_file(rec);
    assert forall|i: int, j: int|
        0 <= i < r.files.len() && 0 <= j < r.directories.len() implies (#[trigger] r.files[i]).path
        != (#[trigger] r.directories[j]).path by {
        if i == rest.files.len() {
            assert(dir_key()(rest.directories[j]) != rec.path);
        }
    }
}

/// Making a directory the one entry of its key keeps a snapshot valid.
pub proof fn lemma_with_directory_wf(snap: SnapshotView, rec: DirRecord)
    requires
        snap.wf(),
        !is_internal_key(rec.path),
    ensures
        snap.with_directory(rec).wf(),
{
    let rest = snap.without(rec.path, false);
    lemma_without_wf(snap, rec.path, false);
    assert(!has_key(rest.directories, dir_key(), dir_key()(rec)));
    lemma_push_distinct(rest.directories, dir_key(), rec);
    let r = snap.with_directory(rec);
    assert forall|i: int, j: int|
        0 <= i < r.files.len() && 0 <= j < r.directories.len() implies (#[trigger] r.files[i]).path
        != (#[trigger] r.directories[j]).path by {
        if j == rest.directories.len() {
            assert(file_key()(rest.files[i]) != rec.path);
        }
    }
}

/// Whatever is seen at a path of the workspace, a valid snapshot stays valid.
pub proof fn lemma_after_change_wf(
    snap: SnapshotView,
    workspace: Seq<char>,
    path: Seq<char>,
    state: PathState,
)
    requires
        snap.wf(),
        key_of(workspace, path) is Some,
    ensures
        after_change(snap, workspace, path, key_of(workspace, path).unwrap(), state).wf(),
{
    let key = key_of(workspace, path).unwrap();
    if !is_internal_key(key) {
        match state {
            PathState::Missing => {
                lemma_without_wf(snap, key, true);
            },
            PathState::File { last_modified, size } => {
                if key.len() > 0 {
                    lemma_with_file_wf(
                        snap,
                        file_record(workspace, path, last_modified, size).unwrap(),
                    );
                }
            },
            PathState::Directory => {
                if key.len() > 0 {
                    lemma_with_directory_wf(snap, dir_record(workspace, path).unwrap());
                }
            },
            PathState::Other => {},
        }
    }
}

/// A walk leaves a valid snapshot.
pub proof fn lemma_scan_wf(workspace: Seq<char>, walked: Seq<WalkedRecord>)
    ensures
        scan_of(workspace, walked).wf(),
    decreases walked.len(),
{
    if walked.len() > 0 {
        lemma_scan_wf(workspace, walked.drop_last());
        let snap = scan_of(workspace, walked.drop_last());
        let entry = walked.last();
        if key_of(workspace, entry.path) is Some {
            lemma_after_change_wf(snap, workspace, entry.path, entry.state);
        }
    }
}

/// After a path is reported missing, the snapshot holds exactly the former
/// entries that the path does not cover, in their former order: an entry
/// stays unless its key is the path or continues it with a separator.
pub proof fn lemma_missing_removes_covered(snap: SnapshotView, key: Seq<char>)
    ensures
        forall|f: FileRecord| #[trigger]
            snap.without(key, true).files.contains(f) <==> (snap.files.contains(f) && !covers(
                key,
                f.path,
            )),
        forall|d: DirRecord| #[trigger]
            snap.without(key, true).directories.contains(d) <==> (snap.directories.contains(d)
                && !covers(key, d.path)),
{
    lemma_filter_members(snap.files, files_staying(key, true));
    lemma_filter_members(snap.directories, dirs_staying(key, true));
}

fn files_without(files: &Vec<IndexedFile>, root: &str, subtree: bool) -> (out: Vec<IndexedFile>)
    ensures
        views(out@) == views(files@).filter(files_staying(root@, subtree)),
{
    let mut out: Vec<IndexedFile> = Vec::new();
    let mut i: usize = 0;
    proof {
        lemma_views_take_all(files@);
        reveal(Seq::filter);
        assert(views(out@) =~= Seq::<FileRecord>::empty());
    }
    while i < files.len()
        invariant
            i <= files.len(),
            views(out@) == views(files@.take(i as int)).filter(files_staying(root@, subtree)),
        decreases files.len() - i,
    {
        let f = &files[i];
        let gone = if subtree {
            is_under(root, f.path.as_str())
        } else {
            str_eq(f.path.as_str(), root)
        };
        proof {
            lemma_views_take_next(files@, i as int);
            views(files@.take(i as int)).lemma_filter_push(f@, files_staying(root@, subtree));
            lemma_views_push(out@, *f);
        }
        if !gone {
            out.push(f.clone());
        }
        i += 1;
    }
    proof {
        lemma_views_take_all(files@);
    }
    out
}

fn directories_without(dirs: &Vec<IndexedDirectory>, root: &str, subtree: bool) -> (out: Vec<
    IndexedDirectory,
>)
    ensures
        views(out@) == views(dirs@).filter(dirs_staying(root@, subtree)),
{
    let mut out: Vec<IndexedDirectory> = Vec::new();
    let mut i: usize = 0;
    proof {
        lemma_views_take_all(dirs@);
        reveal(Seq::filter);
        assert(views(out@) =~= Seq::<DirRecord>::empty());
    }
    while i < dirs.len()
        invariant
            i <= dirs.len(),
            views(out@) == views(dirs@.take(i as int)).filter(dirs_staying(root@, subtree)),
        decreases dirs.len() - i,
    {
        let d = &dirs[i];
        let gone = if subtree {
            is_under(root, d.path.as_str())
        } else {
            str_eq(d.path.as_str(), root)
        };
        proof {
            lemma_views_take_next(dirs@, i as int);
            views(dirs@.take(i as int)).lemma_filter_push(d@, dirs_staying(root@, subtree));
            lemma_views_push(out@, *d);
        }
        if !gone {
            out.push(d.clone());
        }
        i += 1;
    }
    proof {
        lemma_views_take_all(dirs@);
    }
    out
}

fn shown_name(path: &str) -> (r: String)
    ensures
        r@ == display_name(path@),
{
    let name = file_name(path);
    if chars_of(name.as_str()).len() == 0 {
        owned("unnamed")
    } else {
        name
    }
}

fn folder_icon(name: &str) -> (r: Option<String>)
    ensures
        match r {
            Some(s) => special_folder_icon(name@) == Some(s@),
            None => special_folder_icon(name@) is None,
        },
{
    let n = chars_of(name);
    if chars_eq_ignore_ascii_case(&n, &chars_of("characters")) {
        Some(owned("characters"))
    } else if chars_eq_ignore_ascii_case(&n, &chars_of("lore")) {
        Some(owned("lore"))
    } else if chars_eq_ignore_ascii_case(&n, &chars_of("locations")) {
        Some(owned("locations"))
    } else if chars_eq_ignore_ascii_case(&n, &chars_of("story")) {
        Some(owned("story"))
    } else if chars_eq_ignore_ascii_case(&n, &chars_of("notes")) {
        Some(owned("notes"))
    } else {
        None
    }
}

impl IndexSnapshot {
    /// The snapshot without entries.
    pub fn new() -> (r: IndexSnapshot)
        ensures
            r@ == SnapshotView::empty(),
            r@.wf(),
            r.timestamp == 0,
    {
        let r = IndexSnapshot { files: Vec::new(), directories: Vec::new(), timestamp: 0 };
        assert(r@.files =~= Seq::<FileRecord>::empty());
        assert(r@.directories =~= Seq::<DirRecord>::empty());
        r
    }

    /// The same entries, marked as written at `now`.
    pub fn stamped(self, now: u64) -> (r: IndexSnapshot)
        ensures
            r@ == self@,
            r.files == self.files,
            r.directories == self.directories,
            r.timestamp == now,
    {
        IndexSnapshot { files: self.files, directories: self.directories, timestamp: now }
    }

    /// Whether the snapshot holds an entry, file or directory, with this key.
    pub fn contains_key(&self, key: &str) -> (r: bool)
        ensures
            r == self@.has(key@),
    {
        let mut i: usize = 0;
        while i < self.files.len()
            invariant
                i <= self.files.len(),
                forall|k: int| 0 <= k < i ==> self.files@[k].path@ != key@,
            decreases self.files.len() - i,
        {
            if str_eq(self.files[i].path.as_str(), key) {
                assert(file_key()(views(self.files@)[i as int]) == key@);
                return true;
            }
            i += 1;
        }
        let mut j: usize = 0;
        while j < self.directories.len()
            invariant
                j <= self.directories.len(),
                forall|k: int| 0 <= k < j ==> self.directories@[k].path@ != key@,
            decreases self.directories.len() - j,
        {
            if str_eq(self.directories[j].path.as_str(), key) {
                assert(dir_key()(views(self.directories@)[j as int]) == key@);
                return true;
            }
            j += 1;
        }
        assert(!has_key(self@.files, file_key(), key@)) by {
            if has_key(self@.files, file_key(), key@) {
                let k = choose|k: int|
                    0 <= k < self@.files.len() && file_key()(self@.files[k]) == key@;
                assert(self.files@[k].path@ == key@);
            }
        }
        assert(!has_key(self@.directories, dir_key(), key@)) by {
            if has_key(self@.directories, dir_key(), key@) {
                let k = choose|k: int|
                    0 <= k < self@.directories.len() && dir_key()(self@.directories[k]) == key@;
                assert(self.directories@[k].path@ == key@);
            }
        }
        false
    }

    fn file_is_new(&self, i: usize) -> (r: bool)
        requires
            i < self.files.len(),
        ensures
            r == (!is_internal_key(self@.files[i as int].path) && forall|j: int|
                0 <= j < i ==> (#[trigger] self@.files[j]).path != self@.files[i as int].path),
    {
        let path = self.files[i].path.as_str();
        if in_internal_dir(path) {
            return false;
        }
        let mut j: usize = 0;
        while j < i
            invariant
                j <= i < self.files.len(),
                path@ == self@.files[i as int].path,
                forall|k: int| 0 <= k < j ==> (#[trigger] self@.files[k]).path != path@,
            decreases i - j,
        {
            if str_eq(self.files[j].path.as_str(), path) {
                assert(self@.files[j as int].path == path@);
                return false;
            }
            j += 1;
        }
        true
    }

    fn directory_is_new(&self, i: usize) -> (r: bool)
        requires
            i < self.directories.len(),
        ensures
            r == (!is_internal_key(self@.directories[i as int].path) && (forall|j: int|
                0 <= j < i ==> (#[trigger] self@.directories[j]).path
                    != self@.directories[i as int].path) && (forall|j: int|
                0 <= j < self@.files.len() ==> (#[trigger] self@.files[j]).path
                    != self@.directories[i as int].path)),
    {
        let path = self.directories[i].path.as_str();
        if in_internal_dir(path) {
            return false;
        }
        let mut j: usize = 0;
        while j < i
            invariant
                j <= i < self.directories.len(),
                path@ == self@.directories[i as int].path,
                forall|k: int| 0 <= k < j ==> (#[trigger] self@.directories[k]).path != path@,
            decreases i - j,
        {
            if str_eq(self.directories[j].path.as_str(), path) {
                assert(self@.directories[j as int].path == path@);
                return false;
            }
            j += 1;
        }
        let mut f: usize = 0;
        while f < self.files.len()
            invariant
                f <= self.files.len(),
                i < self.directories.len(),
                path@ == self@.directories[i as int].path,
                forall|k: int| 0 <= k < i ==> (#[trigger] self@.directories[k]).path != path@,
                forall|k: int| 0 <= k < f ==> (#[trigger] self@.files[k]).path != path@,
            decreases self.files.len() - f,
        {
            if str_eq(self.files[f].path.as_str(), path) {
                assert(self@.files[f as int].path == path@);
                return false;
            }
            f += 1;
        }
        true
    }

    /// Whether the snapshot is valid: no key occurs twice, and no key lies
    /// in the internal-data directory.
    pub fn is_well_formed(&self) -> (r: bool)
        ensures
            r == self@.wf(),
    {
        let mut i: usize = 0;
        while i < self.files.len()
            invariant
                i <= self.files.len(),
                forall|a: int, b: int|
                    0 <= a < b < i ==> (#[trigger] self@.files[a]).path != (
                    #[trigger] self@.files[b]).path,
                forall|a: int| 0 <= a < i ==> !is_internal_key((#[trigger] self@.files[a]).path),
            decreases self.files.len() - i,
        {
            if !self.file_is_new(i) {
                proof {
                    let snap = self@;
                    if is_internal_key(snap.files[i as int].path) {
                    } else {
                        let j = choose|j: int|
                            0 <= j < i && (#[trigger] snap.files[j]).path
                                == snap.files[i as int].path;
                        assert(file_key()(snap.files[j]) == file_key()(snap.files[i as int]));
                    }
                }
                return false;
            }
            i += 1;
        }
        let mut d: usize = 0;
        while d < self.directories.len()
            invariant
                d <= self.directories.len(),
                forall|a: int, b: int|
                    0 <= a < b < d ==> (#[trigger] self@.directories[a]).path != (
                    #[trigger] self@.directories[b]).path,
                forall|a: int|
                    0 <= a < d ==> !is_internal_key((#[trigger] self@.directories[a]).path),
                forall|a: int, b: int|
                    0 <= a < self@.files.len() && 0 <= b < d ==> (#[trigger] self@.files[a]).path
                        != (#[trigger] self@.directories[b]).path,
                forall|a: int, b: int|
                    0 <= a < b < self@.files.len() ==> (#[trigger] self@.files[a]).path != (
                    #[trigger] self@.files[b]).path,
                forall|a: int|
                    0 <= a < self@.files.len() ==> !is_internal_key(
                        (#[trigger] self@.files[a]).path,
                    ),
            decreases self.directories.len() - d,
        {
            if !self.directory_is_new(d) {
                proof {
                    let snap = self@;
                    let path = snap.directories[d as int].path;
                    if is_internal_key(path) {
                    } else if exists|j: int|
                        0 <= j < d && (#[trigger] snap.directories[j]).path == path {
                        let j = choose|j: int|
                            0 <= j < d && (#[trigger] snap.directories[j]).path == path;
                        assert(dir_key()(snap.directories[j]) == dir_key()(
                            snap.directories[d as int],
                        ));
                    } else {
                        let j = choose|j: int|
                            0 <= j < snap.files.len() && (#[trigger] snap.files[j]).path == path;
                        assert(snap.files[j].path == snap.directories[d as int].path);
                    }
                }
                return false;
            }
            d += 1;
        }
        proof {
            let snap = self@;
            assert forall|a: int, b: int| 0 <= a < b < snap.files.len() implies file_key()(
                snap.files[a],
            ) != file_key()(snap.files[b]) by {
                assert(snap.files[a].path != snap.files[b].path);
            }
            assert forall|a: int, b: int| 0 <= a < b < snap.directories.len() implies dir_key()(
                snap.directories[a],
            ) != dir_key()(snap.directories[b]) by {
                assert(snap.directories[a].path != snap.directories[b].path);
            }
        }
        true
    }

    fn all_files_stay(&self, root: &str, subtree: bool) -> (r: bool)
        ensures
            r == forall|i: int|
                0 <= i < self@.files.len() ==> stays(
                    root@,
                    subtree,
                    (#[trigger] self@.files[i]).path,
                ),
    {
        let mut i: usize = 0;
        while i < self.files.len()
            invariant
                i <= self.files.len(),
                forall|k: int|
                    0 <= k < i ==> stays(root@, subtree, (#[trigger] self@.files[k]).path),
            decreases self.files.len() - i,
        {
            let path = self.files[i].path.as_str();
            let gone = if subtree {
                is_under(root, path)
            } else {
                str_eq(path, root)
            };
            if gone {
                assert(!stays(root@, subtree, self@.files[i as int].path));
                return false;
            }
            i += 1;
        }
        true
    }

    fn all_directories_stay(&self, root: &str, subtree: bool) -> (r: bool)
        ensures
            r == forall|i: int|
                0 <= i < self@.directories.len() ==> stays(
                    root@,
                    subtree,
                    (#[trigger] self@.directories[i]).path,
                ),
    {
        let mut i: usize = 0;
        while i < self.directories.len()
            invariant
                i <= self.directories.len(),
                forall|k: int|
                    0 <= k < i ==> stays(root@, subtree, (#[trigger] self@.directories[k]).path),
            decreases self.directories.len() - i,
        {
            let path = self.directories[i].path.as_str();
            let gone = if subtree {
                is_under(root, path)
            } else {
                str_eq(path, root)
            };
            if gone {
                assert(!stays(root@, subtree, self@.directories[i as int].path));
                return false;
            }
            i += 1;
        }
        true
    }

    fn remove(&mut self, root: &str, subtree: bool)
        ensures
            final(self)@ == old(self)@.without(root@, subtree),
            final(self).timestamp == old(self).timestamp,
    {
        if self.all_files_stay(root, subtree) {
            proof {
                lemma_filter_keeps_all(self@.files, files_staying(root@, subtree));
            }
        } else {
            self.files = files_without(&self.files, root, subtree);
        }
        if self.all_directories_stay(root, subtree) {
            proof {
                lemma_filter_keeps_all(self@.directories, dirs_staying(root@, subtree));
            }
        } else {
            self.directories = directories_without(&self.directories, root, subtree);
        }
    }

    fn put_file(&mut self, file: IndexedFile)
        ensures
            final(self)@ == old(self)@.with_file(file@),
            final(self).timestamp == old(self).timestamp,
    {
        self.remove(file.path.as_str(), false);
        proof {
            lemma_views_push(self.files@, file);
        }
        self.files.push(file);
    }

    fn put_directory(&mut self, dir: IndexedDirectory)
        ensures
            final(self)@ == old(self)@.with_directory(dir@),
            final(self).timestamp == old(self).timestamp,
    {
        self.remove(dir.path.as_str(), false);
        proof {
            lemma_views_push(self.directories@, dir);
        }
        self.directories.push(dir);
    }
}

/// The operations on the index of a workspace.
pub struct IndexManager;

impl IndexManager {
    /// The record of the file at `file_path`, seen with the given time of
    /// last change and size. Fails when the path is not in the workspace.
    pub fn index_file(
        workspace_path: &str,
        file_path: &str,
        last_modified: u64,
        size: u64,
    ) -> (r: Result<IndexedFile, EditorError>)
        ensures
            match r {
                Ok(f) => file_record(workspace_path@, file_path@, last_modified, size) == Some(
                    f@,
                ),
                Err(e) => key_of(workspace_path@, file_path@) is None && e.is_invalid_path(
                    file_path@,
                ),
            },
    {
        match relative_key(workspace_path, file_path) {
            None => Err(EditorError::InvalidPath(owned(file_path))),
            Some(key) => {
                let name = shown_name(file_path);
                let last = file_name(file_path);
                let ext = extension(last.as_str());
                let file_type = match FileType::from_path(file_path) {
                    Ok(t) => t,
                    Err(_) => FileType::Unknown,
                };
                Ok(
                    IndexedFile {
                        path: key,
                        name,
                        extension: ext,
                        file_type,
                        last_modified,
                        size,
                    },
                )
            },
        }
    }

    /// The record of the directory at `dir_path`. Fails when the path is not
    /// in the workspace.
    pub fn index_directory(workspace_path: &str, dir_path: &str) -> (r: Result<
        IndexedDirectory,
        EditorError,
    >)
        ensures
            match r {
                Ok(d) => dir_record(workspace_path@, dir_path@) == Some(d@),
                Err(e) => key_of(workspace_path@, dir_path@) is None && e.is_invalid_path(
                    dir_path@,
                ),
            },
    {
        match relative_key(workspace_path, dir_path) {
            None => Err(EditorError::InvalidPath(owned(dir_path))),
            Some(key) => {
                let name = shown_name(dir_path);
                let icon = folder_icon(name.as_str());
                Ok(IndexedDirectory { path: key, name, icon })
            },
        }
    }

    /// The snapshot to work on, given what is stored: the stored snapshot
    /// as it is, or the empty snapshot where nothing is stored yet.
    pub fn load_index(stored: Option<IndexSnapshot>) -> (r: IndexSnapshot)
        ensures
            match stored {
                Some(s) => r == s,
                None => r@ == SnapshotView::empty() && r.timestamp == 0,
            },
    {
        match stored {
            Some(s) => s,
            None => IndexSnapshot::new(),
        }
    }

    /// The snapshot to store at `now`: the same entries, with `now` as the
    /// time of writing. Loading what was stored gives these entries back.
    pub fn save_index(snapshot: IndexSnapshot, now: u64) -> (r: IndexSnapshot)
        ensures
            r@ == snapshot@,
            r.files == snapshot.files,
            r.directories == snapshot.directories,
            r.timestamp == now,
    {
        snapshot.stamped(now)
    }

    /// Brings the snapshot up to date with one changed path, seen in `state`.
    ///
    /// Fails, and leaves the snapshot as it is, when the path is not in the
    /// workspace. Otherwise the snapshot is what `after_change` says: a file
    /// or directory replaces the entry of its key, and a missing path takes
    /// with it every entry that it covers.
    pub fn trigger_incremental_update(
        snapshot: &mut IndexSnapshot,
        workspace_path: &str,
        changed_path: &str,
        state: PathState,
    ) -> (r: Result<(), EditorError>)
        ensures
            final(snapshot).timestamp == old(snapshot).timestamp,
            match r {
                Ok(_) => key_of(workspace_path@, changed_path@) is Some && final(snapshot)@
                    == after_change(
                    old(snapshot)@,
                    workspace_path@,
                    changed_path@,
                    key_of(workspace_path@, changed_path@).unwrap(),
                    state,
                ),
                Err(e) => key_of(workspace_path@, changed_path@) is None && final(snapshot)@
                    == old(snapshot)@ && e.is_invalid_path(changed_path@),
            },
            old(snapshot)@.wf() ==> final(snapshot)@.wf(),
    {
        let key = match relative_key(workspace_path, changed_path) {
            None => {
                return Err(EditorError::InvalidPath(owned(changed_path)));
            },
            Some(key) => key,
        };
        proof {
            if old(snapshot)@.wf() {
                lemma_after_change_wf(old(snapshot)@, workspace_path@, changed_path@, state);
            }
        }
        if in_internal_dir(key.as_str()) {
            return Ok(());
        }
        let at_root = chars_of(key.as_str()).len() == 0;
        match state {
            PathState::Missing => {
                snapshot.remove(key.as_str(), true);
            },
            PathState::File { last_modified, size } => {
                if !at_root {
                    match Self::index_file(workspace_path, changed_path, last_modified, size) {
                        Ok(file) => {
                            snapshot.put_file(file);
                        },
                        Err(_) => {},
                    }
                }
            },
            PathState::Directory => {
                if !at_root {
                    match Self::index_directory(workspace_path, changed_path) {
                        Ok(dir) => {
                            snapshot.put_directory(dir);
                        },
                        Err(_) => {},
                    }
                }
            },
            PathState::Other => {},
        }
        Ok(())
    }
}

} // verus!
