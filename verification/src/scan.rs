//! The full scan: from the entries that a walk of the workspace met to the
//! snapshot of the workspace.

use vstd::prelude::*;
use crate::ignore_rules::{ignores, IgnoreMatcher, RuleSet};
use crate::index::{
    after_entry, dir_key, dir_record, dirs_staying, file_key, file_record, files_staying,
    lemma_scan_wf, scan_of, IndexManager, IndexSnapshot, PathState, SnapshotView, WalkedEntry,
    WalkedRecord,
};
use crate::model::{DirRecord, FileRecord};
use crate::paths::{is_internal_key, key_of, relative_key};
use crate::progress::{IndexingProgress, ProgressRecord};
use crate::seqs::{
    count_of, has_key, lemma_filter_drops_key, lemma_filter_keeps_all, lemma_filter_keeps_key,
    lemma_push_has_key, lemma_views_push, lemma_views_take_all, lemma_views_take_next, views,
};
use crate::tree::{entries_of, forest_sorted, lemma_tree_sorted, tree_of};
use crate::tree_count::{
    lemma_snapshot_entries, lemma_snapshot_tree_keys, lemma_tree_counts, tally, Counted,
};

verus! {

/// Whether a walked entry is recorded in the snapshot: it is a file or a
/// directory, and it lies in the workspace, below its root and outside the
/// internal-data directory.
pub open spec fn recorded(workspace: Seq<char>, entry: WalkedRecord) -> bool {
    &&& entry.state is File || entry.state is Directory
    &&& key_of(workspace, entry.path) is Some
    &&& key_of(workspace, entry.path).unwrap().len() > 0
    &&& !is_internal_key(key_of(workspace, entry.path).unwrap())
}

/// The walked entries that are recorded as files.
pub open spec fn recorded_files(workspace: Seq<char>) -> spec_fn(WalkedRecord) -> bool {
    |entry: WalkedRecord| recorded(workspace, entry) && entry.state is File
}

/// The walked entries that are recorded as directories.
pub open spec fn recorded_directories(workspace: Seq<char>) -> spec_fn(WalkedRecord) -> bool {
    |entry: WalkedRecord| recorded(workspace, entry) && entry.state is Directory
}

/// Whether a walk met no key twice among the entries that are recorded.
pub open spec fn met_once(workspace: Seq<char>, walked: Seq<WalkedRecord>) -> bool {
    forall|i: int, j: int|
        0 <= i < j < walked.len() && recorded(workspace, #[trigger] walked[i]) && recorded(
            workspace,
            #[trigger] walked[j],
        ) ==> key_of(workspace, walked[i].path) != key_of(workspace, walked[j].path)
}

/// Whether every entry of the snapshot has the key of a recorded entry of
/// the walk.
spec fn from_walk(snap: SnapshotView, workspace: Seq<char>, walked: Seq<WalkedRecord>) -> bool {
    &&& forall|a: int|
        0 <= a < snap.files.len() ==> exists|i: int|
            0 <= i < walked.len() && recorded(workspace, #[trigger] walked[i]) && key_of(
                workspace,
                walked[i].path,
            ) == Some((#[trigger] snap.files[a]).path)
    &&& forall|a: int|
        0 <= a < snap.directories.len() ==> exists|i: int|
            0 <= i < walked.len() && recorded(workspace, #[trigger] walked[i]) && key_of(
                workspace,
                walked[i].path,
            ) == Some((#[trigger] snap.directories[a]).path)
}

/// Each recorded entry of a walk that met no key twice adds one entry to
/// the snapshot, and the snapshot holds nothing else.
proof fn lemma_scan_from_walk(workspace: Seq<char>, walked: Seq<WalkedRecord>)
    requires
        met_once(workspace, walked),
    ensures
        from_walk(scan_of(workspace, walked), workspace, walked),
        scan_of(workspace, walked).files.len() == count_of(walked, recorded_files(workspace)),
        scan_of(workspace, walked).directories.len() == count_of(
            walked,
            recorded_directories(workspace),
        ),
    decreases walked.len(),
{
    if walked.len() > 0 {
        let before = walked.drop_last();
        let entry = walked.last();
        let n = before.len() as int;
        assert(met_once(workspace, before)) by {
            assert forall|i: int, j: int|
                0 <= i < j < before.len() && recorded(workspace, #[trigger] before[i])
                    && recorded(workspace, #[trigger] before[j]) implies key_of(
                workspace,
                before[i].path,
            ) != key_of(workspace, before[j].path) by {
                assert(before[i] == walked[i] && before[j] == walked[j]);
            }
        }
        lemma_scan_from_walk(workspace, before);
        let snap = scan_of(workspace, before);
        let next = scan_of(workspace, walked);
        if recorded(workspace, entry) {
            let key = key_of(workspace, entry.path).unwrap();
            assert forall|a: int| 0 <= a < snap.files.len() implies files_staying(key, false)(
                #[trigger] snap.files[a],
            ) by {
                let i = choose|i: int|
                    0 <= i < before.len() && recorded(workspace, #[trigger] before[i]) && key_of(
                        workspace,
                        before[i].path,
                    ) == Some(snap.files[a].path);
                assert(before[i] == walked[i]);
                assert(walked[n] == entry);
            }
            assert forall|a: int|
                0 <= a < snap.directories.len() implies dirs_staying(key, false)(
                #[trigger] snap.directories[a],
            ) by {
                let i = choose|i: int|
                    0 <= i < before.len() && recorded(workspace, #[trigger] before[i]) && key_of(
                        workspace,
                        before[i].path,
                    ) == Some(snap.directories[a].path);
                assert(before[i] == walked[i]);
                assert(walked[n] == entry);
            }
            lemma_filter_keeps_all(snap.files, files_staying(key, false));
            lemma_filter_keeps_all(snap.directories, dirs_staying(key, false));
            match entry.state {
                PathState::File { last_modified, size } => {
                    let rec = file_record(workspace, entry.path, last_modified, size).unwrap();
                    assert(next.files == snap.files.push(rec));
                    assert(next.directories == snap.directories);
                },
                _ => {
                    let rec = dir_record(workspace, entry.path).unwrap();
                    assert(next.directories == snap.directories.push(rec));
                    assert(next.files == snap.files);
                },
            }
        } else {
            assert(next == snap);
        }
        assert(from_walk(next, workspace, walked)) by {
            assert forall|a: int| 0 <= a < next.files.len() implies exists|i: int|
                0 <= i < walked.len() && recorded(workspace, #[trigger] walked[i]) && key_of(
                    workspace,
                    walked[i].path,
                ) == Some((#[trigger] next.files[a]).path) by {
                if a < snap.files.len() {
                    let i = choose|i: int|
                        0 <= i < before.len() && recorded(workspace, #[trigger] before[i])
                            && key_of(workspace, before[i].path) == Some(snap.files[a].path);
                    assert(walked[i] == before[i]);
                } else {
                    assert(walked[n] == entry);
                }
            }
            assert forall|a: int| 0 <= a < next.directories.len() implies exists|i: int|
                0 <= i < walked.len() && recorded(workspace, #[trigger] walked[i]) && key_of(
                    workspace,
                    walked[i].path,
                ) == Some((#[trigger] next.directories[a]).path) by {
                if a < snap.directories.len() {
                    let i = choose|i: int|
                        0 <= i < before.len() && recorded(workspace, #[trigger] before[i])
                            && key_of(workspace, before[i].path) == Some(
                            snap.directories[a].path,
                        );
                    assert(walked[i] == before[i]);
                } else {
                    assert(walked[n] == entry);
                }
            }
        }
    }
}

/// A walk that met no key twice leaves as many files in the snapshot as it
/// met files in the workspace outside the internal-data directory, and as
/// many directories as it met such directories.
pub proof fn lemma_scan_counts(workspace: Seq<char>, walked: Seq<WalkedRecord>)
    requires
        met_once(workspace, walked),
    ensures
        scan_of(workspace, walked).files.len() == count_of(walked, recorded_files(workspace)),
        scan_of(workspace, walked).directories.len() == count_of(
            walked,
            recorded_directories(workspace),
        ),
{
    lemma_scan_from_walk(workspace, walked);
}

/// After a full scan of a walk that met no key twice, the file tree holds
/// one file node for each file that the walk met in the workspace outside
/// the internal-data directory, and every level of the tree is in order.
pub proof fn lemma_scan_tree_files(workspace: Seq<char>, walked: Seq<WalkedRecord>)
    requires
        met_once(workspace, walked),
    ensures
        tally(tree_of(entries_of(scan_of(workspace, walked))), Counted::Files) == count_of(
            walked,
            recorded_files(workspace),
        ),
        forest_sorted(tree_of(entries_of(scan_of(workspace, walked)))),
{
    let snap = scan_of(workspace, walked);
    lemma_scan_counts(workspace, walked);
    lemma_scan_wf(workspace, walked);
    lemma_snapshot_entries(snap);
    lemma_tree_counts(entries_of(snap), Counted::Files);
    lemma_tree_sorted(entries_of(snap));
}

/// What a walk says last of the key `key`: that it is a file (`true`), that
/// it is a directory (`false`), or nothing where no recorded entry of the
/// walk has the key.
pub open spec fn standing(
    workspace: Seq<char>,
    walked: Seq<WalkedRecord>,
    key: Seq<char>,
) -> Option<bool>
    decreases walked.len(),
{
    if walked.len() == 0 {
        None
    } else if recorded(workspace, walked.last()) && key_of(workspace, walked.last().path) == Some(
        key,
    ) {
        Some(walked.last().state is File)
    } else {
        standing(workspace, walked.drop_last(), key)
    }
}

/// After a full scan the snapshot holds a file at a key exactly where the
/// walk says last of the key that it is a file, and a directory exactly
/// where the walk says last that it is a directory, whatever the walk met
/// and however often. As the snapshot is valid, it holds each of them once.
pub proof fn lemma_scan_holds_what_stands(
    workspace: Seq<char>,
    walked: Seq<WalkedRecord>,
    key: Seq<char>,
)
    ensures
        scan_of(workspace, walked).wf(),
        has_key(scan_of(workspace, walked).files, file_key(), key) <==> standing(
            workspace,
            walked,
            key,
        ) == Some(true),
        has_key(scan_of(workspace, walked).directories, dir_key(), key) <==> standing(
            workspace,
            walked,
            key,
        ) == Some(false),
    decreases walked.len(),
{
    lemma_scan_wf(workspace, walked);
    if walked.len() > 0 {
        let before = walked.drop_last();
        let entry = walked.last();
        lemma_scan_holds_what_stands(workspace, before, key);
        let snap = scan_of(workspace, before);
        let next = scan_of(workspace, walked);
        if recorded(workspace, entry) {
            let own = key_of(workspace, entry.path).unwrap();
            let fp = files_staying(own, false);
            let dp = dirs_staying(own, false);
            if key == own {
                assert forall|x: FileRecord| #[trigger] file_key()(x) == own implies !fp(x) by {}
                assert forall|x: DirRecord| #[trigger] dir_key()(x) == own implies !dp(x) by {}
                lemma_filter_drops_key(snap.files, file_key(), fp, own);
                lemma_filter_drops_key(snap.directories, dir_key(), dp, own);
            } else {
                assert forall|x: FileRecord| #[trigger] file_key()(x) == key implies fp(x) by {}
                assert forall|x: DirRecord| #[trigger] dir_key()(x) == key implies dp(x) by {}
                lemma_filter_keeps_key(snap.files, file_key(), fp, key);
                lemma_filter_keeps_key(snap.directories, dir_key(), dp, key);
            }
            match entry.state {
                PathState::File { last_modified, size } => {
                    let rec = file_record(workspace, entry.path, last_modified, size).unwrap();
                    assert(next.files == snap.files.filter(fp).push(rec));
                    assert(next.directories == snap.directories.filter(dp));
                    lemma_push_has_key(snap.files.filter(fp), file_key(), rec, key);
                    assert(file_key()(rec) == own);
                },
                _ => {
                    let rec = dir_record(workspace, entry.path).unwrap();
                    assert(next.directories == snap.directories.filter(dp).push(rec));
                    assert(next.files == snap.files.filter(fp));
                    lemma_push_has_key(snap.directories.filter(dp), dir_key(), rec, key);
                    assert(dir_key()(rec) == own);
                },
            }
        } else {
            assert(next == snap);
        }
    }
}

/// The walked entries that the rules do not leave out.
pub open spec fn not_ignored(rules: RuleSet) -> spec_fn(WalkedRecord) -> bool {
    |entry: WalkedRecord| !ignores(rules, entry.path, entry.state is Directory)
}

/// The state of a scan after it has visited one more entry.
pub open spec fn progress_after(
    progress: ProgressRecord,
    workspace: Seq<char>,
    entry: WalkedRecord,
) -> ProgressRecord {
    ProgressRecord {
        total: progress.total,
        processed: if progress.processed < usize::MAX {
            (progress.processed + 1) as usize
        } else {
            progress.processed
        },
        current_file: key_of(workspace, entry.path),
        completed: progress.completed,
    }
}

/// The state of a scan that has ended after `count` entries.
pub open spec fn progress_done(count: usize) -> ProgressRecord {
    ProgressRecord { total: count, processed: count, current_file: None, completed: true }
}

/// After a full scan, whatever the walk met and in whatever order, the file
/// tree holds exactly one file node for each key that the walk last met as
/// a file in the workspace outside the internal-data directory, and no file
/// node for any other key; it holds exactly one node for each key that the
/// walk recorded at all.
pub proof fn lemma_scan_tree_holds_what_stands(
    workspace: Seq<char>,
    walked: Seq<WalkedRecord>,
    key: Seq<char>,
)
    ensures
        tally(tree_of(entries_of(scan_of(workspace, walked))), Counted::File(key)) == if standing(
            workspace,
            walked,
            key,
        ) == Some(true) {
            1nat
        } else {
            0nat
        },
        tally(tree_of(entries_of(scan_of(workspace, walked))), Counted::Key(key)) == if standing(
            workspace,
            walked,
            key,
        ) is Some {
            1nat
        } else {
            0nat
        },
{
    lemma_scan_holds_what_stands(workspace, walked, key);
    lemma_snapshot_tree_keys(scan_of(workspace, walked), key);
    match standing(workspace, walked, key) {
        Some(is_file) => {
            assert(is_file || !is_file);
        },
        None => {},
    }
}

impl IndexManager {
    /// The walked entries that the rules of `matcher` do not leave out, in
    /// the order of the walk.
    pub fn filter_walked(matcher: &IgnoreMatcher, walked: &Vec<WalkedEntry>) -> (kept: Vec<
        WalkedEntry,
    >)
        ensures
            views(kept@) == views(walked@).filter(not_ignored(matcher@)),
    {
        let mut kept: Vec<WalkedEntry> = Vec::new();
        let mut i: usize = 0;
        let ghost keep = not_ignored(matcher@);
        proof {
            lemma_views_take_all(walked@);
            reveal(Seq::filter);
            assert(views(kept@) =~= Seq::<WalkedRecord>::empty());
        }
        while i < walked.len()
            invariant
                i <= walked.len(),
                keep == not_ignored(matcher@),
                views(kept@) == views(walked@.take(i as int)).filter(keep),
            decreases walked.len() - i,
        {
            let entry = &walked[i];
            let is_dir = matches!(entry.state, PathState::Directory);
            proof {
                lemma_views_take_next(walked@, i as int);
                views(walked@.take(i as int)).lemma_filter_push(entry@, keep);
            }
            if !matcher.should_ignore(entry.path.as_str(), is_dir) {
                let copy = WalkedEntry { path: entry.path.clone(), state: entry.state };
                proof {
                    lemma_views_push(kept@, copy);
                }
                kept.push(copy);
            }
            i += 1;
        }
        proof {
            lemma_views_take_all(walked@);
        }
        kept
    }

    /// One step of a scan: counts the entry, notes its key as the one being
    /// visited, and records it in the snapshot as `after_entry` says.
    pub fn record_entry(
        snapshot: &mut IndexSnapshot,
        progress: &mut IndexingProgress,
        workspace_path: &str,
        entry: &WalkedEntry,
    )
        ensures
            final(snapshot)@ == after_entry(old(snapshot)@, workspace_path@, entry@),
            final(snapshot).timestamp == old(snapshot).timestamp,
            final(progress)@ == progress_after(old(progress)@, workspace_path@, entry@),
    {
        if progress.processed < usize::MAX {
            progress.processed = progress.processed + 1;
        }
        progress.current_file = relative_key(workspace_path, entry.path.as_str());
        match entry.state {
            PathState::Missing => {},
            _ => {
                let _ = Self::trigger_incremental_update(
                    snapshot,
                    workspace_path,
                    entry.path.as_str(),
                    entry.state,
                );
            },
        }
    }

    /// The snapshot that a walk of the workspace leaves, entry by entry in
    /// the order of the walk. When the scan ends, `progress` says so: all
    /// entries counted, none being visited.
    pub fn perform_indexing(
        workspace_path: &str,
        walked: &Vec<WalkedEntry>,
        progress: &mut IndexingProgress,
    ) -> (snapshot: IndexSnapshot)
        ensures
            snapshot@ == scan_of(workspace_path@, views(walked@)),
            snapshot@.wf(),
            snapshot.timestamp == 0,
            final(progress)@ == progress_done(walked.len()),
    {
        let mut snapshot = IndexSnapshot::new();
        progress.total = walked.len();
        progress.processed = 0;
        progress.current_file = None;
        progress.completed = false;
        let mut i: usize = 0;
        proof {
            lemma_views_take_all(walked@);
        }
        while i < walked.len()
            invariant
                i <= walked.len(),
                snapshot@ == scan_of(workspace_path@, views(walked@.take(i as int))),
                snapshot.timestamp == 0,
                progress.total == walked.len(),
                progress.processed == i,
                !progress.completed,
            decreases walked.len() - i,
        {
            proof {
                lemma_views_take_next(walked@, i as int);
                assert(views(walked@.take(i + 1)).drop_last() =~= views(walked@.take(i as int)));
            }
            Self::record_entry(&mut snapshot, progress, workspace_path, &walked[i]);
            i += 1;
        }
        progress.completed = true;
        progress.current_file = None;
        proof {
            lemma_views_take_all(walked@);
            lemma_scan_wf(workspace_path@, views(walked@));
        }
        snapshot
    }
}

} // verus!
