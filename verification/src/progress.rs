//! How far the scan of each workspace has come.

use vstd::prelude::*;
use crate::index::IndexManager;
use crate::model::{clone_opt, text_of, EditorError};
use crate::text::{owned, str_eq};

verus! {

/// The state of one scan.
#[derive(Debug, PartialEq, Eq)]
pub struct IndexingProgress {
    /// How many entries the scan will visit.
    pub total: usize,
    /// How many entries it has visited.
    pub processed: usize,
    /// The entry it is visiting, by its key.
    pub current_file: Option<String>,
    /// Whether the scan has ended.
    pub completed: bool,
}

/// What an `IndexingProgress` stands for.
pub struct ProgressRecord {
    pub total: usize,
    pub processed: usize,
    pub current_file: Option<Seq<char>>,
    pub completed: bool,
}

impl View for IndexingProgress {
    type V = ProgressRecord;

    open spec fn view(&self) -> ProgressRecord {
        ProgressRecord {
            total: self.total,
            processed: self.processed,
            current_file: text_of(self.current_file),
            completed: self.completed,
        }
    }
}

impl Clone for IndexingProgress {
    fn clone(&self) -> (r: Self)
        ensures
            r == *self,
    {
        IndexingProgress {
            total: self.total,
            processed: self.processed,
            current_file: clone_opt(&self.current_file),
            completed: self.completed,
        }
    }
}

impl ProgressRecord {
    /// The state of a scan that has visited nothing yet.
    pub open spec fn fresh() -> ProgressRecord {
        ProgressRecord { total: 0, processed: 0, current_file: None, completed: false }
    }
}

impl IndexingProgress {
    /// The state of a scan that has visited nothing yet.
    pub fn new() -> (r: IndexingProgress)
        ensures
            r@ == ProgressRecord::fresh(),
    {
        IndexingProgress { total: 0, processed: 0, current_file: None, completed: false }
    }

    /// Marks the scan as ended, whether it went through or failed: no entry
    /// is being visited any more, and the counts stay as they are.
    pub fn complete(&mut self)
        ensures
            final(self)@ == (ProgressRecord {
                total: old(self)@.total,
                processed: old(self)@.processed,
                current_file: None,
                completed: true,
            }),
    {
        self.completed = true;
        self.current_file = None;
    }
}

/// The progress of the scan of one workspace.
#[derive(Debug)]
pub struct ProgressSlot {
    workspace: String,
    progress: IndexingProgress,
}

/// The progress records of all workspaces, by workspace path. A workspace
/// has a record from its first scan on; a new scan overwrites it.
#[derive(Debug)]
pub struct ProgressTable {
    slots: Vec<ProgressSlot>,
}

/// The records that a list of slots holds: a later slot of a workspace
/// stands before an earlier one.
pub closed spec fn records_of(slots: Seq<ProgressSlot>) -> Map<Seq<char>, ProgressRecord>
    decreases slots.len(),
{
    if slots.len() == 0 {
        Map::empty()
    } else {
        records_of(slots.drop_last()).insert(slots.last().workspace@, slots.last().progress@)
    }
}

/// Replacing the last slot of a workspace replaces its record.
proof fn lemma_records_update(
    slots: Seq<ProgressSlot>,
    i: int,
    slot: ProgressSlot,
)
    requires
        0 <= i < slots.len(),
        slots[i].workspace@ == slot.workspace@,
        forall|j: int| i < j < slots.len() ==> slots[j].workspace@ != slot.workspace@,
    ensures
        records_of(slots.update(i, slot)) == records_of(slots).insert(
            slot.workspace@,
            slot.progress@,
        ),
    decreases slots.len(),
{
    let updated = slots.update(i, slot);
    if i == slots.len() - 1 {
        assert(updated.drop_last() =~= slots.drop_last());
        assert(records_of(updated) =~= records_of(slots).insert(slot.workspace@, slot.progress@));
    } else {
        lemma_records_update(slots.drop_last(), i, slot);
        assert(updated.drop_last() =~= slots.drop_last().update(i, slot));
        assert(updated.last() == slots.last());
        assert(records_of(updated) =~= records_of(slots).insert(slot.workspace@, slot.progress@));
    }
}

/// A workspace without a slot has no record.
proof fn lemma_records_lack(slots: Seq<ProgressSlot>, key: Seq<char>)
    requires
        forall|j: int| 0 <= j < slots.len() ==> slots[j].workspace@ != key,
    ensures
        !records_of(slots).contains_key(key),
    decreases slots.len(),
{
    if slots.len() > 0 {
        lemma_records_lack(slots.drop_last(), key);
    }
}

/// The record of a workspace is that of its last slot.
proof fn lemma_records_last_match(slots: Seq<ProgressSlot>, i: int)
    requires
        0 <= i < slots.len(),
        forall|j: int| i < j < slots.len() ==> slots[j].workspace@ != slots[i].workspace@,
    ensures
        records_of(slots).contains_key(slots[i].workspace@),
        records_of(slots)[slots[i].workspace@] == slots[i].progress@,
    decreases slots.len(),
{
    if i < slots.len() - 1 {
        lemma_records_last_match(slots.drop_last(), i);
    }
}

impl View for ProgressTable {
    type V = Map<Seq<char>, ProgressRecord>;

    closed spec fn view(&self) -> Map<Seq<char>, ProgressRecord> {
        records_of(self.slots@)
    }
}

impl ProgressTable {
    /// The table without records.
    pub fn new() -> (r: ProgressTable)
        ensures
            r@ == Map::<Seq<char>, ProgressRecord>::empty(),
    {
        ProgressTable { slots: Vec::new() }
    }

    fn position(&self, workspace: &str) -> (r: Option<usize>)
        ensures
            match r {
                Some(i) => i < self.slots.len() && self.slots@[i as int].workspace@ == workspace@
                    && forall|j: int|
                    i < j < self.slots.len() ==> self.slots@[j].workspace@ != workspace@,
                None => forall|j: int|
                    0 <= j < self.slots.len() ==> self.slots@[j].workspace@ != workspace@,
            },
    {
        let mut i: usize = self.slots.len();
        while i > 0
            invariant
                i <= self.slots.len(),
                forall|j: int| i <= j < self.slots.len() ==> self.slots@[j].workspace@ != workspace@,
            decreases i,
        {
            i -= 1;
            if str_eq(self.slots[i].workspace.as_str(), workspace) {
                return Some(i);
            }
        }
        None
    }

    /// Makes `progress` the record of `workspace`, in place of any earlier one.
    pub fn put(&mut self, workspace: &str, progress: IndexingProgress)
        ensures
            final(self)@ == old(self)@.insert(workspace@, progress@),
    {
        let slot = ProgressSlot { workspace: owned(workspace), progress };
        match self.position(workspace) {
            Some(i) => {
                proof {
                    lemma_records_update(self.slots@, i as int, slot);
                }
                self.slots[i] = slot;
            },
            None => {
                proof {
                    assert(self.slots@.push(slot).drop_last() =~= self.slots@);
                }
                self.slots.push(slot);
            },
        }
    }

    /// A copy of the record of `workspace`, if it has one.
    pub fn get(&self, workspace: &str) -> (r: Option<IndexingProgress>)
        ensures
            match r {
                Some(p) => self@.contains_key(workspace@) && self@[workspace@] == p@,
                None => !self@.contains_key(workspace@),
            },
    {
        match self.position(workspace) {
            Some(i) => {
                proof {
                    lemma_records_last_match(self.slots@, i as int);
                }
                Some(self.slots[i].progress.clone())
            },
            None => {
                proof {
                    lemma_records_lack(self.slots@, workspace@);
                }
                None
            },
        }
    }
}

impl IndexManager {
    /// Opens the record of a new scan of `workspace_path`: whatever the table
    /// held for that workspace, it now holds a scan that has visited nothing.
    /// The records of other workspaces stay as they are.
    pub fn start_indexing(table: &mut ProgressTable, workspace_path: &str) -> (r: Result<
        (),
        EditorError,
    >)
        ensures
            r is Ok,
            final(table)@ == old(table)@.insert(workspace_path@, ProgressRecord::fresh()),
    {
        table.put(workspace_path, IndexingProgress::new());
        Ok(())
    }

    /// A copy of the record of the scan of `workspace_path`, or nothing when
    /// no scan of that workspace was ever started.
    pub fn get_indexing_progress(table: &ProgressTable, workspace_path: &str) -> (r: Option<
        IndexingProgress,
    >)
        ensures
            match r {
                Some(p) => table@.contains_key(workspace_path@) && table@[workspace_path@] == p@,
                None => !table@.contains_key(workspace_path@),
            },
    {
        table.get(workspace_path)
    }
}

} // verus!
