//! The file tree that is shown to the user, built from a snapshot.
//!
//! Every entry of the snapshot becomes one node. A node hangs below the
//! entry whose key is the node's parent key; where the snapshot holds no
//! such entry, the node stands at the top. Every list of nodes is ordered:
//! directories before files, then by name.

use vstd::prelude::*;
use crate::index::{file_key, IndexManager, IndexSnapshot, SnapshotView};
use crate::model::{
    clone_opt, forest_of, icon_of_type, text_of, DirRecord, FileRecord, FileTreeItem, TreeNode,
};
use crate::paths::{lemma_parent_name_join, parent_key, parent_of};
use crate::text::{lemma_lex_le_total, lemma_lex_le_trans, lex_le, str_eq, str_le};
use crate::seqs::has_key;
use crate::tree_count::{
    lemma_snapshot_entries, lemma_snapshot_tree_keys, lemma_tree_counts, tally, Counted,
};

verus! {

/// The node of a file, with nothing below it.
pub open spec fn file_node(f: FileRecord) -> TreeNode {
    TreeNode {
        name: f.name,
        path: f.path,
        is_directory: false,
        icon: icon_of_type(f.file_type),
        children: Seq::empty(),
    }
}

/// The node of a directory, with nothing below it.
pub open spec fn dir_node(d: DirRecord) -> TreeNode {
    TreeNode { name: d.name, path: d.path, is_directory: true, icon: d.icon, children: Seq::empty() }
}

/// The nodes of a snapshot: those of its directories, then those of its files.
pub open spec fn entries_of(snap: SnapshotView) -> Seq<TreeNode> {
    Seq::new(
        snap.directories.len() + snap.files.len(),
        |i: int|
            if i < snap.directories.len() {
                dir_node(snap.directories[i])
            } else {
                file_node(snap.files[i - snap.directories.len()])
            },
    )
}

/// The order of the nodes of one list: a directory comes before a file, and
/// two nodes of one kind come in the order of their names.
pub open spec fn node_le(a: TreeNode, b: TreeNode) -> bool {
    if a.is_directory != b.is_directory {
        a.is_directory
    } else {
        lex_le(a.name, b.name)
    }
}

/// Whether a list of nodes is in order.
pub open spec fn sorted(s: Seq<TreeNode>) -> bool {
    forall|i: int, j: int| 0 <= i < j < s.len() ==> node_le(s[i], s[j])
}

/// Whether a list of trees is in order at every level.
pub open spec fn forest_sorted(s: Seq<TreeNode>) -> bool
    decreases s,
{
    &&& sorted(s)
    &&& forall|i: int| 0 <= i < s.len() ==> forest_sorted((#[trigger] s[i]).children)
}

/// `s` with `x` put behind the last node that does not come after it.
pub open spec fn insert_sorted(s: Seq<TreeNode>, x: TreeNode) -> Seq<TreeNode>
    decreases s.len(),
{
    if s.len() == 0 {
        seq![x]
    } else if node_le(s[0], x) {
        seq![s[0]] + insert_sorted(s.drop_first(), x)
    } else {
        seq![x] + s
    }
}

/// Whether some entry has the key `path`.
pub open spec fn has_path(entries: Seq<TreeNode>, path: Seq<char>) -> bool {
    exists|i: int| 0 <= i < entries.len() && (#[trigger] entries[i]).path == path
}

/// The length of the longest key among the entries.
pub open spec fn max_len(entries: Seq<TreeNode>) -> nat
    decreases entries.len(),
{
    if entries.len() == 0 {
        0
    } else {
        let m = max_len(entries.drop_last());
        if entries.last().path.len() > m {
            entries.last().path.len()
        } else {
            m
        }
    }
}

/// How much longer a key below `slot` can still get.
pub open spec fn room(entries: Seq<TreeNode>, slot: Option<Seq<char>>) -> nat {
    match slot {
        None => max_len(entries) + 1,
        Some(p) => if p.len() <= max_len(entries) {
            (max_len(entries) - p.len()) as nat
        } else {
            0
        },
    }
}

/// Whether the entry `e` hangs in `slot`: below the key `p` when its parent
/// key is `p`; at the top when it has no parent key, or no entry has that key.
pub open spec fn attached(entries: Seq<TreeNode>, e: TreeNode, slot: Option<Seq<char>>) -> bool {
    match slot {
        None => parent_of(e.path) is None || !has_path(entries, parent_of(e.path).unwrap()),
        Some(p) => parent_of(e.path) == Some(p),
    }
}

/// No key is longer than the longest.
pub proof fn lemma_max_len(entries: Seq<TreeNode>, i: int)
    requires
        0 <= i < entries.len(),
    ensures
        entries[i].path.len() <= max_len(entries),
    decreases entries.len(),
{
    if i < entries.len() - 1 {
        lemma_max_len(entries.drop_last(), i);
    }
}

/// The trees that hang in `slot`, built from the first `n` entries: each
/// entry that hangs there, with the trees that hang below its own key, put
/// in its place in the order.
pub open spec fn level(entries: Seq<TreeNode>, slot: Option<Seq<char>>, n: nat) -> Seq<TreeNode>
    decreases room(entries, slot), n,
{
    if n == 0 || n > entries.len() {
        Seq::empty()
    } else {
        let rest = level(entries, slot, (n - 1) as nat);
        let e = entries[n - 1];
        if attached(entries, e, slot) {
            proof {
                lemma_max_len(entries, n - 1);
                if slot is Some {
                    lemma_parent_name_join(e.path);
                }
            }
            insert_sorted(
                rest,
                TreeNode {
                    name: e.name,
                    path: e.path,
                    is_directory: e.is_directory,
                    icon: e.icon,
                    children: level(entries, Some(e.path), entries.len()),
                },
            )
        } else {
            rest
        }
    }
}

/// The file tree of a list of entries.
pub open spec fn tree_of(entries: Seq<TreeNode>) -> Seq<TreeNode> {
    level(entries, None, entries.len())
}

/// The order of nodes is total.
pub proof fn lemma_node_le_total(a: TreeNode, b: TreeNode)
    ensures
        node_le(a, b) || node_le(b, a),
{
    lemma_lex_le_total(a.name, b.name);
}

/// The order of nodes is transitive.
pub proof fn lemma_node_le_trans(a: TreeNode, b: TreeNode, c: TreeNode)
    requires
        node_le(a, b),
        node_le(b, c),
    ensures
        node_le(a, c),
{
    if a.is_directory == b.is_directory && b.is_directory == c.is_directory {
        lemma_lex_le_trans(a.name, b.name, c.name);
    }
}

/// What `insert_sorted` yields holds `x` and the nodes of `s`, each as often
/// as before; where `s` was in order, so is the result.
pub proof fn lemma_insert_sorted(s: Seq<TreeNode>, x: TreeNode)
    ensures
        insert_sorted(s, x).len() == s.len() + 1,
        forall|y: TreeNode| #[trigger]
            insert_sorted(s, x).contains(y) <==> (y == x || s.contains(y)),
        sorted(s) ==> sorted(insert_sorted(s, x)),
    decreases s.len(),
{
    let r = insert_sorted(s, x);
    if s.len() == 0 {
        assert(r[0] == x);
        assert forall|y: TreeNode| #[trigger] r.contains(y) <==> (y == x || s.contains(y)) by {
            if r.contains(y) {
                let i = choose|i: int| 0 <= i < r.len() && r[i] == y;
            }
        }
    } else if node_le(s[0], x) {
        let t = s.drop_first();
        let rt = insert_sorted(t, x);
        lemma_insert_sorted(t, x);
        assert forall|y: TreeNode| #[trigger] r.contains(y) <==> (y == x || s.contains(y)) by {
            if r.contains(y) {
                let i = choose|i: int| 0 <= i < r.len() && r[i] == y;
                if i == 0 {
                    assert(s[0] == y);
                } else {
                    assert(rt[i - 1] == y);
                    assert(rt.contains(y));
                    if y != x {
                        let j = choose|j: int| 0 <= j < t.len() && t[j] == y;
                        assert(s[j + 1] == y);
                    }
                }
            }
            if y == x {
                assert(rt.contains(x));
                let i = choose|i: int| 0 <= i < rt.len() && rt[i] == x;
                assert(r[i + 1] == x);
            } else if s.contains(y) {
                let j = choose|j: int| 0 <= j < s.len() && s[j] == y;
                if j == 0 {
                    assert(r[0] == y);
                } else {
                    assert(t[j - 1] == y);
                    assert(t.contains(y));
                    assert(rt.contains(y));
                    let i = choose|i: int| 0 <= i < rt.len() && rt[i] == y;
                    assert(r[i + 1] == y);
                }
            }
        }
        if sorted(s) {
            assert(sorted(t)) by {
                assert forall|i: int, j: int| 0 <= i < j < t.len() implies node_le(t[i], t[j]) by {
                    assert(t[i] == s[i + 1] && t[j] == s[j + 1]);
                }
            }
            assert forall|i: int, j: int| 0 <= i < j < r.len() implies node_le(r[i], r[j]) by {
                if i == 0 {
                    let y = rt[j - 1];
                    assert(r[j] == y);
                    assert(rt.contains(y));
                    if y != x {
                        let k = choose|k: int| 0 <= k < t.len() && t[k] == y;
                        assert(s[k + 1] == y);
                        assert(node_le(s[0], s[k + 1]));
                    }
                } else {
                    assert(r[i] == rt[i - 1] && r[j] == rt[j - 1]);
                }
            }
        }
    } else {
        assert forall|y: TreeNode| #[trigger] r.contains(y) <==> (y == x || s.contains(y)) by {
            if r.contains(y) {
                let i = choose|i: int| 0 <= i < r.len() && r[i] == y;
                if i > 0 {
                    assert(s[i - 1] == y);
                }
            }
            if y == x {
                assert(r[0] == x);
            } else if s.contains(y) {
                let j = choose|j: int| 0 <= j < s.len() && s[j] == y;
                assert(r[j + 1] == y);
            }
        }
        if sorted(s) {
            lemma_node_le_total(s[0], x);
            assert forall|i: int, j: int| 0 <= i < j < r.len() implies node_le(r[i], r[j]) by {
                if i == 0 {
                    assert(r[j] == s[j - 1]);
                    if j > 1 {
                        assert(node_le(s[0], s[j - 1]));
                        lemma_node_le_trans(x, s[0], s[j - 1]);
                    }
                } else {
                    assert(r[i] == s[i - 1] && r[j] == s[j - 1]);
                }
            }
        }
    }
}

/// Putting a tree that is in order into a list of such trees, itself in
/// order, leaves a list in order at every level.
pub proof fn lemma_insert_forest_sorted(s: Seq<TreeNode>, x: TreeNode)
    requires
        forest_sorted(s),
        forest_sorted(x.children),
    ensures
        forest_sorted(insert_sorted(s, x)),
{
    let r = insert_sorted(s, x);
    lemma_insert_sorted(s, x);
    assert forall|i: int| 0 <= i < r.len() implies forest_sorted((#[trigger] r[i]).children) by {
        assert(r.contains(r[i]));
        if r[i] != x {
            let j = choose|j: int| 0 <= j < s.len() && s[j] == r[i];
            assert(forest_sorted(s[j].children));
        }
    }
}

/// Every level of the tree is in order: directories before files, then by name.
pub proof fn lemma_level_sorted(entries: Seq<TreeNode>, slot: Option<Seq<char>>, n: nat)
    ensures
        forest_sorted(level(entries, slot, n)),
    decreases room(entries, slot), n,
{
    if n == 0 || n > entries.len() {
    } else {
        lemma_level_sorted(entries, slot, (n - 1) as nat);
        let e = entries[n - 1];
        if attached(entries, e, slot) {
            lemma_max_len(entries, n - 1);
            if slot is Some {
                lemma_parent_name_join(e.path);
            }
            lemma_level_sorted(entries, Some(e.path), entries.len());
            let x = TreeNode {
                name: e.name,
                path: e.path,
                is_directory: e.is_directory,
                icon: e.icon,
                children: level(entries, Some(e.path), entries.len()),
            };
            lemma_insert_forest_sorted(level(entries, slot, (n - 1) as nat), x);
        }
    }
}

/// The file tree of any entries is in order at every level.
pub proof fn lemma_tree_sorted(entries: Seq<TreeNode>)
    ensures
        forest_sorted(tree_of(entries)),
{
    lemma_level_sorted(entries, None, entries.len());
}

/// An entry whose parent key is the key of no entry stands at the top of the tree.
pub proof fn lemma_orphan_at_top(entries: Seq<TreeNode>, i: int)
    requires
        0 <= i < entries.len(),
        parent_of(entries[i].path) is Some,
        !has_path(entries, parent_of(entries[i].path).unwrap()),
    ensures
        exists|k: int|
            0 <= k < tree_of(entries).len() && (#[trigger] tree_of(entries)[k]).path
                == entries[i].path,
{
    lemma_level_holds(entries, None, entries.len(), i);
    let l = level(entries, None, entries.len());
    let k = choose|k: int| 0 <= k < l.len() && (#[trigger] l[k]).path == entries[i].path;
    assert(tree_of(entries)[k].path == entries[i].path);
}

/// Each of the first `n` entries that hangs in `slot` is the root of one of
/// the trees of that slot.
pub proof fn lemma_level_holds(entries: Seq<TreeNode>, slot: Option<Seq<char>>, n: nat, i: int)
    requires
        0 <= i < n <= entries.len(),
        attached(entries, entries[i], slot),
    ensures
        exists|k: int|
            0 <= k < level(entries, slot, n).len() && (#[trigger] level(entries, slot, n)[k]).path
                == entries[i].path,
    decreases n,
{
    let rest = level(entries, slot, (n - 1) as nat);
    let e = entries[n - 1];
    let x = TreeNode {
        name: e.name,
        path: e.path,
        is_directory: e.is_directory,
        icon: e.icon,
        children: level(entries, Some(e.path), entries.len()),
    };
    let l = level(entries, slot, n);
    if i == n - 1 {
        lemma_insert_sorted(rest, x);
        assert(l.contains(x));
        let k = choose|k: int| 0 <= k < l.len() && l[k] == x;
        assert(l[k].path == entries[i].path);
    } else {
        lemma_level_holds(entries, slot, (n - 1) as nat, i);
        let k0 = choose|k: int| 0 <= k < rest.len() && (#[trigger] rest[k]).path == entries[i].path;
        if attached(entries, e, slot) {
            lemma_insert_sorted(rest, x);
            assert(rest.contains(rest[k0]));
            assert(l.contains(rest[k0]));
            let k = choose|k: int| 0 <= k < l.len() && l[k] == rest[k0];
            assert(l[k].path == entries[i].path);
        } else {
            assert(l[k0].path == entries[i].path);
        }
    }
}

fn item_le(a: &FileTreeItem, b: &FileTreeItem) -> (r: bool)
    ensures
        r == node_le(a@, b@),
{
    if a.is_directory != b.is_directory {
        a.is_directory
    } else {
        str_le(a.name.as_str(), b.name.as_str())
    }
}

fn insert_item(out: &mut Vec<FileTreeItem>, item: FileTreeItem)
    ensures
        forest_of(final(out)@) == insert_sorted(forest_of(old(out)@), item@),
{
    let ghost s = forest_of(out@);
    let ghost x = item@;
    let mut i: usize = 0;
    proof {
        assert(s.skip(0) =~= s);
        assert(s.take(0) + insert_sorted(s, x) =~= insert_sorted(s, x));
    }
    while i < out.len() && item_le(&out[i], &item)
        invariant
            i <= out.len(),
            s == forest_of(out@),
            x == item@,
            insert_sorted(s, x) == s.take(i as int) + insert_sorted(s.skip(i as int), x),
        decreases out.len() - i,
    {
        proof {
            let t = s.skip(i as int);
            assert(t[0] == s[i as int]);
            assert(t.drop_first() =~= s.skip(i + 1));
            assert(s.take(i as int) + (seq![t[0]] + insert_sorted(s.skip(i + 1), x)) =~= s.take(
                i + 1,
            ) + insert_sorted(s.skip(i + 1), x));
        }
        i += 1;
    }
    proof {
        let t = s.skip(i as int);
        if i < out.len() {
            assert(t[0] == s[i as int]);
            assert(s.take(i as int) + (seq![x] + t) =~= s.insert(i as int, x));
        } else {
            assert(s.take(i as int) + seq![x] =~= s.insert(i as int, x));
        }
        assert(forest_of(out@.insert(i as int, item)) =~= s.insert(i as int, x));
    }
    out.insert(i, item);
}

fn holds_path(nodes: &Vec<FileTreeItem>, path: &str) -> (r: bool)
    ensures
        r == has_path(forest_of(nodes@), path@),
{
    let mut i: usize = 0;
    while i < nodes.len()
        invariant
            i <= nodes.len(),
            forall|k: int| 0 <= k < i ==> nodes@[k].path@ != path@,
        decreases nodes.len() - i,
    {
        if str_eq(nodes[i].path.as_str(), path) {
            assert(forest_of(nodes@)[i as int].path == path@);
            return true;
        }
        i += 1;
    }
    assert(!has_path(forest_of(nodes@), path@)) by {
        if has_path(forest_of(nodes@), path@) {
            let k = choose|k: int|
                0 <= k < forest_of(nodes@).len() && (#[trigger] forest_of(nodes@)[k]).path
                    == path@;
            assert(nodes@[k].path@ == path@);
        }
    }
    false
}

/// Whether `parents` holds the parent key of each node, and `at_top`
/// whether the node stands at the top.
spec fn placed(nodes: Seq<FileTreeItem>, parents: Seq<Option<String>>, at_top: Seq<bool>) -> bool {
    &&& parents.len() == nodes.len()
    &&& at_top.len() == nodes.len()
    &&& forall|i: int|
        0 <= i < nodes.len() ==> text_of(#[trigger] parents[i]) == parent_of(nodes[i].path@)
    &&& forall|i: int|
        0 <= i < nodes.len() ==> #[trigger] at_top[i] == attached(
            forest_of(nodes),
            nodes[i]@,
            None,
        )
}

fn hangs_in(
    nodes: &Vec<FileTreeItem>,
    parents: &Vec<Option<String>>,
    at_top: &Vec<bool>,
    i: usize,
    slot: &Option<String>,
) -> (r: bool)
    requires
        placed(nodes@, parents@, at_top@),
        i < nodes.len(),
    ensures
        r == attached(forest_of(nodes@), nodes@[i as int]@, text_of(*slot)),
{
    match slot {
        None => at_top[i],
        Some(s) => match &parents[i] {
            None => false,
            Some(p) => *p == *s,
        },
    }
}

fn build_level(
    nodes: &Vec<FileTreeItem>,
    parents: &Vec<Option<String>>,
    at_top: &Vec<bool>,
    slot: &Option<String>,
) -> (out: Vec<FileTreeItem>)
    requires
        placed(nodes@, parents@, at_top@),
    ensures
        forest_of(out@) == level(forest_of(nodes@), text_of(*slot), nodes@.len()),
    decreases room(forest_of(nodes@), text_of(*slot)),
{
    let ghost entries = forest_of(nodes@);
    let ghost place = text_of(*slot);
    let mut out: Vec<FileTreeItem> = Vec::new();
    let mut i: usize = 0;
    proof {
        assert(forest_of(out@) =~= Seq::<TreeNode>::empty());
    }
    while i < nodes.len()
        invariant
            i <= nodes.len(),
            placed(nodes@, parents@, at_top@),
            entries == forest_of(nodes@),
            place == text_of(*slot),
            forest_of(out@) == level(entries, place, i as nat),
        decreases nodes.len() - i,
    {
        let node = &nodes[i];
        assert(entries[i as int] == node@);
        if hangs_in(nodes, parents, at_top, i, slot) {
            proof {
                lemma_max_len(entries, i as int);
                if place is Some {
                    lemma_parent_name_join(node.path@);
                }
            }
            let below = build_level(nodes, parents, at_top, &Some(node.path.clone()));
            let item = FileTreeItem {
                name: node.name.clone(),
                path: node.path.clone(),
                is_directory: node.is_directory,
                icon: clone_opt(&node.icon),
                children: below,
            };
            insert_item(&mut out, item);
        }
        i += 1;
    }
    out
}

impl IndexManager {
    /// The file tree of a snapshot: one node for each entry, directories and
    /// files alike, each below the entry that has its parent key or, where
    /// there is none, at the top; every list of nodes in order. The tree of
    /// a valid snapshot holds every entry once: it has as many file nodes as
    /// the snapshot has files, as many nodes as it has entries, and one
    /// file node for the key of each file.
    pub fn build_file_tree(snapshot: &IndexSnapshot) -> (tree: Vec<FileTreeItem>)
        ensures
            forest_of(tree@) == tree_of(entries_of(snapshot@)),
            forest_sorted(forest_of(tree@)),
            snapshot@.wf() ==> tally(forest_of(tree@), Counted::Files) == snapshot@.files.len(),
            snapshot@.wf() ==> tally(forest_of(tree@), Counted::Nodes) == snapshot@.files.len()
                + snapshot@.directories.len(),
            snapshot@.wf() ==> forall|key: Seq<char>|
                has_key(snapshot@.files, file_key(), key) ==> #[trigger] tally(
                    forest_of(tree@),
                    Counted::File(key),
                ) == 1,
    {
        let mut nodes: Vec<FileTreeItem> = Vec::new();
        let mut i: usize = 0;
        while i < snapshot.directories.len()
            invariant
                i <= snapshot.directories.len(),
                nodes.len() == i,
                forall|k: int| 0 <= k < i ==> (#[trigger] nodes@[k])@ == dir_node(snapshot@.directories[k]),
            decreases snapshot.directories.len() - i,
        {
            let d = &snapshot.directories[i];
            let node = FileTreeItem {
                name: d.name.clone(),
                path: d.path.clone(),
                is_directory: true,
                icon: clone_opt(&d.icon),
                children: Vec::new(),
            };
            assert(node@.children =~= Seq::<TreeNode>::empty());
            nodes.push(node);
            i += 1;
        }
        let mut j: usize = 0;
        let count: usize = snapshot.directories.len();
        while j < snapshot.files.len()
            invariant
                j <= snapshot.files.len(),
                count == snapshot.directories.len(),
                nodes.len() == count + j,
                forall|k: int| 0 <= k < count ==> (#[trigger] nodes@[k])@ == dir_node(snapshot@.directories[k]),
                forall|k: int| count <= k < count + j ==> (#[trigger] nodes@[k])@ == file_node(snapshot@.files[k - count]),
            decreases snapshot.files.len() - j,
        {
            let f = &snapshot.files[j];
            let node = FileTreeItem {
                name: f.name.clone(),
                path: f.path.clone(),
                is_directory: false,
                icon: f.file_type.icon(),
                children: Vec::new(),
            };
            assert(node@.children =~= Seq::<TreeNode>::empty());
            nodes.push(node);
            j += 1;
        }
        proof {
            assert(forest_of(nodes@) =~= entries_of(snapshot@));
            lemma_tree_sorted(entries_of(snapshot@));
            if snapshot@.wf() {
                lemma_snapshot_entries(snapshot@);
                lemma_tree_counts(entries_of(snapshot@), Counted::Files);
                lemma_tree_counts(entries_of(snapshot@), Counted::Nodes);
                assert forall|key: Seq<char>|
                    has_key(snapshot@.files, file_key(), key) implies #[trigger] tally(
                    tree_of(entries_of(snapshot@)),
                    Counted::File(key),
                ) == 1 by {
                    lemma_snapshot_tree_keys(snapshot@, key);
                }
            }
        }
        let mut parents: Vec<Option<String>> = Vec::new();
        let mut at_top: Vec<bool> = Vec::new();
        let mut k: usize = 0;
        while k < nodes.len()
            invariant
                k <= nodes.len(),
                parents.len() == k,
                at_top.len() == k,
                forall|m: int|
                    0 <= m < k ==> text_of(#[trigger] parents@[m]) == parent_of(nodes@[m].path@),
                forall|m: int|
                    0 <= m < k ==> #[trigger] at_top@[m] == attached(
                        forest_of(nodes@),
                        nodes@[m]@,
                        None,
                    ),
            decreases nodes.len() - k,
        {
            let parent = parent_key(nodes[k].path.as_str());
            let top = match &parent {
                None => true,
                Some(p) => !holds_path(&nodes, p.as_str()),
            };
            parents.push(parent);
            at_top.push(top);
            k += 1;
        }
        build_level(&nodes, &parents, &at_top, &None)
    }
}

} // verus!
