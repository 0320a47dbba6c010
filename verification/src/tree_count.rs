//! Every entry is one node of the file tree.
//!
//! Where no two entries have the same key, the file tree holds as many
//! nodes as there are entries, as many file nodes as there are files, and
//! one node for the key of each entry.

use vstd::prelude::*;
use crate::index::{dir_key, file_key, SnapshotView};
use crate::model::TreeNode;
use crate::paths::{lemma_parent_name_join, parent_of};
use crate::seqs::has_key;
use crate::tree::{
    attached, entries_of, has_path, insert_sorted, lemma_max_len, level, room, tree_of,
};

verus! {

/// What is counted: every node, the file nodes, the nodes of one key, or
/// the file nodes of one key.
pub enum Counted {
    Nodes,
    Files,
    Key(Seq<char>),
    File(Seq<char>),
}

/// What a node counts for: one where it is of the kind that is counted,
/// and nothing where it is not.
pub open spec fn unit(node: TreeNode, what: Counted) -> nat {
    match what {
        Counted::Nodes => 1,
        Counted::Files => if node.is_directory {
            0
        } else {
            1
        },
        Counted::Key(key) => if node.path == key {
            1
        } else {
            0
        },
        Counted::File(key) => if node.path == key && !node.is_directory {
            1
        } else {
            0
        },
    }
}

/// Whether some entry is a file with the key `path`.
pub open spec fn has_file(entries: Seq<TreeNode>, path: Seq<char>) -> bool {
    exists|i: int|
        0 <= i < entries.len() && (#[trigger] entries[i]).path == path && !entries[i].is_directory
}

/// How many nodes of the kind that is counted a list of trees holds at all
/// levels.
pub open spec fn tally(forest: Seq<TreeNode>, what: Counted) -> nat
    decreases forest,
{
    if forest.len() == 0 {
        0
    } else {
        tally(forest.drop_last(), what) + unit(forest.last(), what) + tally(
            forest.last().children,
            what,
        )
    }
}

/// How many entries of the kind that is counted a list of entries holds.
pub open spec fn tally_flat(entries: Seq<TreeNode>, what: Counted) -> nat
    decreases entries.len(),
{
    if entries.len() == 0 {
        0
    } else {
        tally_flat(entries.drop_last(), what) + unit(entries.last(), what)
    }
}

/// Whether no two entries have the same key.
pub open spec fn distinct_paths(entries: Seq<TreeNode>) -> bool {
    forall|i: int, j: int|
        0 <= i < entries.len() && 0 <= j < entries.len() && i != j ==> (#[trigger] entries[i]).path
            != (#[trigger] entries[j]).path
}

/// The index of an entry with the key `path`.
pub open spec fn index_of_path(entries: Seq<TreeNode>, path: Seq<char>) -> int {
    choose|i: int| 0 <= i < entries.len() && (#[trigger] entries[i]).path == path
}

/// Whether the key `key` lies in `slot` or below an entry that does: it
/// hangs in `slot` itself, or its parent key is the key of an entry that
/// lies in `slot` or below.
pub open spec fn below(entries: Seq<TreeNode>, slot: Option<Seq<char>>, key: Seq<char>) -> bool
    decreases key.len(),
{
    match parent_of(key) {
        None => slot is None,
        Some(q) => {
            if !has_path(entries, q) {
                slot is None
            } else if slot == Some(q) {
                true
            } else {
                proof {
                    lemma_parent_name_join(key);
                }
                below(entries, slot, q)
            }
        },
    }
}

/// How many of the first `k` entries satisfy `pred`, each counted by `unit`.
pub open spec fn tally_where(
    entries: Seq<TreeNode>,
    what: Counted,
    pred: spec_fn(int) -> bool,
    k: nat,
) -> nat
    decreases k,
{
    if k == 0 || k > entries.len() {
        0
    } else {
        tally_where(entries, what, pred, (k - 1) as nat) + if pred(k - 1) {
            unit(entries[k - 1], what)
        } else {
            0
        }
    }
}

/// Two lists of trees hold together what each of them holds.
proof fn lemma_tally_concat(a: Seq<TreeNode>, b: Seq<TreeNode>, what: Counted)
    ensures
        tally(a + b, what) == tally(a, what) + tally(b, what),
    decreases b.len(),
{
    if b.len() == 0 {
        assert(a + b =~= a);
    } else {
        assert((a + b).drop_last() =~= a + b.drop_last());
        assert((a + b).last() == b.last());
        lemma_tally_concat(a, b.drop_last(), what);
    }
}

/// One tree holds its root and what the trees below the root hold.
proof fn lemma_tally_single(x: TreeNode, what: Counted)
    ensures
        tally(seq![x], what) == unit(x, what) + tally(x.children, what),
{
    assert(seq![x].drop_last() =~= Seq::<TreeNode>::empty());
    assert(seq![x].last() == x);
    assert(tally(Seq::<TreeNode>::empty(), what) == 0);
}

/// Putting a tree into a list adds what the tree holds.
proof fn lemma_tally_insert(s: Seq<TreeNode>, x: TreeNode, what: Counted)
    ensures
        tally(insert_sorted(s, x), what) == tally(s, what) + unit(x, what)
            + tally(x.children, what),
    decreases s.len(),
{
    lemma_tally_single(x, what);
    if s.len() == 0 {
        assert(tally(s, what) == 0);
    } else {
        let head = seq![s[0]];
        let t = s.drop_first();
        assert(s =~= head + t);
        lemma_tally_concat(head, t, what);
        if crate::tree::node_le(s[0], x) {
            lemma_tally_insert(t, x, what);
            lemma_tally_concat(head, insert_sorted(t, x), what);
        } else {
            lemma_tally_concat(seq![x], s, what);
        }
    }
}

/// Two predicates that agree on the entries count the same.
proof fn lemma_where_same(
    entries: Seq<TreeNode>,
    what: Counted,
    p: spec_fn(int) -> bool,
    q: spec_fn(int) -> bool,
    k: nat,
)
    requires
        k <= entries.len(),
        forall|j: int| 0 <= j < k ==> #[trigger] p(j) == q(j),
    ensures
        tally_where(entries, what, p, k) == tally_where(entries, what, q, k),
    decreases k,
{
    if k > 0 {
        lemma_where_same(entries, what, p, q, (k - 1) as nat);
    }
}

/// Two predicates that no entry satisfies together count, taken as one,
/// what they count apart.
proof fn lemma_where_split(
    entries: Seq<TreeNode>,
    what: Counted,
    both: spec_fn(int) -> bool,
    p: spec_fn(int) -> bool,
    q: spec_fn(int) -> bool,
    k: nat,
)
    requires
        k <= entries.len(),
        forall|j: int| 0 <= j < k ==> #[trigger] both(j) == (p(j) || q(j)),
        forall|j: int| 0 <= j < k ==> !(#[trigger] p(j) && q(j)),
    ensures
        tally_where(entries, what, both, k) == tally_where(entries, what, p, k)
            + tally_where(entries, what, q, k),
    decreases k,
{
    if k > 0 {
        lemma_where_split(entries, what, both, p, q, (k - 1) as nat);
    }
}

/// A predicate that one entry alone satisfies counts that entry.
proof fn lemma_where_one(
    entries: Seq<TreeNode>,
    what: Counted,
    p: spec_fn(int) -> bool,
    i: int,
    k: nat,
)
    requires
        k <= entries.len(),
        forall|j: int| 0 <= j < k ==> #[trigger] p(j) == (j == i),
    ensures
        tally_where(entries, what, p, k) == if 0 <= i < k {
            unit(entries[i], what)
        } else {
            0
        },
    decreases k,
{
    if k > 0 {
        lemma_where_one(entries, what, p, i, (k - 1) as nat);
    }
}

/// A predicate that no entry satisfies counts nothing.
proof fn lemma_where_none(
    entries: Seq<TreeNode>,
    what: Counted,
    p: spec_fn(int) -> bool,
    k: nat,
)
    requires
        k <= entries.len(),
        forall|j: int| 0 <= j < k ==> !#[trigger] p(j),
    ensures
        tally_where(entries, what, p, k) == 0,
    decreases k,
{
    if k > 0 {
        lemma_where_none(entries, what, p, (k - 1) as nat);
    }
}

/// A predicate that every entry satisfies counts every entry.
proof fn lemma_where_all(
    entries: Seq<TreeNode>,
    what: Counted,
    p: spec_fn(int) -> bool,
    k: nat,
)
    requires
        k <= entries.len(),
        forall|j: int| 0 <= j < k ==> #[trigger] p(j),
    ensures
        tally_where(entries, what, p, k) == tally_flat(entries.take(k as int), what),
    decreases k,
{
    if k > 0 {
        lemma_where_all(entries, what, p, (k - 1) as nat);
        assert(entries.take(k as int).drop_last() =~= entries.take(k - 1));
        assert(entries.take(k as int).last() == entries[k - 1]);
    } else {
        assert(entries.take(0).len() == 0);
    }
}

/// A key below the key `p` is longer than `p`.
proof fn lemma_below_longer(entries: Seq<TreeNode>, p: Seq<char>, key: Seq<char>)
    requires
        below(entries, Some(p), key),
    ensures
        key.len() > p.len(),
    decreases key.len(),
{
    let q = parent_of(key).unwrap();
    lemma_parent_name_join(key);
    if Some(p) != Some(q) {
        lemma_below_longer(entries, p, q);
    }
}

/// What hangs in a slot lies in it.
proof fn lemma_attached_below(entries: Seq<TreeNode>, slot: Option<Seq<char>>, i: int)
    requires
        0 <= i < entries.len(),
        attached(entries, entries[i], slot),
        slot is Some ==> has_path(entries, slot.unwrap()),
    ensures
        below(entries, slot, entries[i].path),
{
}

/// What lies below an entry that hangs in a slot lies in that slot.
proof fn lemma_below_up(
    entries: Seq<TreeNode>,
    slot: Option<Seq<char>>,
    i: int,
    key: Seq<char>,
)
    requires
        0 <= i < entries.len(),
        attached(entries, entries[i], slot),
        slot is Some ==> has_path(entries, slot.unwrap()),
        below(entries, Some(entries[i].path), key),
    ensures
        below(entries, slot, key),
    decreases key.len(),
{
    let p = entries[i].path;
    let q = parent_of(key).unwrap();
    lemma_parent_name_join(key);
    assert(has_path(entries, q));
    if q == p {
        lemma_attached_below(entries, slot, i);
        if slot == Some(q) {
            lemma_parent_name_join(p);
        }
    } else {
        lemma_below_up(entries, slot, i, q);
        if slot == Some(q) {
            lemma_below_longer(entries, p, q);
            lemma_parent_name_join(p);
        }
    }
}

/// What lies in a slot hangs in it or lies below an entry that hangs in it.
proof fn lemma_below_down(entries: Seq<TreeNode>, slot: Option<Seq<char>>, key: Seq<char>) -> (i:
    int)
    requires
        has_path(entries, key),
        below(entries, slot, key),
    ensures
        0 <= i < entries.len(),
        attached(entries, entries[i], slot),
        entries[i].path == key || below(entries, Some(entries[i].path), key),
    decreases key.len(),
{
    let j = index_of_path(entries, key);
    match parent_of(key) {
        None => j,
        Some(q) => {
            lemma_parent_name_join(key);
            if !has_path(entries, q) {
                j
            } else if slot == Some(q) {
                j
            } else {
                let i = lemma_below_down(entries, slot, q);
                if entries[i].path == q {
                } else {
                    lemma_below_longer(entries, entries[i].path, q);
                }
                i
            }
        },
    }
}

/// Every key of an entry lies in the top slot.
proof fn lemma_all_below_top(entries: Seq<TreeNode>, key: Seq<char>)
    ensures
        below(entries, None, key),
    decreases key.len(),
{
    match parent_of(key) {
        None => {},
        Some(q) => {
            lemma_parent_name_join(key);
            if has_path(entries, q) {
                lemma_all_below_top(entries, q);
            }
        },
    }
}

/// Two keys above one key are the same, or one lies below the other.
proof fn lemma_chain(entries: Seq<TreeNode>, a: Seq<char>, b: Seq<char>, key: Seq<char>)
    requires
        below(entries, Some(a), key),
        below(entries, Some(b), key),
    ensures
        a == b || below(entries, Some(a), b) || below(entries, Some(b), a),
    decreases key.len(),
{
    let q = parent_of(key).unwrap();
    lemma_parent_name_join(key);
    if q == a || q == b {
    } else {
        lemma_chain(entries, a, b, q);
    }
}

/// Two entries that hang in one slot have nothing in common: neither lies
/// below the other, and no key lies below both.
proof fn lemma_siblings_apart(
    entries: Seq<TreeNode>,
    slot: Option<Seq<char>>,
    i: int,
    k: int,
    key: Seq<char>,
)
    requires
        distinct_paths(entries),
        0 <= i < entries.len(),
        0 <= k < entries.len(),
        i != k,
        attached(entries, entries[i], slot),
        attached(entries, entries[k], slot),
        key == entries[i].path || below(entries, Some(entries[i].path), key),
    ensures
        key != entries[k].path,
        !below(entries, Some(entries[k].path), key),
{
    let a = entries[i].path;
    let b = entries[k].path;
    lemma_not_below_sibling(entries, slot, i, k);
    lemma_not_below_sibling(entries, slot, k, i);
    if key != a {
        if below(entries, Some(b), key) {
            lemma_chain(entries, a, b, key);
        }
    }
}

/// An entry that hangs in a slot does not lie below another that hangs there.
proof fn lemma_not_below_sibling(entries: Seq<TreeNode>, slot: Option<Seq<char>>, i: int, k: int)
    requires
        0 <= i < entries.len(),
        0 <= k < entries.len(),
        attached(entries, entries[i], slot),
        attached(entries, entries[k], slot),
    ensures
        !below(entries, Some(entries[k].path), entries[i].path),
{
    let a = entries[i].path;
    let b = entries[k].path;
    if below(entries, Some(b), a) {
        let q = parent_of(a).unwrap();
        lemma_parent_name_join(a);
        assert(has_path(entries, q));
        match slot {
            None => {},
            Some(s) => {
                lemma_parent_name_join(b);
                if q != b {
                    lemma_below_longer(entries, b, q);
                }
            },
        }
    }
}

/// The entries, among all, that the first `n` entries of a slot bring into
/// the tree: those that hang in the slot, and all that lies below them.
pub open spec fn brought(entries: Seq<TreeNode>, slot: Option<Seq<char>>, n: nat) -> spec_fn(
    int,
) -> bool {
    |j: int|
        exists|i: int|
            0 <= i < n && i < entries.len() && attached(entries, #[trigger] entries[i], slot) && (
            entries[i].path == entries[j].path || below(
                entries,
                Some(entries[i].path),
                entries[j].path,
            ))
}

/// The entry `i` and all that lies below it.
pub open spec fn branch(entries: Seq<TreeNode>, i: int) -> spec_fn(int) -> bool {
    |j: int| j == i || below(entries, Some(entries[i].path), entries[j].path)
}

/// The entry `i` alone.
pub open spec fn only(i: int) -> spec_fn(int) -> bool {
    |j: int| j == i
}

/// All that lies below the entry `i`.
pub open spec fn under(entries: Seq<TreeNode>, i: int) -> spec_fn(int) -> bool {
    |j: int| below(entries, Some(entries[i].path), entries[j].path)
}

/// The trees of a slot hold each entry that lies in the slot once.
proof fn lemma_level_tally(
    entries: Seq<TreeNode>,
    slot: Option<Seq<char>>,
    n: nat,
    what: Counted,
)
    requires
        distinct_paths(entries),
        n <= entries.len(),
        slot is Some ==> has_path(entries, slot.unwrap()),
    ensures
        tally(level(entries, slot, n), what) == tally_where(
            entries,
            what,
            brought(entries, slot, n),
            entries.len(),
        ),
    decreases room(entries, slot), n,
{
    let total = entries.len();
    if n == 0 {
        lemma_where_none(entries, what, brought(entries, slot, 0), total);
    } else {
        let i = n - 1;
        let e = entries[i];
        lemma_level_tally(entries, slot, i as nat, what);
        let before = brought(entries, slot, i as nat);
        let now = brought(entries, slot, n);
        if attached(entries, e, slot) {
            lemma_max_len(entries, i);
            if slot is Some {
                lemma_parent_name_join(e.path);
            }
            let x = TreeNode {
                name: e.name,
                path: e.path,
                is_directory: e.is_directory,
                icon: e.icon,
                children: level(entries, Some(e.path), total),
            };
            lemma_tally_insert(level(entries, slot, i as nat), x, what);
            lemma_level_tally(entries, Some(e.path), total, what);
            let kids = brought(entries, Some(e.path), total);
            let lower = under(entries, i);
            let this = only(i);
            let whole = branch(entries, i);
            // the children of `e` are what lies below it
            assert forall|j: int| 0 <= j < total implies #[trigger] kids(j) == lower(j) by {
                let key = entries[j].path;
                if below(entries, Some(e.path), key) {
                    let c = lemma_below_down(entries, Some(e.path), key);
                    assert(kids(j));
                }
                if kids(j) {
                    let c = choose|c: int|
                        0 <= c < total && c < entries.len() && attached(
                            entries,
                            #[trigger] entries[c],
                            Some(e.path),
                        ) && (entries[c].path == key || below(
                            entries,
                            Some(entries[c].path),
                            key,
                        ));
                    if entries[c].path == key {
                        lemma_attached_below(entries, Some(e.path), c);
                    } else {
                        lemma_below_up(entries, Some(e.path), c, key);
                    }
                }
            }
            lemma_where_same(entries, what, kids, lower, total);
            // `e` itself and what lies below it
            assert forall|j: int| 0 <= j < total implies #[trigger] whole(j) == (this(j) || lower(
                j,
            )) by {}
            assert forall|j: int| 0 <= j < total implies !(#[trigger] this(j) && lower(j)) by {
                if j == i && below(entries, Some(e.path), entries[j].path) {
                    lemma_below_longer(entries, e.path, e.path);
                }
            }
            lemma_where_split(entries, what, whole, this, lower, total);
            assert forall|j: int| 0 <= j < total implies #[trigger] this(j) == (j == i) by {}
            lemma_where_one(entries, what, this, i, total);
            // what was brought before, and the branch of `e`
            assert forall|j: int| 0 <= j < total implies #[trigger] now(j) == (before(j) || whole(
                j,
            )) by {
                let key = entries[j].path;
                if now(j) {
                    let c = choose|c: int|
                        0 <= c < n && c < entries.len() && attached(
                            entries,
                            #[trigger] entries[c],
                            slot,
                        ) && (entries[c].path == key || below(
                            entries,
                            Some(entries[c].path),
                            key,
                        ));
                    if c == i {
                        if e.path == key {
                            assert(j == i);
                        }
                    } else {
                        assert(before(j));
                    }
                }
                if before(j) {
                    let c = choose|c: int|
                        0 <= c < i && c < entries.len() && attached(
                            entries,
                            #[trigger] entries[c],
                            slot,
                        ) && (entries[c].path == key || below(
                            entries,
                            Some(entries[c].path),
                            key,
                        ));
                    assert(now(j));
                }
                if whole(j) {
                    assert(attached(entries, entries[i], slot));
                    assert(now(j));
                }
            }
            assert forall|j: int| 0 <= j < total implies !(#[trigger] before(j) && whole(j)) by {
                let key = entries[j].path;
                if before(j) && whole(j) {
                    let c = choose|c: int|
                        0 <= c < i && c < entries.len() && attached(
                            entries,
                            #[trigger] entries[c],
                            slot,
                        ) && (entries[c].path == key || below(
                            entries,
                            Some(entries[c].path),
                            key,
                        ));
                    lemma_siblings_apart(entries, slot, c, i, key);
                }
            }
            lemma_where_split(entries, what, now, before, whole, total);
        } else {
            assert forall|j: int| 0 <= j < total implies #[trigger] now(j) == before(j) by {
                let key = entries[j].path;
                if now(j) {
                    let c = choose|c: int|
                        0 <= c < n && c < entries.len() && attached(
                            entries,
                            #[trigger] entries[c],
                            slot,
                        ) && (entries[c].path == key || below(
                            entries,
                            Some(entries[c].path),
                            key,
                        ));
                    assert(c != i);
                    assert(before(j));
                }
                if before(j) {
                    let c = choose|c: int|
                        0 <= c < i && c < entries.len() && attached(
                            entries,
                            #[trigger] entries[c],
                            slot,
                        ) && (entries[c].path == key || below(
                            entries,
                            Some(entries[c].path),
                            key,
                        ));
                    assert(now(j));
                }
            }
            lemma_where_same(entries, what, now, before, total);
        }
    }
}

/// Where no two entries have the same key, the file tree holds every entry
/// once: as many nodes as entries, and as many file nodes as file entries.
pub proof fn lemma_tree_counts(entries: Seq<TreeNode>, what: Counted)
    requires
        distinct_paths(entries),
    ensures
        tally(tree_of(entries), what) == tally_flat(entries, what),
{
    let total = entries.len();
    lemma_level_tally(entries, None, total, what);
    let all = brought(entries, None, total);
    assert forall|j: int| 0 <= j < total implies #[trigger] all(j) by {
        let key = entries[j].path;
        lemma_all_below_top(entries, key);
        let c = lemma_below_down(entries, None, key);
        assert(attached(entries, entries[c], None));
    }
    lemma_where_all(entries, what, all, total);
    assert(entries.take(total as int) =~= entries);
}

/// Leaving out the last entry keeps the keys apart.
proof fn lemma_distinct_before(entries: Seq<TreeNode>)
    requires
        distinct_paths(entries),
        entries.len() > 0,
    ensures
        distinct_paths(entries.drop_last()),
{
    let before = entries.drop_last();
    assert forall|i: int, j: int| 0 <= i < before.len() && 0 <= j < before.len() && i != j implies (
    #[trigger] before[i]).path != (#[trigger] before[j]).path by {
        assert(before[i] == entries[i] && before[j] == entries[j]);
    }
}

/// Among entries of which no two have the same key, each key is counted
/// once where an entry has it, and not at all where none has; and it is
/// counted once among the files where that entry is a file.
pub proof fn lemma_key_counted_once(entries: Seq<TreeNode>, key: Seq<char>)
    requires
        distinct_paths(entries),
    ensures
        tally_flat(entries, Counted::Key(key)) == if has_path(entries, key) {
            1nat
        } else {
            0nat
        },
        tally_flat(entries, Counted::File(key)) == if has_file(entries, key) {
            1nat
        } else {
            0nat
        },
    decreases entries.len(),
{
    if entries.len() > 0 {
        let before = entries.drop_last();
        lemma_distinct_before(entries);
        lemma_key_counted_once(before, key);
        let n = before.len() as int;
        assert(entries[n] == entries.last());
        if has_path(before, key) {
            let i = choose|i: int| 0 <= i < before.len() && (#[trigger] before[i]).path == key;
            assert(entries[i].path == key);
            assert(entries[n].path != entries[i].path);
            if has_file(before, key) {
                let j = choose|j: int|
                    0 <= j < before.len() && (#[trigger] before[j]).path == key
                        && !before[j].is_directory;
                assert(entries[j].path == key && !entries[j].is_directory);
            } else if has_file(entries, key) {
                let j = choose|j: int|
                    0 <= j < entries.len() && (#[trigger] entries[j]).path == key
                        && !entries[j].is_directory;
                assert(before[j].path == key && !before[j].is_directory);
            }
        } else {
            if has_file(before, key) {
                let j = choose|j: int|
                    0 <= j < before.len() && (#[trigger] before[j]).path == key
                        && !before[j].is_directory;
                assert(before[j].path == key);
            }
            if entries.last().path == key {
                assert(entries[n].path == key);
            } else {
                if has_path(entries, key) {
                    let i = choose|i: int|
                        0 <= i < entries.len() && (#[trigger] entries[i]).path == key;
                    assert(before[i].path == key);
                }
                if has_file(entries, key) {
                    let j = choose|j: int|
                        0 <= j < entries.len() && (#[trigger] entries[j]).path == key
                            && !entries[j].is_directory;
                    assert(before[j].path == key);
                }
            }
        }
    }
}

/// Where no two entries have the same key, the file tree holds, over all of
/// its levels, exactly one node for the key of each entry and none for any
/// other key; and exactly one file node for the key of each file entry.
pub proof fn lemma_tree_holds_each_key_once(entries: Seq<TreeNode>, key: Seq<char>)
    requires
        distinct_paths(entries),
    ensures
        tally(tree_of(entries), Counted::Key(key)) == if has_path(entries, key) {
            1nat
        } else {
            0nat
        },
        tally(tree_of(entries), Counted::File(key)) == if has_file(entries, key) {
            1nat
        } else {
            0nat
        },
{
    lemma_tree_counts(entries, Counted::Key(key));
    lemma_tree_counts(entries, Counted::File(key));
    lemma_key_counted_once(entries, key);
}

/// The keys of the entries of a snapshot are the keys of its files and of
/// its directories, and the files among them are its files.
pub proof fn lemma_snapshot_keys(snap: SnapshotView, key: Seq<char>)
    ensures
        has_file(entries_of(snap), key) <==> has_key(snap.files, file_key(), key),
        has_path(entries_of(snap), key) <==> (has_key(snap.files, file_key(), key) || has_key(
            snap.directories,
            dir_key(),
            key,
        )),
{
    let entries = entries_of(snap);
    let d = snap.directories.len() as int;
    if has_file(entries, key) {
        let i = choose|i: int|
            0 <= i < entries.len() && (#[trigger] entries[i]).path == key
                && !entries[i].is_directory;
        assert(file_key()(snap.files[i - d]) == key);
    }
    if has_path(entries, key) {
        let i = choose|i: int| 0 <= i < entries.len() && (#[trigger] entries[i]).path == key;
        if i < d {
            assert(dir_key()(snap.directories[i]) == key);
        } else {
            assert(file_key()(snap.files[i - d]) == key);
        }
    }
    if has_key(snap.files, file_key(), key) {
        let a = choose|a: int| 0 <= a < snap.files.len() && file_key()(snap.files[a]) == key;
        assert(entries[a + d].path == key && !entries[a + d].is_directory);
    }
    if has_key(snap.directories, dir_key(), key) {
        let a = choose|a: int|
            0 <= a < snap.directories.len() && dir_key()(snap.directories[a]) == key;
        assert(entries[a].path == key);
    }
}

/// The file tree of a valid snapshot holds exactly one file node for the
/// key of each of its files, exactly one node for the key of each of its
/// entries, and no node for any other key.
pub proof fn lemma_snapshot_tree_keys(snap: SnapshotView, key: Seq<char>)
    requires
        snap.wf(),
    ensures
        tally(tree_of(entries_of(snap)), Counted::File(key)) == if has_key(
            snap.files,
            file_key(),
            key,
        ) {
            1nat
        } else {
            0nat
        },
        tally(tree_of(entries_of(snap)), Counted::Key(key)) == if has_key(
            snap.files,
            file_key(),
            key,
        ) || has_key(snap.directories, dir_key(), key) {
            1nat
        } else {
            0nat
        },
{
    lemma_snapshot_entries(snap);
    lemma_snapshot_keys(snap, key);
    lemma_tree_holds_each_key_once(entries_of(snap), key);
}

/// A valid snapshot has no two entries with the same key, and as many file
/// entries as files.
pub proof fn lemma_snapshot_entries(snap: SnapshotView)
    requires
        snap.wf(),
    ensures
        distinct_paths(entries_of(snap)),
        tally_flat(entries_of(snap), Counted::Files) == snap.files.len(),
        tally_flat(entries_of(snap), Counted::Nodes) == snap.files.len() + snap.directories.len(),
{
    let entries = entries_of(snap);
    let d = snap.directories.len() as int;
    assert forall|i: int, j: int|
        0 <= i < entries.len() && 0 <= j < entries.len() && i != j implies (
    #[trigger] entries[i]).path != (#[trigger] entries[j]).path by {
        if i < d && j < d {
            if i < j {
                assert((crate::index::dir_key())(snap.directories[i]) != (crate::index::dir_key())(
                    snap.directories[j],
                ));
            } else {
                assert((crate::index::dir_key())(snap.directories[j]) != (crate::index::dir_key())(
                    snap.directories[i],
                ));
            }
        } else if i >= d && j >= d {
            if i < j {
                assert((crate::index::file_key())(snap.files[i - d]) != (crate::index::file_key())(
                    snap.files[j - d],
                ));
            } else {
                assert((crate::index::file_key())(snap.files[j - d]) != (crate::index::file_key())(
                    snap.files[i - d],
                ));
            }
        } else if i < d {
            assert(snap.files[j - d].path != snap.directories[i].path);
        } else {
            assert(snap.files[i - d].path != snap.directories[j].path);
        }
    }
    lemma_flat_prefix(snap, entries.len());
    assert(entries.take(entries.len() as int) =~= entries);
}

/// A full scan followed by the building of the tree yields a tree with as
/// many file nodes as the scan recorded files, and every level of it is in
/// order.
pub proof fn lemma_scan_then_tree(workspace: Seq<char>, walked: Seq<crate::index::WalkedRecord>)
    ensures
        ({
            let snap = crate::index::scan_of(workspace, walked);
            let tree = tree_of(entries_of(snap));
            &&& snap.wf()
            &&& tally(tree, Counted::Files) == snap.files.len()
            &&& tally(tree, Counted::Nodes) == snap.files.len() + snap.directories.len()
            &&& crate::tree::forest_sorted(tree)
        }),
{
    let snap = crate::index::scan_of(workspace, walked);
    crate::index::lemma_scan_wf(workspace, walked);
    lemma_snapshot_entries(snap);
    lemma_tree_counts(entries_of(snap), Counted::Files);
    lemma_tree_counts(entries_of(snap), Counted::Nodes);
    crate::tree::lemma_tree_sorted(entries_of(snap));
}

/// Among the first `k` nodes of a snapshot, the files are those that come
/// after the directories.
proof fn lemma_flat_prefix(snap: SnapshotView, k: nat)
    requires
        k <= entries_of(snap).len(),
    ensures
        tally_flat(entries_of(snap).take(k as int), Counted::Files) == if k <= snap.directories.len() {
            0
        } else {
            k - snap.directories.len()
        },
        tally_flat(entries_of(snap).take(k as int), Counted::Nodes) == k,
    decreases k,
{
    let entries = entries_of(snap);
    if k > 0 {
        lemma_flat_prefix(snap, (k - 1) as nat);
        assert(entries.take(k as int).drop_last() =~= entries.take(k - 1));
        assert(entries.take(k as int).last() == entries[k - 1]);
    }
}

} // verus!
