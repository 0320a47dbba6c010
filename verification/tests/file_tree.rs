use lore_core::index::{IndexManager, IndexSnapshot, PathState, WalkedEntry};
use lore_core::progress::IndexingProgress;
use lore_core::model::FileTreeItem;

fn snapshot(dirs: &[&str], files: &[&str]) -> IndexSnapshot {
    let mut s = IndexSnapshot::new();
    for f in files {
        IndexManager::trigger_incremental_update(
            &mut s,
            "",
            f,
            PathState::File { last_modified: 0, size: 0 },
        )
        .unwrap();
    }
    for d in dirs {
        IndexManager::trigger_incremental_update(&mut s, "", d, PathState::Directory).unwrap();
    }
    s
}

fn names(items: &[FileTreeItem]) -> Vec<String> {
    items.iter().map(|i| i.name.clone()).collect()
}

fn count_files(items: &[FileTreeItem]) -> usize {
    items
        .iter()
        .map(|i| (if i.is_directory { 0 } else { 1 }) + count_files(&i.children))
        .sum()
}

fn count_nodes(items: &[FileTreeItem]) -> usize {
    items.iter().map(|i| 1 + count_nodes(&i.children)).sum()
}

fn sorted_everywhere(items: &[FileTreeItem]) -> bool {
    items.windows(2).all(|w| {
        (w[0].is_directory && !w[1].is_directory)
            || (w[0].is_directory == w[1].is_directory && w[0].name <= w[1].name)
    }) && items.iter().all(|i| sorted_everywhere(&i.children))
}

#[test]
fn empty_snapshot_has_empty_tree() {
    assert!(IndexManager::build_file_tree(&IndexSnapshot::new()).is_empty());
}

#[test]
fn directories_come_before_files_then_names_in_order() {
    let s = snapshot(&["zeta", "Alpha", "beta"], &["b.md", "a.md", "B.md", "_x.md"]);
    let tree = IndexManager::build_file_tree(&s);
    assert_eq!(names(&tree), vec!["Alpha", "beta", "zeta", "B.md", "_x.md", "a.md", "b.md"]);
    assert!(tree[0].is_directory && !tree[3].is_directory);
}

#[test]
fn children_hang_below_their_parents_at_every_depth() {
    let s = snapshot(
        &["a", "a/b", "a/b/c", "d"],
        &["a/one.md", "a/b/two.md", "a/b/c/three.md", "d/four.md", "top.md"],
    );
    let tree = IndexManager::build_file_tree(&s);
    assert_eq!(names(&tree), vec!["a", "d", "top.md"]);
    let a = &tree[0];
    assert_eq!(names(&a.children), vec!["b", "one.md"]);
    let b = &a.children[0];
    assert_eq!(b.path, "a/b");
    assert_eq!(names(&b.children), vec!["c", "two.md"]);
    assert_eq!(names(&b.children[0].children), vec!["three.md"]);
    assert_eq!(b.children[0].children[0].path, "a/b/c/three.md");
    assert_eq!(names(&tree[1].children), vec!["four.md"]);
    assert!(tree[2].children.is_empty());
}

#[test]
fn every_level_is_sorted_and_every_entry_is_one_node() {
    let s = snapshot(
        &["w", "w/z", "w/a", "w/a/deep", "m"],
        &["w/z/2.md", "w/z/1.md", "w/a/deep/x.md", "w/b.md", "w/A.md", "m/q.md", "r.md", "c.md"],
    );
    let tree = IndexManager::build_file_tree(&s);
    assert!(sorted_everywhere(&tree));
    assert_eq!(count_files(&tree), 8);
    assert_eq!(count_nodes(&tree), 13);
}

#[test]
fn a_node_whose_parent_is_not_indexed_stands_at_the_top() {
    let s = snapshot(&["present"], &["absent/orphan.md", "present/child.md", "absent/deeper/x.md"]);
    let tree = IndexManager::build_file_tree(&s);
    assert_eq!(names(&tree), vec!["present", "orphan.md", "x.md"]);
    assert_eq!(tree[1].path, "absent/orphan.md");
    assert_eq!(names(&tree[0].children), vec!["child.md"]);
    assert_eq!(count_files(&tree), 3);
}

#[test]
fn nodes_carry_the_icons_of_their_entries() {
    let s = snapshot(&["Notes"], &["Notes/hero.character.md", "Notes/plain.bin", "Notes/a.png"]);
    let tree = IndexManager::build_file_tree(&s);
    assert_eq!(tree[0].icon, Some("notes".to_string()));
    let kids = &tree[0].children;
    assert_eq!(names(kids), vec!["a.png", "hero.character.md", "plain.bin"]);
    assert_eq!(kids[0].icon, Some("image".to_string()));
    assert_eq!(kids[1].icon, Some("character".to_string()));
    assert_eq!(kids[2].icon, None);
}

#[test]
fn scan_then_tree_counts_every_file_outside_the_internal_directory() {
    let mut s = IndexSnapshot::new();
    let paths = [
        ("/ws/Characters", true),
        ("/ws/Characters/hero.character.md", false),
        ("/ws/Characters/villain.character.md", false),
        ("/ws/.lore", true),
        ("/ws/.lore/index.json", false),
        ("/ws/readme.md", false),
    ];
    for (p, is_dir) in paths {
        let state = if is_dir {
            PathState::Directory
        } else {
            PathState::File { last_modified: 0, size: 0 }
        };
        IndexManager::trigger_incremental_update(&mut s, "/ws", p, state).unwrap();
    }
    let tree = IndexManager::build_file_tree(&s);
    assert_eq!(count_files(&tree), 3);
    assert!(sorted_everywhere(&tree));
}

#[test]
fn a_larger_workspace_is_indexed_and_shown_in_full() {
    let mut walked = Vec::new();
    for d in 0..40 {
        walked.push(WalkedEntry { path: format!("/ws/dir{:02}", d), state: PathState::Directory });
        for f in 0..30 {
            walked.push(WalkedEntry {
                path: format!("/ws/dir{:02}/file{:02}.md", d, 29 - f),
                state: PathState::File { last_modified: 1, size: 2 },
            });
        }
    }
    let mut progress = IndexingProgress::new();
    let s = IndexManager::perform_indexing("/ws", &walked, &mut progress);
    assert!(s.is_well_formed());
    assert_eq!(s.files.len(), 1200);
    assert_eq!(s.directories.len(), 40);
    let tree = IndexManager::build_file_tree(&s);
    assert_eq!(tree.len(), 40);
    assert_eq!(count_files(&tree), 1200);
    assert_eq!(count_nodes(&tree), 1240);
    assert!(sorted_everywhere(&tree));
    assert_eq!(tree[7].name, "dir07");
    assert_eq!(tree[7].children[0].name, "file00.md");
    assert_eq!(tree[7].children[29].name, "file29.md");
}

fn count_key(items: &[FileTreeItem], key: &str, files_only: bool) -> usize {
    items
        .iter()
        .map(|i| {
            (if i.path == key && !(files_only && i.is_directory) { 1 } else { 0 })
                + count_key(&i.children, key, files_only)
        })
        .sum()
}

#[test]
fn a_walk_that_meets_keys_again_leaves_each_key_once_in_the_tree() {
    let file = PathState::File { last_modified: 1, size: 2 };
    let entry = |path: &str, state: PathState| WalkedEntry { path: path.to_string(), state };
    let walked = vec![
        entry("/ws/notes", PathState::Directory),
        entry("/ws/notes/a.md", file),
        entry("/ws/notes/a.md", PathState::File { last_modified: 5, size: 9 }),
        entry("/ws/b", file),
        entry("/ws/b", PathState::Directory),
        entry("/ws/c", PathState::Directory),
        entry("/ws/c", file),
        entry("/ws/.lore/index.json", file),
        entry("/elsewhere/d.md", file),
        entry("/ws/gone.md", PathState::Missing),
    ];
    let mut progress = IndexingProgress::new();
    let s = IndexManager::perform_indexing("/ws", &walked, &mut progress);
    assert!(s.is_well_formed());
    let tree = IndexManager::build_file_tree(&s);
    assert_eq!(count_key(&tree, "notes/a.md", true), 1);
    assert_eq!(count_key(&tree, "notes/a.md", false), 1);
    assert_eq!(count_key(&tree, "c", true), 1);
    assert_eq!(count_key(&tree, "c", false), 1);
    assert_eq!(count_key(&tree, "b", true), 0);
    assert_eq!(count_key(&tree, "b", false), 1);
    assert_eq!(count_key(&tree, "notes", false), 1);
    assert_eq!(count_key(&tree, ".lore/index.json", false), 0);
    assert_eq!(count_key(&tree, "gone.md", false), 0);
    assert_eq!(count_files(&tree), 2);
    assert_eq!(count_nodes(&tree), 4);
    assert_eq!(s.files.iter().find(|f| f.path == "notes/a.md").unwrap().size, 9);
    assert!(sorted_everywhere(&tree));
}
