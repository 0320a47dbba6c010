use lore_core::ignore_rules::IgnoreMatcher;
use lore_core::index::{IndexManager, IndexSnapshot, PathState, WalkedEntry};
use lore_core::model::{EditorError, FileType};
use lore_core::progress::{IndexingProgress, ProgressTable};

fn file(snapshot: &mut IndexSnapshot, path: &str) {
    IndexManager::trigger_incremental_update(
        snapshot,
        "/ws",
        path,
        PathState::File { last_modified: 10, size: 3 },
    )
    .unwrap();
}

fn dir(snapshot: &mut IndexSnapshot, path: &str) {
    IndexManager::trigger_incremental_update(snapshot, "/ws", path, PathState::Directory).unwrap();
}

fn file_keys(snapshot: &IndexSnapshot) -> Vec<String> {
    snapshot.files.iter().map(|f| f.path.clone()).collect()
}

fn dir_keys(snapshot: &IndexSnapshot) -> Vec<String> {
    snapshot.directories.iter().map(|d| d.path.clone()).collect()
}

#[test]
fn index_file_records_key_name_extension_and_type() {
    let f = IndexManager::index_file("/ws", "/ws/Characters/hero.character.md", 1700000000, 42)
        .unwrap();
    assert_eq!(f.path, "Characters/hero.character.md");
    assert_eq!(f.name, "hero.character.md");
    assert_eq!(f.extension, Some("md".to_string()));
    assert_eq!(f.file_type, FileType::Character);
    assert_eq!(f.last_modified, 1700000000);
    assert_eq!(f.size, 42);
}

#[test]
fn index_file_outside_workspace_is_invalid_path() {
    match IndexManager::index_file("/ws", "/elsewhere/a.md", 0, 0) {
        Err(EditorError::InvalidPath(p)) => assert_eq!(p, "/elsewhere/a.md"),
        other => panic!("unexpected {:?}", other),
    }
}

#[test]
fn index_directory_tags_reserved_folders_whatever_their_case() {
    let d = IndexManager::index_directory("/ws", "/ws/notes").unwrap();
    assert_eq!(d.path, "notes");
    assert_eq!(d.name, "notes");
    assert_eq!(d.icon, Some("notes".to_string()));
    let d = IndexManager::index_directory("/ws", "/ws/world/Characters").unwrap();
    assert_eq!(d.path, "world/Characters");
    assert_eq!(d.icon, Some("characters".to_string()));
    let d = IndexManager::index_directory("/ws", "/ws/LORE").unwrap();
    assert_eq!(d.icon, Some("lore".to_string()));
    let d = IndexManager::index_directory("/ws", "/ws/Locations").unwrap();
    assert_eq!(d.icon, Some("locations".to_string()));
    let d = IndexManager::index_directory("/ws", "/ws/Story").unwrap();
    assert_eq!(d.icon, Some("story".to_string()));
    let d = IndexManager::index_directory("/ws", "/ws/drafts").unwrap();
    assert_eq!(d.icon, None);
}

#[test]
fn index_directory_outside_workspace_is_invalid_path() {
    match IndexManager::index_directory("/ws", "/wsx") {
        Err(EditorError::InvalidPath(p)) => assert_eq!(p, "/wsx"),
        other => panic!("unexpected {:?}", other),
    }
}

#[test]
fn notes_folder_scenario() {
    let mut s = IndexSnapshot::new();
    dir(&mut s, "/ws/notes");
    file(&mut s, "/ws/notes/readme.md");
    assert_eq!(s.directories[0].icon, Some("notes".to_string()));
    assert_eq!(s.files[0].file_type, FileType::Markdown);
}

#[test]
fn modified_file_replaces_its_entry() {
    let mut s = IndexSnapshot::new();
    file(&mut s, "/ws/a.md");
    file(&mut s, "/ws/b.md");
    IndexManager::trigger_incremental_update(
        &mut s,
        "/ws",
        "/ws/a.md",
        PathState::File { last_modified: 99, size: 7 },
    )
    .unwrap();
    assert_eq!(file_keys(&s), vec!["b.md", "a.md"]);
    assert_eq!(s.files[1].last_modified, 99);
    assert_eq!(s.files[1].size, 7);
}

#[test]
fn a_path_is_never_both_file_and_directory() {
    let mut s = IndexSnapshot::new();
    dir(&mut s, "/ws/thing");
    file(&mut s, "/ws/thing");
    assert_eq!(file_keys(&s), vec!["thing"]);
    assert!(dir_keys(&s).is_empty());
    dir(&mut s, "/ws/thing");
    assert!(file_keys(&s).is_empty());
    assert_eq!(dir_keys(&s), vec!["thing"]);
}

#[test]
fn deleting_a_file_does_not_touch_the_directory_with_a_similar_name() {
    let mut s = IndexSnapshot::new();
    file(&mut s, "/ws/a/b.md");
    file(&mut s, "/ws/a/b/c.md");
    IndexManager::trigger_incremental_update(&mut s, "/ws", "/ws/a/b.md", PathState::Missing)
        .unwrap();
    assert_eq!(file_keys(&s), vec!["a/b/c.md"]);
}

#[test]
fn deleting_a_directory_does_not_touch_the_file_with_a_similar_name() {
    let mut s = IndexSnapshot::new();
    dir(&mut s, "/ws/a/b");
    file(&mut s, "/ws/a/b.md");
    file(&mut s, "/ws/a/b/c.md");
    file(&mut s, "/ws/a/bc.md");
    IndexManager::trigger_incremental_update(&mut s, "/ws", "/ws/a/b", PathState::Missing)
        .unwrap();
    assert_eq!(file_keys(&s), vec!["a/b.md", "a/bc.md"]);
    assert!(dir_keys(&s).is_empty());
}

#[test]
fn deleting_a_directory_removes_it_and_its_descendants() {
    let mut s = IndexSnapshot::new();
    dir(&mut s, "/ws/proj");
    dir(&mut s, "/ws/proj/old");
    file(&mut s, "/ws/proj/old/one.md");
    file(&mut s, "/ws/proj/old/two.md");
    file(&mut s, "/ws/proj/old/deep/three.md");
    file(&mut s, "/ws/proj/keep.md");
    assert_eq!(s.files.len() + s.directories.len(), 6);
    IndexManager::trigger_incremental_update(&mut s, "/ws", "/ws/proj/old", PathState::Missing)
        .unwrap();
    assert_eq!(file_keys(&s), vec!["proj/keep.md"]);
    assert_eq!(dir_keys(&s), vec!["proj"]);
}

#[test]
fn update_outside_workspace_fails_and_changes_nothing() {
    let mut s = IndexSnapshot::new();
    file(&mut s, "/ws/a.md");
    let r = IndexManager::trigger_incremental_update(
        &mut s,
        "/ws",
        "/other/a.md",
        PathState::Missing,
    );
    match r {
        Err(EditorError::InvalidPath(p)) => assert_eq!(p, "/other/a.md"),
        other => panic!("unexpected {:?}", other),
    }
    assert_eq!(file_keys(&s), vec!["a.md"]);
}

#[test]
fn updates_in_the_internal_directory_change_nothing() {
    let mut s = IndexSnapshot::new();
    file(&mut s, "/ws/a.md");
    file(&mut s, "/ws/.lore/index.json");
    dir(&mut s, "/ws/.lore");
    dir(&mut s, "/ws/.lore/assets");
    IndexManager::trigger_incremental_update(&mut s, "/ws", "/ws/.lore", PathState::Missing)
        .unwrap();
    assert_eq!(file_keys(&s), vec!["a.md"]);
    assert!(dir_keys(&s).is_empty());
}

#[test]
fn other_kinds_of_entries_change_nothing() {
    let mut s = IndexSnapshot::new();
    file(&mut s, "/ws/a.md");
    IndexManager::trigger_incremental_update(&mut s, "/ws", "/ws/a.md", PathState::Other).unwrap();
    assert_eq!(file_keys(&s), vec!["a.md"]);
}

#[test]
fn the_workspace_root_is_no_entry_but_its_loss_empties_the_index() {
    let mut s = IndexSnapshot::new();
    file(&mut s, "/ws/a.md");
    dir(&mut s, "/ws");
    assert!(dir_keys(&s).is_empty());
    IndexManager::trigger_incremental_update(&mut s, "/ws", "/ws", PathState::Missing).unwrap();
    assert!(file_keys(&s).is_empty());
}

#[test]
fn snapshot_lookup_and_stamp() {
    let mut s = IndexSnapshot::new();
    file(&mut s, "/ws/a.md");
    dir(&mut s, "/ws/d");
    assert!(s.contains_key("a.md"));
    assert!(s.contains_key("d"));
    assert!(!s.contains_key("b.md"));
    assert_eq!(s.timestamp, 0);
    let s = s.stamped(123);
    assert_eq!(s.timestamp, 123);
    assert_eq!(file_keys(&s), vec!["a.md"]);
}

fn walked(path: &str, state: PathState) -> WalkedEntry {
    WalkedEntry { path: path.to_string(), state }
}

#[test]
fn full_scan_records_files_and_directories_and_skips_internal_data() {
    let entries = vec![
        walked("/ws", PathState::Directory),
        walked("/ws/Characters", PathState::Directory),
        walked("/ws/Characters/hero.character.md", PathState::File { last_modified: 5, size: 9 }),
        walked("/ws/.lore", PathState::Directory),
        walked("/ws/.lore/index.json", PathState::File { last_modified: 5, size: 9 }),
        walked("/ws/socket", PathState::Other),
        walked("/elsewhere/x.md", PathState::File { last_modified: 5, size: 9 }),
        walked("/ws/gone.md", PathState::Missing),
        walked("/ws/notes.md", PathState::File { last_modified: 6, size: 1 }),
    ];
    let mut progress = IndexingProgress::new();
    let s = IndexManager::perform_indexing("/ws", &entries, &mut progress);
    assert_eq!(file_keys(&s), vec!["Characters/hero.character.md", "notes.md"]);
    assert_eq!(dir_keys(&s), vec!["Characters"]);
    assert_eq!(s.directories[0].icon, Some("characters".to_string()));
    assert_eq!(s.files[0].file_type, FileType::Character);
    assert_eq!(progress.total, 9);
    assert_eq!(progress.processed, 9);
    assert_eq!(progress.current_file, None);
    assert!(progress.completed);
}

#[test]
fn scan_steps_count_entries_and_name_the_current_one() {
    let mut s = IndexSnapshot::new();
    let mut p = IndexingProgress::new();
    p.total = 2;
    IndexManager::record_entry(
        &mut s,
        &mut p,
        "/ws",
        &walked("/ws/a/b.md", PathState::File { last_modified: 1, size: 1 }),
    );
    assert_eq!(p.processed, 1);
    assert_eq!(p.current_file, Some("a/b.md".to_string()));
    assert!(!p.completed);
    IndexManager::record_entry(&mut s, &mut p, "/ws", &walked("/out/c.md", PathState::Other));
    assert_eq!(p.processed, 2);
    assert_eq!(p.current_file, None);
    assert_eq!(file_keys(&s), vec!["a/b.md"]);
}

#[test]
fn scanning_the_same_path_twice_keeps_one_entry() {
    let entries = vec![
        walked("/ws/a.md", PathState::File { last_modified: 1, size: 1 }),
        walked("/ws/a.md", PathState::File { last_modified: 2, size: 2 }),
    ];
    let mut progress = IndexingProgress::new();
    let s = IndexManager::perform_indexing("/ws", &entries, &mut progress);
    assert_eq!(file_keys(&s), vec!["a.md"]);
    assert_eq!(s.files[0].size, 2);
}

#[test]
fn progress_is_kept_per_workspace() {
    let mut table = ProgressTable::new();
    assert!(IndexManager::get_indexing_progress(&table, "/ws").is_none());
    IndexManager::start_indexing(&mut table, "/ws").unwrap();
    let p = IndexManager::get_indexing_progress(&table, "/ws").unwrap();
    assert_eq!((p.total, p.processed, p.completed), (0, 0, false));
    assert_eq!(p.current_file, None);
    let mut done = IndexingProgress::new();
    done.total = 4;
    done.processed = 4;
    done.completed = true;
    table.put("/ws", done);
    IndexManager::start_indexing(&mut table, "/other").unwrap();
    let p = IndexManager::get_indexing_progress(&table, "/ws").unwrap();
    assert_eq!((p.total, p.processed, p.completed), (4, 4, true));
    IndexManager::start_indexing(&mut table, "/ws").unwrap();
    let p = IndexManager::get_indexing_progress(&table, "/ws").unwrap();
    assert_eq!((p.total, p.processed, p.completed), (0, 0, false));
    let p = IndexManager::get_indexing_progress(&table, "/other").unwrap();
    assert!(!p.completed);
    assert!(IndexManager::get_indexing_progress(&table, "/third").is_none());
}

#[test]
fn snapshots_are_valid_unless_a_key_repeats_or_is_internal() {
    let mut s = IndexSnapshot::new();
    assert!(s.is_well_formed());
    file(&mut s, "/ws/a.md");
    file(&mut s, "/ws/b/c.md");
    dir(&mut s, "/ws/b");
    assert!(s.is_well_formed());
    let again = IndexManager::index_file("/ws", "/ws/a.md", 1, 1).unwrap();
    s.files.push(again);
    assert!(!s.is_well_formed());
    s.files.pop();
    assert!(s.is_well_formed());
    s.directories.push(IndexManager::index_directory("/ws", "/ws/a.md").unwrap());
    assert!(!s.is_well_formed());
    s.directories.pop();
    s.directories.push(IndexManager::index_directory("/ws", "/ws/b").unwrap());
    assert!(!s.is_well_formed());
    s.directories.pop();
    s.directories.push(IndexManager::index_directory("/ws", "/ws/.lore/assets").unwrap());
    assert!(!s.is_well_formed());
    s.directories.pop();
    s.files.push(IndexManager::index_file("/ws", "/ws/.lore/index.json", 1, 1).unwrap());
    assert!(!s.is_well_formed());
}

#[test]
fn stored_snapshots_come_back_as_they_were_saved() {
    let mut s = IndexSnapshot::new();
    file(&mut s, "/ws/a.md");
    dir(&mut s, "/ws/d");
    let saved = IndexManager::save_index(s, 1700000000);
    assert_eq!(saved.timestamp, 1700000000);
    assert_eq!(file_keys(&saved), vec!["a.md"]);
    assert_eq!(dir_keys(&saved), vec!["d"]);
    let loaded = IndexManager::load_index(Some(saved));
    assert_eq!(loaded.timestamp, 1700000000);
    assert_eq!(file_keys(&loaded), vec!["a.md"]);
    assert_eq!(loaded.files[0].size, 3);
    assert_eq!(loaded.files[0].last_modified, 10);
    let cold = IndexManager::load_index(None);
    assert!(cold.files.is_empty() && cold.directories.is_empty());
}

#[test]
fn a_scan_that_ends_is_marked_complete() {
    let mut p = IndexingProgress::new();
    p.total = 9;
    p.processed = 4;
    p.current_file = Some("a.md".to_string());
    p.complete();
    assert!(p.completed);
    assert_eq!(p.current_file, None);
    assert_eq!((p.total, p.processed), (9, 4));
}

#[test]
fn walked_entries_are_held_against_the_ignore_rules() {
    let matcher = IgnoreMatcher::new("/ws", "*.tmp\nbuild/\n").unwrap();
    let entries = vec![
        walked("/ws/a.md", PathState::File { last_modified: 1, size: 1 }),
        walked("/ws/a.tmp", PathState::File { last_modified: 1, size: 1 }),
        walked("/ws/build", PathState::Directory),
        walked("/ws/build", PathState::File { last_modified: 1, size: 1 }),
        walked("/ws/.lore/index.json", PathState::File { last_modified: 1, size: 1 }),
        walked("/ws/.git", PathState::Directory),
        walked("/elsewhere/x.tmp", PathState::File { last_modified: 1, size: 1 }),
        walked("/ws/notes", PathState::Directory),
    ];
    let kept = IndexManager::filter_walked(&matcher, &entries);
    let paths: Vec<&str> = kept.iter().map(|e| e.path.as_str()).collect();
    assert_eq!(paths, vec!["/ws/a.md", "/ws/build", "/elsewhere/x.tmp", "/ws/notes"]);
    assert_eq!(kept[1].state, PathState::File { last_modified: 1, size: 1 });
    let mut progress = IndexingProgress::new();
    let s = IndexManager::perform_indexing("/ws", &kept, &mut progress);
    assert_eq!(file_keys(&s), vec!["a.md", "build"]);
    assert_eq!(dir_keys(&s), vec!["notes"]);
    assert_eq!(progress.total, 4);
}

#[test]
fn a_scan_leaves_out_what_lies_below_a_directory_that_is_left_out() {
    let matcher = IgnoreMatcher::new("/ws", "node_modules/\n").unwrap();
    let entries = vec![
        walked("/ws/node_modules", PathState::Directory),
        walked("/ws/node_modules/pkg", PathState::Directory),
        walked("/ws/node_modules/pkg/index.js", PathState::File { last_modified: 1, size: 1 }),
        walked("/ws/src", PathState::Directory),
        walked("/ws/src/main.md", PathState::File { last_modified: 1, size: 1 }),
    ];
    let kept = IndexManager::filter_walked(&matcher, &entries);
    let mut progress = IndexingProgress::new();
    let s = IndexManager::perform_indexing("/ws", &kept, &mut progress);
    assert_eq!(file_keys(&s), vec!["src/main.md"]);
    assert_eq!(dir_keys(&s), vec!["src"]);
    let tree = IndexManager::build_file_tree(&s);
    assert_eq!(tree.len(), 1);
    assert_eq!(tree[0].children.len(), 1);
}
