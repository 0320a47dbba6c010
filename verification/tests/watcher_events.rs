use lore_core::ignore_rules::IgnoreMatcher;
use lore_core::watcher::{
    is_in_lore_dir, ChangeNotice, Debouncer, FileEvent, FileSystemEventHandler, FileSystemWatcher,
    ObservedEvent, RawEvent, RawEventKind, WatcherAction, DEBOUNCE_MS,
};

fn handler() -> FileSystemEventHandler {
    FileSystemEventHandler { workspace_path: "/ws".to_string() }
}

fn raw(kind: RawEventKind, paths: &[&str]) -> RawEvent {
    RawEvent { kind, paths: paths.iter().map(|p| p.to_string()).collect() }
}

fn modified(p: &str) -> FileEvent {
    FileEvent::Modified(p.to_string())
}

#[test]
fn lore_dir_is_told_by_the_key() {
    assert!(is_in_lore_dir("/ws/.lore/index.json", "/ws"));
    assert!(is_in_lore_dir("/ws/.lore", "/ws"));
    assert!(!is_in_lore_dir("/ws/a/.lore/x", "/ws"));
    assert!(!is_in_lore_dir("/other/.lore/x", "/ws"));
}

#[test]
fn raw_events_are_classified() {
    let h = handler();
    assert_eq!(
        h.handle_event(&raw(RawEventKind::Create, &["/ws/a.md"])),
        Some(FileEvent::Created("/ws/a.md".to_string()))
    );
    assert_eq!(
        h.handle_event(&raw(RawEventKind::ModifyData, &["/ws/a.md"])),
        Some(modified("/ws/a.md"))
    );
    assert_eq!(
        h.handle_event(&raw(RawEventKind::ModifyMetadata, &["/ws/a.md"])),
        Some(modified("/ws/a.md"))
    );
    assert_eq!(
        h.handle_event(&raw(RawEventKind::AccessCloseWrite, &["/ws/a.md"])),
        Some(modified("/ws/a.md"))
    );
    assert_eq!(
        h.handle_event(&raw(RawEventKind::Remove, &["/ws/a.md"])),
        Some(FileEvent::Deleted("/ws/a.md".to_string()))
    );
    assert_eq!(
        h.handle_event(&raw(RawEventKind::RenameBoth, &["/ws/a.md", "/ws/b.md"])),
        Some(FileEvent::Renamed("/ws/a.md".to_string(), "/ws/b.md".to_string()))
    );
}

#[test]
fn other_raw_events_are_dropped() {
    let h = handler();
    assert_eq!(h.handle_event(&raw(RawEventKind::AccessOther, &["/ws/a.md"])), None);
    assert_eq!(h.handle_event(&raw(RawEventKind::ModifyOther, &["/ws/a.md"])), None);
    assert_eq!(h.handle_event(&raw(RawEventKind::Other, &["/ws/a.md"])), None);
    assert_eq!(h.handle_event(&raw(RawEventKind::Create, &[])), None);
    assert_eq!(h.handle_event(&raw(RawEventKind::RenameBoth, &["/ws/a.md"])), None);
}

#[test]
fn raw_events_in_the_internal_directory_are_dropped() {
    let h = handler();
    assert_eq!(h.handle_event(&raw(RawEventKind::Create, &["/ws/.lore/index.json"])), None);
    assert_eq!(
        h.handle_event(&raw(RawEventKind::RenameBoth, &["/ws/a.md", "/ws/.lore/a.md"])),
        None
    );
}

#[test]
fn a_burst_of_events_for_one_path_collapses_into_the_latest() {
    let mut d = Debouncer::new(DEBOUNCE_MS);
    for t in 0..25u64 {
        d.push(modified("/ws/a.md"), 1000 + t);
    }
    assert_eq!(d.pending_len(), 1);
    d.push(FileEvent::Deleted("/ws/a.md".to_string()), 1030);
    assert_eq!(d.pending_len(), 1);
    assert!(!d.is_due(1030 + DEBOUNCE_MS - 1));
    assert!(d.take_due(1030 + DEBOUNCE_MS - 1).is_empty());
    assert!(d.is_due(1030 + DEBOUNCE_MS));
    assert_eq!(
        d.take_due(1030 + DEBOUNCE_MS),
        vec![FileEvent::Deleted("/ws/a.md".to_string())]
    );
    assert_eq!(d.pending_len(), 0);
    assert!(!d.is_due(5000));
    assert!(d.take_due(5000).is_empty());
}

#[test]
fn events_for_different_paths_are_kept_apart_in_arrival_order() {
    let mut d = Debouncer::new(100);
    d.push(modified("/ws/a.md"), 1);
    d.push(modified("/ws/b.md"), 2);
    d.push(FileEvent::Renamed("/ws/x.md".to_string(), "/ws/a.md".to_string()), 3);
    d.push(modified("/ws/c.md"), 4);
    assert_eq!(d.pending_len(), 3);
    assert!(!d.is_due(3));
    assert_eq!(
        d.take_due(104),
        vec![
            modified("/ws/b.md"),
            FileEvent::Renamed("/ws/x.md".to_string(), "/ws/a.md".to_string()),
            modified("/ws/c.md"),
        ]
    );
}

#[test]
fn a_new_event_restarts_the_window_and_discard_drops_everything() {
    let mut d = Debouncer::new(100);
    d.push(modified("/ws/a.md"), 0);
    d.push(modified("/ws/b.md"), 90);
    assert!(!d.is_due(100));
    assert!(d.is_due(190));
    d.discard();
    assert_eq!(d.pending_len(), 0);
    assert!(!d.is_due(1000));
}

fn observed(event: FileEvent) -> ObservedEvent {
    ObservedEvent { event, is_dir: false }
}

#[test]
fn one_flushed_event_asks_for_one_update_and_one_notice() {
    let m = IgnoreMatcher::new("/ws", "*.tmp\n").unwrap();
    let mut w = FileSystemWatcher::new("/ws");
    assert_eq!(w.path(), "/ws");
    for t in 0..10u64 {
        w.offer(modified("/ws/notes/a.md"), t);
    }
    assert!(w.flush(100).is_empty());
    let flushed = w.flush(9 + DEBOUNCE_MS);
    assert_eq!(flushed.len(), 1);
    let batch: Vec<ObservedEvent> = flushed.into_iter().map(observed).collect();
    let actions = FileSystemWatcher::process_events(&m, &batch);
    assert_eq!(
        actions,
        vec![WatcherAction {
            update_path: "/ws/notes/a.md".to_string(),
            notice: ChangeNotice::FileModified { path: "notes/a.md".to_string() },
        }]
    );
    assert!(w.flush(100000).is_empty());
}

#[test]
fn notices_tell_deletions_and_renames_apart() {
    let m = IgnoreMatcher::new("/ws", "").unwrap();
    let batch = vec![
        observed(FileEvent::Created("/ws/new.md".to_string())),
        observed(FileEvent::Deleted("/ws/old.md".to_string())),
        observed(FileEvent::Renamed("/ws/a/x.md".to_string(), "/ws/b/y.md".to_string())),
    ];
    let actions = FileSystemWatcher::process_events(&m, &batch);
    assert_eq!(actions.len(), 3);
    assert_eq!(actions[0].notice, ChangeNotice::FileModified { path: "new.md".to_string() });
    assert_eq!(actions[1].notice, ChangeNotice::FileDeleted { path: "old.md".to_string() });
    assert_eq!(actions[1].update_path, "/ws/old.md");
    assert_eq!(
        actions[2].notice,
        ChangeNotice::FileRenamed { old_path: "a/x.md".to_string(), new_path: "b/y.md".to_string() }
    );
    assert_eq!(actions[2].update_path, "/ws/b/y.md");
}

#[test]
fn ignored_and_internal_and_foreign_events_ask_for_nothing() {
    let m = IgnoreMatcher::new("/ws", "*.tmp\n!.lore/\n").unwrap();
    let batch = vec![
        observed(modified("/ws/a.tmp")),
        observed(modified("/ws/.lore/index.json")),
        observed(modified("/elsewhere/a.md")),
        observed(FileEvent::Renamed("/ws/a.md".to_string(), "/ws/.lore/a.md".to_string())),
        observed(FileEvent::Renamed("/ws/a.tmp".to_string(), "/ws/a.md".to_string())),
        observed(modified("/ws/kept.md")),
    ];
    let actions = FileSystemWatcher::process_events(&m, &batch);
    assert_eq!(actions.len(), 2);
    assert_eq!(actions[0].update_path, "/ws/a.md");
    assert_eq!(
        actions[0].notice,
        ChangeNotice::FileRenamed { old_path: "a.tmp".to_string(), new_path: "a.md".to_string() }
    );
    assert_eq!(actions[1].update_path, "/ws/kept.md");
    assert_eq!(
        FileSystemWatcher::handle_file_change(&m, &observed(modified("/ws/.lore/x"))),
        None
    );
}

#[test]
fn a_rename_is_held_against_the_rules_by_its_new_path_only() {
    let m = IgnoreMatcher::new("/ws", "*.tmp\n").unwrap();
    let rename = |a: &str, b: &str| observed(FileEvent::Renamed(a.to_string(), b.to_string()));
    let saved = FileSystemWatcher::handle_file_change(&m, &rename("/ws/x.tmp", "/ws/x.md")).unwrap();
    assert_eq!(saved.update_path, "/ws/x.md");
    assert_eq!(
        saved.notice,
        ChangeNotice::FileRenamed { old_path: "x.tmp".to_string(), new_path: "x.md".to_string() }
    );
    assert_eq!(FileSystemWatcher::handle_file_change(&m, &rename("/ws/x.md", "/ws/x.tmp")), None);
    assert_eq!(
        FileSystemWatcher::handle_file_change(&m, &rename("/ws/.lore/x.md", "/ws/x.md")),
        None
    );
    assert_eq!(
        FileSystemWatcher::handle_file_change(&m, &rename("/ws/x.md", "/ws/.lore/x.md")),
        None
    );
    assert_eq!(
        FileSystemWatcher::handle_file_change(&m, &rename("/ws/x.md", "/elsewhere/x.md")),
        None
    );
}

#[test]
fn a_rename_from_outside_the_workspace_is_told_as_a_change() {
    let m = IgnoreMatcher::new("/ws", "").unwrap();
    let moved_in = observed(FileEvent::Renamed(
        "/elsewhere/x.md".to_string(),
        "/ws/notes/x.md".to_string(),
    ));
    let action = FileSystemWatcher::handle_file_change(&m, &moved_in).unwrap();
    assert_eq!(action.update_path, "/ws/notes/x.md");
    assert_eq!(action.notice, ChangeNotice::FileModified { path: "notes/x.md".to_string() });
}
