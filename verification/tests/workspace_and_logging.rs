use lore_core::index::PathState;
use lore_core::logging::{
    default_max_files, default_targets, LogEntry, LogLevel, LogState, LogTarget, MessageVisitor,
    RateLimiter, RotationConfig, RotationStrategy, BATCH_INTERVAL_MS, BATCH_SIZE, MAX_BUFFER_SIZE,
};
use lore_core::workspace::{
    add_recent_workspace, check_workspace_exists, get_config_path, get_workspace_icon_path,
    is_supported_icon_extension, open_existing_workspace, remove_recent_workspace, RecentWorkspace,
    WorkspaceError, WorkspaceManager, WORKSPACE_VERSION,
};

const A_FILE: PathState = PathState::File { last_modified: 1, size: 1 };

#[test]
fn workspace_names_are_made_fit_for_folders() {
    let s = WorkspaceManager::sanitize_workspace_name;
    assert_eq!(s("My Big Novel"), "my_big_novel");
    assert_eq!(s("Saga: Part 2 (draft)!"), "saga_part_2_draft");
    assert_eq!(s("already-fine_name"), "already-fine_name");
    assert_eq!(s("ÉPOPÉE du Nord"), "épopée_du_nord");
    assert_eq!(s("a/b\\c.d"), "abcd");
    assert_eq!(s("  "), "__");
    assert_eq!(s("!!!"), "");
    assert_eq!(WorkspaceManager::folder_name_from_lower("a b-c_d.e"), "a_b-c_de");
}

#[test]
fn creating_a_workspace_needs_a_base_directory_and_a_free_name() {
    let c = WorkspaceManager::create_workspace;
    assert_eq!(
        c("My Novel", "/home/u", PathState::Directory, PathState::Missing).unwrap(),
        "/home/u/my_novel"
    );
    match c("My Novel", "/home/u", PathState::Missing, PathState::Missing) {
        Err(WorkspaceError::InvalidPath(p)) => assert_eq!(p, "/home/u"),
        other => panic!("unexpected {:?}", other),
    }
    match c("My Novel", "/home/u", A_FILE, PathState::Missing) {
        Err(WorkspaceError::InvalidPath(p)) => assert_eq!(p, "/home/u"),
        other => panic!("unexpected {:?}", other),
    }
    match c("My Novel", "/home/u", PathState::Directory, PathState::Directory) {
        Err(e) => {
            assert_eq!(e.message(), "Workspace directory already exists at: /home/u/my_novel");
        }
        other => panic!("unexpected {:?}", other),
    }
    match c("x", "/b", PathState::Directory, A_FILE) {
        Err(WorkspaceError::DirectoryExists(p)) => assert_eq!(p, "/b/x"),
        other => panic!("unexpected {:?}", other),
    }
    assert_eq!(
        WorkspaceError::InvalidPath("/p".to_string()).message(),
        "Invalid path provided: /p"
    );
}

#[test]
fn a_new_workspace_has_its_internal_and_content_folders() {
    assert_eq!(
        WorkspaceManager::create_directory_structure("/w/n"),
        vec![
            "/w/n",
            "/w/n/.lore",
            "/w/n/.lore/trash",
            "/w/n/.lore/logs",
            "/w/n/Characters",
            "/w/n/Lore",
            "/w/n/Story",
            "/w/n/Notes",
        ]
    );
    assert_eq!(WorkspaceManager::manifest_file_name("my_novel"), "my_novel.lore");
    assert_eq!(get_config_path("/w/n"), "/w/n/.lore/character_form_config.toml");
}

#[test]
fn a_new_manifest_names_the_project_and_the_version() {
    let m = WorkspaceManager::create_manifest("My Novel", "my_novel", "1.2.3", "id-1".to_string());
    assert_eq!(m.lore_version, WORKSPACE_VERSION);
    assert_eq!(m.project_id, "id-1");
    assert_eq!(m.project_name, "My Novel");
    assert_eq!(m.folder_name, "my_novel");
    assert_eq!(m.created_with_version, "1.2.3");
    assert_eq!(m.last_opened_with_version, "1.2.3");
    assert_eq!((m.template_id, m.description, m.authors), (None, None, None));
}

#[test]
fn icon_extensions() {
    for e in ["webp", "png", "svg", "jpg", "jpeg", "PNG", "Jpeg"] {
        assert!(is_supported_icon_extension(e));
    }
    for e in ["gif", "", "pngx", "ico"] {
        assert!(!is_supported_icon_extension(e));
    }
}

#[test]
fn the_workspace_icon_is_the_first_format_that_is_there() {
    let names = |v: &[&str]| v.iter().map(|s| s.to_string()).collect::<Vec<_>>();
    assert_eq!(
        get_workspace_icon_path("/ws", &names(&["icon.jpg", "a.md", "icon.png"])),
        Some("/ws/icon.png".to_string())
    );
    assert_eq!(
        get_workspace_icon_path("/ws", &names(&["icon.svg", "icon.webp"])),
        Some("/ws/icon.webp".to_string())
    );
    assert_eq!(
        get_workspace_icon_path("/ws", &names(&["icon.jpg"])),
        Some("/ws/icon.jpg".to_string())
    );
    assert_eq!(get_workspace_icon_path("/ws", &names(&["icon.gif", "Icon.png"])), None);
    assert!(check_workspace_exists(PathState::Directory));
    assert!(check_workspace_exists(A_FILE));
    assert!(!check_workspace_exists(PathState::Missing));
}

fn paths(list: &[RecentWorkspace]) -> Vec<String> {
    list.iter().map(|w| w.path.clone()).collect()
}

#[test]
fn recent_workspaces_keep_the_latest_first() {
    let mut list = Vec::new();
    add_recent_workspace(&mut list, "A".to_string(), "/a".to_string(), 1);
    add_recent_workspace(&mut list, "B".to_string(), "/b".to_string(), 2);
    add_recent_workspace(&mut list, "A2".to_string(), "/a".to_string(), 3);
    assert_eq!(paths(&list), vec!["/a", "/b"]);
    assert_eq!(list[0].name, "A2");
    assert_eq!(list[0].last_accessed, 3);
    for i in 0..12u64 {
        add_recent_workspace(&mut list, format!("W{}", i), format!("/w{}", i), 10 + i);
    }
    assert_eq!(list.len(), 10);
    assert_eq!(list[0].path, "/w11");
    assert_eq!(list[9].path, "/w2");
    remove_recent_workspace(&mut list, "/w5");
    assert_eq!(list.len(), 9);
    assert!(!paths(&list).contains(&"/w5".to_string()));
    remove_recent_workspace(&mut list, "/not-there");
    assert_eq!(list.len(), 9);
}

#[test]
fn opening_an_existing_workspace_checks_its_layout() {
    let r = open_existing_workspace("/home/u/saga", PathState::Directory, true, PathState::Directory)
        .unwrap();
    assert_eq!(r.path, "/home/u/saga");
    assert_eq!(r.message, "Workspace 'saga' opened successfully.");
    let err = |state, manifest, internal| match open_existing_workspace(
        "/home/u/saga",
        state,
        manifest,
        internal,
    ) {
        Err(WorkspaceError::InvalidPath(t)) => t,
        other => panic!("unexpected {:?}", other),
    };
    assert_eq!(
        err(PathState::Missing, true, PathState::Directory),
        "Directory does not exist: /home/u/saga"
    );
    assert_eq!(
        err(A_FILE, true, PathState::Directory),
        "Selected path is not a directory: /home/u/saga"
    );
    assert_eq!(
        err(PathState::Directory, false, PathState::Directory),
        "Not a valid Lore Designer workspace: Missing manifest file saga.lore"
    );
    assert_eq!(
        err(PathState::Directory, true, PathState::Missing),
        "Not a valid Lore Designer workspace: Missing .lore directory"
    );
    assert_eq!(
        err(PathState::Directory, true, A_FILE),
        "Not a valid Lore Designer workspace: Missing .lore directory"
    );
    match open_existing_workspace("/", PathState::Directory, true, PathState::Directory) {
        Err(WorkspaceError::InvalidPath(t)) => assert_eq!(t, "Cannot determine directory name: /"),
        other => panic!("unexpected {:?}", other),
    }
}

fn entry(n: usize) -> LogEntry {
    LogEntry {
        timestamp: "t".to_string(),
        level: "INFO".to_string(),
        target: "x".to_string(),
        message: format!("m{}", n),
    }
}

#[test]
fn log_entries_take_the_target_that_the_event_names() {
    let mut v = MessageVisitor::new();
    v.record_debug("message", "\"hello\"");
    v.record_str("other", "ignored");
    let e = LogEntry::new("12:00:00.000".to_string(), LogLevel::Warn, "lore::index", v);
    assert_eq!(e.timestamp, "12:00:00.000");
    assert_eq!(e.level, "WARN");
    assert_eq!(e.target, "lore::index");
    assert_eq!(e.message, "\"hello\"");
    let mut v = MessageVisitor::new();
    v.record_str("frontend_target", "ui");
    v.record_debug("message", "m");
    assert_eq!(LogEntry::new("t".to_string(), LogLevel::Error, "lore", v).target, "ui");
    let mut v = MessageVisitor::new();
    v.record_debug("frontend_target", "panel");
    v.record_str("message", "not taken");
    let e = LogEntry::new("t".to_string(), LogLevel::Trace, "lore", v);
    assert_eq!((e.target.as_str(), e.message.as_str(), e.level.as_str()), ("panel", "", "TRACE"));
    assert_eq!(LogEntry::new("t".to_string(), LogLevel::Info, "l", MessageVisitor::new()).level, "INFO");
    assert_eq!(LogEntry::new("t".to_string(), LogLevel::Debug, "l", MessageVisitor::new()).level, "DEBUG");
}

#[test]
fn a_batch_is_handed_on_when_it_is_full() {
    let mut l = RateLimiter::new(1000);
    for n in 0..BATCH_SIZE - 1 {
        assert!(l.add(entry(n), 1001).is_none());
    }
    assert!(!l.should_flush(1001));
    let batch = l.add(entry(BATCH_SIZE - 1), 1002).unwrap();
    assert_eq!(batch.len(), BATCH_SIZE);
    assert_eq!(batch[0].message, "m0");
    assert_eq!(batch[BATCH_SIZE - 1].message, "m19");
    assert!(l.add(entry(0), 1003).is_none());
}

#[test]
fn a_batch_is_handed_on_when_it_is_late() {
    let mut l = RateLimiter::new(1000);
    assert!(l.add(entry(0), 1000 + BATCH_INTERVAL_MS - 1).is_none());
    assert!(l.should_flush(1000 + BATCH_INTERVAL_MS));
    let batch = l.add(entry(1), 1000 + BATCH_INTERVAL_MS).unwrap();
    assert_eq!(batch.len(), 2);
    assert!(l.flush(5000).is_none());
    assert!(l.add(entry(2), 1000 + BATCH_INTERVAL_MS + 1).is_none());
    let rest = l.flush(1000 + BATCH_INTERVAL_MS + 2).unwrap();
    assert_eq!(rest.len(), 1);
    assert_eq!(rest[0].message, "m2");
    assert!(l.flush(9000).is_none());
}

#[test]
fn the_buffer_drops_the_oldest_entry_when_it_is_full() {
    let mut s = LogState::new();
    for n in 0..MAX_BUFFER_SIZE {
        s.add_to_buffer(entry(n));
    }
    assert_eq!(s.len(), MAX_BUFFER_SIZE);
    assert_eq!(s.entries()[0].message, "m0");
    s.add_to_buffer(entry(MAX_BUFFER_SIZE));
    assert_eq!(s.len(), MAX_BUFFER_SIZE);
    assert_eq!(s.entries()[0].message, "m1");
    assert_eq!(s.entries()[MAX_BUFFER_SIZE - 1].message, "m1000");
}

#[test]
fn logging_defaults() {
    assert_eq!(default_targets(), vec![LogTarget::Stdout]);
    assert_eq!(default_max_files(), Some(5));
    assert_eq!(RotationStrategy::default(), RotationStrategy::Never);
    assert_eq!(
        RotationConfig::default(),
        RotationConfig { strategy: RotationStrategy::Never, max_files: Some(5) }
    );
}
