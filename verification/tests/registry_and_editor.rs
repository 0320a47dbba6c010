use lore_core::editor::{
    combine_frontmatter_and_content, determine_file_icon, Editor, EditorManager,
};
use lore_core::frontmatter::{extract_frontmatter, parse_frontmatter, ParsedFrontmatter};
use lore_core::index::PathState;
use lore_core::model::{
    EditorError, FileContent, FileType, ImageInfo, Role, SaveFileRequest,
};
use lore_core::registry::{Registration, WatchState, WatcherRegistry};
use lore_core::state::EditorState;
use lore_core::templates::{get_template_content, get_template_content_at};

const A_FILE: PathState = PathState::File { last_modified: 1, size: 1 };

#[test]
fn a_workspace_goes_from_unwatched_to_watching_to_stopped() {
    let mut r = WatcherRegistry::new();
    assert_eq!(r.get("/ws"), WatchState::Unwatched);
    assert!(!r.is_watching("/ws"));
    assert_eq!(r.register("/ws"), Registration::Started);
    assert_eq!(r.get("/ws"), WatchState::Watching);
    assert!(r.is_watching("/ws"));
    assert!(r.stop("/ws"));
    assert_eq!(r.get("/ws"), WatchState::Stopped);
    assert!(!r.is_watching("/ws"));
    assert_eq!(r.register("/ws"), Registration::Started);
    assert_eq!(r.get("/ws"), WatchState::Watching);
}

#[test]
fn registering_a_watched_workspace_finds_its_watcher() {
    let mut r = WatcherRegistry::new();
    assert_eq!(r.register("/ws"), Registration::Started);
    assert_eq!(r.register("/ws"), Registration::Existing);
    assert_eq!(r.register("/other"), Registration::Started);
    assert_eq!(r.watched_paths(), vec!["/ws", "/other"]);
}

#[test]
fn stopping_what_is_not_watched_is_no_error() {
    let mut r = WatcherRegistry::new();
    assert!(!r.stop("/ws"));
    assert_eq!(r.get("/ws"), WatchState::Unwatched);
    r.register("/ws");
    r.register("/other");
    assert!(r.stop("/ws"));
    assert!(!r.stop("/ws"));
    assert_eq!(r.get("/ws"), WatchState::Stopped);
    assert_eq!(r.watched_paths(), vec!["/other"]);
}

#[test]
fn welcome_text_names_the_workspace() {
    let t = Editor::get_welcome_text("Midgard");
    assert!(t.starts_with("# Welcome to Midgard\n\nThis is your new Lore Designer workspace."));
    assert!(t.ends_with("Let your creativity flow!"));
    assert!(t.contains("## Getting Started"));
}

#[test]
fn front_matter_is_put_between_lines_of_dashes() {
    assert_eq!(
        combine_frontmatter_and_content("name: Hero", "Once upon a time"),
        "---\nname: Hero\n---\n\nOnce upon a time"
    );
    assert_eq!(combine_frontmatter_and_content("", ""), "---\n\n---\n\n");
}

#[test]
fn file_icons_follow_the_type_and_then_the_folder() {
    assert_eq!(determine_file_icon("/ws/a/readme.md"), Some("markdown".to_string()));
    assert_eq!(determine_file_icon("/ws/a/hero.character.md"), Some("character".to_string()));
    assert_eq!(determine_file_icon("/ws/a/pic.PNG"), Some("image".to_string()));
    assert_eq!(determine_file_icon("/ws/Characters/hero.txt"), Some("character".to_string()));
    assert_eq!(determine_file_icon("/ws/locations/town.txt"), Some("location".to_string()));
    assert_eq!(determine_file_icon("/ws/Lore/gods.txt"), Some("book".to_string()));
    assert_eq!(determine_file_icon("/ws/story/ch1.txt"), Some("fileText".to_string()));
    assert_eq!(determine_file_icon("/ws/Stories/ch1.txt"), Some("fileText".to_string()));
    assert_eq!(determine_file_icon("/ws/notes/list.txt"), Some("note".to_string()));
    assert_eq!(determine_file_icon("/ws/misc/list.txt"), None);
    assert_eq!(determine_file_icon("list.txt"), None);
}

#[test]
fn opening_a_file_adds_an_active_tab_and_a_recent_file() {
    let mut s = EditorState::new("/ws");
    let tab =
        Editor::open_file_as("/ws", "/ws/Characters/hero.character.md", &mut s, "tab-1".to_string())
            .unwrap();
    assert_eq!(tab.id, "tab-1");
    assert_eq!(tab.path, "Characters/hero.character.md");
    assert_eq!(tab.title, "hero.character.md");
    assert_eq!(tab.icon, Some("character".to_string()));
    assert!(!tab.has_unsaved_changes);
    assert_eq!(s.open_tabs.len(), 1);
    assert_eq!(s.open_tabs[0], tab);
    assert_eq!(s.active_tab, Some("tab-1".to_string()));
    assert_eq!(s.recently_opened, vec!["Characters/hero.character.md"]);
    let second = Editor::open_file("/ws", "/ws/notes/a.md", &mut s).unwrap();
    assert!(second.id.starts_with("tab-"));
    assert!(second.id.len() > 4);
    assert_ne!(second.id, tab.id);
    assert_eq!(s.open_tabs.len(), 2);
    assert_eq!(s.active_tab, Some(second.id.clone()));
    assert_eq!(s.recently_opened, vec!["notes/a.md", "Characters/hero.character.md"]);
}

#[test]
fn opening_a_file_outside_the_workspace_is_refused() {
    let mut s = EditorState::new("/ws");
    match Editor::open_file_as("/ws", "/other/a.md", &mut s, "tab-1".to_string()) {
        Err(EditorError::InvalidPath(p)) => assert_eq!(p, "/other/a.md"),
        other => panic!("unexpected {:?}", other),
    }
    assert!(Editor::open_file("/ws", "/other/a.md", &mut s).is_err());
    assert!(s.open_tabs.is_empty());
    assert_eq!(s.active_tab, None);
    assert!(s.recently_opened.is_empty());
}

#[test]
fn opening_a_workspace_checks_what_is_at_its_path() {
    let info =
        EditorManager::open_workspace("/home/u/Saga", PathState::Directory, None, 77).unwrap();
    assert_eq!(info.path, "/home/u/Saga");
    assert_eq!(info.name, "Saga");
    assert_eq!(info.icon_path, None);
    assert_eq!(info.last_modified, 77);
    let info = EditorManager::open_workspace(
        "/",
        PathState::Directory,
        Some("/icon.png".to_string()),
        0,
    )
    .unwrap();
    assert_eq!(info.name, "Unnamed Workspace");
    assert_eq!(info.icon_path, Some("/icon.png".to_string()));
    match EditorManager::open_workspace("/gone", PathState::Missing, None, 0) {
        Err(EditorError::WorkspaceNotFound(p)) => assert_eq!(p, "/gone"),
        other => panic!("unexpected {:?}", other),
    }
    match EditorManager::open_workspace("/a.md", A_FILE, None, 0) {
        Err(EditorError::InvalidPath(p)) => assert_eq!(p, "/a.md"),
        other => panic!("unexpected {:?}", other),
    }
}

fn content(path: &str, text: &str, parsed: Option<(&str, &str)>) -> FileContent {
    EditorManager::file_content_from(
        "/ws",
        PathState::Directory,
        path,
        A_FILE,
        text.to_string(),
        parsed.map(|(m, c)| ParsedFrontmatter { matter: m.to_string(), content: c.to_string() }),
    )
    .unwrap()
}

#[test]
fn file_content_follows_the_file_type() {
    assert_eq!(
        content("/ws/a.md", "hello", None),
        FileContent::Markdown { content: "hello".to_string() }
    );
    assert_eq!(
        content("/ws/a.canvas.json", "{}", None),
        FileContent::Canvas { data: "{}".to_string() }
    );
    assert_eq!(
        content("/ws/a.dialogue.md", "hi", None),
        FileContent::Dialogue { data: "hi".to_string() }
    );
    assert_eq!(
        content("/ws/a.png", "", None),
        FileContent::Image { path: "/ws/a.png".to_string() }
    );
    assert_eq!(
        content("/ws/a.bin", "raw", None),
        FileContent::PlainText { content: "raw".to_string() }
    );
    assert_eq!(
        content("/ws/h.character.md", "---\nn: 1\n---\nbody", Some(("n: 1", "body"))),
        FileContent::Character { frontmatter: Some("n: 1".to_string()), content: "body".to_string() }
    );
    assert_eq!(
        content("/ws/t.location.md", "no matter", None),
        FileContent::Location { frontmatter: None, content: "no matter".to_string() }
    );
    assert_eq!(
        content("/ws/g.lore.md", "x", Some(("a: b", "rest"))),
        FileContent::Lore { frontmatter: Some("a: b".to_string()), content: "rest".to_string() }
    );
    assert_eq!(
        content("/ws/a.md", "---\nn: 1\n---\nbody", Some(("n: 1", "body"))),
        FileContent::Markdown { content: "---\nn: 1\n---\nbody".to_string() }
    );
    assert!(EditorManager::reads_text(FileType::Markdown));
    assert!(!EditorManager::reads_text(FileType::Image));
    assert!(EditorManager::has_frontmatter(FileType::Lore));
    assert!(!EditorManager::has_frontmatter(FileType::Markdown));
}

#[test]
fn file_content_needs_a_workspace_and_a_file() {
    let r = EditorManager::get_file_content(
        "/ws",
        PathState::Missing,
        "/ws/a.md",
        A_FILE,
        String::new(),
    );
    match r {
        Err(EditorError::WorkspaceNotFound(p)) => assert_eq!(p, "/ws"),
        other => panic!("unexpected {:?}", other),
    }
    for state in [PathState::Missing, PathState::Directory, PathState::Other] {
        let r = EditorManager::get_file_content(
            "/ws",
            PathState::Directory,
            "/ws/a.md",
            state,
            String::new(),
        );
        match r {
            Err(EditorError::FileNotFound(p)) => assert_eq!(p, "/ws/a.md"),
            other => panic!("unexpected {:?}", other),
        }
        let r = EditorManager::file_content_from(
            "/ws",
            PathState::Directory,
            "/ws/a.md",
            state,
            String::new(),
            None,
        );
        assert!(matches!(r, Err(EditorError::FileNotFound(_))));
    }
}

fn read(path: &str, text: &str) -> FileContent {
    EditorManager::get_file_content("/ws", PathState::Directory, path, A_FILE, text.to_string())
        .unwrap()
}

#[test]
fn front_matter_is_set_apart_in_the_files_that_carry_it() {
    let text = "---\nname: Hero\nage: 30\n---\nOnce upon a time";
    assert_eq!(
        read("/ws/Characters/hero.character.md", text),
        FileContent::Character {
            frontmatter: Some("name: Hero\nage: 30".to_string()),
            content: "Once upon a time".to_string(),
        }
    );
    assert_eq!(
        read("/ws/town.location.md", "no dashes here"),
        FileContent::Location { frontmatter: None, content: "no dashes here".to_string() }
    );
    assert_eq!(
        read("/ws/gods.lore.md", "---\n---\nnothing between the dashes"),
        FileContent::Lore {
            frontmatter: None,
            content: "---\n---\nnothing between the dashes".to_string(),
        }
    );
    assert_eq!(read("/ws/notes.md", text), FileContent::Markdown { content: text.to_string() });
    assert_eq!(
        parse_frontmatter(text),
        Some(ParsedFrontmatter {
            matter: "name: Hero\nage: 30".to_string(),
            content: "Once upon a time".to_string(),
        })
    );
    assert_eq!(parse_frontmatter("plain text"), None);
}

#[test]
fn the_front_matter_of_a_file_is_told_with_its_text() {
    let text = "---\nname: Hero\n---\nBody";
    let told = EditorManager::get_file_frontmatter(
        "/ws",
        PathState::Directory,
        "Characters/hero.character.md",
        "/ws/Characters/hero.character.md",
        A_FILE,
        text.to_string(),
    )
    .unwrap();
    assert_eq!(told.path, "Characters/hero.character.md");
    assert!(told.has_frontmatter);
    assert_eq!(told.frontmatter, Some(text.to_string()));
    let told = EditorManager::get_file_frontmatter(
        "/ws",
        PathState::Directory,
        "a.lore.md",
        "/ws/a.lore.md",
        A_FILE,
        "no front matter".to_string(),
    )
    .unwrap();
    assert_eq!((told.has_frontmatter, told.frontmatter), (false, None));
    let told = EditorManager::get_file_frontmatter(
        "/ws",
        PathState::Directory,
        "a.md",
        "/ws/a.md",
        A_FILE,
        text.to_string(),
    )
    .unwrap();
    assert_eq!((told.path.as_str(), told.has_frontmatter, told.frontmatter), ("a.md", false, None));
    let refused = EditorManager::get_file_frontmatter(
        "/ws",
        A_FILE,
        "a.md",
        "/ws/a.md",
        A_FILE,
        String::new(),
    );
    assert!(matches!(refused, Err(EditorError::WorkspaceNotFound(p)) if p == "/ws"));
    let refused = EditorManager::get_file_frontmatter(
        "/ws",
        PathState::Directory,
        "a.md",
        "/ws/a.md",
        PathState::Missing,
        String::new(),
    );
    assert!(matches!(refused, Err(EditorError::FileNotFound(p)) if p == "/ws/a.md"));
    let made = EditorManager::frontmatter_result_from(
        "x.character.md",
        FileType::Character,
        "t".to_string(),
        &Some(ParsedFrontmatter { matter: "a: 1".to_string(), content: String::new() }),
    );
    assert_eq!((made.has_frontmatter, made.frontmatter), (true, Some("t".to_string())));
    let made = EditorManager::frontmatter_result_from(
        "x.character.md",
        FileType::Character,
        "t".to_string(),
        &None,
    );
    assert_eq!((made.has_frontmatter, made.frontmatter), (false, None));
}

#[test]
fn front_matter_is_taken_out_between_the_dashes() {
    assert_eq!(
        extract_frontmatter("---\nname: Hero\ntags: [a, b]\n---\n\nOnce upon a time\n"),
        (Some("name: Hero\ntags: [a, b]".to_string()), "Once upon a time".to_string())
    );
    assert_eq!(
        extract_frontmatter("---  title: x  ---   body   "),
        (Some("title: x".to_string()), "body".to_string())
    );
    assert_eq!(extract_frontmatter("------"), (Some(String::new()), String::new()));
    assert_eq!(
        extract_frontmatter(&combine_frontmatter_and_content("name: Hero", "Body text")),
        (Some("name: Hero".to_string()), "Body text".to_string())
    );
}

#[test]
fn a_text_without_front_matter_is_all_content() {
    for text in [
        "",
        "plain text",
        "--",
        "---\nname: Hero\nno closing dashes",
        "text first\n---\nname: x\n---\n",
        "---\nkey: [unclosed\n---\nbody",
        "---\n\tname: \"unterminated\n---\nbody",
    ] {
        assert_eq!(extract_frontmatter(text), (None, text.to_string()));
    }
}

#[test]
fn legacy_records_hold_their_values() {
    assert_ne!(Role::Primary, Role::Undefined);
    assert_eq!(Role::Secondary.clone(), Role::Secondary);
    let info = ImageInfo { id: "i".to_string(), path: "/data/images/i.png".to_string() };
    assert_eq!(info.clone(), info);
}

#[test]
fn what_is_saved_follows_the_request() {
    let save = |r| EditorManager::save_file_content("/ws", PathState::Directory, r).unwrap();
    assert_eq!(save(SaveFileRequest::Text { content: "t".to_string() }), "t");
    assert_eq!(save(SaveFileRequest::Json { content: "{}".to_string() }), "{}");
    assert_eq!(
        save(SaveFileRequest::MarkdownWithFrontmatter {
            frontmatter: "a: 1".to_string(),
            content: "body".to_string(),
        }),
        "---\na: 1\n---\n\nbody"
    );
    let r = EditorManager::save_file_content(
        "/ws",
        A_FILE,
        SaveFileRequest::Text { content: "t".to_string() },
    );
    match r {
        Err(EditorError::WorkspaceNotFound(p)) => assert_eq!(p, "/ws"),
        other => panic!("unexpected {:?}", other),
    }
}

#[test]
fn templates_carry_the_name_and_the_time() {
    let c = get_template_content_at(&FileType::Character, "Hero", "2024-01-01T00:00:00+00:00");
    assert!(c.starts_with("---\nname: Hero\nalias:\nrole:\nstatus: active\n"));
    assert!(c.contains(
        "# Metadata\ncreated: 2024-01-01T00:00:00+00:00\nupdated: 2024-01-01T00:00:00+00:00\nversion: 1.0\ntags: []\n---\n\n## Biography"
    ));
    assert!(c.ends_with("Character development throughout the story..."));
    let l = get_template_content_at(&FileType::Location, "Town", "T");
    assert!(l.starts_with("---\nname: Town\ntype:\nregion:"));
    assert!(l.contains("created: T\nupdated: T\n---\n\n## Description"));
    let r = get_template_content_at(&FileType::Lore, "Gods", "T");
    assert!(r.starts_with("---\ntitle: Gods\ncategory:\nera:\nimportance: medium"));
    assert!(r.contains("tags: []\ncreated: T\nupdated: T\n---\n\n## Overview"));
    assert_eq!(
        get_template_content_at(&FileType::Markdown, "Notes", "T"),
        "# Notes\n\nContent goes here..."
    );
    assert_eq!(get_template_content(&FileType::Canvas, "C"), "# C\n\nContent goes here...");
    let now = get_template_content(&FileType::Character, "Hero");
    assert!(now.starts_with("---\nname: Hero\n"));
    assert!(!now.contains("created: \n"));
}
