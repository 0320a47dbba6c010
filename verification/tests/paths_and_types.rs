use lore_core::model::{EditorError, FileType};
use lore_core::paths::{
    extension, file_name, in_internal_dir, in_vcs_dir, is_under, parent_key, relative_key,
};

#[test]
fn relative_key_strips_workspace_and_separator() {
    assert_eq!(relative_key("/ws", "/ws/a/b.md"), Some("a/b.md".to_string()));
    assert_eq!(relative_key("/ws/", "/ws/a/b.md"), Some("a/b.md".to_string()));
    assert_eq!(relative_key("/ws", "/ws"), Some(String::new()));
    assert_eq!(relative_key("", "a/b.md"), Some("a/b.md".to_string()));
}

#[test]
fn relative_key_refuses_paths_outside_the_workspace() {
    assert_eq!(relative_key("/ws", "/other/a.md"), None);
    assert_eq!(relative_key("/ws", "/wsx/a.md"), None);
    assert_eq!(relative_key("/ws", "/w"), None);
}

#[test]
fn parent_key_drops_the_last_segment() {
    assert_eq!(parent_key("a/b/c.md"), Some("a/b".to_string()));
    assert_eq!(parent_key("a/b"), Some("a".to_string()));
    assert_eq!(parent_key("a"), None);
    assert_eq!(parent_key(""), None);
    assert_eq!(parent_key("/a"), Some(String::new()));
}

#[test]
fn file_name_is_the_last_segment() {
    assert_eq!(file_name("a/b/c.md"), "c.md");
    assert_eq!(file_name("c.md"), "c.md");
    assert_eq!(file_name("a/b/"), "");
    assert_eq!(file_name("héros/naïve.md"), "naïve.md");
}

#[test]
fn extension_follows_the_last_dot() {
    assert_eq!(extension("c.md"), Some("md".to_string()));
    assert_eq!(extension("hero.character.md"), Some("md".to_string()));
    assert_eq!(extension("archive.tar.GZ"), Some("GZ".to_string()));
    assert_eq!(extension("trailing."), Some(String::new()));
    assert_eq!(extension("Makefile"), None);
    assert_eq!(extension(".hidden"), None);
}

#[test]
fn is_under_matches_on_segment_boundaries_only() {
    assert!(is_under("a/b", "a/b"));
    assert!(is_under("a/b", "a/b/c.md"));
    assert!(is_under("a/b", "a/b/c/d.md"));
    assert!(!is_under("a/b", "a/b.md"));
    assert!(!is_under("a/b", "a/bc/d.md"));
    assert!(!is_under("a/b.md", "a/b/c.md"));
    assert!(!is_under("a/b", "a"));
    assert!(is_under("", "anything/at/all"));
}

#[test]
fn internal_and_vcs_directories_are_recognised_by_first_segment() {
    assert!(in_internal_dir(".lore"));
    assert!(in_internal_dir(".lore/index.json"));
    assert!(in_internal_dir(".lore/assets/images/a.png"));
    assert!(!in_internal_dir(".lorex/a"));
    assert!(!in_internal_dir("a/.lore/b"));
    assert!(!in_internal_dir(""));
    assert!(in_vcs_dir(".git/HEAD"));
    assert!(!in_vcs_dir(".github/workflows"));
}

#[test]
fn character_suffix_wins_over_markdown_extension() {
    assert_eq!(
        FileType::from_path("Characters/hero.character.md").unwrap(),
        FileType::Character
    );
}

#[test]
fn file_under_notes_folder_is_markdown() {
    assert_eq!(FileType::from_path("notes/readme.md").unwrap(), FileType::Markdown);
}

#[test]
fn compound_suffixes_classify_before_extensions() {
    assert_eq!(FileType::from_path("a/town.location.md").unwrap(), FileType::Location);
    assert_eq!(FileType::from_path("a/gods.lore.md").unwrap(), FileType::Lore);
    assert_eq!(FileType::from_path("a/intro.dialogue.md").unwrap(), FileType::Dialogue);
    assert_eq!(FileType::from_path("a/intro.dialogue.json").unwrap(), FileType::Dialogue);
    assert_eq!(FileType::from_path("a/map.canvas.json").unwrap(), FileType::Canvas);
    assert_eq!(FileType::from_path("a/hero.character.json").unwrap(), FileType::Character);
}

#[test]
fn extensions_classify_whatever_their_case() {
    assert_eq!(FileType::from_path("a/README.MD").unwrap(), FileType::Markdown);
    assert_eq!(FileType::from_path("board.Canvas").unwrap(), FileType::Canvas);
    assert_eq!(FileType::from_path("hero.character").unwrap(), FileType::Character);
    assert_eq!(FileType::from_path("a.png").unwrap(), FileType::Image);
    assert_eq!(FileType::from_path("a.JPG").unwrap(), FileType::Image);
    assert_eq!(FileType::from_path("a.jpeg").unwrap(), FileType::Image);
    assert_eq!(FileType::from_path("a.webp").unwrap(), FileType::Image);
    assert_eq!(FileType::from_path("a.svg").unwrap(), FileType::Image);
}

#[test]
fn unrecognised_names_are_unknown() {
    assert_eq!(FileType::from_path("a/data.json").unwrap(), FileType::Unknown);
    assert_eq!(FileType::from_path("a/Makefile").unwrap(), FileType::Unknown);
    assert_eq!(FileType::from_path("a/.md").unwrap(), FileType::Unknown);
    assert_eq!(FileType::from_path("a/x.Character.md").unwrap(), FileType::Markdown);
}

#[test]
fn file_type_icons() {
    assert_eq!(FileType::Markdown.icon(), Some("markdown".to_string()));
    assert_eq!(FileType::Lore.icon(), Some("book".to_string()));
    assert_eq!(FileType::Dialogue.icon(), Some("message-square".to_string()));
    assert_eq!(FileType::Unknown.icon(), None);
}

#[test]
fn editor_error_messages() {
    assert_eq!(
        EditorError::InvalidPath("/x".to_string()).message(),
        "Invalid path: /x"
    );
    assert_eq!(
        EditorError::WorkspaceNotFound("/w".to_string()).message(),
        "Workspace not found: /w"
    );
    assert_eq!(
        EditorError::FileNotFound("/f".to_string()).message(),
        "File not found: /f"
    );
}
