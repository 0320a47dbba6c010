use lore_core::ignore_rules::{split_rule_lines, IgnoreError, IgnoreMatcher, DEFAULT_LOREIGNORE};

fn matcher(rules: &str) -> IgnoreMatcher {
    IgnoreMatcher::new("/ws", rules).unwrap()
}

#[test]
fn rule_lines_are_split_at_line_feeds() {
    assert_eq!(split_rule_lines("a\nb\n"), vec!["a", "b"]);
    assert_eq!(split_rule_lines("a\nb"), vec!["a", "b"]);
    assert_eq!(split_rule_lines("a\r\nb\r\n"), vec!["a", "b"]);
    assert_eq!(split_rule_lines("a\n\nb"), vec!["a", "", "b"]);
    assert_eq!(split_rule_lines("\n"), vec![""]);
    assert_eq!(split_rule_lines("a\r"), vec!["a\r"]);
    assert!(split_rule_lines("").is_empty());
}

#[test]
fn byte_order_marks_at_the_start_are_dropped() {
    assert_eq!(split_rule_lines("\u{feff}*.tmp\nx"), vec!["*.tmp", "x"]);
    assert_eq!(split_rule_lines("\u{feff}\u{feff}a"), vec!["a"]);
    assert_eq!(split_rule_lines("a\n\u{feff}b"), vec!["a", "\u{feff}b"]);
}

#[test]
fn default_rules_are_used_where_no_file_exists() {
    assert_eq!(IgnoreMatcher::rules_or_default(None), DEFAULT_LOREIGNORE);
    assert_eq!(IgnoreMatcher::rules_or_default(Some("*.x\n".to_string())), "*.x\n");
    assert!(DEFAULT_LOREIGNORE.contains("node_modules/"));
    assert!(DEFAULT_LOREIGNORE.contains("*.swp"));
}

#[test]
fn default_rules_leave_out_build_artifacts_and_temporary_files() {
    let m = matcher(DEFAULT_LOREIGNORE);
    assert!(m.should_ignore("/ws/node_modules", true));
    assert!(m.should_ignore("/ws/sub/target", true));
    assert!(!m.should_ignore("/ws/target", false));
    assert!(m.should_ignore("/ws/.DS_Store", false));
    assert!(m.should_ignore("/ws/notes/draft.tmp", false));
    assert!(m.should_ignore("/ws/notes/~lock", false));
    assert!(m.should_ignore("/ws/a.swp", false));
    assert!(!m.should_ignore("/ws/notes/readme.md", false));
    assert!(!m.should_ignore("/ws/Characters", true));
}

#[test]
fn the_matcher_follows_the_rules_it_was_given() {
    let m = matcher("*.log\n!keep.log\n/only-top\n");
    assert!(m.should_ignore("/ws/a.log", false));
    assert!(m.should_ignore("/ws/deep/b.log", false));
    assert!(!m.should_ignore("/ws/keep.log", false));
    assert!(m.should_ignore("/ws/only-top", false));
    assert!(!m.should_ignore("/ws/sub/only-top", false));
    assert!(!m.should_ignore("/ws/a.md", false));
}

#[test]
fn internal_directory_is_left_out_whatever_the_rules_say() {
    for rules in ["", "!.lore/\n!.lore/**\n!*\n", "!/.lore\n", DEFAULT_LOREIGNORE] {
        let m = matcher(rules);
        assert!(m.should_ignore("/ws/.lore", true));
        assert!(m.should_ignore("/ws/.lore/index.json", false));
        assert!(m.should_ignore("/ws/.lore/assets/images/a.png", false));
        assert!(m.should_ignore("/ws/.git", true));
        assert!(m.should_ignore("/ws/.git/HEAD", false));
    }
}

#[test]
fn paths_outside_the_workspace_are_never_left_out() {
    let m = matcher("*\n");
    assert!(m.should_ignore("/ws/anything", false));
    assert!(!m.should_ignore("/elsewhere/anything", false));
    assert!(!m.should_ignore("/elsewhere/.lore/x", false));
    assert!(!m.should_ignore("/wsx/a", false));
}

#[test]
fn reload_takes_up_new_rules() {
    let mut m = matcher("*.tmp\n");
    assert!(m.should_ignore("/ws/a.tmp", false));
    assert!(!m.should_ignore("/ws/a.bak", false));
    m.reload("*.bak\n").unwrap();
    assert!(!m.should_ignore("/ws/a.tmp", false));
    assert!(m.should_ignore("/ws/a.bak", false));
    assert!(m.should_ignore("/ws/.lore/x", false));
    assert_eq!(m.root(), "/ws");
}

#[test]
fn comments_and_broken_lines_add_no_rule() {
    let m = matcher("# *.md\n\n   \n*.tmp\n");
    assert!(!m.should_ignore("/ws/a.md", false));
    assert!(m.should_ignore("/ws/a.tmp", false));
}

fn too_many_rules() -> String {
    let mut rules = String::new();
    for i in 0..4000 {
        rules.push_str(&format!("a{}*b?c*[d-z]*e{}*/**/f*g*h*{}*i*j*k*l\n", i, i, i));
    }
    rules
}

#[test]
fn rules_that_cannot_be_compiled_are_refused() {
    match IgnoreMatcher::new("/ws", &too_many_rules()) {
        Err(IgnoreError::InvalidRules(text)) => assert!(!text.is_empty()),
        Ok(_) => panic!("the rules were compiled"),
    }
}

#[test]
fn a_failed_reload_keeps_the_rules() {
    let mut m = matcher("*.tmp\n");
    assert!(m.reload(&too_many_rules()).is_err());
    assert!(m.should_ignore("/ws/a.tmp", false));
    assert!(!m.should_ignore("/ws/a.md", false));
    assert_eq!(m.root(), "/ws");
}

#[test]
fn rules_of_empty_lines_and_comments_always_give_a_matcher() {
    for rules in ["", "\n", "\n\n\n", "# only a comment", "# one\n\n# two\r\n\n#", "\u{feff}# marked\n"] {
        let m = IgnoreMatcher::new("/ws", rules).unwrap();
        assert!(!m.should_ignore("/ws/a.md", false));
        assert!(!m.should_ignore("/ws/# one", false));
        assert!(m.should_ignore("/ws/.lore/index.json", false));
    }
    let mut m = matcher("*.md\n");
    assert!(m.should_ignore("/ws/a.md", false));
    m.reload("# nothing is left out any more\n").unwrap();
    assert!(!m.should_ignore("/ws/a.md", false));
    m.reload("").unwrap();
    assert!(!m.should_ignore("/ws/a.md", false));
}

#[test]
fn what_lies_below_a_directory_that_is_left_out_is_left_out_with_it() {
    let m = matcher(DEFAULT_LOREIGNORE);
    assert!(m.should_ignore("/ws/node_modules", true));
    assert!(m.should_ignore("/ws/node_modules/pkg/index.js", false));
    assert!(m.should_ignore("/ws/node_modules/pkg", true));
    assert!(m.should_ignore("/ws/app/target/debug/build.log", false));
    assert!(!m.should_ignore("/ws/node_modules", false));
    assert!(!m.should_ignore("/ws/notes/node_module/readme.md", false));
    assert!(!m.should_ignore("/ws/Characters/hero.character.md", false));
    let m = matcher("/private\n");
    assert!(m.should_ignore("/ws/private", false));
    assert!(m.should_ignore("/ws/private/diary.md", false));
    assert!(m.should_ignore("/ws/private/a/b/c.md", false));
    assert!(!m.should_ignore("/ws/public/private/diary.md", false));
}

#[test]
fn a_rule_for_the_path_itself_stands_before_the_rules_for_what_is_above_it() {
    let m = matcher("drafts/\n!keep.md\n");
    assert!(m.should_ignore("/ws/drafts", true));
    assert!(m.should_ignore("/ws/drafts/old.md", false));
    assert!(!m.should_ignore("/ws/drafts/keep.md", false));
    assert!(!m.should_ignore("/ws/keep.md", false));
}
