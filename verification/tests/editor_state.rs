use lore_core::state::{EditorState, PanelState, TabInfo, MAX_RECENT_FILES};

fn tab(id: &str, path: &str) -> TabInfo {
    TabInfo {
        id: id.to_string(),
        path: path.to_string(),
        title: path.to_string(),
        icon: None,
        has_unsaved_changes: false,
    }
}

fn ids(s: &EditorState) -> Vec<String> {
    s.open_tabs.iter().map(|t| t.id.clone()).collect()
}

#[test]
fn a_new_state_has_default_panels_and_nothing_open() {
    let s = EditorState::new("/ws");
    assert_eq!(s.workspace_path, "/ws");
    assert!(s.open_tabs.is_empty());
    assert_eq!(s.active_tab, None);
    assert!(s.recently_opened.is_empty());
    assert_eq!(
        s.panels,
        PanelState {
            console_visible: false,
            inspector_visible: true,
            explorer_width: 250,
            inspector_width: 300,
            console_height: 200,
        }
    );
    assert_eq!(PanelState::default(), s.panels);
}

#[test]
fn recently_opened_keeps_the_latest_first_without_repeats() {
    let mut s = EditorState::new("/ws");
    s.add_recently_opened("a.md");
    s.add_recently_opened("b.md");
    s.add_recently_opened("c.md");
    s.add_recently_opened("a.md");
    assert_eq!(s.recently_opened, vec!["a.md", "c.md", "b.md"]);
}

#[test]
fn recently_opened_is_capped() {
    let mut s = EditorState::new("/ws");
    for i in 0..15 {
        s.add_recently_opened(&format!("f{}.md", i));
    }
    assert_eq!(s.recently_opened.len(), MAX_RECENT_FILES);
    assert_eq!(s.recently_opened[0], "f14.md");
    assert_eq!(s.recently_opened[9], "f5.md");
    s.add_recently_opened("f5.md");
    assert_eq!(s.recently_opened.len(), 10);
    assert_eq!(s.recently_opened[0], "f5.md");
    assert_eq!(s.recently_opened[9], "f6.md");
}

#[test]
fn tabs_are_added_or_replaced_by_identifier() {
    let mut s = EditorState::new("/ws");
    s.add_or_update_tab(tab("1", "a.md"));
    s.add_or_update_tab(tab("2", "b.md"));
    s.add_or_update_tab(tab("1", "c.md"));
    assert_eq!(ids(&s), vec!["1", "2"]);
    assert_eq!(s.open_tabs[0].path, "c.md");
}

#[test]
fn only_an_open_tab_can_become_active() {
    let mut s = EditorState::new("/ws");
    s.add_or_update_tab(tab("1", "a.md"));
    s.set_active_tab("9");
    assert_eq!(s.active_tab, None);
    s.set_active_tab("1");
    assert_eq!(s.active_tab, Some("1".to_string()));
    s.set_active_tab("9");
    assert_eq!(s.active_tab, Some("1".to_string()));
}

#[test]
fn closing_the_active_tab_activates_the_first_that_stays() {
    let mut s = EditorState::new("/ws");
    s.add_or_update_tab(tab("1", "a.md"));
    s.add_or_update_tab(tab("2", "b.md"));
    s.add_or_update_tab(tab("3", "c.md"));
    s.set_active_tab("2");
    s.close_tab("3");
    assert_eq!(ids(&s), vec!["1", "2"]);
    assert_eq!(s.active_tab, Some("2".to_string()));
    s.close_tab("2");
    assert_eq!(ids(&s), vec!["1"]);
    assert_eq!(s.active_tab, Some("1".to_string()));
    s.close_tab("1");
    assert!(s.open_tabs.is_empty());
    assert_eq!(s.active_tab, None);
    s.close_tab("1");
    assert!(s.open_tabs.is_empty());
}
