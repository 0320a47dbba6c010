//! The state of the editor for one workspace: open tabs, the active tab,
//! the panels and the files opened last.

use vstd::prelude::*;
use crate::model::{clone_opt, text_of};
use crate::seqs::{lemma_views_push, lemma_views_take_all, lemma_views_take_next, views};
use crate::text::{owned, str_eq, texts};

verus! {

/// How many recently opened files are remembered.
pub const MAX_RECENT_FILES: usize = 10;

/// An open tab.
#[derive(Debug, PartialEq, Eq)]
pub struct TabInfo {
    /// Identifier of the tab.
    pub id: String,
    /// Key of the file shown in the tab.
    pub path: String,
    /// Title of the tab.
    pub title: String,
    /// Icon tag of the tab.
    pub icon: Option<String>,
    /// Whether the tab holds changes that are not saved.
    pub has_unsaved_changes: bool,
}

/// What a `TabInfo` stands for.
pub struct TabRecord {
    pub id: Seq<char>,
    pub path: Seq<char>,
    pub title: Seq<char>,
    pub icon: Option<Seq<char>>,
    pub has_unsaved_changes: bool,
}

impl View for TabInfo {
    type V = TabRecord;

    open spec fn view(&self) -> TabRecord {
        TabRecord {
            id: self.id@,
            path: self.path@,
            title: self.title@,
            icon: text_of(self.icon),
            has_unsaved_changes: self.has_unsaved_changes,
        }
    }
}

impl Clone for TabInfo {
    fn clone(&self) -> (r: Self)
        ensures
            r == *self,
    {
        TabInfo {
            id: self.id.clone(),
            path: self.path.clone(),
            title: self.title.clone(),
            icon: clone_opt(&self.icon),
            has_unsaved_changes: self.has_unsaved_changes,
        }
    }
}

/// Which panels are shown, and how large.
#[derive(Debug, Clone, Copy, PartialEq, Eq, Structural)]
pub struct PanelState {
    pub console_visible: bool,
    pub inspector_visible: bool,
    pub explorer_width: u32,
    pub inspector_width: u32,
    pub console_height: u32,
}

impl Default for PanelState {
    fn default() -> (r: Self)
        ensures
            r == (PanelState {
                console_visible: false,
                inspector_visible: true,
                explorer_width: 250,
                inspector_width: 300,
                console_height: 200,
            }),
    {
        PanelState {
            console_visible: false,
            inspector_visible: true,
            explorer_width: 250,
            inspector_width: 300,
            console_height: 200,
        }
    }
}

/// The state of the editor for one workspace.
#[derive(Debug, PartialEq, Eq)]
pub struct EditorState {
    pub workspace_path: String,
    pub open_tabs: Vec<TabInfo>,
    /// Identifier of the active tab.
    pub active_tab: Option<String>,
    pub panels: PanelState,
    /// Keys of the files opened last, the latest first.
    pub recently_opened: Vec<String>,
}

/// What an `EditorState` stands for.
pub struct StateRecord {
    pub workspace_path: Seq<char>,
    pub open_tabs: Seq<TabRecord>,
    pub active_tab: Option<Seq<char>>,
    pub panels: PanelState,
    pub recently_opened: Seq<Seq<char>>,
}

impl View for EditorState {
    type V = StateRecord;

    open spec fn view(&self) -> StateRecord {
        StateRecord {
            workspace_path: self.workspace_path@,
            open_tabs: views(self.open_tabs@),
            active_tab: text_of(self.active_tab),
            panels: self.panels,
            recently_opened: texts(self.recently_opened@),
        }
    }
}

/// The texts that are not `file`.
pub open spec fn other_file(file: Seq<char>) -> spec_fn(Seq<char>) -> bool {
    |f: Seq<char>| f != file
}

/// The tabs whose identifier is not `id`.
pub open spec fn other_tab(id: Seq<char>) -> spec_fn(TabRecord) -> bool {
    |t: TabRecord| t.id != id
}

/// The files opened last after `file` was opened: `file` first, then the
/// others in their order, at most `MAX_RECENT_FILES` in all.
pub open spec fn recent_after(recent: Seq<Seq<char>>, file: Seq<char>) -> Seq<Seq<char>> {
    let all = seq![file] + recent.filter(other_file(file));
    if all.len() > MAX_RECENT_FILES {
        all.take(MAX_RECENT_FILES as int)
    } else {
        all
    }
}

/// Whether a tab has the identifier `id`.
pub open spec fn has_tab(tabs: Seq<TabRecord>, id: Seq<char>) -> bool {
    exists|i: int| 0 <= i < tabs.len() && (#[trigger] tabs[i]).id == id
}

/// Whether `i` is the index of the first tab with the identifier `id`.
pub open spec fn is_first_tab(tabs: Seq<TabRecord>, id: Seq<char>, i: int) -> bool {
    &&& 0 <= i < tabs.len()
    &&& tabs[i].id == id
    &&& forall|j: int| 0 <= j < i ==> (#[trigger] tabs[j]).id != id
}

/// The tabs after `tab` was added: in the place of the first tab with its
/// identifier, or last where no tab has it.
pub open spec fn tabs_with(tabs: Seq<TabRecord>, tab: TabRecord) -> Seq<TabRecord> {
    if has_tab(tabs, tab.id) {
        tabs.update(choose|i: int| is_first_tab(tabs, tab.id, i), tab)
    } else {
        tabs.push(tab)
    }
}

/// The active tab after the tab `id` was closed: as before unless it was
/// that tab; then the first of the tabs that stay, if any stays.
pub open spec fn active_after_close(
    active: Option<Seq<char>>,
    id: Seq<char>,
    staying: Seq<TabRecord>,
) -> Option<Seq<char>> {
    if active == Some(id) {
        if staying.len() > 0 {
            Some(staying[0].id)
        } else {
            None
        }
    } else {
        active
    }
}

impl EditorState {
    /// The state of a workspace in which nothing is open.
    pub fn new(workspace_path: &str) -> (r: EditorState)
        ensures
            r@ == (StateRecord {
                workspace_path: workspace_path@,
                open_tabs: Seq::empty(),
                active_tab: None,
                panels: PanelState {
                    console_visible: false,
                    inspector_visible: true,
                    explorer_width: 250,
                    inspector_width: 300,
                    console_height: 200,
                },
                recently_opened: Seq::empty(),
            }),
    {
        let r = EditorState {
            workspace_path: owned(workspace_path),
            open_tabs: Vec::new(),
            active_tab: None,
            panels: PanelState::default(),
            recently_opened: Vec::new(),
        };
        assert(views(r.open_tabs@) =~= Seq::<TabRecord>::empty());
        assert(texts(r.recently_opened@) =~= Seq::<Seq<char>>::empty());
        r
    }

    /// Notes that `file_path` was opened.
    pub fn add_recently_opened(&mut self, file_path: &str)
        ensures
            final(self)@ == (StateRecord {
                recently_opened: recent_after(old(self)@.recently_opened, file_path@),
                ..old(self)@
            }),
    {
        let mut kept: Vec<String> = Vec::new();
        kept.push(owned(file_path));
        let mut i: usize = 0;
        let ghost keep = other_file(file_path@);
        let ghost before = texts(self.recently_opened@);
        proof {
            reveal(Seq::filter);
            assert(texts(self.recently_opened@.take(0)) =~= Seq::<Seq<char>>::empty());
            assert(texts(kept@) =~= seq![file_path@] + Seq::<Seq<char>>::empty());
        }
        while i < self.recently_opened.len()
            invariant
                i <= self.recently_opened.len(),
                keep == other_file(file_path@),
                before == texts(self.recently_opened@),
                texts(kept@) == seq![file_path@] + texts(self.recently_opened@.take(i as int)).filter(
                    keep,
                ),
            decreases self.recently_opened.len() - i,
        {
            let f = &self.recently_opened[i];
            proof {
                let seen = texts(self.recently_opened@.take(i as int));
                assert(texts(self.recently_opened@.take(i + 1)) =~= seen.push(f@));
                seen.lemma_filter_push(f@, keep);
                assert(texts(kept@.push(*f)) =~= texts(kept@).push(f@));
                assert((seq![file_path@] + seen.filter(keep)).push(f@) =~= seq![file_path@]
                    + seen.filter(keep).push(f@));
            }
            if !str_eq(f.as_str(), file_path) {
                kept.push(f.clone());
            }
            i += 1;
        }
        proof {
            assert(self.recently_opened@.take(self.recently_opened.len() as int)
                =~= self.recently_opened@);
        }
        if kept.len() > MAX_RECENT_FILES {
            let ghost all = texts(kept@);
            kept.truncate(MAX_RECENT_FILES);
            assert(texts(kept@) =~= all.take(MAX_RECENT_FILES as int));
        }
        self.recently_opened = kept;
    }

    fn find_tab(&self, id: &str) -> (r: Option<usize>)
        ensures
            match r {
                Some(i) => is_first_tab(self@.open_tabs, id@, i as int) && i
                    < self.open_tabs.len(),
                None => !has_tab(self@.open_tabs, id@),
            },
    {
        let mut i: usize = 0;
        while i < self.open_tabs.len()
            invariant
                i <= self.open_tabs.len(),
                forall|k: int| 0 <= k < i ==> self.open_tabs@[k].id@ != id@,
            decreases self.open_tabs.len() - i,
        {
            if str_eq(self.open_tabs[i].id.as_str(), id) {
                proof {
                    let tabs = self@.open_tabs;
                    assert forall|j: int| 0 <= j < i implies (#[trigger] tabs[j]).id != id@ by {
                        assert(tabs[j] == self.open_tabs@[j]@);
                    }
                }
                return Some(i);
            }
            i += 1;
        }
        proof {
            let tabs = self@.open_tabs;
            if has_tab(tabs, id@) {
                let k = choose|k: int| 0 <= k < tabs.len() && (#[trigger] tabs[k]).id == id@;
                assert(self.open_tabs@[k].id@ == id@);
            }
        }
        None
    }

    /// Adds a tab, in the place of the tab with the same identifier if there is one.
    pub fn add_or_update_tab(&mut self, tab: TabInfo)
        ensures
            final(self)@ == (StateRecord {
                open_tabs: tabs_with(old(self)@.open_tabs, tab@),
                ..old(self)@
            }),
    {
        match self.find_tab(tab.id.as_str()) {
            Some(i) => {
                proof {
                    let tabs = self@.open_tabs;
                    let c = choose|c: int| is_first_tab(tabs, tab@.id, c);
                    assert(is_first_tab(tabs, tab@.id, i as int));
                    assert(is_first_tab(tabs, tab@.id, c));
                    if c < i {
                        assert(tabs[c].id != tab@.id);
                    }
                    if i < c {
                        assert(tabs[i as int].id != tab@.id);
                    }
                    assert(has_tab(tabs, tab@.id));
                    assert(views(self.open_tabs@.update(i as int, tab)) =~= tabs.update(
                        i as int,
                        tab@,
                    ));
                }
                self.open_tabs[i] = tab;
            },
            None => {
                proof {
                    lemma_views_push(self.open_tabs@, tab);
                }
                self.open_tabs.push(tab);
            },
        }
    }

    /// Closes the tab `tab_id`. Where it was the active tab, the first of
    /// the tabs that stay becomes active.
    pub fn close_tab(&mut self, tab_id: &str)
        ensures
            final(self)@ == (StateRecord {
                open_tabs: old(self)@.open_tabs.filter(other_tab(tab_id@)),
                active_tab: active_after_close(
                    old(self)@.active_tab,
                    tab_id@,
                    old(self)@.open_tabs.filter(other_tab(tab_id@)),
                ),
                ..old(self)@
            }),
    {
        let mut kept: Vec<TabInfo> = Vec::new();
        let mut i: usize = 0;
        let ghost keep = other_tab(tab_id@);
        proof {
            lemma_views_take_all(self.open_tabs@);
            reveal(Seq::filter);
            assert(views(kept@) =~= Seq::<TabRecord>::empty());
        }
        while i < self.open_tabs.len()
            invariant
                i <= self.open_tabs.len(),
                keep == other_tab(tab_id@),
                views(kept@) == views(self.open_tabs@.take(i as int)).filter(keep),
            decreases self.open_tabs.len() - i,
        {
            let t = &self.open_tabs[i];
            proof {
                lemma_views_take_next(self.open_tabs@, i as int);
                views(self.open_tabs@.take(i as int)).lemma_filter_push(t@, keep);
                lemma_views_push(kept@, *t);
            }
            if !str_eq(t.id.as_str(), tab_id) {
                kept.push(t.clone());
            }
            i += 1;
        }
        proof {
            lemma_views_take_all(self.open_tabs@);
        }
        let was_active = match &self.active_tab {
            Some(id) => str_eq(id.as_str(), tab_id),
            None => false,
        };
        if was_active {
            if kept.len() > 0 {
                self.active_tab = Some(kept[0].id.clone());
            } else {
                self.active_tab = None;
            }
        }
        self.open_tabs = kept;
    }

    /// Makes the tab `tab_id` the active one, if there is such a tab.
    pub fn set_active_tab(&mut self, tab_id: &str)
        ensures
            final(self)@ == (StateRecord {
                active_tab: if has_tab(old(self)@.open_tabs, tab_id@) {
                    Some(tab_id@)
                } else {
                    old(self)@.active_tab
                },
                ..old(self)@
            }),
    {
        match self.find_tab(tab_id) {
            Some(i) => {
                assert(self@.open_tabs[i as int].id == tab_id@);
                self.active_tab = Some(owned(tab_id));
            },
            None => {},
        }
    }
}

} // verus!
