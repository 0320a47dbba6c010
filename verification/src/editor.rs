//! What the editor does with the files of a workspace: opening a file in a
//! tab, and telling what a file holds and what is to be written to it.

use vstd::prelude::*;
use crate::frontmatter::{front_matter_of, parse_frontmatter, parsed_of, ParsedFrontmatter};
use crate::index::{display_name, PathState};
use crate::model::{
    icon_of_type, text_of, type_of_name, EditorError, FileContent, FileType, SaveFileRequest,
    WorkspaceInfo,
};
use crate::paths::{file_name, key_of, name_of, parent_key, parent_of, relative_key};
use crate::state::{
    has_tab, is_first_tab, recent_after, tabs_with, EditorState, StateRecord, TabInfo, TabRecord,
};
use crate::text::{
    chars_eq_ignore_ascii_case, chars_of, concat, eq_ignore_ascii_case, owned,
};

verus! {

/// What stands before the name of the workspace in the welcome text.
pub const WELCOME_HEAD: &'static str = "# Welcome to ";

/// What stands after the name of the workspace in the welcome text.
pub const WELCOME_TAIL: &'static str =
    "\n\nThis is your new Lore Designer workspace.\n\n## Getting Started\n\n- Create characters, locations, and lore in their respective folders\n- Use the file explorer to navigate your content\n- Everything is automatically saved in your workspace\n\nLet your creativity flow!";

/// The text of a file with front matter: the front matter between two
/// lines of three dashes, an empty line, and the content.
pub open spec fn combined(frontmatter: Seq<char>, content: Seq<char>) -> Seq<char> {
    "---\n"@ + frontmatter + "\n---\n\n"@ + content
}

/// The text of a file with front matter.
pub fn combine_frontmatter_and_content(frontmatter: &str, content: &str) -> (r: String)
    ensures
        r@ == combined(frontmatter@, content@),
{
    let a = concat("---\n", frontmatter);
    let b = concat(a.as_str(), "\n---\n\n");
    concat(b.as_str(), content)
}

/// The icon tag that the name of a folder gives to the files in it.
pub open spec fn folder_file_icon(folder: Seq<char>) -> Option<Seq<char>> {
    if eq_ignore_ascii_case(folder, "characters"@) {
        Some("character"@)
    } else if eq_ignore_ascii_case(folder, "locations"@) {
        Some("location"@)
    } else if eq_ignore_ascii_case(folder, "lore"@) {
        Some("book"@)
    } else if eq_ignore_ascii_case(folder, "story"@) || eq_ignore_ascii_case(folder, "stories"@) {
        Some("fileText"@)
    } else if eq_ignore_ascii_case(folder, "notes"@) {
        Some("note"@)
    } else {
        None
    }
}

/// The icon tag of the file at `path`: that of its type where the name
/// tells the type, and else that of the folder the file lies in.
pub open spec fn file_icon(path: Seq<char>) -> Option<Seq<char>> {
    match icon_of_type(type_of_name(name_of(path))) {
        Some(icon) => Some(icon),
        None => match parent_of(path) {
            Some(folder) => folder_file_icon(name_of(folder)),
            None => None,
        },
    }
}

fn icon_by_folder(folder: &str) -> (r: Option<String>)
    ensures
        text_of(r) == folder_file_icon(folder@),
{
    let f = chars_of(folder);
    if chars_eq_ignore_ascii_case(&f, &chars_of("characters")) {
        Some(owned("character"))
    } else if chars_eq_ignore_ascii_case(&f, &chars_of("locations")) {
        Some(owned("location"))
    } else if chars_eq_ignore_ascii_case(&f, &chars_of("lore")) {
        Some(owned("book"))
    } else if chars_eq_ignore_ascii_case(&f, &chars_of("story")) || chars_eq_ignore_ascii_case(
        &f,
        &chars_of("stories"),
    ) {
        Some(owned("fileText"))
    } else if chars_eq_ignore_ascii_case(&f, &chars_of("notes")) {
        Some(owned("note"))
    } else {
        None
    }
}

/// The icon tag of the file at `file_path`.
pub fn determine_file_icon(file_path: &str) -> (r: Option<String>)
    ensures
        text_of(r) == file_icon(file_path@),
{
    let file_type = match FileType::from_path(file_path) {
        Ok(t) => t,
        Err(_) => FileType::Unknown,
    };
    match file_type.icon() {
        Some(icon) => Some(icon),
        None => match parent_key(file_path) {
            Some(folder) => {
                let name = file_name(folder.as_str());
                icon_by_folder(name.as_str())
            },
            None => None,
        },
    }
}

/// The tab that shows the file at `path` under the identifier `id`, if the
/// file lies in the workspace.
pub open spec fn tab_for(workspace: Seq<char>, path: Seq<char>, id: Seq<char>) -> Option<
    TabRecord,
> {
    match key_of(workspace, path) {
        None => None,
        Some(key) => Some(
            TabRecord {
                id,
                path: key,
                title: display_name(path),
                icon: file_icon(path),
                has_unsaved_changes: false,
            },
        ),
    }
}

/// The state of the editor after `tab` was opened: the tab is among the
/// open tabs and active, and its file is the one opened last.
pub open spec fn opened(state: StateRecord, tab: TabRecord) -> StateRecord {
    StateRecord {
        workspace_path: state.workspace_path,
        open_tabs: tabs_with(state.open_tabs, tab),
        active_tab: Some(tab.id),
        panels: state.panels,
        recently_opened: recent_after(state.recently_opened, tab.path),
    }
}

/// A tab that was added is among the tabs.
pub proof fn lemma_added_tab_is_there(tabs: Seq<TabRecord>, tab: TabRecord)
    ensures
        has_tab(tabs_with(tabs, tab), tab.id),
{
    let r = tabs_with(tabs, tab);
    if has_tab(tabs, tab.id) {
        let k = choose|k: int| 0 <= k < tabs.len() && (#[trigger] tabs[k]).id == tab.id;
        lemma_has_first_tab(tabs, tab.id, k);
        let i = choose|i: int| is_first_tab(tabs, tab.id, i);
        assert(r[i].id == tab.id);
    } else {
        assert(r[tabs.len() as int].id == tab.id);
    }
}

/// Where a tab has the identifier `id`, some tab is the first to have it.
proof fn lemma_has_first_tab(tabs: Seq<TabRecord>, id: Seq<char>, k: int)
    requires
        0 <= k < tabs.len(),
        tabs[k].id == id,
    ensures
        exists|i: int| is_first_tab(tabs, id, i),
    decreases k,
{
    if exists|j: int| 0 <= j < k && (#[trigger] tabs[j]).id == id {
        let j = choose|j: int| 0 <= j < k && (#[trigger] tabs[j]).id == id;
        lemma_has_first_tab(tabs, id, j);
    } else {
        assert(is_first_tab(tabs, id, k));
    }
}

/// `Uuid::new_v4` and its `Display`: a random identifier as text. Nothing
/// is known of the text.
#[verifier::external_body]
fn random_uuid() -> (r: String) {
    ::uuid::Uuid::new_v4().to_string()
}

/// The actions of the editor.
pub struct Editor;

impl Editor {
    /// The text that greets the user of a new workspace.
    pub fn get_welcome_text(workspace_name: &str) -> (r: String)
        ensures
            r@ == WELCOME_HEAD@ + workspace_name@ + WELCOME_TAIL@,
    {
        let head = concat(WELCOME_HEAD, workspace_name);
        concat(head.as_str(), WELCOME_TAIL)
    }

    /// Opens the file at `file_path` in a tab with the identifier `tab_id`.
    /// Fails, and changes nothing, where the file is not in the workspace.
    pub fn open_file_as(
        workspace_path: &str,
        file_path: &str,
        editor_state: &mut EditorState,
        tab_id: String,
    ) -> (r: Result<TabInfo, EditorError>)
        ensures
            match r {
                Ok(tab) => tab_for(workspace_path@, file_path@, tab_id@) == Some(tab@)
                    && final(editor_state)@ == opened(old(editor_state)@, tab@),
                Err(e) => key_of(workspace_path@, file_path@) is None && final(editor_state)@
                    == old(editor_state)@ && e.is_invalid_path(file_path@),
            },
    {
        let key = match relative_key(workspace_path, file_path) {
            None => {
                return Err(EditorError::InvalidPath(owned(file_path)));
            },
            Some(key) => key,
        };
        let last = file_name(file_path);
        let title = if chars_of(last.as_str()).len() == 0 {
            owned("unnamed")
        } else {
            last
        };
        let tab = TabInfo {
            id: tab_id,
            path: key,
            title,
            icon: determine_file_icon(file_path),
            has_unsaved_changes: false,
        };
        proof {
            lemma_added_tab_is_there(editor_state@.open_tabs, tab@);
        }
        editor_state.add_or_update_tab(tab.clone());
        editor_state.set_active_tab(tab.id.as_str());
        editor_state.add_recently_opened(tab.path.as_str());
        Ok(tab)
    }

    /// Opens the file at `file_path` in a tab with a new identifier, which
    /// starts with `tab-`. See `open_file_as`.
    pub fn open_file(workspace_path: &str, file_path: &str, editor_state: &mut EditorState) -> (r:
        Result<TabInfo, EditorError>)
        ensures
            match r {
                Ok(tab) => "tab-"@.is_prefix_of(tab@.id) && tab_for(
                    workspace_path@,
                    file_path@,
                    tab@.id,
                ) == Some(tab@) && final(editor_state)@ == opened(old(editor_state)@, tab@),
                Err(e) => key_of(workspace_path@, file_path@) is None && final(editor_state)@
                    == old(editor_state)@ && e.is_invalid_path(file_path@),
            },
    {
        let unique = random_uuid();
        let id = concat("tab-", unique.as_str());
        proof {
            assert(id@.subrange(0, "tab-"@.len() as int) =~= "tab-"@);
        }
        Self::open_file_as(workspace_path, file_path, editor_state, id)
    }
}

/// What is told of the front matter of a file.
#[derive(Debug, PartialEq, Eq)]
pub struct FrontmatterResult {
    /// The path of the file, as it was asked for.
    pub path: String,
    /// The text of the file where front matter was found in it.
    pub frontmatter: Option<String>,
    /// Whether front matter was found.
    pub has_frontmatter: bool,
}

/// Whether front matter is looked for in a file of this type.
pub open spec fn carries_frontmatter(file_type: FileType) -> bool {
    file_type == FileType::Character || file_type == FileType::Location || file_type
        == FileType::Lore
}

/// What a `FileContent` stands for.
pub enum ContentRecord {
    Markdown { content: Seq<char> },
    Canvas { data: Seq<char> },
    Character { frontmatter: Option<Seq<char>>, content: Seq<char> },
    Location { frontmatter: Option<Seq<char>>, content: Seq<char> },
    Lore { frontmatter: Option<Seq<char>>, content: Seq<char> },
    Dialogue { data: Seq<char> },
    Image { path: Seq<char> },
    PlainText { content: Seq<char> },
}

impl View for FileContent {
    type V = ContentRecord;

    open spec fn view(&self) -> ContentRecord {
        match self {
            FileContent::Markdown { content } => ContentRecord::Markdown { content: content@ },
            FileContent::Canvas { data } => ContentRecord::Canvas { data: data@ },
            FileContent::Character { frontmatter, content } => ContentRecord::Character {
                frontmatter: text_of(*frontmatter),
                content: content@,
            },
            FileContent::Location { frontmatter, content } => ContentRecord::Location {
                frontmatter: text_of(*frontmatter),
                content: content@,
            },
            FileContent::Lore { frontmatter, content } => ContentRecord::Lore {
                frontmatter: text_of(*frontmatter),
                content: content@,
            },
            FileContent::Dialogue { data } => ContentRecord::Dialogue { data: data@ },
            FileContent::Image { path } => ContentRecord::Image { path: path@ },
            FileContent::PlainText { content } => ContentRecord::PlainText { content: content@ },
        }
    }
}

/// The front matter and the content of a text: as parsed where front matter
/// was found, and else no front matter and the whole text.
pub open spec fn parts_of(text: Seq<char>, parsed: Option<(Seq<char>, Seq<char>)>) -> (
    Option<Seq<char>>,
    Seq<char>,
) {
    match parsed {
        Some((matter, content)) => (Some(matter), content),
        None => (None, text),
    }
}

/// What a file of the given type holds, given its path, its text and the
/// front matter that was found in the text.
pub open spec fn content_of(
    file_type: FileType,
    full_path: Seq<char>,
    text: Seq<char>,
    parsed: Option<(Seq<char>, Seq<char>)>,
) -> ContentRecord {
    match file_type {
        FileType::Markdown => ContentRecord::Markdown { content: text },
        FileType::Canvas => ContentRecord::Canvas { data: text },
        FileType::Character => ContentRecord::Character {
            frontmatter: parts_of(text, parsed).0,
            content: parts_of(text, parsed).1,
        },
        FileType::Location => ContentRecord::Location {
            frontmatter: parts_of(text, parsed).0,
            content: parts_of(text, parsed).1,
        },
        FileType::Lore => ContentRecord::Lore {
            frontmatter: parts_of(text, parsed).0,
            content: parts_of(text, parsed).1,
        },
        FileType::Dialogue => ContentRecord::Dialogue { data: text },
        FileType::Image => ContentRecord::Image { path: full_path },
        FileType::Unknown => ContentRecord::PlainText { content: text },
    }
}

/// The text that a request to save asks to write.
pub open spec fn text_to_save(request: SaveFileRequest) -> Seq<char> {
    match request {
        SaveFileRequest::Text { content } => content@,
        SaveFileRequest::Json { content } => content@,
        SaveFileRequest::MarkdownWithFrontmatter { frontmatter, content } => combined(
            frontmatter@,
            content@,
        ),
    }
}

/// What is done with the files of a workspace as a whole.
pub struct EditorManager;

impl EditorManager {
    /// What is known of the workspace at `path`, seen in `state`, when it is
    /// opened. Fails where there is nothing at the path, or no directory.
    pub fn open_workspace(
        path: &str,
        state: PathState,
        icon_path: Option<String>,
        last_modified: u64,
    ) -> (r: Result<WorkspaceInfo, EditorError>)
        ensures
            match r {
                Ok(info) => state == PathState::Directory && info.path@ == path@ && info.name@
                    == (if name_of(path@).len() == 0 {
                    "Unnamed Workspace"@
                } else {
                    name_of(path@)
                }) && info.icon_path == icon_path && info.last_modified == last_modified,
                Err(e) => if state == PathState::Missing {
                    e.is_workspace_not_found(path@)
                } else {
                    state != PathState::Directory && e.is_invalid_path(path@)
                },
            },
    {
        match state {
            PathState::Missing => Err(EditorError::WorkspaceNotFound(owned(path))),
            PathState::Directory => {
                let last = file_name(path);
                let name = if chars_of(last.as_str()).len() == 0 {
                    owned("Unnamed Workspace")
                } else {
                    last
                };
                Ok(WorkspaceInfo { path: owned(path), name, icon_path, last_modified })
            },
            _ => Err(EditorError::InvalidPath(owned(path))),
        }
    }

    /// Whether the content of a file of this type is read as text: all but
    /// an image, which is handed on by its path.
    pub fn reads_text(file_type: FileType) -> (r: bool)
        ensures
            r == (file_type != FileType::Image),
    {
        !matches!(file_type, FileType::Image)
    }

    /// Whether front matter is looked for in a file of this type.
    pub fn has_frontmatter(file_type: FileType) -> (r: bool)
        ensures
            r == carries_frontmatter(file_type),
    {
        matches!(file_type, FileType::Character | FileType::Location | FileType::Lore)
    }

    /// What the file at `full_path` holds. `workspace_state` and
    /// `file_state` say what was found at the workspace and at the file, and
    /// `text` is the text of the file. In a character, a location and a
    /// lore entry the front matter is looked for and set apart. Fails where
    /// the workspace is no directory or the file no file.
    pub fn get_file_content(
        workspace_path: &str,
        workspace_state: PathState,
        full_path: &str,
        file_state: PathState,
        text: String,
    ) -> (r: Result<FileContent, EditorError>)
        ensures
            match r {
                Ok(content) => workspace_state == PathState::Directory && (file_state is File)
                    && content@ == content_of(
                    type_of_name(name_of(full_path@)),
                    full_path@,
                    text@,
                    front_matter_of(text@),
                ),
                Err(e) => if workspace_state != PathState::Directory {
                    e.is_workspace_not_found(workspace_path@)
                } else {
                    !(file_state is File) && e.is_file_not_found(full_path@)
                },
            },
    {
        let file_type = match FileType::from_path(full_path) {
            Ok(t) => t,
            Err(_) => FileType::Unknown,
        };
        let parsed = if Self::has_frontmatter(file_type) {
            parse_frontmatter(text.as_str())
        } else {
            None
        };
        Self::file_content_from(
            workspace_path,
            workspace_state,
            full_path,
            file_state,
            text,
            parsed,
        )
    }

    /// What is told of the front matter of a file of the given type with
    /// the text `text`, where `parsed` is what the parser found in the text:
    /// a file whose type carries front matter and in which the parser found
    /// some has front matter, and its text is handed on.
    pub fn frontmatter_result_from(
        file_path: &str,
        file_type: FileType,
        text: String,
        parsed: &Option<ParsedFrontmatter>,
    ) -> (r: FrontmatterResult)
        ensures
            r.path@ == file_path@,
            r.has_frontmatter == (carries_frontmatter(file_type) && parsed is Some),
            text_of(r.frontmatter) == if r.has_frontmatter {
                Some(text@)
            } else {
                None
            },
    {
        let found = Self::has_frontmatter(file_type) && parsed.is_some();
        FrontmatterResult {
            path: owned(file_path),
            frontmatter: if found {
                Some(text)
            } else {
                None
            },
            has_frontmatter: found,
        }
    }

    /// What is told of the front matter of the file that was asked for as
    /// `file_path` and lies at `full_path`. Fails where the workspace is no
    /// directory or the file no file.
    pub fn get_file_frontmatter(
        workspace_path: &str,
        workspace_state: PathState,
        file_path: &str,
        full_path: &str,
        file_state: PathState,
        text: String,
    ) -> (r: Result<FrontmatterResult, EditorError>)
        ensures
            match r {
                Ok(told) => workspace_state == PathState::Directory && (file_state is File)
                    && told.path@ == file_path@ && told.has_frontmatter == (carries_frontmatter(
                    type_of_name(name_of(full_path@)),
                ) && front_matter_of(text@) is Some) && text_of(told.frontmatter)
                    == if told.has_frontmatter {
                    Some(text@)
                } else {
                    None
                },
                Err(e) => if workspace_state != PathState::Directory {
                    e.is_workspace_not_found(workspace_path@)
                } else {
                    !(file_state is File) && e.is_file_not_found(full_path@)
                },
            },
    {
        match workspace_state {
            PathState::Directory => {},
            _ => {
                return Err(EditorError::WorkspaceNotFound(owned(workspace_path)));
            },
        }
        match file_state {
            PathState::File { .. } => {},
            _ => {
                return Err(EditorError::FileNotFound(owned(full_path)));
            },
        }
        let file_type = match FileType::from_path(full_path) {
            Ok(t) => t,
            Err(_) => FileType::Unknown,
        };
        let parsed = if Self::has_frontmatter(file_type) {
            parse_frontmatter(text.as_str())
        } else {
            None
        };
        Ok(Self::frontmatter_result_from(file_path, file_type, text, &parsed))
    }

    /// What the file at `full_path` holds, where `parsed` is the front
    /// matter that was found in its text. `workspace_state` and `file_state`
    /// say what was found at the workspace and at the file, and `text` is
    /// the text of the file. Fails where the workspace is no directory or
    /// the file no file.
    pub fn file_content_from(
        workspace_path: &str,
        workspace_state: PathState,
        full_path: &str,
        file_state: PathState,
        text: String,
        parsed: Option<ParsedFrontmatter>,
    ) -> (r: Result<FileContent, EditorError>)
        ensures
            match r {
                Ok(content) => workspace_state == PathState::Directory && (file_state is File)
                    && content@ == content_of(
                    type_of_name(name_of(full_path@)),
                    full_path@,
                    text@,
                    parsed_of(parsed),
                ),
                Err(e) => if workspace_state != PathState::Directory {
                    e.is_workspace_not_found(workspace_path@)
                } else {
                    !(file_state is File) && e.is_file_not_found(full_path@)
                },
            },
    {
        match workspace_state {
            PathState::Directory => {},
            _ => {
                return Err(EditorError::WorkspaceNotFound(owned(workspace_path)));
            },
        }
        match file_state {
            PathState::File { .. } => {},
            _ => {
                return Err(EditorError::FileNotFound(owned(full_path)));
            },
        }
        let file_type = match FileType::from_path(full_path) {
            Ok(t) => t,
            Err(_) => FileType::Unknown,
        };
        let (frontmatter, body) = match file_type {
            FileType::Character | FileType::Location | FileType::Lore => match parsed {
                Some(p) => (Some(p.matter), p.content),
                None => (None, text.clone()),
            },
            _ => (None, text.clone()),
        };
        Ok(
            match file_type {
                FileType::Markdown => FileContent::Markdown { content: text },
                FileType::Canvas => FileContent::Canvas { data: text },
                FileType::Character => FileContent::Character { frontmatter, content: body },
                FileType::Location => FileContent::Location { frontmatter, content: body },
                FileType::Lore => FileContent::Lore { frontmatter, content: body },
                FileType::Dialogue => FileContent::Dialogue { data: text },
                FileType::Image => FileContent::Image { path: owned(full_path) },
                FileType::Unknown => FileContent::PlainText { content: text },
            },
        )
    }

    /// The text that a request to save asks to write, where the workspace is
    /// a directory. Fails where it is not.
    pub fn save_file_content(
        workspace_path: &str,
        workspace_state: PathState,
        request: SaveFileRequest,
    ) -> (r: Result<String, EditorError>)
        ensures
            match r {
                Ok(text) => workspace_state == PathState::Directory && text@ == text_to_save(
                    request,
                ),
                Err(e) => workspace_state != PathState::Directory && e.is_workspace_not_found(
                    workspace_path@,
                ),
            },
    {
        match workspace_state {
            PathState::Directory => {},
            _ => {
                return Err(EditorError::WorkspaceNotFound(owned(workspace_path)));
            },
        }
        Ok(
            match request {
                SaveFileRequest::Text { content } => content,
                SaveFileRequest::Json { content } => content,
                SaveFileRequest::MarkdownWithFrontmatter { frontmatter, content } => {
                    combine_frontmatter_and_content(frontmatter.as_str(), content.as_str())
                },
            },
        )
    }
}

} // verus!
