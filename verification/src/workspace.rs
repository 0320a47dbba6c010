//! Creating and opening workspaces: names, icons, the layout of a new
//! workspace and the list of the workspaces used last.

use vstd::prelude::*;
use crate::index::PathState;
use crate::paths::{file_name, name_of};
use crate::seqs::{lemma_views_push, lemma_views_take_all, lemma_views_take_next, views};
use crate::text::{
    chars_eq_ignore_ascii_case, chars_of, concat, contains_text, eq_ignore_ascii_case, owned,
    push_char, str_eq, texts,
};

verus! {

/// The version of the layout of a workspace.
pub const WORKSPACE_VERSION: u32 = 1;

/// The name of the settings file in the internal-data directory.
pub const SETTINGS_FILE_NAME: &'static str = "settings.toml";

/// The extension of the manifest file.
pub const LORE_DESIGNER_EXT: &'static str = ".lore";

/// The name of the icon file of a new workspace.
pub const DEFAULT_ICON_FILENAME: &'static str = "icon.webp";

/// How many workspaces the list of those used last holds.
pub const MAX_RECENT_WORKSPACES: usize = 10;

/// Why a workspace could not be created or opened.
#[derive(Debug)]
pub enum WorkspaceError {
    /// A path is not what the operation needs; the text says why.
    InvalidPath(String),
    /// There is something already where the workspace is to be created.
    DirectoryExists(String),
}

impl WorkspaceError {
    /// Whether the error is `InvalidPath` with the text `text`.
    pub open spec fn is_invalid_path(self, text: Seq<char>) -> bool {
        match self {
            WorkspaceError::InvalidPath(t) => t@ == text,
            _ => false,
        }
    }

    /// Whether the error says that there is something at `path` already.
    pub open spec fn is_directory_exists(self, path: Seq<char>) -> bool {
        match self {
            WorkspaceError::DirectoryExists(p) => p@ == path,
            _ => false,
        }
    }

    /// The text that describes the error to a user.
    pub open spec fn message_of(self) -> Seq<char> {
        match self {
            WorkspaceError::InvalidPath(t) => "Invalid path provided: "@ + t@,
            WorkspaceError::DirectoryExists(p) => "Workspace directory already exists at: "@ + p@,
        }
    }

    /// The text that describes the error to a user.
    pub fn message(&self) -> (r: String)
        ensures
            r@ == self.message_of(),
    {
        match self {
            WorkspaceError::InvalidPath(t) => concat("Invalid path provided: ", t.as_str()),
            WorkspaceError::DirectoryExists(p) => concat(
                "Workspace directory already exists at: ",
                p.as_str(),
            ),
        }
    }
}

/// The answer to a request to create or open a workspace.
#[derive(Debug, PartialEq, Eq)]
pub struct WorkspaceResponse {
    /// Path of the workspace.
    pub path: String,
    /// What is told to the user.
    pub message: String,
}

/// The folders of a workspace, as shown before it is opened.
#[derive(Debug, PartialEq, Eq)]
pub struct WorkspacePreview {
    pub folders: Vec<FolderInfo>,
}

/// A folder and the number of files in it.
#[derive(Debug, PartialEq, Eq)]
pub struct FolderInfo {
    pub name: String,
    pub file_count: usize,
}

/// The manifest of a project.
#[derive(Debug, PartialEq, Eq)]
pub struct ProjectManifest {
    /// Version of the layout of the workspace.
    pub lore_version: u32,
    /// Identifier of the project.
    pub project_id: String,
    /// Name of the project as the user wrote it.
    pub project_name: String,
    /// Name of the folder of the workspace.
    pub folder_name: String,
    /// Version of the application that created the project.
    pub created_with_version: String,
    /// Version of the application that opened the project last.
    pub last_opened_with_version: String,
    pub template_id: Option<String>,
    pub description: Option<String>,
    pub authors: Option<Vec<String>>,
}

/// The kind of a field of a form.
#[derive(Debug, Clone, Copy, PartialEq, Eq, Structural)]
pub enum FieldType {
    Text,
    Number,
    Textarea,
    Select,
    Multiselect,
    Image,
    Date,
    CustomProperties,
}

/// The lower-case form of a text, by the rules of Unicode.
pub uninterp spec fn lowercase_of(text: Seq<char>) -> Seq<char>;

/// Whether a character is a letter or a digit, by the rules of Unicode.
pub uninterp spec fn is_alphanumeric_char(c: char) -> bool;

/// `str::to_lowercase`: the lower-case form of the text.
#[verifier::external_body]
fn to_lowercase(text: &str) -> (r: String)
    ensures
        r@ == lowercase_of(text@),
{
    text.to_lowercase()
}

/// `char::is_alphanumeric`: whether the character is a letter or a digit.
#[verifier::external_body]
fn is_alphanumeric(c: char) -> (r: bool)
    ensures
        r == is_alphanumeric_char(c),
{
    c.is_alphanumeric()
}

/// Whether a character may stand in the name of a workspace folder.
pub open spec fn folder_char() -> spec_fn(char) -> bool {
    |c: char| is_alphanumeric_char(c) || c == '_' || c == '-'
}

/// A text with every space turned into an underscore.
pub open spec fn underscored(text: Seq<char>) -> Seq<char> {
    Seq::new(
        text.len(),
        |i: int|
            if text[i] == ' ' {
                '_'
            } else {
                text[i]
            },
    )
}

/// The folder name that is made of lower-case text: spaces become
/// underscores, and of the rest only letters, digits, underscores and
/// hyphens stay.
pub open spec fn folder_name_of(lower: Seq<char>) -> Seq<char> {
    underscored(lower).filter(folder_char())
}

/// The name of the manifest file of the workspace folder `folder_name`.
pub open spec fn manifest_name(folder_name: Seq<char>) -> Seq<char> {
    folder_name + ".lore"@
}

/// The creation and the opening of workspaces.
pub struct WorkspaceManager;

impl WorkspaceManager {
    /// The folder name of lower-case text. See `folder_name_of`.
    pub fn folder_name_from_lower(lower: &str) -> (r: String)
        ensures
            r@ == folder_name_of(lower@),
    {
        let v = chars_of(lower);
        let mut r = String::new();
        let mut i: usize = 0;
        let ghost keep = folder_char();
        proof {
            reveal(Seq::filter);
            assert(underscored(lower@).take(0) =~= Seq::<char>::empty());
        }
        while i < v.len()
            invariant
                i <= v.len(),
                v@ == lower@,
                keep == folder_char(),
                r@ == underscored(lower@).take(i as int).filter(keep),
            decreases v.len() - i,
        {
            let c = if v[i] == ' ' {
                '_'
            } else {
                v[i]
            };
            proof {
                let seen = underscored(lower@).take(i as int);
                assert(underscored(lower@).take(i + 1) =~= seen.push(c));
                seen.lemma_filter_push(c, keep);
            }
            if is_alphanumeric(c) || c == '_' || c == '-' {
                push_char(&mut r, c);
            }
            i += 1;
        }
        proof {
            assert(underscored(lower@).take(v.len() as int) =~= underscored(lower@));
        }
        r
    }

    /// The name of the folder of a workspace with the name `name`: the name
    /// in lower case, with underscores for spaces, and without any
    /// character that is no letter, digit, underscore or hyphen.
    pub fn sanitize_workspace_name(name: &str) -> (r: String)
        ensures
            r@ == folder_name_of(lowercase_of(name@)),
    {
        let lower = to_lowercase(name);
        Self::folder_name_from_lower(lower.as_str())
    }

    /// The path of the workspace `name` below `base_path`, seen in
    /// `base_state`, where nothing is at that path yet (`target_state`
    /// says what is). Fails where the base is no directory or the target exists.
    pub fn create_workspace(
        name: &str,
        base_path: &str,
        base_state: PathState,
        target_state: PathState,
    ) -> (r: Result<String, WorkspaceError>)
        ensures
            match r {
                Ok(path) => base_state == PathState::Directory && target_state
                    == PathState::Missing && path@ == base_path@ + "/"@ + folder_name_of(
                    lowercase_of(name@),
                ),
                Err(e) => if base_state != PathState::Directory {
                    e.is_invalid_path(base_path@)
                } else {
                    target_state != PathState::Missing && e.is_directory_exists(
                        base_path@ + "/"@ + folder_name_of(lowercase_of(name@)),
                    )
                },
            },
    {
        match base_state {
            PathState::Directory => {},
            _ => {
                return Err(WorkspaceError::InvalidPath(owned(base_path)));
            },
        }
        let folder = Self::sanitize_workspace_name(name);
        let prefix = concat(base_path, "/");
        let path = concat(prefix.as_str(), folder.as_str());
        match target_state {
            PathState::Missing => Ok(path),
            _ => Err(WorkspaceError::DirectoryExists(path)),
        }
    }

    /// The directories of a new workspace at `workspace_path`, in the order
    /// in which they are to be made: the workspace, its internal-data
    /// directory with its parts, then the folders for the user's content.
    pub fn create_directory_structure(workspace_path: &str) -> (r: Vec<String>)
        ensures
            texts(r@) == seq![
                workspace_path@,
                workspace_path@ + "/.lore"@,
                workspace_path@ + "/.lore/trash"@,
                workspace_path@ + "/.lore/logs"@,
                workspace_path@ + "/Characters"@,
                workspace_path@ + "/Lore"@,
                workspace_path@ + "/Story"@,
                workspace_path@ + "/Notes"@,
            ],
    {
        let mut r: Vec<String> = Vec::new();
        r.push(owned(workspace_path));
        r.push(concat(workspace_path, "/.lore"));
        r.push(concat(workspace_path, "/.lore/trash"));
        r.push(concat(workspace_path, "/.lore/logs"));
        r.push(concat(workspace_path, "/Characters"));
        r.push(concat(workspace_path, "/Lore"));
        r.push(concat(workspace_path, "/Story"));
        r.push(concat(workspace_path, "/Notes"));
        proof {
            assert(texts(r@) =~= seq![
                workspace_path@,
                workspace_path@ + "/.lore"@,
                workspace_path@ + "/.lore/trash"@,
                workspace_path@ + "/.lore/logs"@,
                workspace_path@ + "/Characters"@,
                workspace_path@ + "/Lore"@,
                workspace_path@ + "/Story"@,
                workspace_path@ + "/Notes"@,
            ]);
        }
        r
    }

    /// The manifest of a new project.
    pub fn create_manifest(
        display_name: &str,
        folder_name: &str,
        app_version: &str,
        project_id: String,
    ) -> (r: ProjectManifest)
        ensures
            r.lore_version == WORKSPACE_VERSION,
            r.project_id == project_id,
            r.project_name@ == display_name@,
            r.folder_name@ == folder_name@,
            r.created_with_version@ == app_version@,
            r.last_opened_with_version@ == app_version@,
            r.template_id is None,
            r.description is None,
            r.authors is None,
    {
        ProjectManifest {
            lore_version: WORKSPACE_VERSION,
            project_id,
            project_name: owned(display_name),
            folder_name: owned(folder_name),
            created_with_version: owned(app_version),
            last_opened_with_version: owned(app_version),
            template_id: None,
            description: None,
            authors: None,
        }
    }

    /// The name of the manifest file of the workspace folder `folder_name`.
    pub fn manifest_file_name(folder_name: &str) -> (r: String)
        ensures
            r@ == manifest_name(folder_name@),
    {
        concat(folder_name, ".lore")
    }
}

/// Whether `ext` is the extension of an icon file, whatever its case.
pub open spec fn icon_extension(ext: Seq<char>) -> bool {
    eq_ignore_ascii_case(ext, "webp"@) || eq_ignore_ascii_case(ext, "png"@)
        || eq_ignore_ascii_case(ext, "svg"@) || eq_ignore_ascii_case(ext, "jpg"@)
        || eq_ignore_ascii_case(ext, "jpeg"@)
}

/// Whether `ext` is the extension of an icon file, whatever its case.
pub fn is_supported_icon_extension(ext: &str) -> (r: bool)
    ensures
        r == icon_extension(ext@),
{
    let e = chars_of(ext);
    chars_eq_ignore_ascii_case(&e, &chars_of("webp")) || chars_eq_ignore_ascii_case(
        &e,
        &chars_of("png"),
    ) || chars_eq_ignore_ascii_case(&e, &chars_of("svg")) || chars_eq_ignore_ascii_case(
        &e,
        &chars_of("jpg"),
    ) || chars_eq_ignore_ascii_case(&e, &chars_of("jpeg"))
}

/// The name of the icon file of a workspace, given the names of the files
/// in it: the first that is there of `icon.webp`, `icon.png`, `icon.svg`
/// and `icon.jpg`.
pub open spec fn icon_among(present: Seq<Seq<char>>) -> Option<Seq<char>> {
    if present.contains("icon.webp"@) {
        Some("icon.webp"@)
    } else if present.contains("icon.png"@) {
        Some("icon.png"@)
    } else if present.contains("icon.svg"@) {
        Some("icon.svg"@)
    } else if present.contains("icon.jpg"@) {
        Some("icon.jpg"@)
    } else {
        None
    }
}

/// The path of the icon file of the workspace at `workspace_path`, if it
/// has one. `present` holds the names of the files in the workspace.
pub fn get_workspace_icon_path(workspace_path: &str, present: &Vec<String>) -> (r: Option<String>)
    ensures
        match r {
            Some(path) => icon_among(texts(present@)) is Some && path@ == workspace_path@ + "/"@
                + icon_among(texts(present@)).unwrap(),
            None => icon_among(texts(present@)) is None,
        },
{
    let prefix = concat(workspace_path, "/");
    if contains_text(present, "icon.webp") {
        Some(concat(prefix.as_str(), "icon.webp"))
    } else if contains_text(present, "icon.png") {
        Some(concat(prefix.as_str(), "icon.png"))
    } else if contains_text(present, "icon.svg") {
        Some(concat(prefix.as_str(), "icon.svg"))
    } else if contains_text(present, "icon.jpg") {
        Some(concat(prefix.as_str(), "icon.jpg"))
    } else {
        None
    }
}

/// Whether there is something at the path of a workspace.
pub fn check_workspace_exists(state: PathState) -> (r: bool)
    ensures
        r == (state != PathState::Missing),
{
    !matches!(state, PathState::Missing)
}

/// The path of the form configuration of the workspace at `workspace_path`.
pub fn get_config_path(workspace_path: &str) -> (r: String)
    ensures
        r@ == workspace_path@ + "/.lore/character_form_config.toml"@,
{
    concat(workspace_path, "/.lore/character_form_config.toml")
}

/// A workspace in the list of those used last.
#[derive(Debug, PartialEq, Eq)]
pub struct RecentWorkspace {
    /// Name of the workspace.
    pub name: String,
    /// Path of the workspace.
    pub path: String,
    /// When the workspace was used last, in seconds since the epoch.
    pub last_accessed: u64,
}

/// What a `RecentWorkspace` stands for.
pub struct RecentRecord {
    pub name: Seq<char>,
    pub path: Seq<char>,
    pub last_accessed: u64,
}

impl View for RecentWorkspace {
    type V = RecentRecord;

    open spec fn view(&self) -> RecentRecord {
        RecentRecord { name: self.name@, path: self.path@, last_accessed: self.last_accessed }
    }
}

impl Clone for RecentWorkspace {
    fn clone(&self) -> (r: Self)
        ensures
            r == *self,
    {
        RecentWorkspace {
            name: self.name.clone(),
            path: self.path.clone(),
            last_accessed: self.last_accessed,
        }
    }
}

/// The workspaces whose path is not `path`.
pub open spec fn other_workspace(path: Seq<char>) -> spec_fn(RecentRecord) -> bool {
    |w: RecentRecord| w.path != path
}

/// The list after the workspace `added` was used: `added` first, then the
/// others in their order, at most `MAX_RECENT_WORKSPACES` in all.
pub open spec fn recent_with(list: Seq<RecentRecord>, added: RecentRecord) -> Seq<RecentRecord> {
    let all = seq![added] + list.filter(other_workspace(added.path));
    if all.len() > MAX_RECENT_WORKSPACES {
        all.take(MAX_RECENT_WORKSPACES as int)
    } else {
        all
    }
}

/// The list of the one workspace, if there is one.
pub open spec fn first_of(first: Option<RecentWorkspace>) -> Seq<RecentRecord> {
    match first {
        Some(w) => seq![w@],
        None => Seq::empty(),
    }
}

fn workspaces_without(list: &Vec<RecentWorkspace>, path: &str, first: Option<RecentWorkspace>) -> (r:
    Vec<RecentWorkspace>)
    ensures
        views(r@) == first_of(first) + views(list@).filter(other_workspace(path@)),
{
    let mut kept: Vec<RecentWorkspace> = Vec::new();
    let ghost head: Seq<RecentRecord> = first_of(first);
    match first {
        Some(w) => {
            kept.push(w);
        },
        None => {},
    }
    let mut i: usize = 0;
    let ghost keep = other_workspace(path@);
    proof {
        lemma_views_take_all(list@);
        reveal(Seq::filter);
        assert(views(kept@) =~= head + Seq::<RecentRecord>::empty());
    }
    while i < list.len()
        invariant
            i <= list.len(),
            keep == other_workspace(path@),
            views(kept@) == head + views(list@.take(i as int)).filter(keep),
        decreases list.len() - i,
    {
        let w = &list[i];
        proof {
            let seen = views(list@.take(i as int));
            lemma_views_take_next(list@, i as int);
            seen.lemma_filter_push(w@, keep);
            lemma_views_push(kept@, *w);
            assert((head + seen.filter(keep)).push(w@) =~= head + seen.filter(keep).push(w@));
        }
        if !str_eq(w.path.as_str(), path) {
            kept.push(w.clone());
        }
        i += 1;
    }
    proof {
        lemma_views_take_all(list@);
    }
    kept
}

/// Notes that the workspace `name` at `path` was used at `now`.
pub fn add_recent_workspace(list: &mut Vec<RecentWorkspace>, name: String, path: String, now: u64)
    ensures
        views(final(list)@) == recent_with(
            views(old(list)@),
            RecentRecord { name: name@, path: path@, last_accessed: now },
        ),
{
    let key = path.clone();
    let added = RecentWorkspace { name, path, last_accessed: now };
    let mut kept = workspaces_without(list, key.as_str(), Some(added));
    if kept.len() > MAX_RECENT_WORKSPACES {
        let ghost all = views(kept@);
        kept.truncate(MAX_RECENT_WORKSPACES);
        assert(views(kept@) =~= all.take(MAX_RECENT_WORKSPACES as int));
    }
    *list = kept;
}

/// Takes the workspace at `path` out of the list.
pub fn remove_recent_workspace(list: &mut Vec<RecentWorkspace>, path: &str)
    ensures
        views(final(list)@) == views(old(list)@).filter(other_workspace(path@)),
{
    let kept = workspaces_without(list, path, None);
    proof {
        assert(Seq::<RecentRecord>::empty() + views(list@).filter(other_workspace(path@))
            =~= views(list@).filter(other_workspace(path@)));
    }
    *list = kept;
}

/// What is told to the user who opened the workspace with the directory
/// name `name`.
pub open spec fn opened_message(name: Seq<char>) -> Seq<char> {
    "Workspace '"@ + name + "' opened successfully."@
}

/// Opens the workspace at `workspace_path`. `state` says what is at the
/// path, `has_manifest` whether the manifest file of the directory is
/// there, and `internal_state` what is at the internal-data directory.
///
/// Fails where the path is no directory, has no name, has no manifest, or
/// has no internal-data directory.
pub fn open_existing_workspace(
    workspace_path: &str,
    state: PathState,
    has_manifest: bool,
    internal_state: PathState,
) -> (r: Result<WorkspaceResponse, WorkspaceError>)
    ensures
        r is Ok <==> (state == PathState::Directory && name_of(workspace_path@).len() > 0
            && has_manifest && internal_state == PathState::Directory),
        match r {
            Ok(response) => response.path@ == workspace_path@ && response.message@
                == opened_message(name_of(workspace_path@)),
            Err(e) => if state == PathState::Missing {
                e.is_invalid_path("Directory does not exist: "@ + workspace_path@)
            } else if state != PathState::Directory {
                e.is_invalid_path("Selected path is not a directory: "@ + workspace_path@)
            } else if name_of(workspace_path@).len() == 0 {
                e.is_invalid_path("Cannot determine directory name: "@ + workspace_path@)
            } else if !has_manifest {
                e.is_invalid_path(
                    "Not a valid Lore Designer workspace: Missing manifest file "@ + name_of(
                        workspace_path@,
                    ) + ".lore"@,
                )
            } else {
                e.is_invalid_path("Not a valid Lore Designer workspace: Missing .lore directory"@)
            },
        },
{
    match state {
        PathState::Missing => {
            return Err(
                WorkspaceError::InvalidPath(concat("Directory does not exist: ", workspace_path)),
            );
        },
        PathState::Directory => {},
        _ => {
            return Err(
                WorkspaceError::InvalidPath(
                    concat("Selected path is not a directory: ", workspace_path),
                ),
            );
        },
    }
    let name = file_name(workspace_path);
    if chars_of(name.as_str()).len() == 0 {
        return Err(
            WorkspaceError::InvalidPath(concat("Cannot determine directory name: ", workspace_path)),
        );
    }
    if !has_manifest {
        let head = concat(
            "Not a valid Lore Designer workspace: Missing manifest file ",
            name.as_str(),
        );
        return Err(WorkspaceError::InvalidPath(concat(head.as_str(), ".lore")));
    }
    match internal_state {
        PathState::Directory => {},
        _ => {
            return Err(
                WorkspaceError::InvalidPath(
                    owned("Not a valid Lore Designer workspace: Missing .lore directory"),
                ),
            );
        },
    }
    let head = concat("Workspace '", name.as_str());
    Ok(
        WorkspaceResponse {
            path: owned(workspace_path),
            message: concat(head.as_str(), "' opened successfully."),
        },
    )
}

} // verus!
