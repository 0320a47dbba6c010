//! The records of a workspace index and the errors of its operations.

use vstd::prelude::*;
use crate::paths::{extension, extension_of, file_name, name_of};
use crate::text::{
    chars_end_with, chars_eq_ignore_ascii_case, chars_of, concat, eq_ignore_ascii_case, owned,
};

verus! {

/// Why an operation on a workspace was refused.
#[derive(Debug)]
pub enum EditorError {
    /// The workspace directory does not exist.
    WorkspaceNotFound(String),
    /// A file that the operation needs does not exist.
    FileNotFound(String),
    /// A path does not lie in the workspace, or is not of the kind asked for.
    InvalidPath(String),
}

impl EditorError {
    /// Whether the error says that `path` is not a valid path.
    pub open spec fn is_invalid_path(self, path: Seq<char>) -> bool {
        match self {
            EditorError::InvalidPath(p) => p@ == path,
            _ => false,
        }
    }

    /// Whether the error says that the workspace `path` does not exist.
    pub open spec fn is_workspace_not_found(self, path: Seq<char>) -> bool {
        match self {
            EditorError::WorkspaceNotFound(p) => p@ == path,
            _ => false,
        }
    }

    /// Whether the error says that the file `path` does not exist.
    pub open spec fn is_file_not_found(self, path: Seq<char>) -> bool {
        match self {
            EditorError::FileNotFound(p) => p@ == path,
            _ => false,
        }
    }

    /// The text that describes the error to a user.
    pub open spec fn message_of(self) -> Seq<char> {
        match self {
            EditorError::WorkspaceNotFound(p) => "Workspace not found: "@ + p@,
            EditorError::FileNotFound(p) => "File not found: "@ + p@,
            EditorError::InvalidPath(p) => "Invalid path: "@ + p@,
        }
    }

    /// The text that describes the error to a user.
    pub fn message(&self) -> (r: String)
        ensures
            r@ == self.message_of(),
    {
        match self {
            EditorError::WorkspaceNotFound(p) => concat("Workspace not found: ", p.as_str()),
            EditorError::FileNotFound(p) => concat("File not found: ", p.as_str()),
            EditorError::InvalidPath(p) => concat("Invalid path: ", p.as_str()),
        }
    }
}

/// What a file holds, as far as its name tells.
#[derive(Debug, Clone, Copy, PartialEq, Eq, Structural)]
pub enum FileType {
    Markdown,
    Canvas,
    Character,
    Location,
    Lore,
    Dialogue,
    Image,
    Unknown,
}

/// The type that a compound suffix of a file name stands for, if the name
/// ends in one. A compound suffix is matched as written, case included.
pub open spec fn type_of_suffix(name: Seq<char>) -> Option<FileType> {
    if ".character.md"@.is_suffix_of(name) || ".character.json"@.is_suffix_of(name) {
        Some(FileType::Character)
    } else if ".location.md"@.is_suffix_of(name) {
        Some(FileType::Location)
    } else if ".lore.md"@.is_suffix_of(name) {
        Some(FileType::Lore)
    } else if ".dialogue.md"@.is_suffix_of(name) || ".dialogue.json"@.is_suffix_of(name) {
        Some(FileType::Dialogue)
    } else if ".canvas.json"@.is_suffix_of(name) {
        Some(FileType::Canvas)
    } else {
        None
    }
}

/// The type that a plain extension stands for, whatever the case of its letters.
pub open spec fn type_of_extension(ext: Seq<char>) -> FileType {
    if eq_ignore_ascii_case(ext, "md"@) {
        FileType::Markdown
    } else if eq_ignore_ascii_case(ext, "canvas"@) {
        FileType::Canvas
    } else if eq_ignore_ascii_case(ext, "character"@) {
        FileType::Character
    } else if eq_ignore_ascii_case(ext, "png"@) || eq_ignore_ascii_case(ext, "jpg"@)
        || eq_ignore_ascii_case(ext, "jpeg"@) || eq_ignore_ascii_case(ext, "webp"@)
        || eq_ignore_ascii_case(ext, "svg"@) {
        FileType::Image
    } else {
        FileType::Unknown
    }
}

/// The type of a file by its name: a compound suffix decides before the
/// extension does, and a name with neither is `Unknown`.
pub open spec fn type_of_name(name: Seq<char>) -> FileType {
    match type_of_suffix(name) {
        Some(t) => t,
        None => match extension_of(name) {
            Some(ext) => type_of_extension(ext),
            None => FileType::Unknown,
        },
    }
}

/// The icon tag under which a file of the given type is shown.
pub open spec fn icon_of_type(t: FileType) -> Option<Seq<char>> {
    match t {
        FileType::Markdown => Some("markdown"@),
        FileType::Canvas => Some("canvas"@),
        FileType::Character => Some("character"@),
        FileType::Location => Some("location"@),
        FileType::Lore => Some("book"@),
        FileType::Dialogue => Some("message-square"@),
        FileType::Image => Some("image"@),
        FileType::Unknown => None,
    }
}

fn suffix_type(name: &Vec<char>) -> (r: Option<FileType>)
    ensures
        r == type_of_suffix(name@),
{
    if chars_end_with(name, &chars_of(".character.md")) || chars_end_with(
        name,
        &chars_of(".character.json"),
    ) {
        Some(FileType::Character)
    } else if chars_end_with(name, &chars_of(".location.md")) {
        Some(FileType::Location)
    } else if chars_end_with(name, &chars_of(".lore.md")) {
        Some(FileType::Lore)
    } else if chars_end_with(name, &chars_of(".dialogue.md")) || chars_end_with(
        name,
        &chars_of(".dialogue.json"),
    ) {
        Some(FileType::Dialogue)
    } else if chars_end_with(name, &chars_of(".canvas.json")) {
        Some(FileType::Canvas)
    } else {
        None
    }
}

fn extension_type(ext: &Vec<char>) -> (r: FileType)
    ensures
        r == type_of_extension(ext@),
{
    if chars_eq_ignore_ascii_case(ext, &chars_of("md")) {
        FileType::Markdown
    } else if chars_eq_ignore_ascii_case(ext, &chars_of("canvas")) {
        FileType::Canvas
    } else if chars_eq_ignore_ascii_case(ext, &chars_of("character")) {
        FileType::Character
    } else if chars_eq_ignore_ascii_case(ext, &chars_of("png")) || chars_eq_ignore_ascii_case(
        ext,
        &chars_of("jpg"),
    ) || chars_eq_ignore_ascii_case(ext, &chars_of("jpeg")) || chars_eq_ignore_ascii_case(
        ext,
        &chars_of("webp"),
    ) || chars_eq_ignore_ascii_case(ext, &chars_of("svg")) {
        FileType::Image
    } else {
        FileType::Unknown
    }
}

impl FileType {
    /// The type of the file at `path`, by the last segment of the path.
    pub fn from_path(path: &str) -> (r: Result<FileType, EditorError>)
        ensures
            r matches Ok(t) && t == type_of_name(name_of(path@)),
    {
        let name = file_name(path);
        let name_chars = chars_of(name.as_str());
        match suffix_type(&name_chars) {
            Some(t) => Ok(t),
            None => match extension(name.as_str()) {
                Some(ext) => Ok(extension_type(&chars_of(ext.as_str()))),
                None => Ok(FileType::Unknown),
            },
        }
    }

    /// The icon tag under which a file of this type is shown.
    pub fn icon(&self) -> (r: Option<String>)
        ensures
            match r {
                Some(s) => icon_of_type(*self) == Some(s@),
                None => icon_of_type(*self) is None,
            },
    {
        match self {
            FileType::Markdown => Some(owned("markdown")),
            FileType::Canvas => Some(owned("canvas")),
            FileType::Character => Some(owned("character")),
            FileType::Location => Some(owned("location")),
            FileType::Lore => Some(owned("book")),
            FileType::Dialogue => Some(owned("message-square")),
            FileType::Image => Some(owned("image")),
            FileType::Unknown => None,
        }
    }
}

/// A copy of an optional string.
pub fn clone_opt(o: &Option<String>) -> (r: Option<String>)
    ensures
        r == *o,
{
    match o {
        Some(s) => Some(s.clone()),
        None => None,
    }
}

/// The text of an optional string.
pub open spec fn text_of(o: Option<String>) -> Option<Seq<char>> {
    match o {
        Some(s) => Some(s@),
        None => None,
    }
}

/// What an `IndexedFile` stands for.
pub struct FileRecord {
    pub path: Seq<char>,
    pub name: Seq<char>,
    pub extension: Option<Seq<char>>,
    pub file_type: FileType,
    pub last_modified: u64,
    pub size: u64,
}

/// What an `IndexedDirectory` stands for.
pub struct DirRecord {
    pub path: Seq<char>,
    pub name: Seq<char>,
    pub icon: Option<Seq<char>>,
}

/// What a `FileTreeItem` stands for: a node with the trees below it.
pub struct TreeNode {
    pub name: Seq<char>,
    pub path: Seq<char>,
    pub is_directory: bool,
    pub icon: Option<Seq<char>>,
    pub children: Seq<TreeNode>,
}

/// A file of the workspace, as the index records it.
#[derive(Debug, PartialEq, Eq)]
pub struct IndexedFile {
    /// Path relative to the workspace root, with `/` between segments.
    pub path: String,
    /// Last segment of the path.
    pub name: String,
    /// Extension of the name, if it has one.
    pub extension: Option<String>,
    /// What the file holds.
    pub file_type: FileType,
    /// Time of the last change, in seconds since the epoch.
    pub last_modified: u64,
    /// Size in bytes.
    pub size: u64,
}

impl Clone for IndexedFile {
    fn clone(&self) -> (r: Self)
        ensures
            r == *self,
    {
        IndexedFile {
            path: self.path.clone(),
            name: self.name.clone(),
            extension: clone_opt(&self.extension),
            file_type: self.file_type,
            last_modified: self.last_modified,
            size: self.size,
        }
    }
}

/// A directory of the workspace, as the index records it.
#[derive(Debug, PartialEq, Eq)]
pub struct IndexedDirectory {
    /// Path relative to the workspace root, with `/` between segments.
    pub path: String,
    /// Last segment of the path.
    pub name: String,
    /// Icon tag, set for the reserved folder names.
    pub icon: Option<String>,
}

impl Clone for IndexedDirectory {
    fn clone(&self) -> (r: Self)
        ensures
            r == *self,
    {
        IndexedDirectory {
            path: self.path.clone(),
            name: self.name.clone(),
            icon: clone_opt(&self.icon),
        }
    }
}

/// A node of the file tree that is shown to the user.
#[derive(Debug, PartialEq, Eq)]
pub struct FileTreeItem {
    /// File or directory name.
    pub name: String,
    /// Path relative to the workspace root.
    pub path: String,
    /// Whether the node is a directory.
    pub is_directory: bool,
    /// Icon tag, if the node has one.
    pub icon: Option<String>,
    /// The nodes directly below this one, directories first.
    pub children: Vec<FileTreeItem>,
}

impl View for IndexedFile {
    type V = FileRecord;

    open spec fn view(&self) -> FileRecord {
        FileRecord {
            path: self.path@,
            name: self.name@,
            extension: text_of(self.extension),
            file_type: self.file_type,
            last_modified: self.last_modified,
            size: self.size,
        }
    }
}

impl View for IndexedDirectory {
    type V = DirRecord;

    open spec fn view(&self) -> DirRecord {
        DirRecord { path: self.path@, name: self.name@, icon: text_of(self.icon) }
    }
}

/// The trees that a list of items stands for.
pub open spec fn forest_of(items: Seq<FileTreeItem>) -> Seq<TreeNode>
    decreases items,
{
    Seq::new(
        items.len(),
        |i: int|
            if 0 <= i < items.len() {
                items[i].view()
            } else {
                arbitrary()
            },
    )
}

impl View for FileTreeItem {
    type V = TreeNode;

    open spec fn view(&self) -> TreeNode
        decreases self,
    {
        TreeNode {
            name: self.name@,
            path: self.path@,
            is_directory: self.is_directory,
            icon: text_of(self.icon),
            children: forest_of(self.children@),
        }
    }
}

/// What is known of a workspace when it is opened.
#[derive(Debug, Clone, PartialEq, Eq)]
pub struct WorkspaceInfo {
    /// Path of the workspace root.
    pub path: String,
    /// Name of the workspace.
    pub name: String,
    /// Path of the workspace icon, if it has one.
    pub icon_path: Option<String>,
    /// Time of the last change, in seconds since the epoch.
    pub last_modified: u64,
}

/// The content of a file, by the file's type.
#[derive(Debug, Clone, PartialEq, Eq)]
pub enum FileContent {
    Markdown { content: String },
    Canvas { data: String },
    Character { frontmatter: Option<String>, content: String },
    Location { frontmatter: Option<String>, content: String },
    Lore { frontmatter: Option<String>, content: String },
    Dialogue { data: String },
    Image { path: String },
    PlainText { content: String },
}

/// What is to be written to a file.
#[derive(Debug, Clone, PartialEq, Eq)]
pub enum SaveFileRequest {
    Text { content: String },
    Json { content: String },
    MarkdownWithFrontmatter { frontmatter: String, content: String },
}

/// The part that a character plays in a story.
#[derive(Debug, Clone, Copy, PartialEq, Eq, Structural)]
pub enum Role {
    Primary,
    Secondary,
    Tertiary,
    Undefined,
}

/// An image that was saved to the data directory of the application.
#[derive(Debug, Clone, PartialEq, Eq)]
pub struct ImageInfo {
    /// Identifier of the image.
    pub id: String,
    /// Path of the saved file.
    pub path: String,
}

} // verus!
