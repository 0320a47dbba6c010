//! The index of a Lore Designer workspace, kept in step with the disk.
//!
//! A workspace is a directory of the user's files. This crate decides what
//! the index of a workspace holds: the snapshot of its files and
//! directories, the tree that is shown to the user, the update that follows
//! a change on disk, the events of the watcher, the rules by which paths are
//! left out, and the registry of the images that the content files use.
//!
//! The crate reads and writes no file and starts no thread. What is on disk
//! comes in as plain values, and what is to be done comes out as plain
//! values. From outside it takes the matching of ignore rules, the SHA-256
//! digest, the present time and random identifiers.

pub mod editor;
pub mod frontmatter;
pub mod hashing;
pub mod ignore_rules;
pub mod image_manager;
pub mod index;
pub mod logging;
pub mod model;
pub mod paths;
pub mod progress;
pub mod registry;
pub mod scan;
pub mod seqs;
pub mod state;
pub mod templates;
pub mod text;
pub mod tree;
pub mod tree_count;
pub mod watcher;
pub mod workspace;

pub use editor::{
    combine_frontmatter_and_content, determine_file_icon, Editor, EditorManager,
    FrontmatterResult,
};
pub use frontmatter::{extract_frontmatter, ParsedFrontmatter};
pub use hashing::ContentHasher;
pub use ignore_rules::{IgnoreError, IgnoreMatcher, RuleMatch, DEFAULT_LOREIGNORE};
pub use image_manager::{
    BulkUpdateResult, HashedFile, ImageEntry, ImageError, ImageIndex, ImageProbe, ImageReference,
    ImageRegistrationResponse, ImageRegistry, MissingImageInfo, ValidationReport,
};
pub use index::{IndexManager, IndexSnapshot, PathState, WalkedEntry};
pub use logging::{
    default_max_files, default_targets, LogEntry, LogLevel, LogState, LogTarget, MessageVisitor,
    RateLimiter, RotationConfig, RotationStrategy,
};
pub use model::{
    EditorError, FileContent, FileTreeItem, FileType, ImageInfo, IndexedDirectory, IndexedFile,
    Role, SaveFileRequest, WorkspaceInfo,
};
pub use progress::{IndexingProgress, ProgressTable};
pub use registry::{Registration, WatchState, WatcherRegistry};
pub use state::{EditorState, PanelState, TabInfo};
pub use templates::get_template_content;
pub use watcher::{
    is_in_lore_dir, ChangeNotice, Debouncer, FileEvent, FileSystemEventHandler, FileSystemWatcher,
    ObservedEvent, RawEvent, RawEventKind, WatcherAction,
};
pub use workspace::{
    add_recent_workspace, check_workspace_exists, get_config_path, get_workspace_icon_path,
    is_supported_icon_extension, open_existing_workspace, remove_recent_workspace, FieldType,
    FolderInfo, ProjectManifest, RecentWorkspace, WorkspaceError, WorkspaceManager,
    WorkspacePreview, WorkspaceResponse,
};
