//! Backup naming and tree copying, verified.
//!
//! Paths are byte strings whose components are separated by `/`. The library
//! derives where the backup of a file or of a directory goes, and decides,
//! step by step, what a recursive copy of a directory does next. It never
//! touches the file system itself: the caller reports what it found and
//! carries out what the library asks for.

pub mod backup;
pub mod command;
pub mod error;
pub mod path;
pub mod tree;
pub mod walk;

pub use backup::{backup_path, backup_path_in, BackupType, PathStatus};
pub use command::{Args, Backup, Commands};
pub use error::{BackupError, Operation};
pub use tree::{backup_directory, backup_file, Action, DirItem, EntryKind, Event, TreeCopier};
