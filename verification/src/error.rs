//! Why a backup fails.

use vstd::prelude::*;
use crate::path::copy_range;

verus! {

/// A file-system operation that a backup asks its caller to carry out.
#[derive(Clone, Copy, Debug, PartialEq, Eq, Structural)]
pub enum Operation {
    /// Creating a directory together with its missing ancestors.
    CreateDir,
    /// Opening a directory to list it.
    ReadDir,
    /// Reading one entry of a directory.
    ReadEntry,
    /// Asking of what type an entry is.
    FileType,
    /// Copying the contents of a file.
    Copy,
}

impl Operation {
    /// What was being done, in words.
    pub fn describe(&self) -> (r: &'static str)
        ensures
            r@ == match self {
                Operation::CreateDir => "creating backup directory tree"@,
                Operation::ReadDir => "reading source directory"@,
                Operation::ReadEntry => "reading directory entry"@,
                Operation::FileType => "getting file type"@,
                Operation::Copy => "copying file"@,
            },
    {
        match self {
            Operation::CreateDir => "creating backup directory tree",
            Operation::ReadDir => "reading source directory",
            Operation::ReadEntry => "reading directory entry",
            Operation::FileType => "getting file type",
            Operation::Copy => "copying file",
        }
    }
}

/// Why a backup failed.
#[derive(Debug, PartialEq, Eq)]
pub enum BackupError {
    /// The source does not exist, or is not of the kind that was asked for.
    InvalidSource,
    /// The source path has no parent, or ends in no name (a root, `.`,
    /// `..`): nothing can stand beside it.
    NoParent,
    /// An operation on the file system failed at `path`.
    Io { operation: Operation, path: Vec<u8> },
}

/// A `BackupError` as a mathematical value.
pub enum ErrorView {
    InvalidSource,
    NoParent,
    Io { operation: Operation, path: Seq<u8> },
}

impl View for BackupError {
    type V = ErrorView;

    open spec fn view(&self) -> ErrorView {
        match self {
            BackupError::InvalidSource => ErrorView::InvalidSource,
            BackupError::NoParent => ErrorView::NoParent,
            BackupError::Io { operation, path } => ErrorView::Io {
                operation: *operation,
                path: path@,
            },
        }
    }
}

impl BackupError {
    /// A copy of this error.
    pub fn duplicate(&self) -> (r: BackupError)
        ensures
            r@ == self@,
    {
        match self {
            BackupError::InvalidSource => BackupError::InvalidSource,
            BackupError::NoParent => BackupError::NoParent,
            BackupError::Io { operation, path } => {
                let copy = copy_range(path.as_slice(), 0, path.len());
                assert(path@.subrange(0, path@.len() as int) =~= path@);
                BackupError::Io { operation: *operation, path: copy }
            },
        }
    }
}

} // verus!
