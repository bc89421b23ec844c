//! What the user asks for, and how it is begun.

use vstd::prelude::*;
use crate::backup::{
    derive_parts, spec_backup_path, spec_backup_path_in, spec_refusal, BackupType, PathStatus,
};
use crate::error::BackupError;
use crate::path::join;
use crate::tree::{
    backup_directory, backup_file, spec_copy_file, spec_start, Action, ActionView, CopierView,
    TreeCopier,
};

verus! {

/// One request: back up a file, or back up a directory tree.
#[derive(Debug, PartialEq, Eq)]
pub enum Commands {
    /// Back up the single file `path`, beside it or under `dest`.
    File { path: Vec<u8>, dest: Option<Vec<u8>> },
    /// Back up the directory `path` with all that is in it, beside it or
    /// under `dest`.
    Dir { path: Vec<u8>, dest: Option<Vec<u8>> },
}

/// What the program was called with.
#[derive(Debug, PartialEq, Eq)]
pub struct Args {
    pub command: Commands,
}

/// A request as a mathematical value.
pub struct CommandView {
    pub kind: BackupType,
    pub path: Seq<u8>,
    pub dest: Option<Seq<u8>>,
}

/// A destination directory, if one was given, as a mathematical value.
pub open spec fn dest_view(dest: Option<Vec<u8>>) -> Option<Seq<u8>> {
    match dest {
        Some(dir) => Some(dir@),
        None => None,
    }
}

impl View for Commands {
    type V = CommandView;

    open spec fn view(&self) -> CommandView {
        match self {
            Commands::File { path, dest } => CommandView {
                kind: BackupType::File,
                path: path@,
                dest: dest_view(*dest),
            },
            Commands::Dir { path, dest } => CommandView {
                kind: BackupType::Directory,
                path: path@,
                dest: dest_view(*dest),
            },
        }
    }
}

/// Where the backup that `command` asks for goes, when `found` is what
/// stands at its source: under the destination if one was given, beside the
/// source otherwise.
pub open spec fn spec_target(command: CommandView, found: PathStatus) -> Option<Seq<u8>> {
    match command.dest {
        Some(dir) => spec_backup_path_in(command.path, command.kind, found, dir),
        None => spec_backup_path(command.path, command.kind, found),
    }
}

/// The copier that carries `command` out, and its first action: the one copy
/// for a file, the creation of the target directory for a directory tree.
pub open spec fn spec_begin(command: CommandView, target: Seq<u8>) -> (CopierView, ActionView) {
    match command.kind {
        BackupType::File => spec_copy_file(command.path, target),
        BackupType::Directory => spec_start(command.path, target),
    }
}

/// A backup that has been begun.
pub struct Backup {
    /// Where the backup goes.
    pub target: Vec<u8>,
    /// The state of the copy.
    pub copier: TreeCopier,
    /// What is to be done first.
    pub first: Action,
}

impl Commands {
    /// Whether a file or a directory is to be backed up.
    pub fn kind(&self) -> (r: BackupType)
        ensures
            r == self@.kind,
    {
        match self {
            Commands::File { .. } => BackupType::File,
            Commands::Dir { .. } => BackupType::Directory,
        }
    }

    /// The path of what is to be backed up.
    pub fn source(&self) -> (r: &Vec<u8>)
        ensures
            r@ == self@.path,
    {
        match self {
            Commands::File { path, .. } => path,
            Commands::Dir { path, .. } => path,
        }
    }

    /// The directory under which the backup is to go, if one was given.
    pub fn dest(&self) -> (r: &Option<Vec<u8>>)
        ensures
            dest_view(*r) == self@.dest,
    {
        match self {
            Commands::File { dest, .. } => dest,
            Commands::Dir { dest, .. } => dest,
        }
    }

    /// Where the backup goes, when `found` is what stands at the source.
    ///
    /// Fails with `InvalidSource` when the source is missing or not of the
    /// kind asked for, and otherwise with `NoParent` when its path has no
    /// parent or ends in no name.
    pub fn target(&self, found: PathStatus) -> (r: Result<Vec<u8>, BackupError>)
        ensures
            match r {
                Ok(target) => spec_target(self@, found) == Some(target@),
                Err(why) => spec_target(self@, found) is None && spec_refusal(
                    self@.path,
                    self@.kind,
                    found,
                ) == Some(why@),
            },
    {
        match derive_parts(self.source().as_slice(), self.kind(), found) {
            Ok((dir, name)) => match self.dest() {
                Some(under) => Ok(join(under.as_slice(), name.as_slice())),
                None => Ok(join(dir.as_slice(), name.as_slice())),
            },
            Err(why) => Err(why),
        }
    }

    /// Begins the backup, when `found` is what stands at the source.
    ///
    /// Gives the target, the copier and its first action, or the reason why
    /// there is no target. Nothing has been done yet when this returns.
    pub fn begin(&self, found: PathStatus) -> (r: Result<Backup, BackupError>)
        ensures
            match r {
                Ok(backup) => {
                    &&& spec_target(self@, found) == Some(backup.target@)
                    &&& (backup.copier@, backup.first@) == spec_begin(self@, backup.target@)
                },
                Err(why) => spec_target(self@, found) is None && spec_refusal(
                    self@.path,
                    self@.kind,
                    found,
                ) == Some(why@),
            },
    {
        let target = match self.target(found) {
            Ok(target) => target,
            Err(why) => {
                return Err(why);
            },
        };
        let (copier, first) = match self.kind() {
            BackupType::File => backup_file(self.source().as_slice(), target.as_slice()),
            BackupType::Directory => backup_directory(self.source().as_slice(), target.as_slice()),
        };
        Ok(Backup { target, copier, first })
    }
}

} // verus!
