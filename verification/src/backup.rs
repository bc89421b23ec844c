//! Where a backup goes.
//!
//! The backup of a file stands beside it, with the extension replaced by
//! `bak`; the backup of a directory stands beside it under the directory's
//! full name followed by `_bak`. With a destination directory given, the same
//! name is placed directly under that directory instead.

use vstd::prelude::*;
use crate::error::{BackupError, ErrorView};
use crate::path::{
    copy_range, file_name, is_name, is_trimmed, join, lemma_file_name_is_name, lemma_join_name,
    lemma_last_dot, lemma_parent_is_trimmed, parent, spec_file_name, spec_join, spec_parent,
    spec_stem, stem_len, DOT, SEPARATOR,
};

verus! {

/// What is backed up: a single file or a directory tree.
#[derive(Clone, Copy, Debug, PartialEq, Eq, Structural)]
pub enum BackupType {
    File,
    Directory,
}

/// What the caller found at the source path, links followed.
#[derive(Clone, Copy, Debug, PartialEq, Eq, Structural)]
pub enum PathStatus {
    /// Nothing is there, or it could not be examined.
    Missing,
    /// A regular file.
    File,
    /// A directory.
    Directory,
    /// Something else: a device, a socket, a pipe.
    Other,
}

/// Whether what was found at the source is what a backup of `kind` needs.
pub open spec fn fits(kind: BackupType, found: PathStatus) -> bool {
    match kind {
        BackupType::File => found == PathStatus::File,
        BackupType::Directory => found == PathStatus::Directory,
    }
}

/// The bytes `.bak`.
pub open spec fn file_suffix() -> Seq<u8> {
    seq![DOT, 0x62u8, 0x61u8, 0x6bu8]
}

/// The bytes `_bak`.
pub open spec fn directory_suffix() -> Seq<u8> {
    seq![0x5fu8, 0x62u8, 0x61u8, 0x6bu8]
}

/// The name under which `name` is backed up: its stem followed by `.bak` for
/// a file, the whole name followed by `_bak` for a directory.
pub open spec fn spec_backup_name(name: Seq<u8>, kind: BackupType) -> Seq<u8> {
    match kind {
        BackupType::File => spec_stem(name) + file_suffix(),
        BackupType::Directory => name + directory_suffix(),
    }
}

/// Whether a backup of `kind` can be derived for `path`: the source fits the
/// kind, and the path has both a parent and a file name.
pub open spec fn derivable(path: Seq<u8>, kind: BackupType, found: PathStatus) -> bool {
    fits(kind, found) && spec_parent(path) is Some && spec_file_name(path) is Some
}

/// The backup location beside the source.
pub open spec fn spec_backup_path(path: Seq<u8>, kind: BackupType, found: PathStatus) -> Option<
    Seq<u8>,
> {
    if derivable(path, kind, found) {
        Some(spec_join(spec_parent(path)->0, spec_backup_name(spec_file_name(path)->0, kind)))
    } else {
        None
    }
}

/// The backup location under the directory `dest`.
pub open spec fn spec_backup_path_in(
    path: Seq<u8>,
    kind: BackupType,
    found: PathStatus,
    dest: Seq<u8>,
) -> Option<Seq<u8>> {
    if derivable(path, kind, found) {
        Some(spec_join(dest, spec_backup_name(spec_file_name(path)->0, kind)))
    } else {
        None
    }
}

/// Why no backup can be derived, if none can.
pub open spec fn spec_refusal(path: Seq<u8>, kind: BackupType, found: PathStatus) -> Option<
    ErrorView,
> {
    if !fits(kind, found) {
        Some(ErrorView::InvalidSource)
    } else if spec_parent(path) is None || spec_file_name(path) is None {
        Some(ErrorView::NoParent)
    } else {
        None
    }
}

/// Whether `found` is what a backup of `kind` needs.
pub fn source_fits(kind: BackupType, found: PathStatus) -> (r: bool)
    ensures
        r == fits(kind, found),
{
    match kind {
        BackupType::File => found == PathStatus::File,
        BackupType::Directory => found == PathStatus::Directory,
    }
}

/// The name under which the file or directory called `name` is backed up.
pub fn backup_name(name: &[u8], kind: BackupType) -> (r: Vec<u8>)
    ensures
        r@ == spec_backup_name(name@, kind),
{
    match kind {
        BackupType::File => {
            let n: usize = stem_len(name);
            let mut r: Vec<u8> = copy_range(name, 0, n);
            r.push(DOT);
            r.push(0x62);
            r.push(0x61);
            r.push(0x6b);
            assert(r@ =~= spec_stem(name@) + file_suffix());
            r
        },
        BackupType::Directory => {
            let mut r: Vec<u8> = copy_range(name, 0, name.len());
            r.push(0x5f);
            r.push(0x62);
            r.push(0x61);
            r.push(0x6b);
            assert(r@ =~= name@ + directory_suffix());
            r
        },
    }
}

/// The parent and the backup name of a source, or why there is none.
pub(crate) fn derive_parts(path: &[u8], kind: BackupType, found: PathStatus) -> (r: Result<
    (Vec<u8>, Vec<u8>),
    BackupError,
>)
    ensures
        match r {
            Ok((dir, name)) => {
                &&& derivable(path@, kind, found)
                &&& dir@ == spec_parent(path@)->0
                &&& name@ == spec_backup_name(spec_file_name(path@)->0, kind)
            },
            Err(why) => spec_refusal(path@, kind, found) == Some(why@),
        },
{
    if !source_fits(kind, found) {
        return Err(BackupError::InvalidSource);
    }
    let dir = match parent(path) {
        Some(dir) => dir,
        None => {
            return Err(BackupError::NoParent);
        },
    };
    let name = match file_name(path) {
        Some(name) => name,
        None => {
            return Err(BackupError::NoParent);
        },
    };
    Ok((dir, backup_name(name.as_slice(), kind)))
}

/// Where the backup of `path` goes when it stands beside its source.
///
/// `found` is what the caller found at `path`. There is no such place when
/// the source is missing or not of the kind asked for, and when `path` has no
/// parent or ends in no name.
pub fn backup_path(path: &[u8], kind: BackupType, found: PathStatus) -> (r: Option<Vec<u8>>)
    ensures
        r is Some == spec_backup_path(path@, kind, found) is Some,
        r is Some ==> r->0@ == spec_backup_path(path@, kind, found)->0,
        r is Some == derivable(path@, kind, found),
{
    match derive_parts(path, kind, found) {
        Ok((dir, name)) => Some(join(dir.as_slice(), name.as_slice())),
        Err(_) => None,
    }
}

/// Where the backup of `path` goes when it is placed under the directory
/// `dest`: the name it would have beside its source, directly under `dest`.
///
/// There is no such place on exactly the inputs on which `backup_path` gives
/// none.
pub fn backup_path_in(path: &[u8], kind: BackupType, found: PathStatus, dest: &[u8]) -> (r:
    Option<Vec<u8>>)
    ensures
        r is Some == spec_backup_path_in(path@, kind, found, dest@) is Some,
        r is Some ==> r->0@ == spec_backup_path_in(path@, kind, found, dest@)->0,
        r is Some == derivable(path@, kind, found),
{
    match derive_parts(path, kind, found) {
        Ok((_, name)) => Some(join(dest, name.as_slice())),
        Err(_) => None,
    }
}

/// The name of a backup is a name: it is not empty, holds no separator, and
/// is neither `.` nor `..`.
pub proof fn lemma_backup_name_is_name(name: Seq<u8>, kind: BackupType)
    requires
        is_name(name),
    ensures
        is_name(spec_backup_name(name, kind)),
{
    lemma_last_dot(name);
    let backup = spec_backup_name(name, kind);
    match kind {
        BackupType::File => {
            let stem = spec_stem(name);
            assert(backup.len() == stem.len() + 4);
            assert forall|i: int| 0 <= i < backup.len() implies backup[i] != SEPARATOR by {
                if i < stem.len() {
                    assert(backup[i] == name[i]);
                } else {
                    assert(backup[i] == file_suffix()[i - stem.len()]);
                }
            }
        },
        BackupType::Directory => {
            assert(backup.len() == name.len() + 4);
            assert forall|i: int| 0 <= i < backup.len() implies backup[i] != SEPARATOR by {
                if i < name.len() {
                    assert(backup[i] == name[i]);
                } else {
                    assert(backup[i] == directory_suffix()[i - name.len()]);
                }
            }
        },
    }
    assert(seq![DOT].len() == 1);
    assert(seq![DOT, DOT].len() == 2);
}

/// Every path that ends in a name has a backup location as a file, when a
/// regular file stands there: its parent, with the stem of its file name
/// followed by `.bak` placed under it.
pub proof fn lemma_file_backup(path: Seq<u8>)
    requires
        spec_file_name(path) is Some,
    ensures
        spec_parent(path) is Some,
        spec_backup_path(path, BackupType::File, PathStatus::File) == Some(
            spec_join(spec_parent(path)->0, spec_stem(spec_file_name(path)->0) + file_suffix()),
        ),
{
    lemma_file_name_is_name(path);
}

/// Every path that ends in a name has a backup location as a directory, when
/// a directory stands there: its parent, with its file name followed by
/// `_bak` placed under it.
pub proof fn lemma_directory_backup(path: Seq<u8>)
    requires
        spec_file_name(path) is Some,
    ensures
        spec_parent(path) is Some,
        spec_backup_path(path, BackupType::Directory, PathStatus::Directory) == Some(
            spec_join(spec_parent(path)->0, spec_file_name(path)->0 + directory_suffix()),
        ),
{
    lemma_file_name_is_name(path);
}

/// A directory has no backup location as a file, nor a file as a directory,
/// nor has anything that is neither; a destination changes nothing in that.
pub proof fn lemma_kind_mismatch(path: Seq<u8>, kind: BackupType, found: PathStatus, dest: Seq<u8>)
    requires
        found != PathStatus::Missing,
        !fits(kind, found),
    ensures
        spec_backup_path(path, kind, found) is None,
        spec_backup_path_in(path, kind, found, dest) is None,
        spec_refusal(path, kind, found) == Some(ErrorView::InvalidSource),
{
}

/// What does not exist has no backup location, of either kind; a destination
/// changes nothing in that.
pub proof fn lemma_missing_source(path: Seq<u8>, kind: BackupType, dest: Seq<u8>)
    ensures
        spec_backup_path(path, kind, PathStatus::Missing) is None,
        spec_backup_path_in(path, kind, PathStatus::Missing, dest) is None,
        spec_refusal(path, kind, PathStatus::Missing) == Some(ErrorView::InvalidSource),
{
}

/// There is a backup location exactly when there is no reason to refuse one.
pub proof fn lemma_refusal_or_location(
    path: Seq<u8>,
    kind: BackupType,
    found: PathStatus,
    dest: Seq<u8>,
)
    ensures
        spec_refusal(path, kind, found) is None <==> spec_backup_path(path, kind, found) is Some,
        spec_refusal(path, kind, found) is None <==> spec_backup_path_in(path, kind, found, dest)
            is Some,
{
}

/// A backup stands beside its source: it has the parent that the source
/// has, and its file name is the backup name of the source's file name.
pub proof fn lemma_backup_beside_source(path: Seq<u8>, kind: BackupType, found: PathStatus)
    requires
        derivable(path, kind, found),
    ensures
        spec_parent(spec_backup_path(path, kind, found)->0) == spec_parent(path),
        spec_file_name(spec_backup_path(path, kind, found)->0) == Some(
            spec_backup_name(spec_file_name(path)->0, kind),
        ),
{
    let dir = spec_parent(path)->0;
    let name = spec_file_name(path)->0;
    lemma_file_name_is_name(path);
    lemma_backup_name_is_name(name, kind);
    lemma_parent_is_trimmed(path);
    lemma_join_name(dir, spec_backup_name(name, kind));
    assert(dir.take(dir.len() as int) =~= dir);
}

/// With a destination the backup has the name it would have beside its
/// source.
pub proof fn lemma_backup_name_same_under_dest(
    path: Seq<u8>,
    kind: BackupType,
    found: PathStatus,
    dest: Seq<u8>,
)
    requires
        derivable(path, kind, found),
    ensures
        spec_file_name(spec_backup_path_in(path, kind, found, dest)->0) == spec_file_name(
            spec_backup_path(path, kind, found)->0,
        ),
        is_trimmed(dest) ==> spec_parent(spec_backup_path_in(path, kind, found, dest)->0) == Some(
            dest,
        ),
{
    let name = spec_file_name(path)->0;
    lemma_file_name_is_name(path);
    lemma_backup_name_is_name(name, kind);
    lemma_join_name(spec_parent(path)->0, spec_backup_name(name, kind));
    lemma_join_name(dest, spec_backup_name(name, kind));
    assert(dest.take(dest.len() as int) =~= dest);
}

} // verus!
