use rbak::path::{file_name, join, parent};
use rbak::{
    backup_directory, backup_file, backup_path, backup_path_in, Action, BackupError, BackupType,
    Commands, DirItem, EntryKind, Event, Operation, PathStatus, TreeCopier,
};
use std::collections::{BTreeMap, BTreeSet};

fn bytes(text: &str) -> Vec<u8> {
    text.as_bytes().to_vec()
}

/// A file system held in memory, on which the actions of a copier are
/// carried out.
struct MemFs {
    dirs: BTreeSet<Vec<u8>>,
    files: BTreeMap<Vec<u8>, Vec<u8>>,
    others: BTreeSet<Vec<u8>>,
    log: Vec<Action>,
}

impl MemFs {
    fn new() -> MemFs {
        let mut dirs = BTreeSet::new();
        dirs.insert(bytes(""));
        dirs.insert(bytes("/"));
        MemFs { dirs, files: BTreeMap::new(), others: BTreeSet::new(), log: Vec::new() }
    }

    fn with_dir(mut self, path: &str) -> MemFs {
        assert!(self.create_dir_all(path.as_bytes()));
        self
    }

    fn with_file(mut self, path: &str, content: &str) -> MemFs {
        self.files.insert(bytes(path), bytes(content));
        self
    }

    fn with_other(mut self, path: &str) -> MemFs {
        self.others.insert(bytes(path));
        self
    }

    fn status(&self, path: &[u8]) -> PathStatus {
        if self.files.contains_key(path) {
            PathStatus::File
        } else if self.dirs.contains(path) {
            PathStatus::Directory
        } else if self.others.contains(path) {
            PathStatus::Other
        } else {
            PathStatus::Missing
        }
    }

    fn read(&self, path: &str) -> Option<String> {
        self.files.get(path.as_bytes()).map(|content| String::from_utf8(content.clone()).unwrap())
    }

    fn is_in(dir: &[u8], path: &[u8]) -> bool {
        !path.is_empty() && path != b"/" && parent(path).as_deref() == Some(dir)
    }

    fn list(&self, dir: &[u8]) -> Option<Vec<DirItem>> {
        if !self.dirs.contains(dir) {
            return None;
        }
        let mut items = BTreeMap::new();
        for path in self.files.keys().filter(|path| MemFs::is_in(dir, path)) {
            items.insert(file_name(path).unwrap(), EntryKind::File);
        }
        for path in self.dirs.iter().filter(|path| MemFs::is_in(dir, path)) {
            items.insert(file_name(path).unwrap(), EntryKind::Directory);
        }
        for path in self.others.iter().filter(|path| MemFs::is_in(dir, path)) {
            items.insert(file_name(path).unwrap(), EntryKind::Other);
        }
        Some(items.into_iter().map(|(name, kind)| DirItem { name, kind }).collect())
    }

    fn create_dir_all(&mut self, path: &[u8]) -> bool {
        let mut at = path.to_vec();
        loop {
            if self.files.contains_key(&at) || self.others.contains(&at) {
                return false;
            }
            self.dirs.insert(at.clone());
            match parent(&at) {
                Some(up) => at = up,
                None => return true,
            }
        }
    }

    fn copy(&mut self, from: &[u8], to: &[u8]) -> bool {
        let content = match self.files.get(from) {
            Some(content) => content.clone(),
            None => return false,
        };
        let there = match parent(to) {
            Some(dir) => self.dirs.contains(&dir),
            None => false,
        };
        if !there || self.dirs.contains(to) {
            return false;
        }
        self.files.insert(to.to_vec(), content);
        true
    }

    fn perform(&mut self, action: &Action) -> Event {
        let went = match action {
            Action::CreateDirAll { path } => self.create_dir_all(path),
            Action::ReadDir { path } => match self.list(path) {
                Some(items) => return Event::Listed(items),
                None => false,
            },
            Action::CopyFile { from, to } => self.copy(from, to),
            Action::Finished | Action::Failed(_) => unreachable!(),
        };
        if went {
            Event::Done
        } else {
            Event::Failed
        }
    }

    /// Carries the actions out until the copier has nothing more to ask.
    fn run(&mut self, copier: TreeCopier, first: Action) -> Result<(), BackupError> {
        let mut copier = copier;
        let mut action = first;
        loop {
            match action {
                Action::Finished => {
                    assert!(copier.is_stopped());
                    return Ok(());
                },
                Action::Failed(why) => {
                    assert!(copier.is_stopped());
                    return Err(why);
                },
                asked => {
                    assert!(!copier.is_stopped());
                    let event = self.perform(&asked);
                    self.log.push(asked);
                    let (next, then) = copier.step(event);
                    copier = next;
                    action = then;
                },
            }
        }
    }

    fn backup(&mut self, command: &Commands) -> Result<Vec<u8>, BackupError> {
        let begun = command.begin(self.status(command.source()))?;
        self.run(begun.copier, begun.first)?;
        Ok(begun.target)
    }
}

fn item(name: &str, kind: EntryKind) -> DirItem {
    DirItem { name: bytes(name), kind }
}

fn create(path: &str) -> Action {
    Action::CreateDirAll { path: bytes(path) }
}

fn read(path: &str) -> Action {
    Action::ReadDir { path: bytes(path) }
}

fn copy(from: &str, to: &str) -> Action {
    Action::CopyFile { from: bytes(from), to: bytes(to) }
}

fn failed(operation: Operation, path: &str) -> Action {
    Action::Failed(BackupError::Io { operation, path: bytes(path) })
}

#[test]
fn test_backup_directory_smoke() {
    let mut fs = MemFs::new().with_dir("tmp/src").with_file("tmp/src/test.txt", "hello");
    let src_dir = join(b"tmp", b"src");

    let dst_dir = join(&parent(&src_dir).unwrap(), b"src_bak");
    let (copier, first) = backup_directory(&src_dir, &dst_dir);
    fs.run(copier, first).unwrap();

    let backed_up = join(&dst_dir, b"test.txt");
    assert!(fs.status(&backed_up) == PathStatus::File);
    assert_eq!(fs.files.get(&backed_up).unwrap(), &bytes("hello"));
}

#[test]
fn test_backup_file_with_dest() {
    let mut fs = MemFs::new().with_dir("tmp").with_file("tmp/test.txt", "hello");
    let src_file = join(b"tmp", b"test.txt");

    let dest_dir = join(b"tmp", b"backups");
    assert!(fs.create_dir_all(&dest_dir));

    let bak = join(&dest_dir, b"test.bak");

    assert!(fs.status(&bak) == PathStatus::Missing);

    let result =
        backup_path_in(&src_file, BackupType::File, fs.status(&src_file), &dest_dir).unwrap();

    assert_eq!(result, bak);

    let (copier, first) = backup_file(&src_file, &result);
    fs.run(copier, first).unwrap();
    assert!(fs.status(&result) == PathStatus::File);
    assert_eq!(fs.files.get(&result).unwrap(), &bytes("hello"));
}

#[test]
fn test_backup_path_directory_with_dest() {
    let mut fs = MemFs::new().with_dir("tmp/src");
    let src_dir = join(b"tmp", b"src");

    let dest_dir = join(b"tmp", b"backups");
    assert!(fs.create_dir_all(&dest_dir));

    let expected_backup_dir = join(&dest_dir, b"src_bak");

    let default_backup_dir =
        backup_path(&src_dir, BackupType::Directory, fs.status(&src_dir)).unwrap();
    assert_eq!(default_backup_dir, bytes("tmp/src_bak"));

    let bak_dir =
        backup_path_in(&src_dir, BackupType::Directory, fs.status(&src_dir), &dest_dir).unwrap();

    assert_eq!(bak_dir, expected_backup_dir);
    assert_eq!(file_name(&bak_dir), file_name(&default_backup_dir));

    let (copier, first) = backup_directory(&src_dir, &bak_dir);
    fs.run(copier, first).unwrap();

    assert!(fs.status(&bak_dir) == PathStatus::Directory);
}

#[test]
fn file_backup_beside_source() {
    let mut fs = MemFs::new().with_file("notes.txt", "abc");
    let command = Commands::File { path: bytes("notes.txt"), dest: None };
    assert_eq!(fs.backup(&command), Ok(bytes("notes.bak")));
    assert_eq!(fs.read("notes.bak"), Some("abc".to_string()));
    assert_eq!(fs.read("notes.txt"), Some("abc".to_string()));
    assert_eq!(fs.log, vec![copy("notes.txt", "notes.bak")]);
}

#[test]
fn directory_backup_beside_source() {
    let mut fs = MemFs::new()
        .with_dir("proj/sub")
        .with_file("proj/a.txt", "x")
        .with_file("proj/sub/b.txt", "y");
    let command = Commands::Dir { path: bytes("proj"), dest: None };
    assert_eq!(fs.backup(&command), Ok(bytes("proj_bak")));
    assert_eq!(fs.read("proj_bak/a.txt"), Some("x".to_string()));
    assert_eq!(fs.read("proj_bak/sub/b.txt"), Some("y".to_string()));
    assert_eq!(
        fs.log,
        vec![
            create("proj_bak"),
            read("proj"),
            copy("proj/a.txt", "proj_bak/a.txt"),
            create("proj_bak/sub"),
            read("proj/sub"),
            copy("proj/sub/b.txt", "proj_bak/sub/b.txt"),
        ]
    );
}

#[test]
fn missing_file_is_refused_and_nothing_is_created() {
    let mut fs = MemFs::new();
    let command = Commands::File { path: bytes("missing.txt"), dest: None };
    assert_eq!(fs.backup(&command), Err(BackupError::InvalidSource));
    assert!(fs.files.is_empty());
    assert!(fs.log.is_empty());
    assert_eq!(fs.status(b"missing.bak"), PathStatus::Missing);
}

#[test]
fn directory_backup_under_destination() {
    let mut fs = MemFs::new()
        .with_dir("proj/sub")
        .with_file("proj/a.txt", "x")
        .with_file("proj/sub/b.txt", "y");
    let command = Commands::Dir { path: bytes("proj"), dest: Some(bytes("/tmp/out")) };
    assert_eq!(fs.status(b"/tmp/out"), PathStatus::Missing);
    assert_eq!(fs.backup(&command), Ok(bytes("/tmp/out/proj_bak")));
    assert_eq!(fs.read("/tmp/out/proj_bak/a.txt"), Some("x".to_string()));
    assert_eq!(fs.read("/tmp/out/proj_bak/sub/b.txt"), Some("y".to_string()));
    assert_eq!(fs.status(b"/tmp/out"), PathStatus::Directory);
}

#[test]
fn file_backup_into_missing_destination_fails() {
    let mut fs = MemFs::new().with_file("report.txt", "r");
    let command = Commands::File { path: bytes("report.txt"), dest: Some(bytes("/tmp/out")) };
    assert_eq!(
        fs.backup(&command),
        Err(BackupError::Io { operation: Operation::Copy, path: bytes("report.txt") })
    );
    assert_eq!(fs.status(b"/tmp/out"), PathStatus::Missing);
    assert_eq!(fs.status(b"/tmp/out/report.bak"), PathStatus::Missing);
    assert_eq!(fs.log, vec![copy("report.txt", "/tmp/out/report.bak")]);
}

#[test]
fn file_backup_into_existing_destination() {
    let mut fs = MemFs::new().with_dir("/tmp/out").with_file("report.txt", "r");
    let command = Commands::File { path: bytes("report.txt"), dest: Some(bytes("/tmp/out")) };
    assert_eq!(fs.backup(&command), Ok(bytes("/tmp/out/report.bak")));
    assert_eq!(fs.read("/tmp/out/report.bak"), Some("r".to_string()));
}

#[test]
fn directory_asked_as_file_is_refused() {
    let mut fs = MemFs::new().with_dir("proj").with_file("proj/a.txt", "x");
    let command = Commands::File { path: bytes("proj"), dest: None };
    assert_eq!(fs.backup(&command), Err(BackupError::InvalidSource));
    let command = Commands::Dir { path: bytes("proj/a.txt"), dest: None };
    assert_eq!(fs.backup(&command), Err(BackupError::InvalidSource));
    assert!(fs.log.is_empty());
}

#[test]
fn begin_gives_target_and_first_action() {
    let file = Commands::File { path: bytes("notes.txt"), dest: None };
    let begun = file.begin(PathStatus::File).unwrap();
    assert_eq!(begun.target, bytes("notes.bak"));
    assert_eq!(begun.first, copy("notes.txt", "notes.bak"));
    assert!(!begun.copier.is_stopped());
    let dir = Commands::Dir { path: bytes("proj"), dest: Some(bytes("out")) };
    let begun = dir.begin(PathStatus::Directory).unwrap();
    assert_eq!(begun.target, bytes("out/proj_bak"));
    assert_eq!(begun.first, create("out/proj_bak"));
    assert!(!begun.copier.is_stopped());
}

#[test]
fn begin_refuses_as_target_does() {
    let root = Commands::Dir { path: bytes("/"), dest: None };
    assert!(matches!(root.begin(PathStatus::Directory), Err(BackupError::NoParent)));
    assert!(matches!(root.begin(PathStatus::Missing), Err(BackupError::InvalidSource)));
}

#[test]
fn copy_round_trip() {
    let mut fs = MemFs::new()
        .with_dir("src/a/b/c")
        .with_dir("src/empty")
        .with_file("src/top.txt", "1")
        .with_file("src/a/one", "22")
        .with_file("src/a/b/two.bin", "333")
        .with_file("src/a/b/c/three", "")
        .with_other("src/link")
        .with_other("src/a/socket");
    let before = fs.files.clone();
    let (copier, first) = backup_directory(b"src", b"out/copy");
    assert_eq!(fs.run(copier, first), Ok(()));
    let relative = |root: &str, fs: &MemFs| -> BTreeMap<Vec<u8>, Vec<u8>> {
        fs.files
            .iter()
            .filter(|(path, _)| path.starts_with(root.as_bytes()))
            .map(|(path, content)| (path[root.len()..].to_vec(), content.clone()))
            .collect()
    };
    assert_eq!(relative("src/", &fs), relative("out/copy/", &fs));
    assert_eq!(relative("src/", &fs).len(), 4);
    for (path, content) in before.iter() {
        assert_eq!(fs.files.get(path), Some(content));
    }
    let directories = |root: &str, fs: &MemFs| -> BTreeSet<Vec<u8>> {
        fs.dirs
            .iter()
            .filter(|path| path.starts_with(root.as_bytes()))
            .map(|path| path[root.len()..].to_vec())
            .collect()
    };
    assert_eq!(directories("src/", &fs), directories("out/copy/", &fs));
    assert_eq!(fs.status(b"out/copy/empty"), PathStatus::Directory);
    assert_eq!(fs.status(b"out/copy/link"), PathStatus::Missing);
    assert_eq!(fs.status(b"out/copy/a/socket"), PathStatus::Missing);
}

#[test]
fn copy_into_partial_earlier_copy() {
    let mut fs = MemFs::new()
        .with_dir("proj/sub")
        .with_file("proj/a.txt", "new a")
        .with_file("proj/sub/b.txt", "new b")
        .with_dir("proj_bak/sub")
        .with_file("proj_bak/a.txt", "old a");
    let (copier, first) = backup_directory(b"proj", b"proj_bak");
    assert_eq!(fs.run(copier, first), Ok(()));
    assert_eq!(fs.read("proj_bak/a.txt"), Some("new a".to_string()));
    assert_eq!(fs.read("proj_bak/sub/b.txt"), Some("new b".to_string()));
    fs.files.insert(bytes("proj/a.txt"), bytes("newer a"));
    let (copier, first) = backup_directory(b"proj", b"proj_bak");
    assert_eq!(fs.run(copier, first), Ok(()));
    assert_eq!(fs.read("proj_bak/a.txt"), Some("newer a".to_string()));
    assert_eq!(fs.read("proj_bak/sub/b.txt"), Some("new b".to_string()));
}

#[test]
fn empty_directory_is_created_and_listed() {
    let (copier, first) = backup_directory(b"src", b"dst");
    assert_eq!(first, create("dst"));
    let (copier, second) = copier.step(Event::Done);
    assert_eq!(second, read("src"));
    let (copier, third) = copier.step(Event::Listed(Vec::new()));
    assert_eq!(third, Action::Finished);
    assert!(copier.is_stopped());
}

#[test]
fn entries_are_taken_in_listed_order_depth_first() {
    let (copier, first) = backup_directory(b"/s", b"/d/");
    assert_eq!(first, create("/d/"));
    let (copier, action) = copier.step(Event::Done);
    assert_eq!(action, read("/s"));
    let (copier, action) = copier.step(Event::Listed(vec![
        item("z", EntryKind::File),
        item("link", EntryKind::Other),
        item("m", EntryKind::Directory),
        item("a", EntryKind::File),
    ]));
    assert_eq!(action, copy("/s/z", "/d/z"));
    let (copier, action) = copier.step(Event::Done);
    assert_eq!(action, create("/d/m"));
    let (copier, action) = copier.step(Event::Done);
    assert_eq!(action, read("/s/m"));
    let (copier, action) = copier.step(Event::Listed(vec![
        item("deep", EntryKind::Directory),
        item("y", EntryKind::File),
    ]));
    assert_eq!(action, create("/d/m/deep"));
    let (copier, action) = copier.step(Event::Done);
    assert_eq!(action, read("/s/m/deep"));
    let (copier, action) = copier.step(Event::Listed(vec![item("pipe", EntryKind::Other)]));
    assert_eq!(action, copy("/s/m/y", "/d/m/y"));
    let (copier, action) = copier.step(Event::Done);
    assert_eq!(action, copy("/s/a", "/d/a"));
    assert!(!copier.is_stopped());
    let (copier, action) = copier.step(Event::Done);
    assert_eq!(action, Action::Finished);
    assert!(copier.is_stopped());
}

#[test]
fn failed_creation_ends_the_copy() {
    let (copier, _) = backup_directory(b"src", b"dst");
    let (copier, action) = copier.step(Event::Failed);
    assert_eq!(action, failed(Operation::CreateDir, "dst"));
    assert!(copier.is_stopped());
}

#[test]
fn failed_listing_ends_the_copy() {
    let (copier, _) = backup_directory(b"src", b"dst");
    let (copier, _) = copier.step(Event::Done);
    let (copier, action) = copier.step(Event::Failed);
    assert_eq!(action, failed(Operation::ReadDir, "src"));
    assert!(copier.is_stopped());
}

#[test]
fn failed_copy_ends_the_copy() {
    let (copier, _) = backup_directory(b"src", b"dst");
    let (copier, _) = copier.step(Event::Done);
    let (copier, action) = copier.step(Event::Listed(vec![
        item("a", EntryKind::File),
        item("b", EntryKind::File),
    ]));
    assert_eq!(action, copy("src/a", "dst/a"));
    let (copier, action) = copier.step(Event::Failed);
    assert_eq!(action, failed(Operation::Copy, "src/a"));
    assert!(copier.is_stopped());
}

#[test]
fn unreadable_entry_ends_the_copy_after_what_came_before() {
    let (copier, _) = backup_directory(b"src", b"dst");
    let (copier, _) = copier.step(Event::Done);
    let (copier, action) = copier.step(Event::Listed(vec![
        item("a", EntryKind::File),
        item("", EntryKind::Unreadable),
        item("b", EntryKind::File),
    ]));
    assert_eq!(action, copy("src/a", "dst/a"));
    let (copier, action) = copier.step(Event::Done);
    assert_eq!(action, failed(Operation::ReadEntry, "src"));
    assert!(copier.is_stopped());
}

#[test]
fn untyped_entry_ends_the_copy() {
    let (copier, _) = backup_directory(b"src", b"dst");
    let (copier, _) = copier.step(Event::Done);
    let (copier, action) = copier.step(Event::Listed(vec![item("odd", EntryKind::Untyped)]));
    assert_eq!(action, failed(Operation::FileType, "src/odd"));
    assert!(copier.is_stopped());
}

#[test]
fn failure_inside_a_subdirectory_ends_the_whole_copy() {
    let (copier, _) = backup_directory(b"src", b"dst");
    let (copier, _) = copier.step(Event::Done);
    let (copier, action) = copier.step(Event::Listed(vec![
        item("sub", EntryKind::Directory),
        item("later", EntryKind::File),
    ]));
    assert_eq!(action, create("dst/sub"));
    let (copier, action) = copier.step(Event::Done);
    assert_eq!(action, read("src/sub"));
    let (copier, action) = copier.step(Event::Failed);
    assert_eq!(action, failed(Operation::ReadDir, "src/sub"));
    let (copier, action) = copier.step(Event::Done);
    assert_eq!(action, failed(Operation::ReadDir, "src/sub"));
    assert!(copier.is_stopped());
}

#[test]
fn stopped_copier_repeats_its_last_word() {
    let (copier, _) = backup_directory(b"src", b"dst");
    let (copier, _) = copier.step(Event::Done);
    let (copier, action) = copier.step(Event::Listed(Vec::new()));
    assert_eq!(action, Action::Finished);
    let (copier, action) = copier.step(Event::Failed);
    assert_eq!(action, Action::Finished);
    let (copier, action) = copier.step(Event::Listed(vec![item("a", EntryKind::File)]));
    assert_eq!(action, Action::Finished);
    assert!(copier.is_stopped());
}

#[test]
fn answer_of_the_wrong_sort_counts_as_failure() {
    let (copier, _) = backup_directory(b"src", b"dst");
    let (_, action) = copier.step(Event::Listed(Vec::new()));
    assert_eq!(action, failed(Operation::CreateDir, "dst"));
    let (copier, _) = backup_directory(b"src", b"dst");
    let (copier, _) = copier.step(Event::Done);
    let (_, action) = copier.step(Event::Done);
    assert_eq!(action, failed(Operation::ReadDir, "src"));
    let (copier, _) = backup_file(b"a", b"b");
    let (_, action) = copier.step(Event::Listed(Vec::new()));
    assert_eq!(action, failed(Operation::Copy, "a"));
}

#[test]
fn single_file_copy_is_one_action() {
    let (copier, first) = backup_file(b"notes.txt", b"notes.bak");
    assert_eq!(first, copy("notes.txt", "notes.bak"));
    assert!(!copier.is_stopped());
    let (copier, action) = copier.step(Event::Done);
    assert_eq!(action, Action::Finished);
    assert!(copier.is_stopped());
}
