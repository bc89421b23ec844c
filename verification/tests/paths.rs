use rbak::path::{file_name, file_stem, join, parent};
use std::path::{Path, PathBuf};

const SAMPLES: [&str; 48] = [
    "", "/", "//", "///", ".", "./", ".//", "..", "../", "a", "a/", "a//", "a/b", "/a", "/a/",
    "/a/b", "/a/b/", "a//b", "a/./b", "a/.", "a/./", "./a", "./a/.", "a/..", "../..", "../a",
    ".git", "a.b.c", "/.", "/..", "./.", "/./a", ".hidden/x", "x/.hidden", "//a//", "a/.b",
    "a/b.", ".a", "..a", "a.", "...", "a/...", "notes.txt", "dir/notes.txt", "/tmp/out/report.txt",
    "a/../b", "./..", "/a/./././",
];

/// Every string of at most `longest` characters over `/`, `.`, `a` and `b`.
fn small_paths(longest: usize) -> Vec<String> {
    let mut all = vec![String::new()];
    let mut last = vec![String::new()];
    for _ in 0..longest {
        let mut next = Vec::new();
        for shorter in &last {
            for letter in ['/', '.', 'a', 'b'] {
                next.push(format!("{}{}", shorter, letter));
            }
        }
        all.extend(next.iter().cloned());
        last = next;
    }
    all
}

fn bytes(text: &str) -> Vec<u8> {
    text.as_bytes().to_vec()
}

fn std_bytes(path: &Path) -> Vec<u8> {
    path.to_str().unwrap().as_bytes().to_vec()
}

#[test]
fn parent_agrees_with_std() {
    for sample in SAMPLES {
        let expected = Path::new(sample).parent().map(std_bytes);
        assert_eq!(parent(sample.as_bytes()), expected, "parent of {:?}", sample);
    }
}

#[test]
fn file_name_agrees_with_std() {
    for sample in SAMPLES {
        let expected = Path::new(sample).file_name().map(|name| std_bytes(Path::new(name)));
        assert_eq!(file_name(sample.as_bytes()), expected, "file name of {:?}", sample);
    }
}

#[test]
fn file_stem_agrees_with_std() {
    for sample in SAMPLES {
        let expected = Path::new(sample).file_stem().map(|stem| std_bytes(Path::new(stem)));
        assert_eq!(file_stem(sample.as_bytes()), expected, "file stem of {:?}", sample);
    }
}

#[test]
fn join_agrees_with_std() {
    for base in SAMPLES {
        for tail in SAMPLES {
            let mut expected = PathBuf::from(base);
            expected.push(tail);
            assert_eq!(
                join(base.as_bytes(), tail.as_bytes()),
                std_bytes(&expected),
                "{:?} joined with {:?}",
                base,
                tail
            );
        }
    }
}

#[test]
fn parent_of_nested_path() {
    assert_eq!(parent(b"/tmp/out/report.txt"), Some(bytes("/tmp/out")));
    assert_eq!(parent(b"report.txt"), Some(bytes("")));
    assert_eq!(parent(b"/report.txt"), Some(bytes("/")));
}

#[test]
fn root_and_empty_path_have_no_parent() {
    assert_eq!(parent(b"/"), None);
    assert_eq!(parent(b""), None);
    assert_eq!(parent(b"//"), None);
}

#[test]
fn parent_ignores_trailing_separators_and_dots() {
    assert_eq!(parent(b"a/b/"), Some(bytes("a")));
    assert_eq!(parent(b"a/b/."), Some(bytes("a")));
    assert_eq!(parent(b"a//b"), Some(bytes("a")));
    assert_eq!(parent(b"./a"), Some(bytes(".")));
}

#[test]
fn file_name_is_last_component() {
    assert_eq!(file_name(b"/tmp/out/report.txt"), Some(bytes("report.txt")));
    assert_eq!(file_name(b"proj/"), Some(bytes("proj")));
    assert_eq!(file_name(b"proj/."), Some(bytes("proj")));
}

#[test]
fn dots_and_roots_have_no_file_name() {
    assert_eq!(file_name(b"/"), None);
    assert_eq!(file_name(b"."), None);
    assert_eq!(file_name(b".."), None);
    assert_eq!(file_name(b"a/.."), None);
    assert_eq!(file_name(b""), None);
}

#[test]
fn file_stem_drops_last_extension_only() {
    assert_eq!(file_stem(b"a.tar.gz"), Some(bytes("a.tar")));
    assert_eq!(file_stem(b"notes"), Some(bytes("notes")));
    assert_eq!(file_stem(b".git"), Some(bytes(".git")));
    assert_eq!(file_stem(b"a."), Some(bytes("a")));
}

#[test]
fn join_puts_one_separator() {
    assert_eq!(join(b"/tmp/out", b"proj_bak"), bytes("/tmp/out/proj_bak"));
    assert_eq!(join(b"/tmp/out/", b"proj_bak"), bytes("/tmp/out/proj_bak"));
    assert_eq!(join(b"", b"notes.bak"), bytes("notes.bak"));
    assert_eq!(join(b"/", b"notes.bak"), bytes("/notes.bak"));
}

#[test]
fn join_with_rooted_tail_replaces_base() {
    assert_eq!(join(b"/tmp/out", b"/etc"), bytes("/etc"));
}

#[test]
fn every_small_path_is_split_as_std_splits_it() {
    for sample in small_paths(7) {
        let path = Path::new(&sample);
        assert_eq!(parent(sample.as_bytes()), path.parent().map(std_bytes), "parent of {:?}", sample);
        assert_eq!(
            file_name(sample.as_bytes()),
            path.file_name().map(|name| std_bytes(Path::new(name))),
            "file name of {:?}",
            sample
        );
        assert_eq!(
            file_stem(sample.as_bytes()),
            path.file_stem().map(|stem| std_bytes(Path::new(stem))),
            "file stem of {:?}",
            sample
        );
    }
}

#[test]
fn every_small_pair_is_joined_as_std_joins_it() {
    let samples = small_paths(4);
    for base in &samples {
        for tail in &samples {
            let mut expected = PathBuf::from(base);
            expected.push(tail);
            assert_eq!(
                join(base.as_bytes(), tail.as_bytes()),
                std_bytes(&expected),
                "{:?} joined with {:?}",
                base,
                tail
            );
        }
    }
}

#[test]
fn joined_name_is_found_again() {
    for base in small_paths(4) {
        for name in ["a", ".a", "a.b", "..a", "..."] {
            let joined = join(base.as_bytes(), name.as_bytes());
            assert_eq!(file_name(&joined), Some(bytes(name)), "{:?} under {:?}", name, base);
            let up = parent(&joined).unwrap();
            assert!(base.as_bytes().starts_with(&up), "{:?} under {:?}", name, base);
            assert_eq!(parent(&join(&up, name.as_bytes())), Some(up));
        }
    }
}
