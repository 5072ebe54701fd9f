use backup_system::paths::{file_name, file_stem, last_folder_name, parent};
use std::path::Path;

const SAMPLES: &[&str] = &[
    "", "/", "//", ".", "..", "./", "./.", "../", "a", "a/", "a//", "a/.", "a/./", "a/..",
    "/a", "/a/", "//a", "./a", "../a", "a/b", "a//b", "a/./b", "a/b/.", "/home/user/folder",
    "/home/user/folder/", "folder.tar", ".hidden", ".hidden.tar", "a.b.c", "dir/file.",
    "x/..y", "...", "a/...", ".a/b", "./..", "/..", "backup/input-backup-2",
    "out/input/input.tar_part12.enc", "carpeta/niño.txt", "a/ñ/", "/.", "/./",
];

fn std_file_name(s: &str) -> Option<String> {
    Path::new(s).file_name().map(|n| n.to_str().unwrap().to_string())
}

fn std_parent(s: &str) -> Option<String> {
    Path::new(s).parent().map(|p| p.to_str().unwrap().to_string())
}

fn std_file_stem(s: &str) -> Option<String> {
    Path::new(s).file_stem().map(|n| n.to_str().unwrap().to_string())
}

#[test]
fn file_name_agrees_with_std() {
    for s in SAMPLES {
        assert_eq!(file_name(s), std_file_name(s), "file_name of {:?}", s);
    }
}

#[test]
fn parent_agrees_with_std() {
    for s in SAMPLES {
        assert_eq!(parent(s), std_parent(s), "parent of {:?}", s);
    }
}

#[test]
fn file_stem_agrees_with_std() {
    for s in SAMPLES {
        assert_eq!(file_stem(s), std_file_stem(s), "file_stem of {:?}", s);
    }
}

#[test]
fn last_folder_name_falls_back_to_empty() {
    assert_eq!(last_folder_name("/home/user/input-backup-2"), "input-backup-2");
    assert_eq!(last_folder_name("/home/user/input-backup-2/"), "input-backup-2");
    assert_eq!(last_folder_name("/"), "");
    assert_eq!(last_folder_name("a/.."), "");
}

#[test]
fn file_name_examples() {
    assert_eq!(file_name("/usr/bin/"), Some("bin".to_string()));
    assert_eq!(file_name("tmp/foo.txt"), Some("foo.txt".to_string()));
    assert_eq!(file_name("foo.txt/."), Some("foo.txt".to_string()));
    assert_eq!(file_name("foo.txt/.//"), Some("foo.txt".to_string()));
    assert_eq!(file_name("foo.txt/.."), None);
    assert_eq!(file_name("/"), None);
}

#[test]
fn parent_examples() {
    assert_eq!(parent("/foo/bar"), Some("/foo".to_string()));
    assert_eq!(parent("/foo"), Some("/".to_string()));
    assert_eq!(parent("/"), None);
    assert_eq!(parent("foo"), Some(String::new()));
    assert_eq!(parent(""), None);
}

#[test]
fn file_stem_examples() {
    assert_eq!(file_stem("foo.rs"), Some("foo".to_string()));
    assert_eq!(file_stem("foo.tar.gz"), Some("foo.tar".to_string()));
    assert_eq!(file_stem(".bashrc"), Some(".bashrc".to_string()));
    assert_eq!(file_stem("x/b.tar_part1.enc"), Some("b.tar_part1".to_string()));
}
