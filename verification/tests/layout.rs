use backup_system::error::BackupError;
use backup_system::layout::{
    add_extension, backup_layout, decrypted_path, encrypted_path, join, part_path, record_path,
    restore_layout,
};
use backup_system::paths::{file_name, parent};

#[test]
fn backup_layout_of_a_folder() {
    let l = backup_layout("/home/user/input-backup-2", "/srv/backup", "tar");
    assert_eq!(l.folder, "/srv/backup/input-backup-2");
    assert_eq!(l.archive, "/srv/backup/input-backup-2/input-backup-2.tar");
}

#[test]
fn backup_layout_of_a_zip() {
    let l = backup_layout("data/photos/", "out", "zip");
    assert_eq!(l.folder, "out/photos");
    assert_eq!(l.archive, "out/photos/photos.zip");
}

#[test]
fn backup_layout_without_a_name() {
    let l = backup_layout("/", "out", "tar");
    assert_eq!(l.folder, "out/");
    assert_eq!(l.archive, "out//.tar");
}

#[test]
fn existing_folder_is_refused() {
    let l = backup_layout("in", "out", "tar");
    assert_eq!(l.check_fresh(true), Err(BackupError::AlreadyBackedUp));
    assert_eq!(l.check_fresh(false), Ok(()));
}

#[test]
fn restore_layout_of_a_backup_folder() {
    let r = restore_layout("/srv/backup/input-backup-2", "/home/user/output-backup", "tar");
    assert_eq!(r.archive, "/srv/backup/input-backup-2/input-backup-2.tar");
    assert_eq!(r.target, "/home/user/output-backup/input-backup-2");
}

#[test]
fn restore_reads_the_archive_the_backup_wrote() {
    for (input, output) in [("/a/b/docs", "/backups"), ("docs/", "b"), ("x", ""), ("./y", "/")] {
        let b = backup_layout(input, output, "tar");
        let r = restore_layout(&b.folder, "/restore", "tar");
        assert_eq!(r.archive, b.archive);
        assert_eq!(file_name(&r.target), file_name(input));
    }
}

#[test]
fn backup_archive_is_in_normal_form() {
    let b = backup_layout("/a/b/docs", "/backups//", "tar");
    assert_eq!(parent(&b.archive), Some(b.folder.clone()));
    assert_eq!(join(&b.folder, &file_name(&b.archive).unwrap()), b.archive);
}

#[test]
fn part_paths_are_numbered_from_one() {
    assert_eq!(part_path("out/x/x.tar", 1), "out/x/x.tar_part1");
    assert_eq!(part_path("out/x/x.tar", 12), "out/x/x.tar_part12");
    assert_eq!(part_path("a", 0), "a_part0");
    assert_eq!(part_path("a", 1234567890), "a_part1234567890");
}

#[test]
fn sealed_and_opened_paths() {
    assert_eq!(encrypted_path("out/x/x.tar_part3"), "out/x/x.tar_part3.enc");
    assert_eq!(decrypted_path("out/x/x.tar_part3.enc", "out/x"), "out/x/x.tar_part3");
    let p = "dir/f.tar_part1";
    assert_eq!(decrypted_path(&encrypted_path(p), "dir"), p);
}

#[test]
fn record_paths() {
    assert_eq!(record_path("/srv/info", "docs"), "/srv/info/docs.json");
    assert_eq!(add_extension("docs", "json"), "docs.json");
    assert_eq!(join("a", "b"), "a/b");
}

#[test]
fn parts_go_to_distinct_files() {
    let paths: Vec<String> = (1..=30).map(|n| part_path("out/x/x.tar", n)).collect();
    for i in 0..paths.len() {
        for j in 0..i {
            assert_ne!(paths[i], paths[j]);
        }
    }
    assert_ne!(part_path("a", 1), part_path("a", 11));
}
