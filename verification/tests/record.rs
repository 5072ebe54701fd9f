use backup_system::chunks::split_chunks;
use backup_system::crypto::{decrypt_contents, encrypt_contents};
use backup_system::error::BackupError;
use backup_system::generate_key;
use backup_system::record::{plan_split, reassemble_contents, restore_record_path, BackupInfo};

fn sample_info(pass: &str) -> BackupInfo {
    BackupInfo {
        input_folder: "out/docs".to_string(),
        output_file: "out/docs/docs.tar".to_string(),
        chunk_size: 4,
        split_files: vec!["docs.tar_part1".to_string(), "docs.tar_part2".to_string()],
        pass: pass.to_string(),
        key: vec![1; 16],
    }
}

#[test]
fn plan_of_a_split() {
    let data: Vec<u8> = (0u8..10).collect();
    let plan = plan_split("out/docs/docs.tar", &data, 4, "pw".to_string(), vec![5; 16], "/info");
    assert_eq!(plan.parts, vec![vec![0, 1, 2, 3], vec![4, 5, 6, 7], vec![8, 9]]);
    assert_eq!(
        plan.part_paths,
        vec!["out/docs/docs.tar_part1", "out/docs/docs.tar_part2", "out/docs/docs.tar_part3"]
    );
    assert_eq!(plan.info.split_files, vec!["docs.tar_part1", "docs.tar_part2", "docs.tar_part3"]);
    assert_eq!(plan.info.input_folder, "out/docs");
    assert_eq!(plan.info.output_file, "out/docs/docs.tar");
    assert_eq!(plan.info.chunk_size, 4);
    assert_eq!(plan.info.pass, "pw");
    assert_eq!(plan.info.key, vec![5; 16]);
    assert_eq!(plan.record_path, "/info/docs.json");
    assert!(plan.removes_archive);
    assert_eq!(plan.leftover_part, None);
}

#[test]
fn plan_of_an_empty_archive() {
    let plan = plan_split("out/docs/docs.tar", &[], 50, "pw".to_string(), vec![], "/info");
    assert!(plan.parts.is_empty());
    assert!(plan.part_paths.is_empty());
    assert!(plan.info.split_files.is_empty());
    assert!(plan.removes_archive);
}

#[test]
fn plan_with_zero_part_size_keeps_the_archive() {
    let plan = plan_split("out/docs/docs.tar", &[1, 2, 3], 0, "pw".to_string(), vec![], "/info");
    assert!(plan.parts.is_empty());
    assert!(!plan.removes_archive);
    assert_eq!(plan.leftover_part, Some("out/docs/docs.tar_part1".to_string()));
}

#[test]
fn restore_reads_the_record_the_split_wrote() {
    let plan = plan_split("out/docs/docs.tar", &[1], 8, "pw".to_string(), vec![], "/info");
    assert_eq!(restore_record_path("/info", &plan.info.input_folder), plan.record_path);
}

#[test]
fn part_sources_are_the_written_parts() {
    let data: Vec<u8> = (0u8..100).collect();
    let plan = plan_split("/srv/out/docs/docs.tar", &data, 30, "pw".to_string(), vec![], "/info");
    assert_eq!(plan.info.part_sources(), plan.part_paths);
}

#[test]
fn password_check() {
    let info = sample_info("secret");
    assert_eq!(info.check_password(&"secret".to_string()), Ok(()));
    assert_eq!(info.check_password(&"Secret".to_string()), Err(BackupError::WrongPassword));
    assert_eq!(info.check_password(&String::new()), Err(BackupError::WrongPassword));
}

#[test]
fn part_sources_of_a_record() {
    let info = sample_info("secret");
    assert_eq!(info.part_sources(), vec!["out/docs/docs.tar_part1", "out/docs/docs.tar_part2"]);
}

#[test]
fn backup_then_restore_gives_the_archive_back() {
    let archive: Vec<u8> = (0..1000u32).map(|i| (i % 256) as u8).collect();
    let key = generate_key("secret").unwrap();
    let plan = plan_split("out/docs/docs.tar", &archive, 300, "secret".to_string(), key.clone(), "/info");
    let sealed: Vec<Vec<u8>> = plan.parts.iter().map(|p| encrypt_contents(&key, p).unwrap()).collect();
    plan.info.check_password(&"secret".to_string()).unwrap();
    let opened: Vec<Vec<u8>> =
        sealed.iter().map(|s| decrypt_contents(&plan.info.key, s).unwrap()).collect();
    assert_eq!(reassemble_contents(&opened), archive);
    assert_eq!(split_chunks(&archive, 300), plan.parts);
}

#[test]
fn reassembly_plan_reads_and_then_removes_the_opened_parts() {
    let info = sample_info("secret");
    let plan = info.plan_reassembly();
    assert_eq!(plan.sources, vec!["out/docs/docs.tar_part1", "out/docs/docs.tar_part2"]);
    assert_eq!(plan.output_file, "out/docs/docs.tar");
    assert_eq!(plan.removed, plan.sources);
    for r in &plan.removed {
        assert!(!r.ends_with(".enc"));
    }
}
