use backup_system::service::{creation_message, restoration_message, CHUNK_SIZE};

#[test]
fn part_size_is_fifty_megabytes() {
    assert_eq!(CHUNK_SIZE, 50_000_000);
}

#[test]
fn creation_message_text() {
    assert_eq!(
        creation_message("in", "out", "pw"),
        format!("Backup created for input_folder {},\n                            output_folder {} with pass {}", "in", "out", "pw")
    );
}

#[test]
fn restoration_message_text() {
    assert_eq!(
        restoration_message("in", "out", "pw"),
        format!("Backup restored for input_folder {}, \n                        output_folder {} with pass {}", "in", "out", "pw")
    );
}
