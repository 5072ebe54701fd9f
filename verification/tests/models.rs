use backup_system::{File, Folder};

#[test]
fn file_new_keeps_its_fields() {
    let f = File::new("id".to_string(), "name".to_string(), Some(vec!["a.enc".to_string()]), "k".to_string());
    assert_eq!(f.file_id, "id");
    assert_eq!(f.file_name, "name");
    assert_eq!(f.encrypted_files, Some(vec!["a.enc".to_string()]));
    assert_eq!(f.enc_key, "k");
}

#[test]
fn folder_new_keeps_its_fields() {
    let f = Folder::new("/tmp".to_string(), None);
    assert_eq!(f.folder_path, "/tmp");
    assert_eq!(f.file_names, None);
}

#[test]
fn add_file_name_starts_and_extends_the_list() {
    let mut f = Folder::new("/tmp".to_string(), None);
    f.add_file_name("a".to_string());
    assert_eq!(f.file_names, Some(vec!["a".to_string()]));
    f.add_file_name("b".to_string());
    assert_eq!(f.file_names, Some(vec!["a".to_string(), "b".to_string()]));
    assert_eq!(f.folder_path, "/tmp");
}

#[test]
fn listing_of_a_folder() {
    let mut f = Folder::new("/tmp".to_string(), None);
    assert_eq!(f.listing_lines(), vec!["This folder has no files."]);
    f.add_file_name("a.txt".to_string());
    f.add_file_name("b.txt".to_string());
    assert_eq!(f.listing_lines(), vec!["File name: a.txt", "File name: b.txt"]);
    let empty = Folder::new("/tmp".to_string(), Some(Vec::new()));
    assert!(empty.listing_lines().is_empty());
}
