//! The folder and file records of the listing tool.
use vstd::prelude::*;

use crate::text::str_concat;

verus! {

/// A file of a backup: its id, its name, the sealed files it was cut into, and its key.
pub struct File {
    pub file_id: String,
    pub file_name: String,
    /// Paths of the sealed files.
    pub encrypted_files: Option<Vec<String>>,
    pub enc_key: String,
}

impl File {
    /// A file record with the given fields.
    pub fn new(file_id: String, file_name: String, encrypted_files: Option<Vec<String>>, enc_key: String) -> (r: Self)
        ensures
            r.file_id == file_id,
            r.file_name == file_name,
            r.encrypted_files == encrypted_files,
            r.enc_key == enc_key,
    {
        File { file_id, file_name, encrypted_files, enc_key }
    }
}

/// A folder and the names of the files found in it, if any were recorded.
pub struct Folder {
    pub folder_path: String,
    pub file_names: Option<Vec<String>>,
}

/// The names a folder holds after one more is added.
pub open spec fn names_after_add(names: Option<Vec<String>>, name: String) -> Seq<String> {
    match names {
        Some(v) => v@.push(name),
        None => seq![name],
    }
}

/// The line that lists one file.
pub open spec fn listing_line(name: Seq<char>) -> Seq<char> {
    "File name: "@ + name
}

impl Folder {
    /// A folder record with the given fields.
    pub fn new(folder_path: String, file_names: Option<Vec<String>>) -> (r: Self)
        ensures
            r.folder_path == folder_path,
            r.file_names == file_names,
    {
        Folder { folder_path, file_names }
    }

    /// Records one more file name, after those already recorded.
    pub fn add_file_name(&mut self, name: String)
        ensures
            final(self).folder_path == old(self).folder_path,
            final(self).file_names matches Some(v) && v@ == names_after_add(old(self).file_names, name),
    {
        match self.file_names.take() {
            Some(mut file_names) => {
                file_names.push(name);
                self.file_names = Some(file_names);
            },
            None => {
                self.file_names = Some(vec![name]);
            },
        }
    }

    /// The lines that list the folder: one `File name: ...` per recorded name, or a
    /// single line saying the folder has no files when none were recorded.
    pub fn listing_lines(&self) -> (r: Vec<String>)
        ensures
            self.file_names is None ==> r@.len() == 1 && r@[0]@ == "This folder has no files."@,
            self.file_names matches Some(v) ==> r@.len() == v@.len() && forall|i: int|
                0 <= i < v@.len() ==> #[trigger] r@[i]@ == listing_line(v@[i]@),
    {
        let mut r: Vec<String> = Vec::new();
        match &self.file_names {
            None => {
                r.push("This folder has no files.".to_owned());
            },
            Some(names) => {
                let mut i: usize = 0;
                while i < names.len()
                    invariant
                        i <= names@.len(),
                        r@.len() == i,
                        forall|j: int| 0 <= j < i ==> #[trigger] r@[j]@ == listing_line(names@[j]@),
                    decreases names@.len() - i,
                {
                    r.push(str_concat("File name: ", names[i].as_str()));
                    i = i + 1;
                }
            },
        }
        r
    }
}

} // verus!
