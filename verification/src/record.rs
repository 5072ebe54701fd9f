//! The record of a backup, and the plans for splitting an archive and putting it
//! back together.
use vstd::prelude::*;

use crate::chunks::{join_chunks, join_spec, lemma_join_split, parts_view, split_chunks, split_spec};
use crate::crypto::{aes_128_cbc_decryption, backup_iv_spec};
use crate::error::BackupError;
use crate::layout::{
    decrypted_path_spec, encrypted_path_spec, join, lemma_backup_archive_normal,
    lemma_decrypted_path_returns, lemma_part_has_name, lemma_reassembly_reads_parts, part_path,
    part_path_spec, record_path, record_path_spec, with_extension,
};
use crate::text::decimal;
use crate::paths::{file_name, folder_name, is_plain_name, join_path, parent, path_file_name, path_parent};

verus! {

/// What a backup remembers about itself: where its parts are, what they were cut
/// from, and the password and key it was made with.
pub struct BackupInfo {
    /// The folder that holds the parts.
    pub input_folder: String,
    /// The archive the parts were cut from, and that a restore writes back.
    pub output_file: String,
    /// The size of every part but the last.
    pub chunk_size: usize,
    /// The file names of the parts, in order.
    pub split_files: Vec<String>,
    /// The password of the backup.
    pub pass: String,
    /// The key the parts are sealed with.
    pub key: Vec<u8>,
}

/// The names recorded for the parts of `archive`.
pub open spec fn part_names_spec(archive: Seq<char>, count: nat) -> Seq<Seq<char>> {
    Seq::new(count, |i: int| path_file_name(part_path_spec(archive, (i + 1) as nat))->0)
}

/// The views of a run of strings.
pub open spec fn strings_view(v: Seq<String>) -> Seq<Seq<char>> {
    v.map_values(|s: String| s@)
}

/// What a split of an archive writes and keeps.
pub struct SplitPlan {
    /// The contents of the parts, in order.
    pub parts: Vec<Vec<u8>>,
    /// The path each part is written to: `archive_part1`, `archive_part2`, ...
    pub part_paths: Vec<String>,
    /// The record of the backup.
    pub info: BackupInfo,
    /// Where the record is written.
    pub record_path: String,
    /// Whether the archive is deleted once split (it is, for a positive part size).
    pub removes_archive: bool,
    /// An empty first part that a part size of zero leaves behind.
    pub leftover_part: Option<String>,
}

/// Plans the split of `archive`, whose bytes are `contents`, into parts of
/// `chunk_size` bytes, and its record, kept in `info_folder` under the name of
/// the archive's folder.
pub fn plan_split(
    archive: &str,
    contents: &[u8],
    chunk_size: usize,
    pass: String,
    key: Vec<u8>,
    info_folder: &str,
) -> (plan: SplitPlan)
    requires
        path_parent(archive@) is Some,
        path_file_name(path_parent(archive@)->0) is Some,
    ensures
        parts_view(plan.parts@) == split_spec(contents@, chunk_size as nat),
        chunk_size > 0 ==> join_spec(parts_view(plan.parts@)) == contents@,
        strings_view(plan.part_paths@) == Seq::new(
            plan.parts@.len(),
            |i: int| part_path_spec(archive@, (i + 1) as nat),
        ),
        strings_view(plan.info.split_files@) == part_names_spec(archive@, plan.parts@.len()),
        plan.info.input_folder@ == path_parent(archive@)->0,
        plan.info.output_file@ == archive@,
        plan.info.chunk_size == chunk_size,
        plan.info.pass@ == pass@,
        plan.info.key@ == key@,
        plan.record_path@ == record_path_spec(
            info_folder@,
            path_file_name(path_parent(archive@)->0)->0,
        ),
        plan.removes_archive == (chunk_size > 0),
        chunk_size > 0 ==> plan.leftover_part is None,
        chunk_size == 0 ==> (plan.leftover_part matches Some(p) && p@ == part_path_spec(archive@, 1)),
{
    let parts = split_chunks(contents, chunk_size);
    if chunk_size > 0 {
        proof {
            lemma_join_split(contents@, chunk_size as nat);
        }
    }
    let count = parts.len();
    let mut part_paths: Vec<String> = Vec::new();
    let mut names: Vec<String> = Vec::new();
    let mut i: usize = 0;
    while i < count
        invariant
            count == parts@.len(),
            i <= count,
            part_paths@.len() == i,
            names@.len() == i,
            forall|j: int| 0 <= j < i ==> #[trigger] part_paths@[j]@ == part_path_spec(archive@, (j + 1) as nat),
            forall|j: int|
                0 <= j < i ==> #[trigger] names@[j]@ == path_file_name(part_path_spec(archive@, (j + 1) as nat))->0,
        decreases count - i,
    {
        let p = part_path(archive, i + 1);
        proof {
            lemma_part_has_name(archive@, (i + 1) as nat);
        }
        let name = match file_name(p.as_str()) {
            Some(n) => n,
            None => String::new(),
        };
        part_paths.push(p);
        names.push(name);
        i = i + 1;
    }
    assert(strings_view(part_paths@) =~= Seq::new(count as nat, |i: int| part_path_spec(archive@, (i + 1) as nat)));
    assert(strings_view(names@) =~= part_names_spec(archive@, count as nat));
    let folder = match parent(archive) {
        Some(f) => f,
        None => String::new(),
    };
    let name = match file_name(folder.as_str()) {
        Some(n) => n,
        None => String::new(),
    };
    let record = record_path(info_folder, name.as_str());
    let leftover_part = if chunk_size == 0 {
        Some(part_path(archive, 1))
    } else {
        None
    };
    let info = BackupInfo {
        input_folder: folder,
        output_file: archive.to_owned(),
        chunk_size,
        split_files: names,
        pass,
        key,
    };
    SplitPlan {
        parts,
        part_paths,
        info,
        record_path: record,
        removes_archive: chunk_size > 0,
        leftover_part,
    }
}

/// Where a restore of the backup folder `folder_path` finds the record:
/// `info_folder/name.json`, with `name` the final component of the folder.
pub fn restore_record_path(info_folder: &str, folder_path: &str) -> (r: String)
    requires
        path_file_name(folder_path@) is Some,
    ensures
        r@ == record_path_spec(info_folder@, path_file_name(folder_path@)->0),
{
    match file_name(folder_path) {
        Some(name) => record_path(info_folder, name.as_str()),
        None => String::new(),
    }
}

impl BackupInfo {
    /// A restore goes ahead only with the password the backup was made with.
    pub fn check_password(&self, pass: &String) -> (r: Result<(), BackupError>)
        ensures
            (r is Ok) == (pass@ == self.pass@),
            r is Err ==> r == Err::<(), BackupError>(BackupError::WrongPassword),
    {
        if *pass == self.pass {
            Ok(())
        } else {
            Err(BackupError::WrongPassword)
        }
    }

    /// The files a restore reads, in order: each recorded part name in the parts' folder.
    pub fn part_sources(&self) -> (r: Vec<String>)
        ensures
            r@.len() == self.split_files@.len(),
            forall|i: int|
                0 <= i < r@.len() ==> #[trigger] r@[i]@ == join_path(
                    self.input_folder@,
                    self.split_files@[i]@,
                ),
    {
        let mut r: Vec<String> = Vec::new();
        let mut i: usize = 0;
        while i < self.split_files.len()
            invariant
                i <= self.split_files@.len(),
                r@.len() == i,
                forall|j: int|
                    0 <= j < i ==> #[trigger] r@[j]@ == join_path(
                        self.input_folder@,
                        self.split_files@[j]@,
                    ),
            decreases self.split_files@.len() - i,
        {
            r.push(join(self.input_folder.as_str(), self.split_files[i].as_str()));
            i = i + 1;
        }
        r
    }
}

/// What a restore does with the opened parts of a backup: it reads them in the
/// recorded order, writes the archive they were cut from, and then deletes them,
/// keeping the sealed parts.
pub struct ReassemblyPlan {
    /// The opened parts, in the order they are joined.
    pub sources: Vec<String>,
    /// The archive the joined parts are written to.
    pub output_file: String,
    /// The files deleted once the archive is written.
    pub removed: Vec<String>,
}

impl BackupInfo {
    /// The plan for putting the archive of this backup back together.
    pub fn plan_reassembly(&self) -> (plan: ReassemblyPlan)
        ensures
            plan.sources@.len() == self.split_files@.len(),
            forall|i: int|
                0 <= i < plan.sources@.len() ==> #[trigger] plan.sources@[i]@ == join_path(
                    self.input_folder@,
                    self.split_files@[i]@,
                ),
            plan.output_file@ == self.output_file@,
            strings_view(plan.removed@) == strings_view(plan.sources@),
    {
        let sources = self.part_sources();
        let removed = self.part_sources();
        assert(strings_view(removed@) =~= strings_view(sources@));
        ReassemblyPlan { sources, output_file: self.output_file.clone(), removed }
    }
}

/// The archive a restore writes: the parts, read back in order, laid end to end.
pub fn reassemble_contents(parts: &Vec<Vec<u8>>) -> (r: Vec<u8>)
    ensures
        r@ == join_spec(parts_view(parts@)),
{
    join_chunks(parts)
}

/// A backup can be restored: cut an archive into parts of a positive size, seal
/// each part under a key, open each sealed part under that key, and lay the opened
/// parts end to end; the result is the archive.
pub proof fn lemma_restore_returns_archive(
    data: Seq<u8>,
    size: nat,
    key: Seq<u8>,
    sealed: Seq<Seq<u8>>,
    opened: Seq<Seq<u8>>,
)
    requires
        size > 0,
        sealed.len() == split_spec(data, size).len(),
        opened.len() == sealed.len(),
        forall|i: int|
            0 <= i < sealed.len() ==> aes_128_cbc_decryption(key, backup_iv_spec(), #[trigger] sealed[i])
                == Some(split_spec(data, size)[i]),
        forall|i: int|
            0 <= i < sealed.len() ==> aes_128_cbc_decryption(key, backup_iv_spec(), #[trigger] sealed[i])
                == Some(opened[i]),
    ensures
        join_spec(opened) == data,
{
    assert forall|i: int| 0 <= i < opened.len() implies opened[i] == split_spec(data, size)[i] by {
        assert(aes_128_cbc_decryption(key, backup_iv_spec(), sealed[i]) == Some(opened[i]));
    }
    assert(opened =~= split_spec(data, size));
    lemma_join_split(data, size);
}

/// The parts of the archive of a backup are found again: for any input folder
/// with a name and any output folder, the folder a split of the backup's archive
/// records, joined with each recorded part name, is the path that part was written to.
pub proof fn lemma_backup_parts_found(
    input_folder: Seq<char>,
    output_folder: Seq<char>,
    ext: Seq<char>,
    count: nat,
)
    requires
        path_file_name(input_folder) is Some,
        forall|i: int| 0 <= i < ext.len() ==> ext[i] != '/',
    ensures
        ({
            let name = folder_name(input_folder);
            let archive = join_path(join_path(output_folder, name), with_extension(name, ext));
            forall|i: nat|
                1 <= i <= count ==> join_path(
                    path_parent(archive)->0,
                    #[trigger] path_file_name(part_path_spec(archive, i))->0,
                ) == part_path_spec(archive, i)
        }),
{
    let name = folder_name(input_folder);
    let archive = join_path(join_path(output_folder, name), with_extension(name, ext));
    lemma_backup_archive_normal(input_folder, output_folder, ext);
    lemma_reassembly_reads_parts(archive, count);
}

/// A file sealed and then opened under the same key comes back whole, at the path
/// it was sealed from: the opened copy of `folder/name.enc` goes to `folder/name`
/// and holds what `folder/name` held.
pub proof fn lemma_file_round_trip(
    folder: Seq<char>,
    name: Seq<char>,
    key: Seq<u8>,
    plain: Seq<u8>,
    sealed: Seq<u8>,
    opened: Seq<u8>,
)
    requires
        is_plain_name(name),
        aes_128_cbc_decryption(key, backup_iv_spec(), sealed) == Some(plain),
        aes_128_cbc_decryption(key, backup_iv_spec(), sealed) == Some(opened),
    ensures
        opened == plain,
        decrypted_path_spec(encrypted_path_spec(join_path(folder, name)), folder) == join_path(folder, name),
{
    lemma_decrypted_path_returns(folder, name);
}

/// The opened parts a restore deletes are never sealed parts: a part path ends in
/// a digit, a sealed path in `.enc`.
pub proof fn lemma_cleanup_keeps_sealed(archive: Seq<char>, i: nat, j: nat)
    ensures
        part_path_spec(archive, i) != encrypted_path_spec(part_path_spec(archive, j)),
{
    crate::text::lemma_decimal_digits(i);
    let p = part_path_spec(archive, i);
    let d = decimal(i);
    assert(p.last() == d[d.len() - 1]);
    assert(encrypted_path_spec(part_path_spec(archive, j)).last() == 'c');
}

} // verus!
