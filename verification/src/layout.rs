//! Where a backup puts its files, and where a restore looks for them.
use vstd::prelude::*;

use crate::error::BackupError;
use crate::paths::{
    body_start, ends_in_noise, last_index_of, file_stem, folder_name, is_plain_name, join_path, last_folder_name, lemma_file_name_join,
    lemma_file_name_plain, lemma_last_index_append, lemma_parent_join, lemma_trim_trailing_sep,
    path_file_name, path_file_stem, path_parent,
};
use crate::text::{str_concat, decimal, decimal_string};

verus! {

/// `name.ext`.
pub open spec fn with_extension(name: Seq<char>, ext: Seq<char>) -> Seq<char> {
    name + seq!['.'] + ext
}

/// The suffix of the n-th part of a split archive.
pub open spec fn part_suffix(n: nat) -> Seq<char> {
    seq!['_', 'p', 'a', 'r', 't'] + decimal(n)
}

/// The path of the n-th part of a split archive.
pub open spec fn part_path_spec(archive: Seq<char>, n: nat) -> Seq<char> {
    archive + part_suffix(n)
}

/// The file a sealed copy of `path` is written to.
pub open spec fn encrypted_path_spec(path: Seq<char>) -> Seq<char> {
    path + seq!['.', 'e', 'n', 'c']
}

/// Where the record of a backup named `name` is kept.
pub open spec fn record_path_spec(info_folder: Seq<char>, name: Seq<char>) -> Seq<char> {
    join_path(info_folder, name + seq!['.', 'j', 's', 'o', 'n'])
}

/// Where the opened copy of a sealed file goes: its stem, in `output_folder`.
pub open spec fn decrypted_path_spec(path: Seq<char>, output_folder: Seq<char>) -> Seq<char> {
    join_path(output_folder, path_file_stem(path)->0)
}

/// `dir/name`, as `format!("{}/{}", dir, name)` writes it.
pub fn join(dir: &str, name: &str) -> (r: String)
    ensures
        r@ == join_path(dir@, name@),
{
    proof {
        reveal_strlit("/");
    }
    let mut r = str_concat(dir, "/");
    r.append(name);
    r
}

/// `name.ext`.
pub fn add_extension(name: &str, ext: &str) -> (r: String)
    ensures
        r@ == with_extension(name@, ext@),
{
    proof {
        reveal_strlit(".");
    }
    let mut r = str_concat(name, ".");
    r.append(ext);
    r
}

/// The two places a new backup writes to: its folder, and the archive inside it.
pub struct ArchiveLayout {
    /// `output_folder/name`, where `name` is the final component of the input folder.
    pub folder: String,
    /// `output_folder/name/name.ext`.
    pub archive: String,
}

/// The layout of a backup of `input_folder` into `output_folder`, with an archive of
/// the given extension. An input without a final name gives the empty name.
pub fn backup_layout(input_folder: &str, output_folder: &str, extension: &str) -> (r: ArchiveLayout)
    ensures
        r.folder@ == join_path(output_folder@, folder_name(input_folder@)),
        r.archive@ == join_path(r.folder@, with_extension(folder_name(input_folder@), extension@)),
        path_file_name(input_folder@) is Some ==> path_file_name(r.folder@) == path_file_name(
            input_folder@,
        ),
{
    proof {
        if path_file_name(input_folder@) is Some {
            lemma_file_name_plain(input_folder@);
            lemma_file_name_join(output_folder@, folder_name(input_folder@));
        }
    }
    let name = last_folder_name(input_folder);
    let folder = join(output_folder, name.as_str());
    let file = add_extension(name.as_str(), extension);
    let archive = join(folder.as_str(), file.as_str());
    ArchiveLayout { folder, archive }
}

impl ArchiveLayout {
    /// A backup goes only into a folder that does not exist yet.
    pub fn check_fresh(&self, folder_exists: bool) -> (r: Result<(), BackupError>)
        ensures
            folder_exists ==> r == Err::<(), BackupError>(BackupError::AlreadyBackedUp),
            !folder_exists ==> r is Ok,
    {
        if folder_exists {
            Err(BackupError::AlreadyBackedUp)
        } else {
            Ok(())
        }
    }
}

/// The two places a restore uses: the archive it reads, and the folder it unpacks into.
pub struct RestoreLayout {
    /// `input_folder/name.ext`, where `name` is the final component of the input folder.
    pub archive: String,
    /// `output_folder/name`.
    pub target: String,
}

/// The layout of a restore of the backup folder `input_folder` into `output_folder`.
pub fn restore_layout(input_folder: &str, output_folder: &str, extension: &str) -> (r: RestoreLayout)
    ensures
        r.archive@ == join_path(input_folder@, with_extension(folder_name(input_folder@), extension@)),
        r.target@ == join_path(output_folder@, folder_name(input_folder@)),
        path_file_name(input_folder@) is Some ==> path_file_name(r.target@) == path_file_name(
            input_folder@,
        ),
{
    proof {
        if path_file_name(input_folder@) is Some {
            lemma_file_name_plain(input_folder@);
            lemma_file_name_join(output_folder@, folder_name(input_folder@));
        }
    }
    let name = last_folder_name(input_folder);
    let file = add_extension(name.as_str(), extension);
    let archive = join(input_folder, file.as_str());
    let target = join(output_folder, name.as_str());
    RestoreLayout { archive, target }
}

/// The path of the n-th part of a split archive: `archive_partN`.
pub fn part_path(archive: &str, n: usize) -> (r: String)
    ensures
        r@ == part_path_spec(archive@, n as nat),
{
    proof {
        reveal_strlit("_part");
    }
    let mut r = str_concat(archive, "_part");
    let d = decimal_string(n);
    r.append(d.as_str());
    assert(r@ =~= part_path_spec(archive@, n as nat));
    r
}

/// The file a sealed copy of `path` is written to: `path.enc`.
pub fn encrypted_path(path: &str) -> (r: String)
    ensures
        r@ == encrypted_path_spec(path@),
{
    proof {
        reveal_strlit(".enc");
    }
    str_concat(path, ".enc")
}

/// Where the record of a backup named `name` is kept: `info_folder/name.json`.
pub fn record_path(info_folder: &str, name: &str) -> (r: String)
    ensures
        r@ == record_path_spec(info_folder@, name@),
        is_plain_name(name@) ==> path_file_name(r@) == Some(name@ + seq!['.', 'j', 's', 'o', 'n']),
{
    proof {
        if is_plain_name(name@) {
            lemma_record_file_name(info_folder@, name@);
        }
    }
    proof {
        reveal_strlit(".json");
    }
    let file = str_concat(name, ".json");
    join(info_folder, file.as_str())
}

/// Where the opened copy of the sealed file `path` goes: `output_folder/stem`.
pub fn decrypted_path(path: &str, output_folder: &str) -> (r: String)
    requires
        path_file_stem(path@) is Some,
    ensures
        r@ == decrypted_path_spec(path@, output_folder@),
{
    match file_stem(path) {
        Some(stem) => join(output_folder, stem.as_str()),
        None => String::new(),
    }
}

/// A restore of the folder a backup made reads the archive that backup wrote,
/// and unpacks it under the same name.
pub proof fn lemma_restore_finds_archive(
    input_folder: Seq<char>,
    output_folder: Seq<char>,
    restore_folder: Seq<char>,
    ext: Seq<char>,
)
    requires
        path_file_name(input_folder) is Some,
    ensures
        ({
            let name = folder_name(input_folder);
            let folder = join_path(output_folder, name);
            &&& join_path(folder, with_extension(folder_name(folder), ext)) == join_path(
                folder,
                with_extension(name, ext),
            )
            &&& folder_name(join_path(restore_folder, folder_name(folder))) == name
        }),
{
    let name = folder_name(input_folder);
    lemma_file_name_plain(input_folder);
    lemma_file_name_join(output_folder, name);
    lemma_file_name_join(restore_folder, name);
}

/// `name.ext` is a plain name when `name` is one and `ext` has no separator.
pub proof fn lemma_extension_plain(name: Seq<char>, ext: Seq<char>)
    requires
        is_plain_name(name),
        forall|i: int| 0 <= i < ext.len() ==> ext[i] != '/',
    ensures
        is_plain_name(with_extension(name, ext)),
{
    let n = with_extension(name, ext);
    assert forall|i: int| 0 <= i < n.len() implies #[trigger] n[i] != '/' by {
        if i < name.len() {
            assert(n[i] == name[i]);
        } else if i > name.len() {
            assert(n[i] == ext[i - name.len() - 1]);
        }
    }
    assert(n.len() >= 2);
    if n == seq!['.', '.'] {
        assert(name.len() == 1);
        assert(n[0] == name[0]);
        assert(name =~= seq!['.']);
    }
}

/// The archive of a backup is its folder joined with its own file name, and that
/// folder is the archive's parent: the archive's path is in normal form.
pub proof fn lemma_backup_archive_normal(input_folder: Seq<char>, output_folder: Seq<char>, ext: Seq<char>)
    requires
        path_file_name(input_folder) is Some,
        forall|i: int| 0 <= i < ext.len() ==> ext[i] != '/',
    ensures
        ({
            let name = folder_name(input_folder);
            let folder = join_path(output_folder, name);
            let archive = join_path(folder, with_extension(name, ext));
            &&& path_parent(archive) == Some(folder)
            &&& path_file_name(archive) == Some(with_extension(name, ext))
        }),
{
    let name = folder_name(input_folder);
    let folder = join_path(output_folder, name);
    lemma_file_name_plain(input_folder);
    lemma_extension_plain(name, ext);
    lemma_file_name_join(folder, with_extension(name, ext));
    lemma_parent_join(folder, with_extension(name, ext));
    lemma_trim_trailing_sep(output_folder, name);
}

/// The name of a part of an archive with a plain name is plain.
pub proof fn lemma_part_name_plain(name: Seq<char>, n: nat)
    requires
        is_plain_name(name),
    ensures
        is_plain_name(name + part_suffix(n)),
{
    let m = name + part_suffix(n);
    crate::text::lemma_decimal_digits(n);
    assert forall|i: int| 0 <= i < m.len() implies #[trigger] m[i] != '/' by {
        if i < name.len() {
            assert(m[i] == name[i]);
        } else if i >= name.len() + 5 {
            assert(m[i] == decimal(n)[i - name.len() - 5]);
        }
    }
    assert(m.len() >= 3);
}

/// For an archive in normal form (its parent joined with its file name), every part
/// is the parent joined with the part's own file name: the names a split records
/// lead back to the files it wrote.
pub proof fn lemma_part_rejoins(archive: Seq<char>, n: nat)
    requires
        path_parent(archive) is Some,
        path_file_name(archive) is Some,
        archive == join_path(path_parent(archive)->0, path_file_name(archive)->0),
    ensures
        path_file_name(part_path_spec(archive, n)) == Some(path_file_name(archive)->0 + part_suffix(n)),
        join_path(path_parent(archive)->0, path_file_name(archive)->0 + part_suffix(n))
            == part_path_spec(archive, n),
{
    let dir = path_parent(archive)->0;
    let name = path_file_name(archive)->0;
    lemma_file_name_plain(archive);
    lemma_part_name_plain(name, n);
    assert(part_path_spec(archive, n) =~= join_path(dir, name + part_suffix(n)));
    lemma_file_name_join(dir, name + part_suffix(n));
}

/// The opened copy of the sealed copy of `folder/name` lands back at `folder/name`.
pub proof fn lemma_decrypted_path_returns(folder: Seq<char>, name: Seq<char>)
    requires
        is_plain_name(name),
    ensures
        path_file_stem(encrypted_path_spec(join_path(folder, name))) == Some(name),
        decrypted_path_spec(encrypted_path_spec(join_path(folder, name)), folder) == join_path(
            folder,
            name,
        ),
{
    let ext = seq!['e', 'n', 'c'];
    let sealed = name + seq!['.'] + ext;
    assert(encrypted_path_spec(join_path(folder, name)) =~= join_path(folder, sealed));
    lemma_extension_plain(name, ext);
    lemma_file_name_join(folder, sealed);
    lemma_last_index_append(name + seq!['.'], ext, '.');
    assert((name + seq!['.']).last() == '.');
    assert(sealed.take(name.len() as int) =~= name);
}

} // verus!

verus! {

/// Every part of an archive has a final name.
pub proof fn lemma_part_has_name(archive: Seq<char>, n: nat)
    ensures
        path_file_name(part_path_spec(archive, n)) is Some,
{
    let s = part_path_spec(archive, n);
    crate::text::lemma_decimal_digits(n);
    let d = decimal(n);
    assert(s.last() == d.last());
    assert(d.last() == d[d.len() - 1]);
    assert('0' <= s.last() <= '9');
    assert(!ends_in_noise(s));
    crate::paths::lemma_trim_clean(s, body_start(s));
    let k = last_index_of(s, '/');
    crate::paths::lemma_last_index(s, '/');
    let seg = s.subrange(k + 1, s.len() as int);
    if seg == seq!['.', '.'] {
        assert(seg[seg.len() - 1] == s.last());
    }
}

/// For an archive in normal form, the folder of a split joined with the name it
/// records for each part gives that part's path.
pub proof fn lemma_reassembly_reads_parts(archive: Seq<char>, count: nat)
    requires
        path_parent(archive) is Some,
        path_file_name(archive) is Some,
        archive == join_path(path_parent(archive)->0, path_file_name(archive)->0),
    ensures
        forall|i: nat|
            1 <= i <= count ==> join_path(
                path_parent(archive)->0,
                #[trigger] path_file_name(part_path_spec(archive, i))->0,
            ) == part_path_spec(archive, i),
{
    assert forall|i: nat| 1 <= i <= count implies join_path(
        path_parent(archive)->0,
        #[trigger] path_file_name(part_path_spec(archive, i))->0,
    ) == part_path_spec(archive, i) by {
        lemma_part_rejoins(archive, i);
    }
}

} // verus!

verus! {

/// Different parts of an archive go to different files.
pub proof fn lemma_part_paths_distinct(archive: Seq<char>, i: nat, j: nat)
    requires
        i != j,
    ensures
        part_path_spec(archive, i) != part_path_spec(archive, j),
{
    if part_path_spec(archive, i) == part_path_spec(archive, j) {
        let n = archive.len() + 5;
        assert(part_path_spec(archive, i).skip(n as int) =~= decimal(i));
        assert(part_path_spec(archive, j).skip(n as int) =~= decimal(j));
        crate::text::lemma_decimal_injective(i, j);
    }
}

} // verus!

verus! {

/// The record of a backup named `name` is the file `name.json`: its final
/// component is the whole name followed by `.json`.
pub proof fn lemma_record_file_name(info_folder: Seq<char>, name: Seq<char>)
    requires
        is_plain_name(name),
    ensures
        path_file_name(record_path_spec(info_folder, name)) == Some(
            name + seq!['.', 'j', 's', 'o', 'n'],
        ),
{
    let ext = seq!['j', 's', 'o', 'n'];
    lemma_extension_plain(name, ext);
    assert(name + seq!['.', 'j', 's', 'o', 'n'] =~= with_extension(name, ext));
    lemma_file_name_join(info_folder, with_extension(name, ext));
}

/// Different backups keep different records: two names with the same record path
/// in the same record folder are the same name.
pub proof fn lemma_record_paths_distinct(info_folder: Seq<char>, n1: Seq<char>, n2: Seq<char>)
    requires
        record_path_spec(info_folder, n1) == record_path_spec(info_folder, n2),
    ensures
        n1 == n2,
{
    let a = record_path_spec(info_folder, n1);
    let b = record_path_spec(info_folder, n2);
    let k = info_folder.len() + 1;
    assert(a.len() == b.len());
    assert(n1.len() == n2.len());
    assert forall|i: int| 0 <= i < n1.len() implies n1[i] == n2[i] by {
        assert(a[k + i] == n1[i]);
        assert(b[k + i] == n2[i]);
    }
    assert(n1 =~= n2);
}

/// Different input folders with different final names give different backup
/// folders under the same output folder: a name is never cut or merged.
pub proof fn lemma_backup_folders_distinct(output_folder: Seq<char>, in1: Seq<char>, in2: Seq<char>)
    requires
        path_file_name(in1) is Some,
        path_file_name(in2) is Some,
        path_file_name(in1) != path_file_name(in2),
    ensures
        join_path(output_folder, folder_name(in1)) != join_path(output_folder, folder_name(in2)),
{
    lemma_file_name_plain(in1);
    lemma_file_name_plain(in2);
    lemma_file_name_join(output_folder, folder_name(in1));
    lemma_file_name_join(output_folder, folder_name(in2));
}

} // verus!
