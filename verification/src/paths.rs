//! Path arithmetic on `/`-separated paths, as the backup layout needs it.
//!
//! The model follows the component rules of Unix paths: repeated separators
//! count as one, a `.` segment names nothing (except a leading `.`, which
//! names the current directory), and trailing separators are ignored.
use vstd::prelude::*;

use crate::text::chars_of;

verus! {

/// Length of the leading part of a path that clean-up never removes:
/// the root `/`, or a leading `.` naming the current directory.
pub open spec fn body_start(s: Seq<char>) -> int {
    if s.len() > 0 && s[0] == '/' {
        1
    } else if s.len() > 0 && s[0] == '.' && (s.len() == 1 || s[1] == '/') {
        1
    } else {
        0
    }
}

/// `s` ends with a separator, or with a `.` segment.
pub open spec fn ends_in_noise(s: Seq<char>) -> bool {
    &&& s.len() > 0
    &&& (s.last() == '/' || (s.last() == '.' && (s.len() == 1 || s[s.len() - 2] == '/')))
}

/// Drops trailing separators and `.` segments, but never the first `b` characters.
pub open spec fn trim_from(s: Seq<char>, b: int) -> Seq<char>
    decreases s.len(),
{
    if s.len() > b && ends_in_noise(s) {
        trim_from(s.drop_last(), b)
    } else {
        s
    }
}

/// The path without its trailing separators and `.` segments.
pub open spec fn trimmed(s: Seq<char>) -> Seq<char> {
    trim_from(s, body_start(s))
}

/// Index of the last occurrence of `c` in `s`, or -1.
pub open spec fn last_index_of(s: Seq<char>, c: char) -> int
    decreases s.len(),
{
    if s.len() == 0 {
        -1
    } else if s.last() == c {
        s.len() - 1
    } else {
        last_index_of(s.drop_last(), c)
    }
}

/// The final component of a path, when it is a normal name
/// (`None` for an empty path, the root, the current directory, or a final `..`).
pub open spec fn path_file_name(s: Seq<char>) -> Option<Seq<char>> {
    let t = trimmed(s);
    if t.len() <= body_start(s) {
        None
    } else {
        let seg = t.subrange(last_index_of(t, '/') + 1, t.len() as int);
        if seg == seq!['.', '.'] {
            None
        } else {
            Some(seg)
        }
    }
}

/// The path without its final component (`None` for an empty path and for the root;
/// the empty path for a lone `.`).
pub open spec fn path_parent(s: Seq<char>) -> Option<Seq<char>> {
    let t = trimmed(s);
    if t.len() <= body_start(s) {
        if t == seq!['.'] {
            Some(Seq::empty())
        } else {
            None
        }
    } else {
        Some(trimmed(t.take(last_index_of(t, '/') + 1)))
    }
}

/// A file name without its extension: the part before the last `.`, unless that
/// `.` is the first character or there is none, in which case the whole name.
pub open spec fn name_stem(n: Seq<char>) -> Seq<char> {
    let d = last_index_of(n, '.');
    if d <= 0 {
        n
    } else {
        n.take(d)
    }
}

/// The file name of a path without its extension.
pub open spec fn path_file_stem(s: Seq<char>) -> Option<Seq<char>> {
    match path_file_name(s) {
        Some(n) => Some(name_stem(n)),
        None => None,
    }
}

/// The file name of a path, or the empty string when it has none.
pub open spec fn folder_name(s: Seq<char>) -> Seq<char> {
    match path_file_name(s) {
        Some(n) => n,
        None => Seq::empty(),
    }
}

fn body_start_of(cs: &Vec<char>, len: usize) -> (b: usize)
    requires
        len <= cs.len(),
    ensures
        b == body_start(cs@.take(len as int)),
        b <= 1,
{
    if len > 0 && cs[0] == '/' {
        1
    } else if len > 0 && cs[0] == '.' && (len == 1 || cs[1] == '/') {
        1
    } else {
        0
    }
}

fn ends_in_noise_at(cs: &Vec<char>, len: usize) -> (r: bool)
    requires
        len <= cs.len(),
    ensures
        r == ends_in_noise(cs@.take(len as int)),
{
    len > 0 && (cs[len - 1] == '/' || (cs[len - 1] == '.' && (len == 1 || cs[len - 2] == '/')))
}

/// Length of `trimmed` on the prefix of length `len`.
fn trimmed_len(cs: &Vec<char>, len: usize) -> (n: usize)
    requires
        len <= cs.len(),
    ensures
        n <= len,
        cs@.take(n as int) == trimmed(cs@.take(len as int)),
{
    let b = body_start_of(cs, len);
    let ghost s = cs@.take(len as int);
    let mut n = len;
    assert(cs@.take(n as int) =~= s);
    while n > b && ends_in_noise_at(cs, n)
        invariant
            n <= len <= cs.len(),
            b == body_start(s),
            s == cs@.take(len as int),
            trim_from(cs@.take(n as int), b as int) == trim_from(s, b as int),
        decreases n,
    {
        assert(cs@.take(n as int).drop_last() =~= cs@.take(n - 1));
        n = n - 1;
    }
    n
}

/// Index of the last `c` in the prefix of length `len`.
fn last_index(cs: &Vec<char>, len: usize, c: char) -> (r: Option<usize>)
    requires
        len <= cs.len(),
    ensures
        match r {
            Some(i) => i < len && last_index_of(cs@.take(len as int), c) == i,
            None => last_index_of(cs@.take(len as int), c) == -1,
        },
{
    let mut k = len;
    while k > 0
        invariant
            k <= len <= cs.len(),
            last_index_of(cs@.take(len as int), c) == last_index_of(cs@.take(k as int), c),
        decreases k,
    {
        if cs[k - 1] == c {
            return Some(k - 1);
        }
        assert(cs@.take(k as int).drop_last() =~= cs@.take(k - 1));
        k = k - 1;
    }
    None
}

/// The final component of `path`, as `std::path::Path::file_name` gives it on Unix.
pub fn file_name(path: &str) -> (r: Option<String>)
    ensures
        match r {
            Some(n) => path_file_name(path@) == Some(n@),
            None => path_file_name(path@) is None,
        },
{
    let cs = chars_of(path);
    let len = cs.len();
    assert(cs@.take(len as int) =~= cs@);
    let b = body_start_of(&cs, len);
    let n = trimmed_len(&cs, len);
    if n <= b {
        return None;
    }
    let start = match last_index(&cs, n, '/') {
        Some(i) => i + 1,
        None => 0,
    };
    let ghost t = cs@.take(n as int);
    assert(t.subrange(start as int, n as int) =~= cs@.subrange(start as int, n as int));
    if n - start == 2 && cs[start] == '.' && cs[start + 1] == '.' {
        assert(cs@.subrange(start as int, n as int) =~= seq!['.', '.']);
        return None;
    }
    assert(cs@.subrange(start as int, n as int) != seq!['.', '.']) by {
        if cs@.subrange(start as int, n as int) == seq!['.', '.'] {
            assert(cs@.subrange(start as int, n as int)[0] == cs@[start as int]);
            assert(cs@.subrange(start as int, n as int)[1] == cs@[start + 1]);
        }
    }
    Some(path.substring_char(start, n).to_owned())
}

/// The path without its final component, as `std::path::Path::parent` gives it on Unix.
pub fn parent(path: &str) -> (r: Option<String>)
    ensures
        match r {
            Some(p) => path_parent(path@) == Some(p@),
            None => path_parent(path@) is None,
        },
{
    let cs = chars_of(path);
    let len = cs.len();
    assert(cs@.take(len as int) =~= cs@);
    let b = body_start_of(&cs, len);
    let n = trimmed_len(&cs, len);
    if n <= b {
        if n == 1 && cs[0] == '.' {
            assert(cs@.take(1) =~= seq!['.']);
            return Some(String::new());
        }
        assert(cs@.take(n as int) != seq!['.']) by {
            if cs@.take(n as int) == seq!['.'] {
                assert(cs@.take(n as int)[0] == cs@[0]);
            }
        }
        return None;
    }
    let k = match last_index(&cs, n, '/') {
        Some(i) => i + 1,
        None => 0,
    };
    assert(cs@.take(n as int).take(k as int) =~= cs@.take(k as int));
    let m = trimmed_len(&cs, k);
    assert(path@.subrange(0, m as int) =~= cs@.take(m as int));
    Some(path.substring_char(0, m).to_owned())
}

/// The file name of `path` without its extension, as `std::path::Path::file_stem` gives it.
pub fn file_stem(path: &str) -> (r: Option<String>)
    ensures
        match r {
            Some(n) => path_file_stem(path@) == Some(n@),
            None => path_file_stem(path@) is None,
        },
{
    match file_name(path) {
        None => None,
        Some(name) => {
            let ncs = chars_of(name.as_str());
            let len = ncs.len();
            assert(ncs@.take(len as int) =~= ncs@);
            match last_index(&ncs, len, '.') {
                None => Some(name),
                Some(d) => {
                    if d == 0 {
                        Some(name)
                    } else {
                        let stem = name.as_str().substring_char(0, d).to_owned();
                        assert(name@.subrange(0, d as int) =~= name@.take(d as int));
                        Some(stem)
                    }
                },
            }
        },
    }
}

/// The file name of `path`, or the empty string when it has none.
pub fn last_folder_name(path: &str) -> (r: String)
    ensures
        r@ == folder_name(path@),
        path_file_name(path@) matches Some(n) ==> r@ == n,
        path_file_name(path@) is None ==> r@.len() == 0,
{
    match file_name(path) {
        Some(n) => n,
        None => String::new(),
    }
}

} // verus!

verus! {

/// A name that a path can end in: non-empty, without a separator, and neither `.` nor `..`.
pub open spec fn is_plain_name(n: Seq<char>) -> bool {
    &&& n.len() > 0
    &&& forall|i: int| 0 <= i < n.len() ==> #[trigger] n[i] != '/'
    &&& n != seq!['.']
    &&& n != seq!['.', '.']
}

/// `dir/name`.
pub open spec fn join_path(dir: Seq<char>, name: Seq<char>) -> Seq<char> {
    dir + seq!['/'] + name
}

/// What `last_index_of` finds.
pub proof fn lemma_last_index(s: Seq<char>, c: char)
    ensures
        -1 <= last_index_of(s, c) < s.len(),
        last_index_of(s, c) >= 0 ==> s[last_index_of(s, c)] == c,
        forall|j: int| last_index_of(s, c) < j < s.len() ==> s[j] != c,
    decreases s.len(),
{
    if s.len() > 0 && s.last() != c {
        lemma_last_index(s.drop_last(), c);
        assert forall|j: int| last_index_of(s, c) < j < s.len() implies s[j] != c by {
            if j < s.len() - 1 {
                assert(s[j] == s.drop_last()[j]);
            }
        }
    }
}

/// Appending characters other than `c` does not move the last `c`.
pub proof fn lemma_last_index_append(x: Seq<char>, y: Seq<char>, c: char)
    requires
        forall|i: int| 0 <= i < y.len() ==> y[i] != c,
    ensures
        last_index_of(x + y, c) == last_index_of(x, c),
    decreases y.len(),
{
    if y.len() == 0 {
        assert(x + y =~= x);
    } else {
        assert((x + y).drop_last() =~= x + y.drop_last());
        assert((x + y).last() == y.last());
        lemma_last_index_append(x, y.drop_last(), c);
    }
}

/// What trimming leaves: a prefix that is either within the protected start or
/// does not end in a separator or a `.` segment.
pub proof fn lemma_trim_from(s: Seq<char>, b: int)
    ensures
        trim_from(s, b).len() <= s.len(),
        trim_from(s, b) == s.take(trim_from(s, b).len() as int),
        trim_from(s, b).len() <= b || !ends_in_noise(trim_from(s, b)),
        s.len() <= b ==> trim_from(s, b) == s,
        trim_from(s, b).len() >= s.len() || trim_from(s, b).len() >= b,
    decreases s.len(),
{
    if s.len() > b && ends_in_noise(s) {
        lemma_trim_from(s.drop_last(), b);
        let t = trim_from(s.drop_last(), b);
        assert(s.drop_last().take(t.len() as int) =~= s.take(t.len() as int));
    } else {
        assert(s.take(s.len() as int) =~= s);
    }
}

/// A path that does not end in a separator or a `.` segment is its own trim.
pub proof fn lemma_trim_clean(s: Seq<char>, b: int)
    requires
        !ends_in_noise(s),
    ensures
        trim_from(s, b) == s,
{
}

/// The final component of `dir/name` is `name`, for a plain name.
pub proof fn lemma_file_name_join(dir: Seq<char>, name: Seq<char>)
    requires
        is_plain_name(name),
    ensures
        path_file_name(join_path(dir, name)) == Some(name),
        trimmed(join_path(dir, name)) == join_path(dir, name),
        last_index_of(join_path(dir, name), '/') == dir.len(),
{
    let s = join_path(dir, name);
    assert(s.last() == name.last());
    if name.len() == 1 {
        assert(name.last() == name[0]);
        if name[0] == '.' {
            assert(name =~= seq!['.']);
        }
    } else {
        assert(s[s.len() - 2] == name[name.len() - 2]);
    }
    assert(!ends_in_noise(s));
    lemma_trim_clean(s, body_start(s));
    assert(forall|i: int| 0 <= i < name.len() ==> name[i] != '/');
    lemma_last_index_append(dir + seq!['/'], name, '/');
    assert(last_index_of(dir + seq!['/'], '/') == dir.len()) by {
        assert((dir + seq!['/']).last() == '/');
    }
    assert(s.subrange(dir.len() as int + 1, s.len() as int) =~= name);
}

/// The final component of a path, when there is one, is a plain name.
pub proof fn lemma_file_name_plain(s: Seq<char>)
    requires
        path_file_name(s) is Some,
    ensures
        is_plain_name(path_file_name(s)->0),
{
    let b = body_start(s);
    let t = trimmed(s);
    lemma_trim_from(s, b);
    let k = last_index_of(t, '/');
    lemma_last_index(t, '/');
    let seg = t.subrange(k + 1, t.len() as int);
    assert(!ends_in_noise(t));
    assert(t.last() != '/');
    assert(k < t.len() - 1);
    assert(seg.len() > 0);
    assert forall|i: int| 0 <= i < seg.len() implies #[trigger] seg[i] != '/' by {
        assert(seg[i] == t[k + 1 + i]);
    }
    if seg == seq!['.'] {
        assert(seg[0] == t[k + 1]);
        assert(t.len() == k + 2);
        assert(t.last() == '.');
        if k >= 0 {
            assert(t[t.len() - 2] == '/');
        }
        assert(ends_in_noise(t));
    }
}

/// The parent of `dir/name`, for a plain name, is `dir/` trimmed.
pub proof fn lemma_parent_join(dir: Seq<char>, name: Seq<char>)
    requires
        is_plain_name(name),
    ensures
        path_parent(join_path(dir, name)) == Some(trimmed(dir + seq!['/'])),
{
    let s = join_path(dir, name);
    lemma_file_name_join(dir, name);
    assert(s.take(dir.len() as int + 1) =~= dir + seq!['/']);
}

/// `dir/name/` trims to `dir/name`, for a plain name.
pub proof fn lemma_trim_trailing_sep(dir: Seq<char>, name: Seq<char>)
    requires
        is_plain_name(name),
    ensures
        trimmed(join_path(dir, name) + seq!['/']) == join_path(dir, name),
{
    let s = join_path(dir, name);
    let x = s + seq!['/'];
    lemma_file_name_join(dir, name);
    assert(x.drop_last() =~= s);
    assert(body_start(x) == body_start(s)) by {
        assert(x[0] == s[0]);
        assert(x[1] == s[1]);
    }
    assert(ends_in_noise(x));
    assert(x.len() > body_start(x));
    assert(trim_from(x, body_start(x)) == trim_from(s, body_start(x)));
    assert(s.last() == name.last());
    if name.len() == 1 {
        assert(name.last() == name[0]);
        if name[0] == '.' {
            assert(name =~= seq!['.']);
        }
    } else {
        assert(s[s.len() - 2] == name[name.len() - 2]);
    }
    assert(!ends_in_noise(s));
}

} // verus!

verus! {

/// The name a backup uses is the final component of the folder itself, whole:
/// for any folder with a final name, `folder_name` is that name, and a folder
/// without one gives the empty name.
pub proof fn lemma_folder_name_is_file_name(s: Seq<char>)
    ensures
        path_file_name(s) matches Some(n) ==> folder_name(s) == n,
        path_file_name(s) is None ==> folder_name(s).len() == 0,
{
}

/// The name of `dir/name` is `name`, for every directory and every plain name:
/// the name is neither cut nor changed.
pub proof fn lemma_folder_name_of_join(dir: Seq<char>, name: Seq<char>)
    requires
        is_plain_name(name),
    ensures
        folder_name(join_path(dir, name)) == name,
        folder_name(join_path(dir, name)).len() == name.len(),
{
    lemma_file_name_join(dir, name);
}

} // verus!
