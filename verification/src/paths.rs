//! A plain-string model of `/`-separated file paths: final component
//! (basename), parent directory, extension, and joining. The query engine
//! matches and sorts on the basename; the sidecar and copy/move helpers
//! build paths with it.

use vstd::prelude::*;
use vstd::string::{StrSliceExecFns, StringExecFns};

verus! {

/// Index of the last occurrence of `c`, if any.
pub open spec fn last_index_of(p: Seq<char>, c: char) -> Option<int>
    decreases p.len(),
{
    if p.len() == 0 {
        None
    } else if p.last() == c {
        Some(p.len() - 1)
    } else {
        last_index_of(p.drop_last(), c)
    }
}

proof fn lemma_last_index_at(p: Seq<char>, c: char, k: int)
    requires
        0 <= k < p.len(),
        p[k] == c,
        forall|t: int| k < t < p.len() ==> p[t] != c,
    ensures
        last_index_of(p, c) == Some(k),
    decreases p.len(),
{
    if k < p.len() - 1 {
        lemma_last_index_at(p.drop_last(), c, k);
    }
}

proof fn lemma_last_index_none(p: Seq<char>, c: char)
    requires
        forall|t: int| 0 <= t < p.len() ==> p[t] != c,
    ensures
        last_index_of(p, c) is None,
    decreases p.len(),
{
    if p.len() > 0 {
        lemma_last_index_none(p.drop_last(), c);
    }
}

/// Finds the last occurrence of `c` in `p`.
pub fn rfind_char(p: &str, c: char) -> (r: Option<usize>)
    ensures
        match r {
            None => last_index_of(p@, c) is None,
            Some(j) => j < p@.len() && last_index_of(p@, c) == Some(j as int),
        },
{
    let len: usize = p.unicode_len();
    let mut j: usize = len;
    while j > 0
        invariant
            j <= len,
            len == p@.len(),
            forall|t: int| j <= t < len ==> p@[t] != c,
        decreases j,
    {
        let ch: char = p.get_char(j - 1);
        if ch == c {
            proof {
                lemma_last_index_at(p@, c, j - 1);
            }
            return Some(j - 1);
        }
        j = j - 1;
    }
    proof {
        lemma_last_index_none(p@, c);
    }
    None
}

/// The final component of a path: everything after the last `/`, or the
/// whole path when it has no `/`.
pub open spec fn basename_of(p: Seq<char>) -> Seq<char> {
    match last_index_of(p, '/') {
        None => p,
        Some(i) => p.skip(i + 1),
    }
}

/// Returns the final component of `path` as an owned string.
pub fn file_name_component(path: &str) -> (r: String)
    ensures
        r@ == basename_of(path@),
{
    let len: usize = path.unicode_len();
    match rfind_char(path, '/') {
        None => path.to_owned(),
        Some(i) => {
            let sub: &str = path.substring_char(i + 1, len);
            proof {
                assert(path@.subrange(i + 1, len as int) =~= path@.skip(i + 1));
            }
            sub.to_owned()
        },
    }
}

/// The extension of a path: what follows the last `.` of its final
/// component, unless that `.` is the component's first character (a hidden
/// file has no extension).
pub open spec fn extension_of(p: Seq<char>) -> Option<Seq<char>> {
    let b = basename_of(p);
    match last_index_of(b, '.') {
        None => None,
        Some(i) => if i == 0 {
            None
        } else {
            Some(b.skip(i + 1))
        },
    }
}

/// Returns the extension of `path`, if it has one.
pub fn extension_component(path: &str) -> (r: Option<String>)
    ensures
        match r {
            None => extension_of(path@) is None,
            Some(e) => extension_of(path@) == Some(e@),
        },
{
    let name: String = file_name_component(path);
    let len: usize = name.as_str().unicode_len();
    match rfind_char(name.as_str(), '.') {
        None => None,
        Some(i) => {
            if i == 0 {
                None
            } else {
                let sub: &str = name.as_str().substring_char(i + 1, len);
                proof {
                    assert(name@.subrange(i + 1, len as int) =~= name@.skip(i + 1));
                }
                Some(sub.to_owned())
            }
        },
    }
}

/// The parent directory of a path, `None` when it has no parent (the empty
/// path and the root `/`). A path with no separator has the empty parent.
pub open spec fn parent_of(p: Seq<char>) -> Option<Seq<char>> {
    if p.len() == 0 {
        None
    } else {
        match last_index_of(p, '/') {
            None => Some(Seq::<char>::empty()),
            Some(i) => if i == 0 && p.len() == 1 {
                None
            } else if i == 0 {
                Some(seq!['/'])
            } else {
                Some(p.take(i))
            },
        }
    }
}

/// Returns the parent directory of `file_path`, or an error when the path
/// has none.
pub fn get_parent_directory(file_path: &str) -> (r: Result<String, String>)
    ensures
        match parent_of(file_path@) {
            None => r is Err && r->Err_0@ == "File has no parent directory"@,
            Some(par) => r is Ok && r->Ok_0@ == par,
        },
{
    let len: usize = file_path.unicode_len();
    if len == 0 {
        return Err(String::from_str("File has no parent directory"));
    }
    match rfind_char(file_path, '/') {
        None => Ok(String::new()),
        Some(i) => {
            if i == 0 && len == 1 {
                Err(String::from_str("File has no parent directory"))
            } else if i == 0 {
                let r = String::from_str("/");
                proof {
                    reveal_strlit("/");
                    assert(r@ =~= seq!['/']);
                }
                Ok(r)
            } else {
                let sub: &str = file_path.substring_char(0, i);
                proof {
                    assert(file_path@.subrange(0, i as int) =~= file_path@.take(i as int));
                }
                Ok(sub.to_owned())
            }
        },
    }
}

/// Joining a directory and a name: an absolute name stands alone; otherwise
/// a `/` goes between them unless the directory is empty or already ends
/// with one.
pub open spec fn join_path(dir: Seq<char>, name: Seq<char>) -> Seq<char> {
    if name.len() > 0 && name[0] == '/' {
        name
    } else if dir.len() == 0 {
        name
    } else if dir.last() == '/' {
        dir + name
    } else {
        dir + seq!['/'] + name
    }
}

/// Joins a directory path and a file name.
pub fn join_path_str(dir: &str, name: &str) -> (r: String)
    ensures
        r@ == join_path(dir@, name@),
{
    let nlen: usize = name.unicode_len();
    if nlen > 0 && name.get_char(0) == '/' {
        return name.to_owned();
    }
    let dlen: usize = dir.unicode_len();
    if dlen == 0 {
        return name.to_owned();
    }
    if dir.get_char(dlen - 1) == '/' {
        return String::from_str(dir).concat(name);
    }
    let r = String::from_str(dir).concat("/").concat(name);
    proof {
        reveal_strlit("/");
        assert("/"@ =~= seq!['/']);
        assert(r@ =~= dir@ + seq!['/'] + name@);
    }
    r
}

/// Path of the category-assignment sidecar file inside `directory`: the
/// given `filename`, or the default hidden name when none is given.
pub fn get_hito_file_path(directory: &str, filename: Option<&str>) -> (r: String)
    ensures
        r@ == join_path(
            directory@,
            match filename {
                None => ".hito.json"@,
                Some(f) => f@,
            },
        ),
{
    match filename {
        None => join_path_str(directory, ".hito.json"),
        Some(f) => join_path_str(directory, f),
    }
}

/// Destination of a copy or move: the source's file name joined onto the
/// destination directory; an error when the source path ends in a separator
/// and so names no file.
pub fn destination_path(image_path: &str, destination_dir: &str) -> (r: Result<String, String>)
    ensures
        basename_of(image_path@).len() == 0 ==> r is Err && r->Err_0@ == "Failed to get filename from: "@
            + image_path@,
        basename_of(image_path@).len() > 0 ==> r is Ok && r->Ok_0@ == join_path(
            destination_dir@,
            basename_of(image_path@),
        ),
{
    let name: String = file_name_component(image_path);
    if name.as_str().unicode_len() == 0 {
        Err(String::from_str("Failed to get filename from: ").concat(image_path))
    } else {
        Ok(join_path_str(destination_dir, name.as_str()))
    }
}

} // verus!
