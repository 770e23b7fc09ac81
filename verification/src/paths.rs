//! File paths, held as text, and the parts of `std::path` that read them.
use vstd::prelude::*;

verus! {

/// The last component of path `p`, as `Path::file_name` finds it.
pub uninterp spec fn path_file_name(p: Seq<char>) -> Option<Seq<char>>;

/// Path `p` after `PathBuf::set_extension(ext)`.
pub uninterp spec fn path_set_extension(p: Seq<char>, ext: Seq<char>) -> Seq<char>;

/// The position of the last `c` in `s`, or -1 where there is none.
pub open spec fn last_index_of(s: Seq<char>, c: char) -> int
    decreases s.len(),
{
    if s.len() == 0 {
        -1
    } else if s.last() == c {
        s.len() - 1
    } else {
        last_index_of(s.drop_last(), c)
    }
}

/// The extension of a file name: none without an embedded `.`, none for a
/// name that begins with `.` and has no other `.`, else the part after the
/// final `.`.
pub open spec fn name_extension(name: Seq<char>) -> Option<Seq<char>> {
    let k = last_index_of(name, '.');
    if k <= 0 {
        None
    } else {
        Some(name.skip(k + 1))
    }
}

/// The extension of path `p`, as `Path::extension` defines it: that of its
/// file name, and none where it has no file name.
pub open spec fn path_extension(p: Seq<char>) -> Option<Seq<char>> {
    match path_file_name(p) {
        Some(n) => name_extension(n),
        None => None,
    }
}

/// Calls `Path::extension` on `p`. Claims what its documentation defines
/// (`path_extension`, over the file name), and that an extension, being part
/// of the final component, holds no separator `/`.
#[verifier::external_body]
pub(crate) fn extension_of(p: &str) -> (r: Option<String>)
    ensures
        match r {
            Some(e) => path_extension(p@) == Some(e@) && !e@.contains('/'),
            None => path_extension(p@) is None,
        },
{
    std::path::Path::new(p).extension().map(|e| e.to_string_lossy().into_owned())
}

/// Calls `Path::file_name` on `p`: the final component, named
/// `path_file_name`, which holds no separator `/`.
#[verifier::external_body]
pub(crate) fn file_name_of(p: &str) -> (r: Option<String>)
    ensures
        match r {
            Some(e) => path_file_name(p@) == Some(e@) && !e@.contains('/'),
            None => path_file_name(p@) is None,
        },
{
    std::path::Path::new(p).file_name().map(|e| e.to_string_lossy().into_owned())
}

/// Calls `PathBuf::set_extension(ext)` on a copy of `p` and returns the path;
/// nothing is claimed of the result beyond its name `path_set_extension`.
/// The call panics on an extension that holds a path separator; on the Unix
/// targets this library is built for, the only separator is `/`.
#[verifier::external_body]
pub(crate) fn set_extension(p: &str, ext: &str) -> (r: String)
    requires
        !ext@.contains('/'),
    ensures
        r@ == path_set_extension(p@, ext@),
{
    let mut b = std::path::PathBuf::from(p);
    b.set_extension(ext);
    b.to_string_lossy().into_owned()
}

} // verus!
