//! File-system paths, held as their (UTF-8) text. What a path operation gives
//! is std's `Path`/`PathBuf` behaviour, called through the items below.

use vstd::prelude::*;

verus! {

/// The final component of the path `p`, when it is a normal component (`Path::file_name`).
pub uninterp spec fn path_file_name(p: Seq<char>) -> Option<Seq<char>>;

/// `Path::file_name` of the path with text `p`, as text.
#[verifier::external_body]
pub(crate) fn file_name_of(p: &str) -> (r: Option<String>)
    ensures
        match r {
            Some(n) => path_file_name(p@) == Some(n@),
            None => path_file_name(p@) is None,
        },
{
    std::path::Path::new(p).file_name().map(|n| n.to_string_lossy().into_owned())
}

/// The path `p` after `PathBuf::pop`: its parent, or `p` itself when it has none.
pub uninterp spec fn path_popped(p: Seq<char>) -> Seq<char>;

/// `PathBuf::pop` on the path with text `p`; returns the resulting text.
#[verifier::external_body]
pub(crate) fn popped(p: &str) -> (r: String)
    ensures
        r@ == path_popped(p@),
{
    let mut b = std::path::PathBuf::from(p);
    b.pop();
    b.to_string_lossy().into_owned()
}

/// The path `base` with `name` pushed onto it (`Path::join` / `PathBuf::push`).
pub uninterp spec fn path_joined(base: Seq<char>, name: Seq<char>) -> Seq<char>;

/// `Path::join(base, name)` as text.
#[verifier::external_body]
pub(crate) fn join_path(base: &str, name: &str) -> (r: String)
    ensures
        r@ == path_joined(base@, name@),
{
    std::path::Path::new(base).join(name).to_string_lossy().into_owned()
}

} // verus!
