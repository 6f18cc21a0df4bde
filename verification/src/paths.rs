//! Path operations used to look for project files.

use vstd::prelude::*;

verus! {

/// What `Path::parent` gives for a path: the path without its final
/// component, or `None` when it ends in a root or prefix or is empty.
pub uninterp spec fn spec_path_parent(p: Seq<char>) -> Option<Seq<char>>;

/// What `Path::join` gives for a base path and a relative path.
pub uninterp spec fn spec_path_join(base: Seq<char>, rel: Seq<char>) -> Seq<char>;

/// The parent directory of a path (`Path::parent`). The parent is the path
/// without its final component, hence shorter; nothing else about it is
/// stated beyond its name.
#[verifier::external_body]
pub(crate) fn path_parent(p: &str) -> (r: Option<String>)
    ensures
        match r {
            Some(q) => spec_path_parent(p@) == Some(q@) && q@.len() < p@.len(),
            None => spec_path_parent(p@) is None,
        },
{
    std::path::Path::new(p).parent().map(|q| q.to_string_lossy().into_owned())
}

/// A path with a relative path appended (`Path::join`).
#[verifier::external_body]
pub(crate) fn path_join(base: &str, rel: &str) -> (r: String)
    ensures
        r@ == spec_path_join(base@, rel@),
{
    std::path::Path::new(base).join(rel).to_string_lossy().into_owned()
}

/// Whether two strings name the same path, as `PathBuf`'s `==` compares them
/// (component by component).
pub uninterp spec fn spec_same_path(a: Seq<char>, b: Seq<char>) -> bool;

/// What `Path::file_name` gives for a path: its final component, unless the
/// path ends in `..` or is a root.
pub uninterp spec fn spec_path_file_name(p: Seq<char>) -> Option<Seq<char>>;

/// Two strings name the same path: equal strings always do; otherwise
/// `PathBuf`'s component-wise comparison decides.
pub open spec fn is_same_path(a: Seq<char>, b: Seq<char>) -> bool {
    a == b || spec_same_path(a, b)
}

/// `PathBuf::eq` on the two paths. Equal strings give equal paths, hence
/// `true`; otherwise the result is named by the two strings.
#[verifier::external_body]
pub(crate) fn same_path(a: &str, b: &str) -> (r: bool)
    ensures
        r == (a@ == b@ || spec_same_path(a@, b@)),
{
    std::path::PathBuf::from(a) == std::path::PathBuf::from(b)
}

/// The final component of a path (`Path::file_name`). Its result is named
/// by the path.
#[verifier::external_body]
pub(crate) fn path_file_name(p: &str) -> (r: Option<String>)
    ensures
        match r {
            Some(n) => spec_path_file_name(p@) == Some(n@),
            None => spec_path_file_name(p@) is None,
        },
{
    std::path::Path::new(p).file_name().map(|n| n.to_string_lossy().into_owned())
}

} // verus!
