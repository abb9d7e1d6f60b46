//! Filesystem paths, held as strings; comparisons follow `std::path` semantics.
use vstd::prelude::*;

verus! {

/// Whether two path strings denote the same `std::path::Path` (component-wise equality).
pub uninterp spec fn same_path(a: Seq<char>, b: Seq<char>) -> bool;

/// Compares two paths with `<Path as PartialEq>::eq`, which compares components,
/// so `a/b` and `a//b/` are equal. Trusted: the result is the `same_path` relation,
/// and identical strings are equal paths.
#[verifier::external_body]
pub(crate) fn paths_equal(a: &str, b: &str) -> (r: bool)
    ensures
        r == same_path(a@, b@),
        a@ == b@ ==> r,
{
    std::path::Path::new(a) == std::path::Path::new(b)
}

} // verus!

verus! {

/// `Path::parent`: the path without its last component, if it has one.
pub uninterp spec fn parent_of(p: Seq<char>) -> Option<Seq<char>>;

/// Calls `Path::parent`. Trusted: the result is `parent_of` of the path.
#[verifier::external_body]
pub(crate) fn path_parent(p: &str) -> (r: Option<String>)
    ensures
        match r {
            Some(s) => parent_of(p@) == Some(s@),
            None => parent_of(p@) is None,
        },
{
    std::path::Path::new(p).parent().map(|q| q.to_string_lossy().into_owned())
}

/// Two paths have the same parent (both have none, or both parents are equal paths).
pub open spec fn same_parent(a: Seq<char>, b: Seq<char>) -> bool {
    match (parent_of(a), parent_of(b)) {
        (Some(x), Some(y)) => same_path(x, y),
        (None, None) => true,
        _ => false,
    }
}

/// Whether two paths have the same parent directory.
pub fn parents_equal(a: &str, b: &str) -> (r: bool)
    ensures
        r == same_parent(a@, b@),
{
    match (path_parent(a), path_parent(b)) {
        (Some(x), Some(y)) => paths_equal(x.as_str(), y.as_str()),
        (None, None) => true,
        _ => false,
    }
}

} // verus!

verus! {

/// `Path::strip_prefix`: the rest of `p` after the leading components of `base`,
/// if `base` is a prefix of `p` component-wise.
pub uninterp spec fn stripped(p: Seq<char>, base: Seq<char>) -> Option<Seq<char>>;

/// Calls `Path::strip_prefix`. Trusted: the result is `stripped(p, base)`.
#[verifier::external_body]
pub(crate) fn path_strip_prefix(p: &str, base: &str) -> (r: Option<String>)
    ensures
        match r {
            Some(s) => stripped(p@, base@) == Some(s@),
            None => stripped(p@, base@) is None,
        },
{
    std::path::Path::new(p).strip_prefix(base).ok().map(|q| q.to_string_lossy().into_owned())
}

/// A path shown relative to `base` when it lies under it, and as it is otherwise.
pub open spec fn relative_display(p: Seq<char>, base: Seq<char>) -> Seq<char> {
    match stripped(p, base) {
        Some(r) => r,
        None => p,
    }
}

pub fn relative_path(p: &str, base: &str) -> (r: String)
    ensures
        r@ == relative_display(p@, base@),
{
    match path_strip_prefix(p, base) {
        Some(r) => r,
        None => String::from_str(p),
    }
}

/// `Path::extension`: the part of the file name after its last dot, if any.
pub uninterp spec fn extension_of(p: Seq<char>) -> Option<Seq<char>>;

/// Calls `Path::extension`. Trusted: the result is `extension_of(p)`.
#[verifier::external_body]
pub(crate) fn path_extension(p: &str) -> (r: Option<String>)
    ensures
        match r {
            Some(s) => extension_of(p@) == Some(s@),
            None => extension_of(p@) is None,
        },
{
    std::path::Path::new(p).extension().map(|e| e.to_string_lossy().into_owned())
}

/// `Path::file_stem`: the file name without its extension, if there is a file name.
pub uninterp spec fn file_stem_of(p: Seq<char>) -> Option<Seq<char>>;

/// Calls `Path::file_stem`. Trusted: the result is `file_stem_of(p)`.
#[verifier::external_body]
pub(crate) fn path_file_stem(p: &str) -> (r: Option<String>)
    ensures
        match r {
            Some(s) => file_stem_of(p@) == Some(s@),
            None => file_stem_of(p@) is None,
        },
{
    std::path::Path::new(p).file_stem().map(|e| e.to_string_lossy().into_owned())
}

/// `<Path as Ord>::lt`: component-wise ordering of paths.
pub uninterp spec fn path_lt(a: Seq<char>, b: Seq<char>) -> bool;

/// Calls `<Path as PartialOrd>::lt`. Trusted: the result is `path_lt(a, b)`; a path is
/// never below itself, and two paths are not below each other.
#[verifier::external_body]
pub(crate) fn path_less(a: &str, b: &str) -> (r: bool)
    ensures
        r == path_lt(a@, b@),
        r ==> !path_lt(b@, a@),
        a@ == b@ ==> !r,
{
    std::path::Path::new(a) < std::path::Path::new(b)
}

/// `Path::components`: the components of a path, each as text.
pub uninterp spec fn components_of(p: Seq<char>) -> Seq<Seq<char>>;

/// Calls `Path::components`. Trusted: the components, each as text, are
/// `components_of(p)`.
#[verifier::external_body]
pub(crate) fn path_components(p: &str) -> (r: Vec<String>)
    ensures
        r@.map_values(|s: String| s@) == components_of(p@),
{
    std::path::Path::new(p).components().map(|c| c.as_os_str().to_string_lossy().into_owned()).collect()
}

} // verus!
