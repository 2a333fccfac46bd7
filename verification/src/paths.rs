//! Path operations of `std::path`, on paths held as strings.
//!
//! The library holds file paths as `String`s. Where it compares, joins or takes
//! apart paths, it does so with `std::path::Path`, whose semantics (comparison by
//! components, stripping whole components) these items name.
use vstd::prelude::*;

verus! {

/// Whether `Path::new(a) == Path::new(b)`: equality of the paths' components.
pub uninterp spec fn spec_path_eq(a: Seq<char>, b: Seq<char>) -> bool;

/// `Path::strip_prefix`: `p` relative to `base`, when `base` is a leading run of
/// whole components of `p`.
pub uninterp spec fn spec_path_strip_prefix(p: Seq<char>, base: Seq<char>) -> Option<Seq<char>>;

/// `Path::file_name`: the final component of `p` when it is a normal one.
pub uninterp spec fn spec_path_file_name(p: Seq<char>) -> Option<Seq<char>>;

/// Compares two paths with `Path`'s `==` (`PartialEq for Path`), which compares
/// them component by component. The contract names the result and states only
/// that two equal strings are equal paths (`Path` is `Eq`, so `==` is reflexive).
#[verifier::external_body]
pub(crate) fn paths_equal(a: &str, b: &str) -> (r: bool)
    ensures
        r == spec_path_eq(a@, b@),
        a@ == b@ ==> r,
{
    std::path::Path::new(a) == std::path::Path::new(b)
}

/// Calls `Path::strip_prefix(base)` on `p` and turns the remainder back into a
/// string. The contract names the result as a function of `p` and `base`.
#[verifier::external_body]
pub(crate) fn path_strip_prefix(p: &str, base: &str) -> (r: Option<String>)
    ensures
        match r {
            Some(s) => spec_path_strip_prefix(p@, base@) == Some(s@),
            None => spec_path_strip_prefix(p@, base@) is None,
        },
{
    std::path::Path::new(p).strip_prefix(base).ok().map(|q| q.to_string_lossy().into_owned())
}

/// Calls `Path::file_name` on `p` and turns the name into a string. The contract
/// names the result as a function of `p`.
#[verifier::external_body]
pub(crate) fn path_file_name(p: &str) -> (r: Option<String>)
    ensures
        match r {
            Some(s) => spec_path_file_name(p@) == Some(s@),
            None => spec_path_file_name(p@) is None,
        },
{
    std::path::Path::new(p).file_name().map(|n| n.to_string_lossy().into_owned())
}

/// `Path::join`: `part` appended to `base` as a further component (or `part`
/// itself when it is absolute).
pub uninterp spec fn spec_path_join(base: Seq<char>, part: Seq<char>) -> Seq<char>;

/// Calls `Path::join` and turns the joined path back into a string. The contract
/// names the result as a function of `base` and `part`.
#[verifier::external_body]
pub(crate) fn path_join(base: &str, part: &str) -> (r: String)
    ensures
        r@ == spec_path_join(base@, part@),
{
    std::path::Path::new(base).join(part).to_string_lossy().into_owned()
}

} // verus!
