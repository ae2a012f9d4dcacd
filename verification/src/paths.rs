//! The parts of a file path, as the standard library's path rules split it.
//!
//! Path syntax belongs to the platform the program is built for (separators,
//! drive prefixes), so each answer is a function of the path text for a
//! given build. The answers are named, not spelled out.

use std::path::Path;

use vstd::prelude::*;

use crate::item::opt_view;

verus! {

/// The file name of a path, as `Path::file_name` gives it.
pub uninterp spec fn file_name_of(path: Seq<char>) -> Option<Seq<char>>;

/// The file stem of a path, as `Path::file_stem` gives it.
pub uninterp spec fn file_stem_of(path: Seq<char>) -> Option<Seq<char>>;

/// The extension of a path, as `Path::extension` gives it.
pub uninterp spec fn extension_of(path: Seq<char>) -> Option<Seq<char>>;

/// The parent of a path, as `Path::parent` gives it.
pub uninterp spec fn parent_of(path: Seq<char>) -> Option<Seq<char>>;

/// The components of a path, as `Path::components` yields them. Two paths
/// are equal as paths exactly when their components are.
pub uninterp spec fn components_of(path: Seq<char>) -> Seq<Seq<char>>;

/// `Path::file_name`, as text. The result is named by `file_name_of`.
#[verifier::external_body]
pub(crate) fn file_name(path: &str) -> (r: Option<String>)
    ensures
        opt_view(r) == file_name_of(path@),
{
    Path::new(path).file_name().map(|v| v.to_string_lossy().into_owned())
}

/// `Path::file_stem`, as text. The result is named by `file_stem_of`.
#[verifier::external_body]
pub(crate) fn file_stem(path: &str) -> (r: Option<String>)
    ensures
        opt_view(r) == file_stem_of(path@),
{
    Path::new(path).file_stem().map(|v| v.to_string_lossy().into_owned())
}

/// `Path::extension`, as text. The result is named by `extension_of`.
#[verifier::external_body]
pub(crate) fn extension(path: &str) -> (r: Option<String>)
    ensures
        opt_view(r) == extension_of(path@),
{
    Path::new(path).extension().map(|v| v.to_string_lossy().into_owned())
}

/// `Path::parent`, as text. The result is named by `parent_of`.
#[verifier::external_body]
pub(crate) fn parent(path: &str) -> (r: Option<String>)
    ensures
        opt_view(r) == parent_of(path@),
{
    Path::new(path).parent().map(|v| v.to_string_lossy().into_owned())
}

/// `Path::components`, each as text. The result is named by
/// `components_of`.
#[verifier::external_body]
pub(crate) fn components(path: &str) -> (r: Vec<String>)
    ensures
        r@.map_values(|c: String| c@) == components_of(path@),
{
    Path::new(path).components().map(|c| c.as_os_str().to_string_lossy().into_owned()).collect()
}

} // verus!
