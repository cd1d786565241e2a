//! The parts of a path that the standard library tells apart.

use vstd::prelude::*;

verus! {

/// `std::path::Path::file_stem` on `path`, as text: the file's name without
/// its last extension, if the path has a file name. Nothing is claimed of
/// the result, which depends on what the platform takes for a separator.
#[verifier::external_body]
pub(crate) fn file_stem(path: &str) -> (stem: Option<String>) {
    std::path::Path::new(path).file_stem().and_then(|stem| stem.to_str()).map(|stem| stem.to_owned())
}

/// `std::path::Path::extension` on `path`, as text: what follows the last
/// dot of the file's name, if there is one inside the name. Nothing is claimed
/// of the result, which depends on what the platform takes for a separator.
#[verifier::external_body]
pub(crate) fn file_extension(path: &str) -> (extension: Option<String>) {
    std::path::Path::new(path).extension().and_then(|ext| ext.to_str()).map(|ext| ext.to_owned())
}

} // verus!
