//! Trusted file-system probes.
//!
//! What is on disk can differ between any two calls, so none of these
//! promises anything about its result; verified callers handle every
//! outcome.
use vstd::prelude::*;

verus! {

/// Relies on std::path::Path::is_file: whether the path names an existing
/// regular file.
#[verifier::external_body]
pub(crate) fn fs_is_file(path: &str) -> bool {
    std::path::Path::new(path).is_file()
}

/// Relies on std::path::Path::is_dir: whether the path names an existing
/// directory.
#[verifier::external_body]
pub(crate) fn fs_is_dir(path: &str) -> bool {
    std::path::Path::new(path).is_dir()
}

/// Relies on std::path::Path::canonicalize: the absolute form of the path
/// with symbolic links resolved, when the path exists and resolves to
/// readable text.
#[verifier::external_body]
pub(crate) fn fs_canonicalize(path: &str) -> Option<String> {
    let p = std::path::Path::new(path).canonicalize().ok()?;
    p.to_str().map(|s| s.to_string())
}

} // verus!
