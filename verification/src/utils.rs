use vstd::prelude::*;

verus! {

/// Relies on std's `Path::exists`: whether the path points at something
/// that exists on disk. The answer depends on the machine's file system,
/// so nothing is promised of it.
#[verifier::external_body]
pub fn file_exists(file_path: &str) -> bool {
    std::path::Path::new(file_path).exists()
}

} // verus!
