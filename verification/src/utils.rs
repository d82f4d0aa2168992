//! Pre-flight helpers around the engine.

use vstd::prelude::*;
use std::path::Path;

verus! {

/// Relies on `std::path::Path::try_exists`: `Some(true)` when the file
/// is known to exist, `Some(false)` when it is known to be absent,
/// `None` when existence could not be determined. The answer depends on
/// the file system, so nothing is promised of it.
#[verifier::external_body]
fn try_exists(file_name: &str) -> Option<bool> {
    match Path::new(file_name).try_exists() {
        Ok(exists) => Some(exists),
        Err(_) => None,
    }
}

/// Whether a file exists at `file_name`, for the pre-flight check
/// before a run. A path whose existence cannot be determined counts as
/// absent.
pub fn check_file_exists(file_name: &str) -> bool {
    match try_exists(file_name) {
        Some(exists) => exists,
        None => false,
    }
}

} // verus!
