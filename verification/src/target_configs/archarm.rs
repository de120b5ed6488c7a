//! Options of the Arch Linux ARM target.

use vstd::prelude::*;

verus! {

/// Options of the Arch Linux ARM mirror list.
#[derive(Clone, Debug)]
pub struct ArcharmTarget {
    /// Fetch-mirror-list timeout, milliseconds.
    pub fetch_mirrors_timeout: u64,
    /// Path joined to a mirror URL for speed testing.
    pub path_to_test: String,
    /// Architecture, or "auto" to emit the placeholder.
    pub arch: String,
    /// Comment prefix used when formatting output.
    pub comment_prefix: String,
}

} // verus!
