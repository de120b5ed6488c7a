//! Options of the ArcoLinux target.

use vstd::prelude::*;

verus! {

/// Options of the ArcoLinux mirror list.
#[derive(Clone, Debug)]
pub struct ArcoLinuxTarget {
    /// Path joined to a mirror URL for speed testing.
    pub path_to_test: String,
    /// Path joined to a gitlab-based mirror URL for speed testing.
    pub gitlab_path_to_test: String,
    /// Fetch-mirror-list timeout, milliseconds.
    pub fetch_mirrors_timeout: u64,
    /// Comment prefix used when formatting output.
    pub comment_prefix: String,
}

} // verus!
