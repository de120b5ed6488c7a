//! Options of the RebornOS target.

use vstd::prelude::*;

verus! {

/// Options of the RebornOS mirror list.
#[derive(Clone, Debug)]
pub struct RebornOSTarget {
    /// Fetch-mirror-list timeout, milliseconds.
    pub fetch_mirrors_timeout: u64,
    /// Path joined to a mirror URL for speed testing.
    pub path_to_test: String,
    /// Comment prefix used when formatting output.
    pub comment_prefix: String,
}

} // verus!
