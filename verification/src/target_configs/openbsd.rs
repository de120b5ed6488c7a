//! Options of the OpenBSD target.

use vstd::prelude::*;

verus! {

/// Options of the OpenBSD mirror list.
#[derive(Clone, Debug)]
pub struct OpenBSDTarget {
    /// Path joined to a mirror URL for speed testing.
    pub path_to_test: String,
    /// Fetch-mirror-list timeout, milliseconds.
    pub fetch_mirrors_timeout: u64,
    /// Comment prefix used when formatting output.
    pub comment_prefix: String,
}

} // verus!
