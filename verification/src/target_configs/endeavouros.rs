//! Options of the EndeavourOS target.

use vstd::prelude::*;

verus! {

/// Options of the EndeavourOS mirror list.
#[derive(Clone, Debug)]
pub struct EndeavourOSTarget {
    /// Fetch-mirror-list timeout, milliseconds.
    pub fetch_mirrors_timeout: u64,
    /// Per-mirror version fetch timeout, milliseconds.
    pub version_mirror_timeout: u64,
    /// Concurrent version fetches.
    pub version_mirror_concurrency: usize,
    /// URL or path of the EndeavourOS mirror list file.
    pub mirror_list_file: String,
    /// Path joined to a mirror URL for speed testing.
    pub path_to_test: String,
    /// Comment prefix used when formatting output.
    pub comment_prefix: String,
}

} // verus!
