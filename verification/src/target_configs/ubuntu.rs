//! Options of the Ubuntu target.

use vstd::prelude::*;

use crate::target_configs::debian::SourceListEntriesOpts;

verus! {

/// Options of the Ubuntu mirror list.
#[derive(Clone, Debug)]
pub struct UbuntuTarget {
    /// How emitted entries are written.
    pub source_list_opts: SourceListEntriesOpts,
    /// Max acceptable delay since the last sync, seconds.
    pub max_delay: u64,
    /// Path joined to a mirror URL for speed testing.
    pub path_to_test: String,
    /// Fetch-mirror-list timeout, milliseconds.
    pub fetch_mirrors_timeout: u64,
    /// Comment prefix used when formatting output.
    pub comment_prefix: String,
}

} // verus!
