//! Options of the Debian target and its sources.list entry format.

use vstd::prelude::*;

verus! {

/// How sources.list entries are written.
#[derive(Clone, Debug)]
pub struct SourceListEntriesOpts {
    /// Entry types, such as "deb" or "deb-src".
    pub types: Vec<String>,
    /// Options modifying how data is acquired.
    pub options: Vec<String>,
    /// Suite names, such as "stable" or a codename.
    pub suites: Vec<String>,
    /// Archive components, such as "main".
    pub components: Vec<String>,
}

/// Options of the Debian mirror list.
#[derive(Clone, Debug)]
pub struct DebianTarget {
    /// How emitted entries are written.
    pub source_list_opts: SourceListEntriesOpts,
    /// Max acceptable delay since the last sync, seconds.
    pub max_delay: i64,
    /// Path joined to a mirror URL for speed testing.
    pub path_to_test: String,
    /// Fetch-mirror-list timeout, milliseconds.
    pub fetch_mirrors_timeout: u64,
    /// Comment prefix used when formatting output.
    pub comment_prefix: String,
}

} // verus!
