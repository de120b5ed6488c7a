//! Options of the Arch Linux CN target.

use vstd::prelude::*;

verus! {

/// Options of the Arch Linux CN mirror list.
#[derive(Clone, Debug)]
pub struct ArchCNTarget {
    /// Fetch-mirror-list timeout, milliseconds.
    pub fetch_mirrors_timeout: u64,
    /// Repository base path, also used for the freshness database.
    pub base_path: String,
    /// Architecture, or "auto" to emit the placeholder.
    pub arch: String,
    /// Comment prefix used when formatting output.
    pub comment_prefix: String,
}

} // verus!
