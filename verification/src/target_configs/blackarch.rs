//! Options of the BlackArch target.

use vstd::prelude::*;

verus! {

/// Options of the BlackArch mirror list.
#[derive(Clone, Debug)]
pub struct BlackArchTarget {
    /// Fetch-mirror-list timeout, milliseconds.
    pub fetch_mirrors_timeout: u64,
    /// Repository base path, also used for the freshness database.
    pub base_path: String,
    /// Architecture, or "auto" to emit the placeholder.
    pub arch: String,
    /// Comment prefix used when formatting output.
    pub comment_prefix: String,
}

} // verus!
