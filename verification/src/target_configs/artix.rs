//! Options of the Artix target.

use vstd::prelude::*;

verus! {

/// Options of the Artix mirror list.
#[derive(Clone, Debug)]
pub struct ArtixTarget {
    /// Base path to repository resources.
    pub base_path: String,
    /// Fetch-mirror-list timeout, milliseconds.
    pub fetch_mirrors_timeout: u64,
    /// Comment prefix used when formatting output.
    pub comment_prefix: String,
}

} // verus!
