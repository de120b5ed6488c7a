//! Options of the stdin target.

use vstd::prelude::*;

verus! {

/// Options of the stdin mirror list.
#[derive(Clone, Debug)]
pub struct StdinTarget {
    /// Path joined to a mirror URL for speed testing.
    pub path_to_test: String,
    /// Path joined to a mirror URL before returning results.
    pub path_to_return: String,
    /// Comment prefix used when printing debug info.
    pub comment_prefix: String,
    /// Output prefix used when printing results.
    pub output_prefix: String,
    /// Input separator used when parsing the mirror list.
    pub input_separator: String,
}

} // verus!
