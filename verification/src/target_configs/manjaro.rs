//! Options of the Manjaro target.

use vstd::prelude::*;

use crate::strutil::str_eq;

verus! {

/// The Manjaro branch a mirror must provide.
#[derive(Clone, Copy, Debug, PartialEq, Eq, Structural)]
pub enum ManjaroBranch {
    Stable,
    Testing,
    Unstable,
}

impl ManjaroBranch {
    /// Parses the command-line names of the branches.
    pub fn from_str(s: &str) -> (r: Result<ManjaroBranch, &'static str>)
        ensures
            s@ == "stable"@ ==> r == Result::<ManjaroBranch, &'static str>::Ok(
                ManjaroBranch::Stable,
            ),
            s@ == "testing"@ ==> r == Result::<ManjaroBranch, &'static str>::Ok(
                ManjaroBranch::Testing,
            ),
            s@ == "unstable"@ ==> r == Result::<ManjaroBranch, &'static str>::Ok(
                ManjaroBranch::Unstable,
            ),
            s@ != "stable"@ && s@ != "testing"@ && s@ != "unstable"@ ==> r is Err,
    {
        proof {
            reveal_strlit("stable");
            reveal_strlit("testing");
            reveal_strlit("unstable");
            assert(("stable"@).len() == 6);
            assert(("testing"@).len() == 7);
            assert(("unstable"@).len() == 8);
        }
        if str_eq(s, "stable") {
            Ok(ManjaroBranch::Stable)
        } else if str_eq(s, "testing") {
            Ok(ManjaroBranch::Testing)
        } else if str_eq(s, "unstable") {
            Ok(ManjaroBranch::Unstable)
        } else {
            Err("could not parse branch")
        }
    }

    /// The lowercase name of the branch, as written in mirror URLs.
    pub fn as_text(&self) -> (r: String)
        ensures
            *self == ManjaroBranch::Stable ==> r@ == "stable"@,
            *self == ManjaroBranch::Testing ==> r@ == "testing"@,
            *self == ManjaroBranch::Unstable ==> r@ == "unstable"@,
    {
        match self {
            ManjaroBranch::Stable => String::from_str("stable"),
            ManjaroBranch::Testing => String::from_str("testing"),
            ManjaroBranch::Unstable => String::from_str("unstable"),
        }
    }
}

/// Options of the Manjaro mirror list.
#[derive(Clone, Debug)]
pub struct ManjaroTarget {
    /// Fetch-mirror-list timeout, milliseconds.
    pub fetch_mirrors_timeout: u64,
    /// Max acceptable delay since the last sync, seconds.
    pub max_delay: i64,
    /// Path joined to a mirror URL for speed testing.
    pub path_to_test: String,
    /// Comment prefix used when formatting output.
    pub comment_prefix: String,
    /// Branch a mirror must provide.
    pub branch: ManjaroBranch,
}

} // verus!
