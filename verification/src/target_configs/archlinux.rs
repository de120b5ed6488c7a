//! Options of the Arch Linux target.

use vstd::prelude::*;

use crate::strutil::str_eq;

verus! {

/// How the fetched Arch mirror list is pre-ordered before testing.
#[derive(Clone, Copy, Debug, PartialEq, Eq, Structural)]
pub enum ArchMirrorsSortingStrategy {
    DelayAsc,
    DelayDesc,
    Random,
    ScoreAsc,
    ScoreDesc,
}

impl ArchMirrorsSortingStrategy {
    /// Parses the command-line names of the strategies.
    pub fn from_str(strategy: &str) -> (r: Result<ArchMirrorsSortingStrategy, &'static str>)
        ensures
            strategy@ == "delay_asc"@ ==> r == Result::<ArchMirrorsSortingStrategy, &'static str>::Ok(
                ArchMirrorsSortingStrategy::DelayAsc,
            ),
            strategy@ == "delay_desc"@ ==> r == Result::<
                ArchMirrorsSortingStrategy,
                &'static str,
            >::Ok(ArchMirrorsSortingStrategy::DelayDesc),
            strategy@ == "random"@ ==> r == Result::<ArchMirrorsSortingStrategy, &'static str>::Ok(
                ArchMirrorsSortingStrategy::Random,
            ),
            strategy@ == "score_asc"@ ==> r == Result::<ArchMirrorsSortingStrategy, &'static str>::Ok(
                ArchMirrorsSortingStrategy::ScoreAsc,
            ),
            strategy@ == "score_desc"@ ==> r == Result::<
                ArchMirrorsSortingStrategy,
                &'static str,
            >::Ok(ArchMirrorsSortingStrategy::ScoreDesc),
    {
        proof {
            reveal_strlit("delay_asc");
            reveal_strlit("delay_desc");
            reveal_strlit("random");
            reveal_strlit("score_asc");
            reveal_strlit("score_desc");
            assert(("delay_asc"@).len() == 9);
            assert(("delay_desc"@).len() == 10);
            assert(("random"@).len() == 6);
            assert(("score_asc"@).len() == 9);
            assert(("score_desc"@).len() == 10);
            assert(("score_asc"@)[0] == 's' && ("delay_asc"@)[0] == 'd');
            assert(("score_desc"@)[0] == 's' && ("delay_desc"@)[0] == 'd');
            assert("score_asc"@ != "delay_asc"@);
            assert("score_desc"@ != "delay_desc"@);
        }
        if str_eq(strategy, "delay_asc") {
            Ok(ArchMirrorsSortingStrategy::DelayAsc)
        } else if str_eq(strategy, "delay_desc") {
            Ok(ArchMirrorsSortingStrategy::DelayDesc)
        } else if str_eq(strategy, "random") {
            Ok(ArchMirrorsSortingStrategy::Random)
        } else if str_eq(strategy, "score_asc") {
            Ok(ArchMirrorsSortingStrategy::ScoreAsc)
        } else if str_eq(strategy, "score_desc") {
            Ok(ArchMirrorsSortingStrategy::ScoreDesc)
        } else {
            Err("could not parse strategy")
        }
    }
}

/// Options of the Arch Linux mirror list.  The sync-completion threshold
/// is carried in permille (1000 stands for a fully synced mirror).
#[derive(Clone, Debug)]
pub struct ArchTarget {
    /// Minimum mirror sync completion, permille.
    pub completion_permille: u64,
    /// Max acceptable delay since the last sync, seconds.
    pub max_delay: i64,
    /// Pre-ordering of the fetched list.
    pub sort_mirrors_by: ArchMirrorsSortingStrategy,
    /// Path joined to a mirror URL for speed testing.
    pub path_to_test: String,
    /// Fetch-mirror-list timeout, milliseconds.
    pub fetch_mirrors_timeout: u64,
    /// Whether to fetch only first-tier mirrors.
    pub fetch_first_tier_only: bool,
    /// Comment prefix used when formatting output.
    pub comment_prefix: String,
}

} // verus!
