//! The final decision of a run: ranked results, the untested fallback, or
//! an error.

use vstd::prelude::*;

use crate::config::AppError;
use crate::mirror::Mirror;
use crate::speed_test::SpeedTestResult;

verus! {

/// What a run delivers to its caller.
pub enum RunOutcome {
    /// The ranked results, at least one.
    Ranked(Vec<SpeedTestResult>),
    /// No probe succeeded; the untested candidates, unranked, at least one.
    Untested(Vec<Mirror>),
}

/// Decides what a finished run delivers.  An empty candidate list is the
/// terminal no-mirrors error; an empty result list falls back to the
/// untested candidates unless that fallback is disabled, in which case the
/// run failed.
pub fn run_outcome(
    results: Vec<SpeedTestResult>,
    untested: Vec<Mirror>,
    disable_untested_fallback: bool,
) -> (r: Result<RunOutcome, AppError>)
    ensures
        results@.len() > 0 ==> (r matches Ok(RunOutcome::Ranked(v)) && v@ == results@),
        results@.len() == 0 && untested@.len() == 0 ==> (r matches Err(e)
            && e is NoMirrorsAfterFiltering),
        results@.len() == 0 && untested@.len() > 0 && !disable_untested_fallback ==> (r matches Ok(
            RunOutcome::Untested(v),
        ) && v@ == untested@),
        results@.len() == 0 && untested@.len() > 0 && disable_untested_fallback ==> (r matches Err(
            e,
        ) && e is SpeedTestsFailed),
{
    if results.len() > 0 {
        Ok(RunOutcome::Ranked(results))
    } else if untested.len() == 0 {
        Err(AppError::NoMirrorsAfterFiltering)
    } else if disable_untested_fallback {
        Err(AppError::SpeedTestsFailed)
    } else {
        Ok(RunOutcome::Untested(untested))
    }
}

} // verus!
