//! Filtering raw mirror-status records.
//!
//! An earlier revision of the Arch status pipeline: records arrive with
//! their protocol as text and are filtered against an explicit list of
//! allowed scheme names.

use vstd::prelude::*;

use crate::strutil::str_eq;

verus! {

/// One record of a fetched mirror-status document, held as plain values:
/// the completion ratio in permille, the score in millionths.
#[derive(Clone, Debug)]
pub struct MirrorData {
    /// URL scheme of the mirror, as text.
    pub protocol: String,
    /// Base URL.
    pub url: String,
    /// Mirror-status score, millionths; lower is better.
    pub score_micros: Option<u64>,
    /// Seconds since the last sync.
    pub delay: Option<u64>,
    /// Whether the mirror is marked active.
    pub active: bool,
    /// Two-letter country tag.
    pub country_code: String,
    /// Sync completion, permille.
    pub completion_permille: Option<u64>,
}

/// Whether some string of `v` reads `x`.
pub open spec fn spec_in_names(v: Seq<String>, x: Seq<char>) -> bool {
    exists|i: int| 0 <= i < v.len() && (#[trigger] v[i])@ == x
}

/// Whether a record survives filtering: a known completion at or above
/// the threshold, a known delay within the maximum, a scheme among the
/// allowed names, and a country tag.
pub open spec fn spec_mirror_data_keep(
    m: MirrorData,
    completion_permille: u64,
    max_delay: u64,
    allowed: Seq<String>,
) -> bool {
    &&& m.completion_permille is Some && m.completion_permille->0 >= completion_permille
    &&& m.delay is Some && m.delay->0 <= max_delay
    &&& spec_in_names(allowed, m.protocol@)
    &&& m.country_code@.len() > 0
}

/// The kept records of a list, in order.
pub open spec fn spec_mirror_data_filter(
    ms: Seq<MirrorData>,
    completion_permille: u64,
    max_delay: u64,
    allowed: Seq<String>,
) -> Seq<MirrorData>
    decreases ms.len(),
{
    if ms.len() == 0 {
        Seq::empty()
    } else {
        let rest = spec_mirror_data_filter(ms.drop_last(), completion_permille, max_delay, allowed);
        if spec_mirror_data_keep(ms.last(), completion_permille, max_delay, allowed) {
            rest.push(ms.last())
        } else {
            rest
        }
    }
}

/// A field-wise copy of a record, equal to the original as a value.
pub fn clone_mirror_data(m: &MirrorData) -> (r: MirrorData)
    ensures
        r == *m,
{
    MirrorData {
        protocol: m.protocol.clone(),
        url: m.url.clone(),
        score_micros: m.score_micros,
        delay: m.delay,
        active: m.active,
        country_code: m.country_code.clone(),
        completion_permille: m.completion_permille,
    }
}

/// Keeps exactly the records whose sync state meets the thresholds and
/// whose scheme is among the allowed names, in order.
pub fn filter_mirror_data(
    records: Vec<MirrorData>,
    completion_permille: u64,
    max_delay: u64,
    allowed: &Vec<String>,
) -> (r: Vec<MirrorData>)
    ensures
        r@ == spec_mirror_data_filter(records@, completion_permille, max_delay, allowed@),
{
    let n = records.len();
    let mut out: Vec<MirrorData> = Vec::new();
    let mut i: usize = 0;
    while i < n
        invariant
            n == records@.len(),
            0 <= i <= n,
            out@ == spec_mirror_data_filter(
                records@.subrange(0, i as int),
                completion_permille,
                max_delay,
                allowed@,
            ),
        decreases n - i,
    {
        proof {
            assert(records@.subrange(0, i + 1).drop_last() =~= records@.subrange(0, i as int));
            assert(records@.subrange(0, i + 1).last() == records@[i as int]);
        }
        let m = &records[i];
        let completion_ok: bool = match m.completion_permille {
            Some(c) => c >= completion_permille,
            None => false,
        };
        let delay_ok: bool = match m.delay {
            Some(d) => d <= max_delay,
            None => false,
        };
        let an = allowed.len();
        let mut proto_ok: bool = false;
        let mut j: usize = 0;
        while j < an && !proto_ok
            invariant
                an == allowed@.len(),
                0 <= j <= an,
                0 <= i < n == records@.len(),
                proto_ok ==> spec_in_names(allowed@, records@[i as int].protocol@),
                !proto_ok ==> forall|k: int|
                    0 <= k < j ==> (#[trigger] allowed@[k])@ != records@[i as int].protocol@,
            decreases an - j + (if proto_ok { 0int } else { 1int }),
        {
            if str_eq(allowed[j].as_str(), records[i].protocol.as_str()) {
                proto_ok = true;
            } else {
                j += 1;
            }
        }
        if completion_ok && delay_ok && proto_ok
            && records[i].country_code.as_str().unicode_len() > 0 {
            let c = clone_mirror_data(&records[i]);
            out.push(c);
        }
        i += 1;
    }
    proof {
        assert(records@.subrange(0, n as int) =~= records@);
    }
    out
}

} // verus!
