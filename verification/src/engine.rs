//! The country-jump scheduler.
//!
//! The engine is a state machine: a driver asks it for the next batch of
//! mirrors to probe ([`Engine::next_batch`]), performs the network probes
//! outside the library, and hands the outcomes back
//! ([`Engine::record_batch`]).  Every decision — which countries to visit,
//! which neighbors to expand, when to stop early, how results are ordered —
//! is made here and verified.

use vstd::prelude::*;
use vstd::multiset::Multiset;

use crate::arith::{spec_pow9_root10, tenth_root_of_ninth_power};
use crate::config::Config;
use crate::countries::{Country, CountryGraph, LinkTo, LinkType, spec_upper};
use crate::mirror::Mirror;
use crate::order::{
    merge_results_desc, sort_pairs_desc, spec_keys_desc, spec_merge_desc, spec_sort_desc,
    spec_speeds_desc, lemma_sort_desc_ensures, lemma_merge_desc_ensures,
};
use crate::speed_test::SpeedTestResult;
use crate::strutil::str_eq;

verus! {

/// How an outgoing link is scored when picking neighbors.
#[derive(Clone, Copy, Debug, PartialEq, Eq, Structural)]
pub enum RateStrategy {
    /// Prefer destinations with strong infrastructure.
    HubsFirst,
    /// Prefer near destinations.
    DistanceFirst,
}

/// One advisory progress message of the engine.  Rendering to text is the
/// caller's business; no correctness condition depends on these.
#[derive(Clone, Debug)]
pub enum ProgressEvent {
    /// A jump begins (1-based number).
    Jump(u64),
    /// A country's outgoing links are being expanded.
    Exploring(String),
    /// A country's own mirrors are being sampled.
    Visited(String),
    /// A neighbor country was added by the given strategy.
    NeighborAdded(String, RateStrategy),
    /// The batch's best connection time belongs to an unexplored country.
    TopNeighborConnectionTime(String, u64),
    /// The batch's best connection time (no unexplored country found).
    TopConnectionTime(String, u64),
    /// The batch's best speed belongs to an unexplored country.
    TopNeighborSpeed(String, u64),
    /// The batch's best speed (no unexplored country found).
    TopSpeed(String, u64),
    /// A batch produced no results.
    BlankIteration,
    /// Recent best connection times kept getting worse.
    ConnectionTimesDegrading,
    /// Recent best speeds kept getting worse.
    SpeedsDegrading,
    /// The configured entry country is unknown; falling back to US.
    UnknownEntryCountry,
    /// Country jumping yielded too few results; untested mirrors join the
    /// unlabeled pool.
    TooFewResults(u64),
    /// The unlabeled pool is about to be probed.
    TestingUnlabeled,
    /// No results survived; nothing to re-test.
    NoResultsToRetest,
    /// The serial re-test of the top mirrors begins.
    RetestingTopMirrors,
}

/// Whether some string of `v` reads `x`.
pub open spec fn spec_in_codes(v: Seq<String>, x: Seq<char>) -> bool {
    exists|i: int| 0 <= i < v.len() && (#[trigger] v[i])@ == x
}

/// Membership of `x` in a list of strings.
pub fn contains_code(v: &Vec<String>, x: &str) -> (r: bool)
    ensures
        r == spec_in_codes(v@, x@),
{
    let n = v.len();
    let mut i: usize = 0;
    while i < n
        invariant
            n == v@.len(),
            0 <= i <= n,
            forall|j: int| 0 <= j < i ==> (#[trigger] v@[j])@ != x@,
        decreases n - i,
    {
        if str_eq(v[i].as_str(), x) {
            return true;
        }
        i += 1;
    }
    false
}

/// A field-wise copy of a mirror, equal to the original as a value.
pub fn clone_mirror(m: &Mirror) -> (r: Mirror)
    ensures
        r == *m,
{
    let country: Option<String> = match &m.country {
        Some(c) => Some(c.clone()),
        None => None,
    };
    let base_path: Option<String> = match &m.base_path {
        Some(p) => Some(p.clone()),
        None => None,
    };
    let r = Mirror {
        url: m.url.clone(),
        url_to_test: m.url_to_test.clone(),
        country,
        base_path,
    };
    proof {
        assert(r.url == m.url);
        assert(r.country == m.country);
        assert(r.base_path == m.base_path);
    }
    r
}

/// A field-wise copy of a result, equal to the original as a value.
pub fn clone_result(r: &SpeedTestResult) -> (c: SpeedTestResult)
    ensures
        c == *r,
{
    SpeedTestResult {
        bytes_downloaded: r.bytes_downloaded,
        elapsed_ms: r.elapsed_ms,
        speed: r.speed,
        connection_time_ms: r.connection_time_ms,
        item: clone_mirror(&r.item),
    }
}

/// The integer distance divisor of a link: the distance itself over the
/// sea, its ninth-power tenth root over land (the integer form of the 0.9
/// exponent, which softens the distance penalty of terrestrial links).
pub open spec fn spec_link_root(link: LinkTo) -> int {
    if link.link_type == LinkType::Submarine {
        link.distance as int
    } else {
        spec_pow9_root10(link.distance as int)
    }
}

/// The score of a link under a strategy, given the destination record and
/// its mirror count `m`: distance-first scales an inverse-distance score by
/// `m`; hubs-first scales the destination's infrastructure weight by `m`.
///
/// The inverse-distance score carries the inverse root at 2^16 precision
/// and then a 2^14-scaled distance tiebreaker, so that of two links of the
/// same kind the nearer one always scores strictly higher, even where the
/// integer roots tie ([`lemma_distance_first_strict`]).
pub open spec fn spec_rate(dest: Country, m: int, link: LinkTo, strategy: RateStrategy) -> int {
    match strategy {
        RateStrategy::DistanceFirst => ((983_040_000int / spec_link_root(link)) * 16384
            - link.distance) * m,
        RateStrategy::HubsFirst => (
        dest.cable_connections_number * 1000 + dest.internet_exchanges_number) * m,
    }
}

/// Number of mirrors held under `code`, zero when absent.
pub open spec fn spec_country_mirrors(by: Seq<(String, Vec<Mirror>)>, code: Seq<char>) -> int {
    if exists|i: int| 0 <= i < by.len() && (#[trigger] by[i]).0@ == code {
        let i = choose|i: int| 0 <= i < by.len() && (#[trigger] by[i]).0@ == code;
        by[i].1@.len() as int
    } else {
        0
    }
}

/// Finds the entry of `code`, if any.
fn find_country_entry(by: &Vec<(String, Vec<Mirror>)>, code: &str) -> (r: Option<usize>)
    ensures
        r is Some ==> 0 <= r->0 < by@.len() && by@[r->0 as int].0@ == code@,
        r is None ==> forall|i: int| 0 <= i < by@.len() ==> (#[trigger] by@[i]).0@ != code@,
{
    let n = by.len();
    let mut i: usize = 0;
    while i < n
        invariant
            n == by@.len(),
            0 <= i <= n,
            forall|j: int| 0 <= j < i ==> (#[trigger] by@[j]).0@ != code@,
        decreases n - i,
    {
        if str_eq(by[i].0.as_str(), code) {
            return Some(i);
        }
        i += 1;
    }
    None
}

/// Scores one outgoing link under a strategy, exactly as [`spec_rate`]
/// describes, against the destination's record and current mirror count.
pub fn rate_country_link(
    graph: &CountryGraph,
    by_country: &Vec<(String, Vec<Mirror>)>,
    link: &LinkTo,
    strategy: RateStrategy,
) -> (r: u64)
    requires
        graph.wf(),
        1 <= link.distance <= 16000,
        graph.spec_has_code(link.code@),
        forall|i: int, j: int|
            0 <= i < j < by_country@.len() ==> (#[trigger] by_country@[i]).0@ != (
            #[trigger] by_country@[j]).0@,
        forall|i: int| 0 <= i < by_country@.len() ==> (#[trigger] by_country@[i]).1@.len() <= 0x100000,
    ensures
        exists|i: int|
            0 <= i < graph.spec_countries().len() && (#[trigger] graph.spec_countries()[i]).code@
                == link.code@ && r == spec_rate(
                graph.spec_countries()[i],
                spec_country_mirrors(by_country@, link.code@),
                *link,
                strategy,
            ),
{
    let dest = match graph.lookup(link.code.as_str()) {
        Some(c) => c,
        None => {
            // unreachable: the graph is closed under links
            proof {
                let i = choose|i: int|
                    0 <= i < graph.spec_countries().len() && (
                    #[trigger] graph.spec_countries()[i]).code@ == link.code@;
                assert(graph.spec_countries()[i].code@ == spec_upper(
                    graph.spec_countries()[i].code@,
                ));
                assert(graph.spec_has_code(spec_upper(link.code@)));
            }
            return 0;
        },
    };
    let m: u64 = match find_country_entry(by_country, link.code.as_str()) {
        Some(i) => by_country[i].1.len() as u64,
        None => 0,
    };
    proof {
        assert(m == spec_country_mirrors(by_country@, link.code@));
        assert(m <= 0x100000);
    }
    match strategy {
        RateStrategy::DistanceFirst => {
            let root: u64 = match link.link_type {
                LinkType::Submarine => link.distance as u64,
                LinkType::Terrestrial => tenth_root_of_ninth_power(link.distance),
            };
            proof {
                assert(root as int == spec_link_root(*link));
                assert(1 <= root <= 16000);
            }
            let primary: u64 = 983_040_000 / root;
            proof {
                vstd::arithmetic::div_mod::lemma_fundamental_div_mod(983_040_000, root as int);
                assert(primary >= 61440) by (nonlinear_arith)
                    requires
                        1 <= root as int <= 16000,
                        983_040_000int == root as int * (primary as int) + 983_040_000int % (
                        root as int),
                        983_040_000int % (root as int) < root as int,
                        0 <= 983_040_000int % (root as int),
                ;
            }
            let score: u64 = primary * 16384 - (link.distance as u64);
            proof {
                assert(score * m <= 16_106_127_360_000 * 0x100000) by (nonlinear_arith)
                    requires
                        0 <= score <= 16_106_127_360_000,
                        0 <= m <= 0x100000,
                ;
            }
            score * m
        },
        RateStrategy::HubsFirst => {
            let w: u64 = dest.cable_connections_number * 1000 + dest.internet_exchanges_number;
            proof {
                assert(w * m <= 1000001000000 * 0x100000) by (nonlinear_arith)
                    requires
                        0 <= w <= 1000001000000,
                        0 <= m <= 0x100000,
                ;
            }
            w * m
        },
    }
}


/// The mirrors of `ms` labeled with canonical country `code`, in order.
pub open spec fn spec_of_country(ms: Seq<Mirror>, code: Seq<char>) -> Seq<Mirror>
    decreases ms.len(),
{
    if ms.len() == 0 {
        Seq::empty()
    } else {
        let rest = spec_of_country(ms.drop_last(), code);
        if ms.last().country is Some && spec_upper(ms.last().country->0@) == code {
            rest.push(ms.last())
        } else {
            rest
        }
    }
}

/// The mirrors of `ms` without a country, in order.
pub open spec fn spec_unlabeled_of(ms: Seq<Mirror>) -> Seq<Mirror>
    decreases ms.len(),
{
    if ms.len() == 0 {
        Seq::empty()
    } else {
        let rest = spec_unlabeled_of(ms.drop_last());
        if ms.last().country is None {
            rest.push(ms.last())
        } else {
            rest
        }
    }
}

/// Every mirror grouped under `code` is labeled with `code` and comes from
/// `ms`; the group is never longer than `ms`.
pub proof fn lemma_of_country_elems(ms: Seq<Mirror>, code: Seq<char>)
    ensures
        spec_of_country(ms, code).len() <= ms.len(),
        forall|i: int|
            0 <= i < spec_of_country(ms, code).len() ==> {
                &&& (#[trigger] spec_of_country(ms, code)[i]).country is Some
                &&& spec_upper(spec_of_country(ms, code)[i].country->0@) == code
                &&& ms.contains(spec_of_country(ms, code)[i])
            },
    decreases ms.len(),
{
    if ms.len() > 0 {
        lemma_of_country_elems(ms.drop_last(), code);
        assert forall|i: int|
            0 <= i < spec_of_country(ms.drop_last(), code).len() implies ms.contains(
            #[trigger] spec_of_country(ms.drop_last(), code)[i]) by {
            let e = spec_of_country(ms.drop_last(), code)[i];
            let w = choose|w: int| 0 <= w < ms.drop_last().len() && ms.drop_last()[w] == e;
            assert(ms[w] == e);
        }
        assert(ms.contains(ms.last()));
    }
}

/// The engine state of one run.  All decision logic lives in the methods;
/// a driver alternates [`Engine::next_batch`] and [`Engine::record_batch`],
/// then runs the fallback and re-test stages.
pub struct Engine {
    /// The read-only country graph.
    pub graph: CountryGraph,
    /// The options of this run.
    pub config: Config,
    /// Mirrors grouped by canonical country code; keys are unique.
    pub by_country: Vec<(String, Vec<Mirror>)>,
    /// Mirrors without a country, probed in the fallback stage.
    pub unlabeled: Vec<Mirror>,
    /// Countries to visit or expand on the next jump.
    pub frontier: Vec<String>,
    /// Countries whose own mirrors were sampled; grows monotonically.
    pub visited: Vec<String>,
    /// Countries whose outgoing links were expanded; grows monotonically.
    pub explored: Vec<String>,
    /// Test URLs already handed out for probing.
    pub tested_urls: Vec<String>,
    /// Completed jumps.
    pub jumps: u64,
    /// Accumulated results, kept sorted by speed descending.
    pub results: Vec<SpeedTestResult>,
    /// Best observed speed of each jump, for the early-stop check.
    pub latest_top_speeds: Vec<u64>,
    /// Best observed connection time of each jump, for the early-stop check.
    pub latest_top_connection_times: Vec<u64>,
}

impl Engine {
    /// The engine invariant: a checked graph and configuration, a bounded
    /// jump counter, unique grouping keys with correctly labeled members,
    /// and a result list sorted by speed descending.
    pub open spec fn wf(&self) -> bool {
        &&& self.graph.wf()
        &&& self.config.wf()
        &&& self.jumps <= self.config.max_jumps
        &&& spec_speeds_desc(self.results@)
        &&& forall|i: int| 0 <= i < self.results@.len() ==> (#[trigger] self.results@[i]).wf()
        &&& forall|i: int, j: int|
            0 <= i < j < self.by_country@.len() ==> (#[trigger] self.by_country@[i]).0@ != (
            #[trigger] self.by_country@[j]).0@
        &&& forall|i: int|
            0 <= i < self.by_country@.len() ==> (#[trigger] self.by_country@[i]).1@.len()
                <= 0x100000
        &&& forall|i: int, k: int|
            0 <= i < self.by_country@.len() && 0 <= k < self.by_country@[i].1@.len() ==> {
                &&& (#[trigger] self.by_country@[i].1@[k]).country is Some
                &&& spec_upper(self.by_country@[i].1@[k].country->0@) == self.by_country@[i].0@
            }
    }

    /// Partitions the candidate mirrors by country, resolves the entry
    /// country (falling back to US with a warning when it is unknown), and
    /// seeds the frontier.
    pub fn new(mirrors: Vec<Mirror>, graph: CountryGraph, config: Config) -> (r: (
        Engine,
        Vec<ProgressEvent>,
    ))
        requires
            graph.wf(),
            config.wf(),
            mirrors@.len() <= 0x100000,
        ensures
            r.0.wf(),
            r.0.config == config,
            r.0.graph == graph,
            r.0.jumps == 0,
            r.0.results@.len() == 0,
            r.0.visited@.len() == 0,
            r.0.explored@.len() == 0,
            r.0.tested_urls@.len() == 0,
            r.0.latest_top_speeds@.len() == 0,
            r.0.latest_top_connection_times@.len() == 0,
            r.0.unlabeled@ == spec_unlabeled_of(mirrors@),
            forall|i: int|
                0 <= i < r.0.by_country@.len() ==> (#[trigger] r.0.by_country@[i]).1@
                    == spec_of_country(mirrors@, r.0.by_country@[i].0@),
            forall|c: Seq<char>|
                (#[trigger] spec_of_country(mirrors@, c)).len() > 0 ==> exists|i: int|
                    0 <= i < r.0.by_country@.len() && (#[trigger] r.0.by_country@[i]).0@ == c,
            graph.spec_has_code(spec_upper(config.entry_country@)) ==> {
                &&& r.1@.len() == 0
                &&& r.0.frontier@.len() == 1
                &&& r.0.frontier@[0]@ == spec_upper(config.entry_country@)
            },
            !graph.spec_has_code(spec_upper(config.entry_country@)) ==> {
                &&& r.1@ =~= seq![ProgressEvent::UnknownEntryCountry]
                &&& (graph.spec_has_code(spec_upper("US"@)) ==> r.0.frontier@.len() == 1
                    && r.0.frontier@[0]@ == spec_upper("US"@))
                &&& (!graph.spec_has_code(spec_upper("US"@)) ==> r.0.frontier@.len() == 0)
            },
    {
        let ghost ms = mirrors@;
        let n = mirrors.len();
        let mut by_country: Vec<(String, Vec<Mirror>)> = Vec::new();
        let mut unlabeled: Vec<Mirror> = Vec::new();
        let mut i: usize = 0;
        while i < n
            invariant
                n == ms.len() <= 0x100000,
                mirrors@ == ms,
                0 <= i <= n,
                forall|p: int, q: int|
                    0 <= p < q < by_country@.len() ==> (#[trigger] by_country@[p]).0@ != (
                    #[trigger] by_country@[q]).0@,
                forall|p: int|
                    0 <= p < by_country@.len() ==> (#[trigger] by_country@[p]).1@
                        == spec_of_country(ms.subrange(0, i as int), by_country@[p].0@),
                forall|c: Seq<char>|
                    (#[trigger] spec_of_country(ms.subrange(0, i as int), c)).len() > 0
                        ==> exists|p: int|
                        0 <= p < by_country@.len() && (#[trigger] by_country@[p]).0@ == c,
                unlabeled@ == spec_unlabeled_of(ms.subrange(0, i as int)),
            decreases n - i,
        {
            let m = clone_mirror(&mirrors[i]);
            let ghost prefix = ms.subrange(0, i as int);
            let ghost prefix1 = ms.subrange(0, i + 1);
            proof {
                assert(prefix1.drop_last() =~= prefix);
                assert(prefix1.last() == ms[i as int]);
            }
            match &m.country {
                Some(c) => {
                    let cv = crate::strutil::chars_of(c.as_str());
                    let cu = crate::countries::upper_chars(&cv);
                    let code = crate::strutil::string_from_chars(&cu);
                    proof {
                        assert(code@ == spec_upper(ms[i as int].country->0@));
                    }
                    let ghost pre = by_country@;
                    match find_country_entry(&by_country, code.as_str()) {
                        Some(ei) => {
                            let mut entry = by_country.remove(ei);
                            entry.1.push(m);
                            by_country.insert(ei, entry);
                            proof {
                                assert(by_country@ =~= pre.update(
                                    ei as int,
                                    by_country@[ei as int],
                                ));
                                assert(by_country@[ei as int].0 == pre[ei as int].0);
                                assert(by_country@[ei as int].1@ =~= pre[ei as int].1@.push(
                                    ms[i as int],
                                ));
                                assert forall|p: int|
                                    0 <= p < by_country@.len() implies (#[trigger] by_country@[p]).1@
                                    == spec_of_country(prefix1, by_country@[p].0@) by {
                                    if p == ei {
                                        assert(spec_of_country(prefix1, code@)
                                            == spec_of_country(prefix, code@).push(ms[i as int]));
                                    } else {
                                        assert(by_country@[p] == pre[p]);
                                        assert(pre[p].0@ != code@);
                                        assert(spec_of_country(prefix1, pre[p].0@)
                                            == spec_of_country(prefix, pre[p].0@));
                                    }
                                }
                                assert forall|c2: Seq<char>|
                                    (#[trigger] spec_of_country(prefix1, c2)).len() > 0
                                        implies exists|p: int|
                                    0 <= p < by_country@.len() && (#[trigger] by_country@[p]).0@
                                        == c2 by {
                                    if c2 == code@ {
                                        assert(by_country@[ei as int].0@ == c2);
                                    } else {
                                        assert(spec_of_country(prefix1, c2) == spec_of_country(
                                            prefix,
                                            c2,
                                        ));
                                        let w = choose|p: int|
                                            0 <= p < pre.len() && (#[trigger] pre[p]).0@ == c2;
                                        assert(by_country@[w].0@ == c2);
                                    }
                                }
                            }
                        },
                        None => {
                            let mut v: Vec<Mirror> = Vec::new();
                            v.push(m);
                            by_country.push((code, v));
                            proof {
                                assert(by_country@ =~= pre.push(
                                    by_country@[by_country@.len() - 1],
                                ));
                                assert(spec_of_country(prefix, code@).len() == 0) by {
                                    if spec_of_country(prefix, code@).len() > 0 {
                                        let w = choose|p: int|
                                            0 <= p < pre.len() && (#[trigger] pre[p]).0@ == code@;
                                        assert(false);
                                    }
                                }
                                assert forall|p: int|
                                    0 <= p < by_country@.len() implies (#[trigger] by_country@[p]).1@
                                    == spec_of_country(prefix1, by_country@[p].0@) by {
                                    if p == by_country@.len() - 1 {
                                        assert(by_country@[p].0@ == code@);
                                        assert(by_country@[p].1@ =~= Seq::empty().push(
                                            ms[i as int],
                                        ));
                                        assert(spec_of_country(prefix1, code@)
                                            == spec_of_country(prefix, code@).push(ms[i as int]));
                                        assert(spec_of_country(prefix, code@) =~= Seq::empty());
                                    } else {
                                        assert(by_country@[p] == pre[p]);
                                        assert(pre[p].0@ != code@);
                                        assert(spec_of_country(prefix1, pre[p].0@)
                                            == spec_of_country(prefix, pre[p].0@));
                                    }
                                }
                                assert forall|c2: Seq<char>|
                                    (#[trigger] spec_of_country(prefix1, c2)).len() > 0
                                        implies exists|p: int|
                                    0 <= p < by_country@.len() && (#[trigger] by_country@[p]).0@
                                        == c2 by {
                                    if c2 == code@ {
                                        assert(by_country@[by_country@.len() - 1].0@ == c2);
                                    } else {
                                        assert(spec_of_country(prefix1, c2) == spec_of_country(
                                            prefix,
                                            c2,
                                        ));
                                        let w = choose|p: int|
                                            0 <= p < pre.len() && (#[trigger] pre[p]).0@ == c2;
                                        assert(by_country@[w].0@ == c2);
                                    }
                                }
                            }
                        },
                    }
                },
                None => {
                    unlabeled.push(m);
                    proof {
                        assert forall|p: int|
                            0 <= p < by_country@.len() implies (#[trigger] by_country@[p]).1@
                            == spec_of_country(prefix1, by_country@[p].0@) by {
                            assert(spec_of_country(prefix1, by_country@[p].0@) == spec_of_country(
                                prefix,
                                by_country@[p].0@,
                            ));
                        }
                        assert forall|c2: Seq<char>|
                            (#[trigger] spec_of_country(prefix1, c2)).len() > 0 implies exists|p: int|
                            0 <= p < by_country@.len() && (#[trigger] by_country@[p]).0@ == c2 by {
                            assert(spec_of_country(prefix1, c2) == spec_of_country(prefix, c2));
                        }
                        assert(unlabeled@ =~= spec_unlabeled_of(prefix1));
                    }
                },
            }
            i += 1;
        }
        proof {
            assert(ms.subrange(0, n as int) =~= ms);
        }
        // resolve the entry country, falling back to US with a warning
        let mut events: Vec<ProgressEvent> = Vec::new();
        let mut frontier: Vec<String> = Vec::new();
        match graph.lookup(config.entry_country.as_str()) {
            Some(c) => {
                frontier.push(c.code.clone());
            },
            None => {
                events.push(ProgressEvent::UnknownEntryCountry);
                match graph.lookup("US") {
                    Some(c) => {
                        frontier.push(c.code.clone());
                    },
                    None => {},
                }
            },
        }
        let engine = Engine {
            graph,
            config,
            by_country,
            unlabeled,
            frontier,
            visited: Vec::new(),
            explored: Vec::new(),
            tested_urls: Vec::new(),
            jumps: 0,
            results: Vec::new(),
            latest_top_speeds: Vec::new(),
            latest_top_connection_times: Vec::new(),
        };
        proof {
            assert forall|p: int, k: int|
                0 <= p < engine.by_country@.len() && 0 <= k < engine.by_country@[p].1@.len()
                    implies {
                    &&& (#[trigger] engine.by_country@[p].1@[k]).country is Some
                    &&& spec_upper(engine.by_country@[p].1@[k].country->0@)
                        == engine.by_country@[p].0@
                } by {
                lemma_of_country_elems(ms, engine.by_country@[p].0@);
            }
            assert forall|p: int|
                0 <= p < engine.by_country@.len() implies (#[trigger] engine.by_country@[p]).1@.len()
                <= 0x100000 by {
                lemma_of_country_elems(ms, engine.by_country@[p].0@);
            }
        }
        (engine, events)
    }
}


/// A field-wise copy of a link list, equal to the original as a value.
fn clone_links(v: &Vec<LinkTo>) -> (r: Vec<LinkTo>)
    ensures
        r@ =~= v@,
{
    let n = v.len();
    let mut r: Vec<LinkTo> = Vec::new();
    let mut i: usize = 0;
    while i < n
        invariant
            n == v@.len(),
            0 <= i <= n,
            r@ =~= v@.subrange(0, i as int),
        decreases n - i,
    {
        let l = LinkTo {
            code: v[i].code.clone(),
            distance: v[i].distance,
            link_type: v[i].link_type,
        };
        proof {
            assert(l == v@[i as int]);
        }
        r.push(l);
        i += 1;
        assert(r@ =~= v@.subrange(0, i as int));
    }
    assert(v@.subrange(0, n as int) =~= v@);
    r
}

/// A field-wise copy of a string list, equal to the original as a value.
fn clone_strings(v: &Vec<String>) -> (r: Vec<String>)
    ensures
        r@ =~= v@,
{
    let n = v.len();
    let mut r: Vec<String> = Vec::new();
    let mut i: usize = 0;
    while i < n
        invariant
            n == v@.len(),
            0 <= i <= n,
            r@ =~= v@.subrange(0, i as int),
        decreases n - i,
    {
        r.push(v[i].clone());
        i += 1;
        assert(r@ =~= v@.subrange(0, i as int));
    }
    assert(v@.subrange(0, n as int) =~= v@);
    r
}

/// The index of the grouping entry keyed `code`, if any.
pub open spec fn spec_entry_idx(by: Seq<(String, Vec<Mirror>)>, code: Seq<char>) -> Option<int> {
    if exists|i: int| 0 <= i < by.len() && (#[trigger] by[i]).0@ == code {
        Some(choose|i: int| 0 <= i < by.len() && (#[trigger] by[i]).0@ == code)
    } else {
        None
    }
}

/// The completeness of a hand-out at its front: when the first frontier
/// country is not yet visited and holds mirrors, the batch begins with
/// exactly that country's sample — the untested among its first
/// `country_test_mirrors_per_country` mirrors.
pub open spec fn spec_first_sample_prefix(pre: Engine, batch: Seq<Mirror>) -> bool {
    pre.frontier@.len() > 0 ==> {
        let code = pre.frontier@[0];
        !spec_in_codes(pre.visited@, code@) ==> match spec_entry_idx(pre.by_country@, code@) {
            Some(ei) => {
                let sample = spec_sample(
                    pre.by_country@[ei].1@,
                    pre.tested_urls@,
                    vstd::math::min(
                        pre.config.country_test_mirrors_per_country as int,
                        pre.by_country@[ei].1@.len() as int,
                    ),
                ).0;
                batch.len() >= sample.len() && batch.take(sample.len() as int) == sample
            },
            None => true,
        }
    }
}

/// The front-sample completeness is stable under appending to the batch.
proof fn lemma_prefix_stable(pre: Engine, b1: Seq<Mirror>, b2: Seq<Mirror>)
    requires
        spec_first_sample_prefix(pre, b1),
        b2.len() >= b1.len(),
        b2.take(b1.len() as int) == b1,
    ensures
        spec_first_sample_prefix(pre, b2),
{
    if pre.frontier@.len() > 0 {
        let code = pre.frontier@[0];
        if !spec_in_codes(pre.visited@, code@) {
            match spec_entry_idx(pre.by_country@, code@) {
                Some(ei) => {
                    let sample = spec_sample(
                        pre.by_country@[ei].1@,
                        pre.tested_urls@,
                        vstd::math::min(
                            pre.config.country_test_mirrors_per_country as int,
                            pre.by_country@[ei].1@.len() as int,
                        ),
                    ).0;
                    assert(b2.take(sample.len() as int) =~= b1.take(sample.len() as int));
                },
                None => {},
            }
        }
    }
}

/// Every mirror of the batch comes from the engine's own grouped pool.
pub open spec fn spec_batch_from_pool(pre: Engine, batch: Seq<Mirror>) -> bool {
    forall|i: int|
        0 <= i < batch.len() ==> exists|p: int, q: int|
            0 <= p < pre.by_country@.len() && 0 <= q < pre.by_country@[p].1@.len()
                && pre.by_country@[p].1@[q] == (#[trigger] batch[i])
}

/// The relation between the engine before and during/after building one
/// batch: probe URLs are handed out at most once (none repeats an earlier
/// hand-out, none repeats within the batch, and all are recorded), the
/// visited and explored sets only grow, and everything else is untouched.
pub open spec fn spec_batch_inv(pre: Engine, cur: Engine, batch: Seq<Mirror>) -> bool {
    &&& cur.wf()
    &&& cur.graph == pre.graph
    &&& cur.config == pre.config
    &&& cur.by_country == pre.by_country
    &&& cur.unlabeled == pre.unlabeled
    &&& cur.results == pre.results
    &&& cur.latest_top_speeds == pre.latest_top_speeds
    &&& cur.latest_top_connection_times == pre.latest_top_connection_times
    &&& cur.jumps == pre.jumps
    &&& forall|u: Seq<char>|
        spec_in_codes(pre.tested_urls@, u) ==> #[trigger] spec_in_codes(cur.tested_urls@, u)
    &&& forall|i: int|
        0 <= i < batch.len() ==> {
            &&& spec_in_codes(cur.tested_urls@, (#[trigger] batch[i]).url_to_test@)
            &&& !spec_in_codes(pre.tested_urls@, batch[i].url_to_test@)
            &&& batch[i].country is Some
        }
    &&& forall|i: int, j: int|
        0 <= i < j < batch.len() ==> (#[trigger] batch[i]).url_to_test@ != (
        #[trigger] batch[j]).url_to_test@
    &&& spec_batch_from_pool(pre, batch)
    &&& forall|i: int|
        0 <= i < cur.tested_urls@.len() ==> spec_in_codes(
            pre.tested_urls@,
            (#[trigger] cur.tested_urls@[i])@,
        ) || exists|j: int| 0 <= j < batch.len() && (#[trigger] batch[j]).url_to_test@ == cur.tested_urls@[i]@
    &&& forall|c: Seq<char>|
        spec_in_codes(pre.visited@, c) ==> #[trigger] spec_in_codes(cur.visited@, c)
    &&& forall|c: Seq<char>|
        spec_in_codes(pre.explored@, c) ==> #[trigger] spec_in_codes(cur.explored@, c)
}

impl Engine {
    /// Moves up to `country_test_mirrors_per_country` of one country's
    /// mirrors into the batch, skipping any whose test URL was already
    /// handed out, and records the taken URLs.
    fn take_from_entry(&mut self, ei: usize, batch: &mut Vec<Mirror>, Ghost(pre): Ghost<Engine>)
        requires
            old(self).wf(),
            ei < old(self).by_country@.len(),
            spec_batch_inv(pre, *old(self), old(batch)@),
        ensures
            spec_batch_inv(pre, *final(self), final(batch)@),
            final(self).visited == old(self).visited,
            final(self).explored == old(self).explored,
            final(self).frontier == old(self).frontier,
            final(batch)@ == old(batch)@ + spec_sample(
                old(self).by_country@[ei as int].1@,
                old(self).tested_urls@,
                vstd::math::min(
                    old(self).config.country_test_mirrors_per_country as int,
                    old(self).by_country@[ei as int].1@.len() as int,
                ),
            ).0,
            final(self).tested_urls@ == spec_sample(
                old(self).by_country@[ei as int].1@,
                old(self).tested_urls@,
                vstd::math::min(
                    old(self).config.country_test_mirrors_per_country as int,
                    old(self).by_country@[ei as int].1@.len() as int,
                ),
            ).1,
    {
        let want: u64 = self.config.country_test_mirrors_per_country;
        let avail: usize = self.by_country[ei].1.len();
        let take: usize = if (avail as u64) < want {
            avail
        } else {
            want as usize
        };
        let ghost ms0 = self.by_country@[ei as int].1@;
        let mut k: usize = 0;
        proof {
            assert(ms0.skip(0) =~= ms0);
        }
        while k < take
            invariant
                self.wf(),
                ei < self.by_country@.len(),
                ms0 == self.by_country@[ei as int].1@,
                take <= self.by_country@[ei as int].1@.len(),
                take == vstd::math::min(
                    old(self).config.country_test_mirrors_per_country as int,
                    ms0.len() as int,
                ),
                self.config == old(self).config,
                0 <= k <= take,
                spec_batch_inv(pre, *self, batch@),
                self.visited == old(self).visited,
                self.explored == old(self).explored,
                self.frontier == old(self).frontier,
                spec_sample(ms0, old(self).tested_urls@, take as int).0 == batch@.skip(
                    old(batch)@.len() as int,
                ) + spec_sample(ms0.skip(k as int), self.tested_urls@, take - k).0,
                spec_sample(ms0, old(self).tested_urls@, take as int).1 == spec_sample(
                    ms0.skip(k as int),
                    self.tested_urls@,
                    take - k,
                ).1,
                batch@.len() >= old(batch)@.len(),
                batch@.take(old(batch)@.len() as int) == old(batch)@,
            decreases take - k,
        {
            proof {
                assert(ms0.skip(k as int)[0] == ms0[k as int]);
                assert(ms0.skip(k as int).drop_first() =~= ms0.skip(k + 1));
            }
            let m = clone_mirror(&self.by_country[ei].1[k]);
            if !contains_code(&self.tested_urls, m.url_to_test.as_str()) {
                let ghost t_pre = self.tested_urls@;
                let ghost b_pre = batch@;
                self.tested_urls.push(m.url_to_test.clone());
                batch.push(m);
                proof {
                    assert(self.tested_urls@ =~= t_pre.push(ms0[k as int].url_to_test));
                    assert(spec_sample(ms0.skip(k as int), t_pre, take - k).0 =~= seq![
                        ms0[k as int],
                    ] + spec_sample(ms0.skip(k + 1), self.tested_urls@, take - k - 1).0);
                    assert(spec_sample(ms0.skip(k as int), t_pre, take - k).1 == spec_sample(
                        ms0.skip(k + 1),
                        self.tested_urls@,
                        take - k - 1,
                    ).1);
                    assert(batch@.skip(old(batch)@.len() as int) =~= b_pre.skip(
                        old(batch)@.len() as int,
                    ) + seq![ms0[k as int]]);
                    assert(batch@.take(old(batch)@.len() as int) =~= old(batch)@);
                    assert(spec_sample(ms0, old(self).tested_urls@, take as int).0 =~= batch@.skip(
                        old(batch)@.len() as int,
                    ) + spec_sample(ms0.skip(k + 1), self.tested_urls@, take - k - 1).0);
                    assert forall|u: Seq<char>|
                        spec_in_codes(pre.tested_urls@, u) implies #[trigger] spec_in_codes(
                        self.tested_urls@,
                        u,
                    ) by {
                        assert(spec_in_codes(t_pre, u));
                        let w = choose|w: int| 0 <= w < t_pre.len() && (#[trigger] t_pre[w])@ == u;
                        assert(self.tested_urls@[w]@ == u);
                    }
                    assert(spec_in_codes(
                        self.tested_urls@,
                        batch@[batch@.len() - 1].url_to_test@,
                    )) by {
                        assert(self.tested_urls@[self.tested_urls@.len() - 1]@ == batch@[batch@.len()
                            - 1].url_to_test@);
                    }
                    assert forall|i: int|
                        0 <= i < batch@.len() - 1 implies spec_in_codes(
                        self.tested_urls@,
                        (#[trigger] batch@[i]).url_to_test@,
                    ) by {
                        assert(spec_in_codes(t_pre, b_pre[i].url_to_test@));
                        let w = choose|w: int|
                            0 <= w < t_pre.len() && (#[trigger] t_pre[w])@ == b_pre[i].url_to_test@;
                        assert(self.tested_urls@[w]@ == batch@[i].url_to_test@);
                    }
                    assert forall|i: int, j: int|
                        0 <= i < j < batch@.len() implies (#[trigger] batch@[i]).url_to_test@ != (
                    #[trigger] batch@[j]).url_to_test@ by {
                        if j == batch@.len() - 1 {
                            assert(spec_in_codes(t_pre, batch@[i].url_to_test@));
                        }
                    }
                    assert(!spec_in_codes(pre.tested_urls@, batch@[batch@.len() - 1].url_to_test@))
                        by {
                        if spec_in_codes(pre.tested_urls@, batch@[batch@.len() - 1].url_to_test@) {
                            assert(spec_in_codes(t_pre, batch@[batch@.len() - 1].url_to_test@));
                        }
                    }
                    assert(pre.by_country@[ei as int].1@[k as int] == batch@[batch@.len() - 1]);
                    assert(spec_batch_from_pool(pre, batch@)) by {
                        assert forall|b: int|
                            0 <= b < batch@.len() implies exists|p: int, q: int|
                            0 <= p < pre.by_country@.len() && 0 <= q < pre.by_country@[p].1@.len()
                                && pre.by_country@[p].1@[q] == (#[trigger] batch@[b]) by {
                            if b < batch@.len() - 1 {
                                assert(b_pre[b] == batch@[b]);
                                assert(spec_batch_from_pool(pre, b_pre));
                            }
                        }
                    }
                    assert forall|i: int|
                        0 <= i < self.tested_urls@.len() implies spec_in_codes(
                        pre.tested_urls@,
                        (#[trigger] self.tested_urls@[i])@,
                    ) || exists|j: int|
                        0 <= j < batch@.len() && (#[trigger] batch@[j]).url_to_test@
                            == self.tested_urls@[i]@ by {
                        if i < t_pre.len() {
                            assert(self.tested_urls@[i] == t_pre[i]);
                            if !spec_in_codes(pre.tested_urls@, t_pre[i]@) {
                                let j = choose|j: int|
                                    0 <= j < b_pre.len() && (#[trigger] b_pre[j]).url_to_test@
                                        == t_pre[i]@;
                                assert(batch@[j].url_to_test@ == self.tested_urls@[i]@);
                            }
                        } else {
                            assert(batch@[batch@.len() - 1].url_to_test@ == self.tested_urls@[i]@);
                        }
                    }
                }
            }
            k += 1;
        }
    }
}


/// Everything found in `a` is found in any extension of `a`.
proof fn lemma_in_codes_extend(a: Seq<String>, b: Seq<String>)
    requires
        a.is_prefix_of(b),
    ensures
        forall|c: Seq<char>| #[trigger] spec_in_codes(a, c) ==> spec_in_codes(b, c),
{
    assert forall|c: Seq<char>| #[trigger] spec_in_codes(a, c) implies spec_in_codes(b, c) by {
        let w = choose|w: int| 0 <= w < a.len() && (#[trigger] a[w])@ == c;
        assert(b[w]@ == c);
    }
}

impl Engine {
    /// Decides whether another jump happens and, if so, assembles the batch
    /// of mirrors to probe: for every frontier country, its own sample (if
    /// not yet visited) and samples of its best-rated unvisited neighbors.
    ///
    /// Every URL handed out here is fresh — never handed out before and
    /// never twice within the batch — and is recorded; the visited and
    /// explored sets only grow.
    pub fn next_batch(&mut self) -> (r: (Option<Vec<Mirror>>, Vec<ProgressEvent>))
        requires
            old(self).wf(),
        ensures
            final(self).wf(),
            (r.0 is None) <==> (old(self).frontier@.len() == 0 || old(self).jumps
                >= old(self).config.max_jumps),
            r.0 is None ==> *final(self) == *old(self),
            r.0 is Some ==> spec_batch_inv(*old(self), *final(self), r.0->0@)
                && final(self).frontier@.len() == 0 && final(self).jumps == old(self).jumps
                && spec_first_sample_prefix(*old(self), r.0->0@),
    {
        if self.frontier.len() == 0 || self.jumps >= self.config.max_jumps {
            return (None, Vec::new());
        }
        let mut events: Vec<ProgressEvent> = Vec::new();
        events.push(ProgressEvent::Jump(self.jumps + 1));
        let current = clone_strings(&self.frontier);
        self.frontier = Vec::new();
        let mut batch: Vec<Mirror> = Vec::new();
        let cn = current.len();
        let mut fi: usize = 0;
        while fi < cn
            invariant
                0 <= fi <= cn,
                cn == current@.len(),
                current@ == old(self).frontier@,
                old(self).wf(),
                spec_batch_inv(*old(self), *self, batch@),
                self.frontier@.len() == 0,
                fi == 0 ==> batch@.len() == 0 && self.tested_urls@ == old(self).tested_urls@
                    && self.visited@ == old(self).visited@,
                fi >= 1 ==> spec_first_sample_prefix(*old(self), batch@),
            decreases cn - fi,
        {
            let code = current[fi].clone();
            let explored_already = contains_code(&self.explored, code.as_str());
            if !explored_already {
                events.push(ProgressEvent::Exploring(code.clone()));
                let ghost e_pre = self.explored@;
                self.explored.push(code.clone());
                proof {
                    lemma_in_codes_extend(e_pre, self.explored@);
                    assert forall|c: Seq<char>|
                        spec_in_codes(old(self).explored@, c) implies #[trigger] spec_in_codes(
                        self.explored@,
                        c,
                    ) by {
                        assert(spec_in_codes(e_pre, c));
                    }
                }
            }
            let visited_already = contains_code(&self.visited, code.as_str());
            if !visited_already {
                events.push(ProgressEvent::Visited(code.clone()));
                let ghost v_pre = self.visited@;
                self.visited.push(code.clone());
                proof {
                    lemma_in_codes_extend(v_pre, self.visited@);
                    assert forall|c: Seq<char>|
                        spec_in_codes(old(self).visited@, c) implies #[trigger] spec_in_codes(
                        self.visited@,
                        c,
                    ) by {
                        assert(spec_in_codes(v_pre, c));
                    }
                }
                match find_country_entry(&self.by_country, code.as_str()) {
                    Some(ei) => {
                        proof {
                            if fi == 0 {
                                let j = choose|i: int|
                                    0 <= i < old(self).by_country@.len() && (
                                    #[trigger] old(self).by_country@[i]).0@ == code@;
                                assert(j == ei);
                            }
                        }
                        let ghost b_before = batch@;
                        self.take_from_entry(ei, &mut batch, Ghost(*old(self)));
                        proof {
                            if fi >= 1 {
                                assert(batch@.take(b_before.len() as int) =~= b_before);
                                lemma_prefix_stable(*old(self), b_before, batch@);
                            }
                            if fi == 0 {
                                let sample = spec_sample(
                                    old(self).by_country@[ei as int].1@,
                                    old(self).tested_urls@,
                                    vstd::math::min(
                                        old(
                                            self,
                                        ).config.country_test_mirrors_per_country as int,
                                        old(self).by_country@[ei as int].1@.len() as int,
                                    ),
                                ).0;
                                assert(batch@.take(sample.len() as int) =~= sample);
                            }
                        }
                    },
                    None => {},
                }
            }
            proof {
                if fi == 0 {
                    assert(spec_first_sample_prefix(*old(self), batch@));
                }
            }
            if !explored_already {
                let linkopt: Option<Vec<LinkTo>> = match self.graph.lookup(code.as_str()) {
                    Some(c) => Some(clone_links(&c.links)),
                    None => None,
                };
                if let Some(first_links) = linkopt {
                    let mut links = first_links;
                    proof {
                        let g = self.graph;
                        let w = choose|w: int|
                            0 <= w < g.spec_countries().len() && (
                            #[trigger] g.spec_countries()[w]).code@ == spec_upper(code@);
                        assert(crate::countries::spec_country_wf(
                            g.spec_countries()[w],
                            g.spec_countries().map_values(|c: Country| c.code@),
                        ));
                        assert forall|i: int|
                            0 <= i < links@.len() implies 1 <= (#[trigger] links@[i]).distance
                            <= 16000 && self.graph.spec_has_code(links@[i].code@) by {
                            let codes = g.spec_countries().map_values(|c: Country| c.code@);
                            assert(codes.contains(links@[i].code@));
                            let q = choose|q: int| 0 <= q < codes.len() && codes[q] == links@[i].code@;
                            assert(g.spec_countries()[q].code@ == links@[i].code@);
                        }
                    }
                    let passes: usize = if self.jumps < 2 {
                        2
                    } else {
                        1
                    };
                    let mut p: usize = 0;
                    while p < passes
                        invariant
                            0 <= p <= passes <= 2,
                            old(self).wf(),
                            spec_batch_inv(*old(self), *self, batch@),
                            self.frontier@.len() == 0,
                            spec_first_sample_prefix(*old(self), batch@),
                            forall|i: int|
                                0 <= i < links@.len() ==> 1 <= (#[trigger] links@[i]).distance
                                    <= 16000 && self.graph.spec_has_code(links@[i].code@),
                        decreases passes - p,
                    {
                        let strategy = if p == 0 {
                            RateStrategy::DistanceFirst
                        } else {
                            RateStrategy::HubsFirst
                        };
                        // score and sort the links under this strategy
                        let ln = links.len();
                        let mut keyed: Vec<(u64, LinkTo)> = Vec::new();
                        let mut li: usize = 0;
                        while li < ln
                            invariant
                                0 <= li <= ln,
                                ln == links@.len(),
                                self.wf(),
                                keyed@.len() == li,
                                forall|i: int|
                                    0 <= i < links@.len() ==> 1 <= (#[trigger] links@[i]).distance
                                        <= 16000 && self.graph.spec_has_code(links@[i].code@),
                                forall|i: int|
                                    0 <= i < keyed@.len() ==> 1 <= (#[trigger] keyed@[i]).1.distance
                                        <= 16000 && self.graph.spec_has_code(keyed@[i].1.code@),
                            decreases ln - li,
                        {
                            let key = rate_country_link(
                                &self.graph,
                                &self.by_country,
                                &links[li],
                                strategy,
                            );
                            let l = LinkTo {
                                code: links[li].code.clone(),
                                distance: links[li].distance,
                                link_type: links[li].link_type,
                            };
                            proof {
                                assert(l == links@[li as int]);
                            }
                            keyed.push((key, l));
                            li += 1;
                        }
                        let mut sorted = sort_pairs_desc(keyed);
                        proof {
                            broadcast use vstd::seq_lib::group_to_multiset_ensures;

                            lemma_sort_desc_ensures(keyed@);
                            assert forall|i: int|
                                0 <= i < sorted@.len() implies 1 <= (
                            #[trigger] sorted@[i]).1.distance <= 16000 && self.graph.spec_has_code(
                                sorted@[i].1.code@,
                            ) by {
                                let e = sorted@[i];
                                assert(sorted@.to_multiset().count(e) > 0);
                                assert(keyed@.to_multiset().count(e) > 0);
                                assert(keyed@.contains(e));
                                let w = choose|w: int| 0 <= w < keyed@.len() && keyed@[w] == e;
                            }
                        }
                        links = Vec::new();
                        while sorted.len() > 0
                            invariant
                                forall|i: int|
                                    0 <= i < sorted@.len() ==> 1 <= (
                                    #[trigger] sorted@[i]).1.distance <= 16000
                                        && self.graph.spec_has_code(sorted@[i].1.code@),
                                forall|i: int|
                                    0 <= i < links@.len() ==> 1 <= (#[trigger] links@[i]).distance
                                        <= 16000 && self.graph.spec_has_code(links@[i].code@),
                            decreases sorted@.len(),
                        {
                            let ghost s_pre = sorted@;
                            let pr = sorted.remove(0);
                            links.push(pr.1);
                            proof {
                                assert(pr == s_pre[0]);
                                assert forall|i: int|
                                    0 <= i < sorted@.len() implies 1 <= (
                                #[trigger] sorted@[i]).1.distance <= 16000
                                    && self.graph.spec_has_code(sorted@[i].1.code@) by {
                                    assert(sorted@[i] == s_pre[i + 1]);
                                }
                            }
                        }
                        // pick the best unvisited destinations that hold mirrors
                        let mut added: u64 = 0;
                        let mut li: usize = 0;
                        while li < links.len() && added < self.config.country_neighbors_per_country
                            invariant
                                0 <= li <= links@.len(),
                                old(self).wf(),
                                spec_batch_inv(*old(self), *self, batch@),
                                self.frontier@.len() == 0,
                                spec_first_sample_prefix(*old(self), batch@),
                                added <= self.config.country_neighbors_per_country,
                                forall|i: int|
                                    0 <= i < links@.len() ==> 1 <= (#[trigger] links@[i]).distance
                                        <= 16000 && self.graph.spec_has_code(links@[i].code@),
                            decreases links@.len() - li,
                        {
                            let lcode = links[li].code.clone();
                            if !contains_code(&self.visited, lcode.as_str()) {
                                match find_country_entry(&self.by_country, lcode.as_str()) {
                                    Some(ei) => {
                                        if self.by_country[ei].1.len() > 0 {
                                            let ghost v_pre = self.visited@;
                                            self.visited.push(lcode.clone());
                                            proof {
                                                lemma_in_codes_extend(v_pre, self.visited@);
                                                assert forall|c: Seq<char>|
                                                    spec_in_codes(old(self).visited@, c)
                                                        implies #[trigger] spec_in_codes(
                                                    self.visited@,
                                                    c,
                                                ) by {
                                                    assert(spec_in_codes(v_pre, c));
                                                }
                                            }
                                            events.push(
                                                ProgressEvent::NeighborAdded(lcode, strategy),
                                            );
                                            let ghost b_before = batch@;
                                            self.take_from_entry(ei, &mut batch, Ghost(*old(self)));
                                            proof {
                                                assert(batch@.take(b_before.len() as int)
                                                    =~= b_before);
                                                lemma_prefix_stable(*old(self), b_before, batch@);
                                            }
                                            added += 1;
                                        }
                                    },
                                    None => {},
                                }
                            }
                            li += 1;
                        }
                        p += 1;
                    }
                }
            }
            fi += 1;
        }
        (Some(batch), events)
    }
}


/// The payloads of a keyed sequence.
pub open spec fn spec_vals<T>(s: Seq<(u64, T)>) -> Seq<T> {
    s.map_values(|p: (u64, T)| p.1)
}

/// The canonical country code of a result's mirror.
pub open spec fn spec_result_code(r: SpeedTestResult) -> Seq<char> {
    spec_upper(r.item.country->0@)
}

/// Index of the first result from a country not yet explored, if any.
pub open spec fn spec_first_unexplored(s: Seq<SpeedTestResult>, explored: Seq<String>) -> Option<
    int,
>
    decreases s.len(),
{
    if s.len() == 0 {
        None
    } else if s[0].item.country is Some && !spec_in_codes(explored, spec_result_code(s[0])) {
        Some(0)
    } else {
        match spec_first_unexplored(s.drop_first(), explored) {
            Some(i) => Some(i + 1),
            None => None,
        }
    }
}

/// An index that qualifies, preceded only by indices that do not, is the
/// first-unexplored index; and if nothing qualifies the search is empty.
proof fn lemma_first_unexplored_char(s: Seq<SpeedTestResult>, explored: Seq<String>, idx: int)
    requires
        0 <= idx <= s.len(),
        forall|j: int|
            0 <= j < idx ==> !((#[trigger] s[j]).item.country is Some && !spec_in_codes(
                explored,
                spec_result_code(s[j]),
            )),
        idx < s.len() ==> s[idx].item.country is Some && !spec_in_codes(
            explored,
            spec_result_code(s[idx]),
        ),
    ensures
        idx < s.len() ==> spec_first_unexplored(s, explored) == Some(idx),
        idx == s.len() ==> spec_first_unexplored(s, explored) is None,
    decreases s.len(),
{
    if s.len() > 0 {
        if idx == 0 {
            assert(spec_first_unexplored(s, explored) == Some(0int));
        } else {
            assert(!(s[0].item.country is Some && !spec_in_codes(
                explored,
                spec_result_code(s[0]),
            )));
            assert forall|j: int|
                0 <= j < idx - 1 implies !((#[trigger] s.drop_first()[j]).item.country is Some
                && !spec_in_codes(explored, spec_result_code(s.drop_first()[j]))) by {
                assert(s.drop_first()[j] == s[j + 1]);
            }
            if idx - 1 < s.drop_first().len() {
                assert(s.drop_first()[idx - 1] == s[idx]);
            }
            lemma_first_unexplored_char(s.drop_first(), explored, idx - 1);
        }
    }
}

/// A successful first-unexplored search returns a valid index whose
/// result carries an unexplored country.
pub proof fn lemma_first_unexplored_some(s: Seq<SpeedTestResult>, explored: Seq<String>)
    ensures
        match spec_first_unexplored(s, explored) {
            Some(i) => 0 <= i < s.len() && s[i].item.country is Some && !spec_in_codes(
                explored,
                spec_result_code(s[i]),
            ),
            None => true,
        },
    decreases s.len(),
{
    if s.len() > 0 {
        if !(s[0].item.country is Some && !spec_in_codes(explored, spec_result_code(s[0]))) {
            lemma_first_unexplored_some(s.drop_first(), explored);
            if spec_first_unexplored(s.drop_first(), explored) is Some {
                let i = spec_first_unexplored(s.drop_first(), explored)->0;
                assert(s.drop_first()[i] == s[i + 1]);
            }
        }
    }
}

/// Finds the first result whose country is not yet explored.
fn first_unexplored(v: &Vec<SpeedTestResult>, explored: &Vec<String>) -> (r: Option<usize>)
    ensures
        match r {
            Some(i) => spec_first_unexplored(v@, explored@) == Some(i as int),
            None => spec_first_unexplored(v@, explored@) is None,
        },
{
    let n = v.len();
    let mut i: usize = 0;
    while i < n
        invariant
            n == v@.len(),
            0 <= i <= n,
            forall|j: int|
                0 <= j < i ==> !((#[trigger] v@[j]).item.country is Some && !spec_in_codes(
                    explored@,
                    spec_result_code(v@[j]),
                )),
        decreases n - i,
    {
        let qualifies: bool = match &v[i].item.country {
            Some(c) => {
                let cv = crate::strutil::chars_of(c.as_str());
                let cu = crate::countries::upper_chars(&cv);
                let code = crate::strutil::string_from_chars(&cu);
                !contains_code(explored, code.as_str())
            },
            None => false,
        };
        if qualifies {
            proof {
                lemma_first_unexplored_char(v@, explored@, i as int);
            }
            return Some(i);
        }
        i += 1;
    }
    proof {
        lemma_first_unexplored_char(v@, explored@, n as int);
    }
    None
}

/// The canonical code of a result's mirror, as a string.
fn result_code(r: &SpeedTestResult) -> (c: String)
    requires
        r.item.country is Some,
    ensures
        c@ == spec_result_code(*r),
{
    let cs = match &r.item.country {
        Some(c) => c.as_str(),
        None => "",
    };
    let cv = crate::strutil::chars_of(cs);
    let cu = crate::countries::upper_chars(&cv);
    crate::strutil::string_from_chars(&cu)
}

/// The last connection times kept getting much worse: each of the two most
/// recent steps grew by more than half.
pub open spec fn spec_conn_degrading(t: Seq<u64>) -> bool {
    let n = t.len();
    &&& n >= 3
    &&& 2 * t[n - 1] > 3 * t[n - 2]
    &&& 2 * t[n - 2] > 3 * t[n - 3]
}

/// The last speeds kept getting much worse: each of the three most recent
/// steps lost more than a sixth.
pub open spec fn spec_speeds_degrading(s: Seq<u64>) -> bool {
    let n = s.len();
    &&& n >= 4
    &&& 6 * s[n - 1] < 5 * s[n - 2]
    &&& 6 * s[n - 2] < 5 * s[n - 3]
    &&& 6 * s[n - 3] < 5 * s[n - 4]
}

/// Decides [`spec_conn_degrading`] executably.
fn conn_degrading(t: &Vec<u64>) -> (r: bool)
    ensures
        r == spec_conn_degrading(t@),
{
    let n = t.len();
    if n < 3 {
        return false;
    }
    let a = t[n - 3] as u128;
    let b = t[n - 2] as u128;
    let c = t[n - 1] as u128;
    2 * c > 3 * b && 2 * b > 3 * a
}

/// Decides [`spec_speeds_degrading`] executably.
fn speeds_degrading(s: &Vec<u64>) -> (r: bool)
    ensures
        r == spec_speeds_degrading(s@),
{
    let n = s.len();
    if n < 4 {
        return false;
    }
    let a = s[n - 4] as u128;
    let b = s[n - 3] as u128;
    let c = s[n - 2] as u128;
    let d = s[n - 1] as u128;
    6 * d < 5 * c && 6 * c < 5 * b && 6 * b < 5 * a
}

/// Extracts the payloads of a keyed vector, in order.
pub fn pairs_values<T>(v: Vec<(u64, T)>) -> (r: Vec<T>)
    ensures
        r@ == spec_vals(v@),
{
    let mut rest = v;
    let ghost orig = rest@;
    let mut out: Vec<T> = Vec::new();
    while rest.len() > 0
        invariant
            out@ + spec_vals(rest@) =~= spec_vals(orig),
        decreases rest@.len(),
    {
        let ghost pre = rest@;
        let pr = rest.remove(0);
        out.push(pr.1);
        proof {
            assert(rest@ =~= pre.drop_first());
            assert(out@ + spec_vals(rest@) =~= spec_vals(orig));
        }
    }
    proof {
        assert(out@ =~= spec_vals(orig));
    }
    out
}

/// A field-wise copy of a result list, equal to the original as a value.
fn clone_results(v: &Vec<SpeedTestResult>) -> (r: Vec<SpeedTestResult>)
    ensures
        r@ =~= v@,
{
    let n = v.len();
    let mut r: Vec<SpeedTestResult> = Vec::new();
    let mut i: usize = 0;
    while i < n
        invariant
            n == v@.len(),
            0 <= i <= n,
            r@ =~= v@.subrange(0, i as int),
        decreases n - i,
    {
        let c = clone_result(&v[i]);
        r.push(c);
        i += 1;
        assert(r@ =~= v@.subrange(0, i as int));
    }
    assert(v@.subrange(0, n as int) =~= v@);
    r
}


/// Keyed form of a result list for the connection-time pass: smaller
/// connection times get larger keys.
pub open spec fn spec_keyed_by_conn(rs: Seq<SpeedTestResult>) -> Seq<(u64, SpeedTestResult)> {
    rs.map_values(|x: SpeedTestResult| ((u64::MAX - x.connection_time_ms) as u64, x))
}

/// Keyed form of a result list for the speed pass.
pub open spec fn spec_keyed_by_speed(rs: Seq<SpeedTestResult>) -> Seq<(u64, SpeedTestResult)> {
    rs.map_values(|x: SpeedTestResult| (x.speed, x))
}

/// The index a frontier pass settles on: the first unexplored country in
/// the given order, or the overall best when every country is explored.
pub open spec fn spec_pick(s: Seq<SpeedTestResult>, explored: Seq<String>) -> int {
    match spec_first_unexplored(s, explored) {
        Some(i) => i,
        None => 0,
    }
}

/// Whether a frontier pass found an unexplored country.
pub open spec fn spec_pick_is_new(s: Seq<SpeedTestResult>, explored: Seq<String>) -> bool {
    spec_first_unexplored(s, explored) is Some
}

impl Engine {
    /// Accounts one completed batch: counts the jump, selects at most one
    /// frontier country per pass (best connection time, then best speed),
    /// records the per-jump history the early-stop rules read, merges the
    /// new results into the accumulated speed-descending list, and reports
    /// whether the run must stop (blank batch or degradation).
    pub fn record_batch(&mut self, results: Vec<SpeedTestResult>) -> (r: (bool, Vec<ProgressEvent>))
        requires
            old(self).wf(),
            old(self).jumps < old(self).config.max_jumps,
            forall|i: int|
                0 <= i < results@.len() ==> (#[trigger] results@[i]).wf()
                    && results@[i].item.country is Some,
        ensures
            final(self).wf(),
            final(self).jumps == old(self).jumps + 1,
            final(self).graph == old(self).graph,
            final(self).config == old(self).config,
            final(self).by_country == old(self).by_country,
            final(self).unlabeled == old(self).unlabeled,
            final(self).tested_urls == old(self).tested_urls,
            final(self).visited == old(self).visited,
            final(self).explored == old(self).explored,
            results@.len() == 0 ==> r.0 && final(self).results == old(self).results
                && final(self).frontier == old(self).frontier
                && final(self).latest_top_speeds == old(self).latest_top_speeds
                && final(self).latest_top_connection_times == old(self).latest_top_connection_times,
            results@.len() > 0 ==> ({
                let sc = spec_vals(spec_sort_desc(spec_keyed_by_conn(results@)));
                let ss = spec_vals(spec_sort_desc(spec_keyed_by_speed(results@)));
                let ci = spec_pick(sc, old(self).explored@);
                let si = spec_pick(ss, old(self).explored@);
                &&& final(self).latest_top_connection_times@
                    == old(self).latest_top_connection_times@.push(sc[ci].connection_time_ms)
                &&& final(self).latest_top_speeds@ == old(self).latest_top_speeds@.push(
                    ss[si].speed,
                )
                &&& final(self).frontier@.map_values(|x: String| x@)
                    == old(self).frontier@.map_values(|x: String| x@) + (if spec_pick_is_new(
                    sc,
                    old(self).explored@,
                ) {
                    seq![spec_result_code(sc[ci])]
                } else {
                    Seq::empty()
                }) + (if spec_pick_is_new(ss, old(self).explored@) {
                    seq![spec_result_code(ss[si])]
                } else {
                    Seq::empty()
                })
                &&& final(self).results@ == spec_merge_desc(old(self).results@, ss)
                &&& r.0 == (spec_conn_degrading(final(self).latest_top_connection_times@)
                    || spec_speeds_degrading(final(self).latest_top_speeds@))
            }),
    {
        self.jumps = self.jumps + 1;
        let mut events: Vec<ProgressEvent> = Vec::new();
        if results.len() == 0 {
            events.push(ProgressEvent::BlankIteration);
            return (true, events);
        }
        let n = results.len();
        // connection-time pass
        let mut keyed_c: Vec<(u64, SpeedTestResult)> = Vec::new();
        let mut i: usize = 0;
        while i < n
            invariant
                n == results@.len(),
                0 <= i <= n,
                keyed_c@ =~= spec_keyed_by_conn(results@.subrange(0, i as int)),
            decreases n - i,
        {
            let c = clone_result(&results[i]);
            keyed_c.push((u64::MAX - c.connection_time_ms, c));
            i += 1;
            proof {
                assert(keyed_c@ =~= spec_keyed_by_conn(results@.subrange(0, i as int)));
            }
        }
        proof {
            assert(results@.subrange(0, n as int) =~= results@);
        }
        let sorted_c = sort_pairs_desc(keyed_c);
        proof {
            broadcast use vstd::seq_lib::group_to_multiset_ensures;

            lemma_sort_desc_ensures(spec_keyed_by_conn(results@));
            assert forall|j: int|
                0 <= j < sorted_c@.len() implies (#[trigger] sorted_c@[j]).1.item.country
                is Some by {
                let e = sorted_c@[j];
                assert(sorted_c@.to_multiset().count(e) > 0);
                assert(spec_keyed_by_conn(results@).to_multiset().count(e) > 0);
                assert(spec_keyed_by_conn(results@).contains(e));
                let w = choose|w: int|
                    0 <= w < spec_keyed_by_conn(results@).len() && spec_keyed_by_conn(
                        results@,
                    )[w] == e;
                assert(e.1 == results@[w]);
            }
        }
        let vals_c = pairs_values(sorted_c);
        proof {
            assert(vals_c@.len() == results@.len());
            assert forall|j: int|
                0 <= j < vals_c@.len() implies (#[trigger] vals_c@[j]).item.country is Some by {
                assert(vals_c@[j] == sorted_c@[j].1);
            }
        }
        let pick_c = first_unexplored(&vals_c, &self.explored);
        let ghost frontier0 = self.frontier@;
        proof {
            lemma_first_unexplored_some(vals_c@, self.explored@);
        }
        match pick_c {
            Some(idx) => {
                let code = result_code(&vals_c[idx]);
                events.push(
                    ProgressEvent::TopNeighborConnectionTime(
                        code.clone(),
                        vals_c[idx].connection_time_ms,
                    ),
                );
                self.latest_top_connection_times.push(vals_c[idx].connection_time_ms);
                self.frontier.push(code);
            },
            None => {
                let code = result_code(&vals_c[0]);
                events.push(
                    ProgressEvent::TopConnectionTime(code, vals_c[0].connection_time_ms),
                );
                self.latest_top_connection_times.push(vals_c[0].connection_time_ms);
            },
        }
        // speed pass
        let mut keyed_s: Vec<(u64, SpeedTestResult)> = Vec::new();
        let mut i: usize = 0;
        while i < n
            invariant
                n == results@.len(),
                0 <= i <= n,
                keyed_s@ =~= spec_keyed_by_speed(results@.subrange(0, i as int)),
            decreases n - i,
        {
            let c = clone_result(&results[i]);
            keyed_s.push((c.speed, c));
            i += 1;
            proof {
                assert(keyed_s@ =~= spec_keyed_by_speed(results@.subrange(0, i as int)));
            }
        }
        proof {
            assert(results@.subrange(0, n as int) =~= results@);
        }
        let sorted_s = sort_pairs_desc(keyed_s);
        proof {
            broadcast use vstd::seq_lib::group_to_multiset_ensures;

            lemma_sort_desc_ensures(spec_keyed_by_speed(results@));
            assert forall|j: int|
                0 <= j < sorted_s@.len() implies (#[trigger] sorted_s@[j]).0
                    == sorted_s@[j].1.speed && sorted_s@[j].1.wf()
                    && sorted_s@[j].1.item.country is Some by {
                let e = sorted_s@[j];
                assert(sorted_s@.to_multiset().count(e) > 0);
                assert(spec_keyed_by_speed(results@).to_multiset().count(e) > 0);
                assert(spec_keyed_by_speed(results@).contains(e));
                let w = choose|w: int|
                    0 <= w < spec_keyed_by_speed(results@).len() && spec_keyed_by_speed(
                        results@,
                    )[w] == e;
                assert(e == (results@[w].speed, results@[w]));
            }
        }
        let vals_s = pairs_values(sorted_s);
        proof {
            assert(spec_speeds_desc(vals_s@)) by {
                assert forall|p: int, q: int|
                    0 <= p <= q < vals_s@.len() implies (#[trigger] vals_s@[p]).speed >= (
                #[trigger] vals_s@[q]).speed by {
                    assert(vals_s@[p] == sorted_s@[p].1);
                    assert(vals_s@[q] == sorted_s@[q].1);
                    assert(sorted_s@[p].0 >= sorted_s@[q].0);
                }
            }
        }
        proof {
            assert forall|j: int|
                0 <= j < vals_s@.len() implies (#[trigger] vals_s@[j]).item.country is Some by {
                assert(vals_s@[j] == sorted_s@[j].1);
            }
            lemma_first_unexplored_some(vals_s@, self.explored@);
        }
        let pick_s = first_unexplored(&vals_s, &self.explored);
        match pick_s {
            Some(idx) => {
                let code = result_code(&vals_s[idx]);
                events.push(ProgressEvent::TopNeighborSpeed(code.clone(), vals_s[idx].speed));
                self.latest_top_speeds.push(vals_s[idx].speed);
                self.frontier.push(code);
            },
            None => {
                let code = result_code(&vals_s[0]);
                events.push(ProgressEvent::TopSpeed(code, vals_s[0].speed));
                self.latest_top_speeds.push(vals_s[0].speed);
            },
        }
        // merge the new results (speed-descending) into the accumulated list
        let prev = clone_results(&self.results);
        let ghost prev_view = prev@;
        let merged = merge_results_desc(prev, vals_s);
        proof {
            lemma_merge_desc_ensures(prev_view, spec_vals(spec_sort_desc(spec_keyed_by_speed(results@))));
            broadcast use vstd::seq_lib::group_to_multiset_ensures;

            assert forall|j: int| 0 <= j < merged@.len() implies (#[trigger] merged@[j]).wf() by {
                let e = merged@[j];
                assert(merged@.to_multiset().count(e) > 0);
                if prev_view.to_multiset().count(e) > 0 {
                    assert(prev_view.contains(e));
                    let w = choose|w: int| 0 <= w < prev_view.len() && prev_view[w] == e;
                } else {
                    let vs = spec_vals(spec_sort_desc(spec_keyed_by_speed(results@)));
                    assert(vs.to_multiset().count(e) > 0);
                    assert(vs.contains(e));
                    let w = choose|w: int| 0 <= w < vs.len() && vs[w] == e;
                }
            }
        }
        self.results = merged;
        // early-stop heuristics
        let stop_conn = conn_degrading(&self.latest_top_connection_times);
        let stop_speed = speeds_degrading(&self.latest_top_speeds);
        if stop_conn {
            events.push(ProgressEvent::ConnectionTimesDegrading);
        } else if stop_speed {
            events.push(ProgressEvent::SpeedsDegrading);
        }
        proof {
            assert(self.frontier@.map_values(|x: String| x@) == frontier0.map_values(
                |x: String| x@,
            ) + (if spec_pick_is_new(
                spec_vals(spec_sort_desc(spec_keyed_by_conn(results@))),
                old(self).explored@,
            ) {
                seq![
                    spec_result_code(
                        spec_vals(spec_sort_desc(spec_keyed_by_conn(results@)))[spec_pick(
                            spec_vals(spec_sort_desc(spec_keyed_by_conn(results@))),
                            old(self).explored@,
                        )],
                    ),
                ]
            } else {
                Seq::empty()
            }) + (if spec_pick_is_new(
                spec_vals(spec_sort_desc(spec_keyed_by_speed(results@))),
                old(self).explored@,
            ) {
                seq![
                    spec_result_code(
                        spec_vals(spec_sort_desc(spec_keyed_by_speed(results@)))[spec_pick(
                            spec_vals(spec_sort_desc(spec_keyed_by_speed(results@))),
                            old(self).explored@,
                        )],
                    ),
                ]
            } else {
                Seq::empty()
            }));
        }
        (stop_conn || stop_speed, events)
    }
}


impl Engine {
    /// After the jump loop: when country jumping yielded too few results
    /// (fewer than 0.7 of one full jump budget), every untested mirror of
    /// every country joins the unlabeled pool, in grouping order.
    pub fn finish_jumping(&mut self) -> (evs: Vec<ProgressEvent>)
        requires
            old(self).wf(),
        ensures
            final(self).wf(),
            final(self).graph == old(self).graph,
            final(self).config == old(self).config,
            final(self).by_country == old(self).by_country,
            final(self).results == old(self).results,
            final(self).tested_urls == old(self).tested_urls,
            final(self).visited == old(self).visited,
            final(self).explored == old(self).explored,
            final(self).frontier == old(self).frontier,
            final(self).jumps == old(self).jumps,
            final(self).latest_top_speeds == old(self).latest_top_speeds,
            final(self).latest_top_connection_times == old(self).latest_top_connection_times,
            !(old(self).results@.len() * 10 < 7 * old(self).config.max_jumps * old(self).config.country_test_mirrors_per_country * old(self).config.country_neighbors_per_country) ==> final(self).unlabeled == old(self).unlabeled,
            (old(self).results@.len() * 10 < 7 * old(self).config.max_jumps * old(self).config.country_test_mirrors_per_country * old(self).config.country_neighbors_per_country) ==> final(self).unlabeled@ == old(self).unlabeled@
                + spec_untested_pool(old(self).by_country@, old(self).tested_urls@),
    {
        proof {
            assert(7 * self.config.max_jumps * self.config.country_test_mirrors_per_country <= 7
                * 0x1_0000 * 0x1_0000) by (nonlinear_arith)
                requires
                    self.config.max_jumps <= 0x1_0000,
                    self.config.country_test_mirrors_per_country <= 0x1_0000,
            ;
            assert(7 * self.config.max_jumps * self.config.country_test_mirrors_per_country
                * self.config.country_neighbors_per_country <= 7 * 0x1_0000 * 0x1_0000 * 0x1_0000)
                by (nonlinear_arith)
                requires
                    7 * self.config.max_jumps * self.config.country_test_mirrors_per_country <= 7
                        * 0x1_0000 * 0x1_0000,
                    self.config.country_neighbors_per_country <= 0x1_0000,
            ;
        }
        let threshold: u64 = 7 * self.config.max_jumps
            * self.config.country_test_mirrors_per_country
            * self.config.country_neighbors_per_country;
        let sparse: bool = (self.results.len() as u128) * 10 < (threshold as u128);
        let mut evs: Vec<ProgressEvent> = Vec::new();
        if !sparse {
            return evs;
        }
        evs.push(ProgressEvent::TooFewResults(self.results.len() as u64));
        let bn = self.by_country.len();
        let mut p: usize = 0;
        proof {
            assert(self.by_country@.subrange(0, 0) =~= Seq::<(String, Vec<Mirror>)>::empty());
        }
        while p < bn
            invariant
                old(self).wf(),
                self.wf(),
                bn == self.by_country@.len(),
                0 <= p <= bn,
                self.graph == old(self).graph,
                self.config == old(self).config,
                self.by_country == old(self).by_country,
                self.results == old(self).results,
                self.tested_urls == old(self).tested_urls,
                self.visited == old(self).visited,
                self.explored == old(self).explored,
                self.frontier == old(self).frontier,
                self.jumps == old(self).jumps,
                self.latest_top_speeds == old(self).latest_top_speeds,
                self.latest_top_connection_times == old(self).latest_top_connection_times,
                self.unlabeled@ == old(self).unlabeled@ + spec_untested_pool(
                    self.by_country@.subrange(0, p as int),
                    self.tested_urls@,
                ),
            decreases bn - p,
        {
            let ghost pool_pre = spec_untested_pool(
                self.by_country@.subrange(0, p as int),
                self.tested_urls@,
            );
            let mn = self.by_country[p].1.len();
            let mut q: usize = 0;
            proof {
                assert(self.by_country@[p as int].1@.subrange(0, 0) =~= Seq::<Mirror>::empty());
                assert(spec_untested_of(
                    self.by_country@[p as int].1@.subrange(0, 0),
                    self.tested_urls@,
                ) =~= Seq::<Mirror>::empty());
                assert(self.unlabeled@ =~= old(self).unlabeled@ + pool_pre + spec_untested_of(
                    self.by_country@[p as int].1@.subrange(0, 0),
                    self.tested_urls@,
                ));
            }
            while q < mn
                invariant
                    old(self).wf(),
                    self.wf(),
                    bn == self.by_country@.len(),
                    0 <= p < bn,
                    mn == self.by_country@[p as int].1@.len(),
                    0 <= q <= mn,
                    self.graph == old(self).graph,
                    self.config == old(self).config,
                    self.by_country == old(self).by_country,
                    self.results == old(self).results,
                    self.tested_urls == old(self).tested_urls,
                    self.visited == old(self).visited,
                    self.explored == old(self).explored,
                    self.frontier == old(self).frontier,
                    self.jumps == old(self).jumps,
                    self.latest_top_speeds == old(self).latest_top_speeds,
                    self.latest_top_connection_times == old(self).latest_top_connection_times,
                    pool_pre == spec_untested_pool(
                        self.by_country@.subrange(0, p as int),
                        self.tested_urls@,
                    ),
                    self.unlabeled@ == old(self).unlabeled@ + pool_pre + spec_untested_of(
                        self.by_country@[p as int].1@.subrange(0, q as int),
                        self.tested_urls@,
                    ),
                decreases mn - q,
            {
                proof {
                    assert(self.by_country@[p as int].1@.subrange(0, q + 1).drop_last()
                        =~= self.by_country@[p as int].1@.subrange(0, q as int));
                    assert(self.by_country@[p as int].1@.subrange(0, q + 1).last()
                        == self.by_country@[p as int].1@[q as int]);
                }
                let m = clone_mirror(&self.by_country[p].1[q]);
                if !contains_code(&self.tested_urls, m.url_to_test.as_str()) {
                    self.unlabeled.push(m);
                }
                proof {
                    assert(self.unlabeled@ =~= old(self).unlabeled@ + pool_pre + spec_untested_of(
                        self.by_country@[p as int].1@.subrange(0, q + 1),
                        self.tested_urls@,
                    ));
                }
                q += 1;
            }
            p += 1;
            proof {
                assert(self.by_country@.subrange(0, p as int).drop_last() =~= self.by_country@.subrange(
                    0,
                    p - 1,
                ));
                assert(self.by_country@.subrange(0, p as int).last() == self.by_country@[p - 1]);
                assert(self.by_country@[p - 1].1@.subrange(0, mn as int) =~= self.by_country@[p
                    - 1].1@);
                assert(self.unlabeled@ =~= old(self).unlabeled@ + spec_untested_pool(
                    self.by_country@.subrange(0, p as int),
                    self.tested_urls@,
                ));
            }
        }
        proof {
            assert(self.by_country@.subrange(0, bn as int) =~= self.by_country@);
        }
        evs
    }

    /// Hands the unlabeled pool out for probing, once per URL: exactly
    /// the mirrors of the pool whose test URL was not yet probed, first
    /// occurrence only, in order; their URLs are recorded and the pool is
    /// left empty.
    pub fn take_unlabeled(&mut self) -> (r: Vec<Mirror>)
        requires
            old(self).wf(),
        ensures
            final(self).wf(),
            final(self).graph == old(self).graph,
            final(self).config == old(self).config,
            final(self).by_country == old(self).by_country,
            final(self).results == old(self).results,
            final(self).visited == old(self).visited,
            final(self).explored == old(self).explored,
            final(self).frontier == old(self).frontier,
            final(self).jumps == old(self).jumps,
            final(self).latest_top_speeds == old(self).latest_top_speeds,
            final(self).latest_top_connection_times == old(self).latest_top_connection_times,
            final(self).unlabeled@.len() == 0,
            r@ == spec_dedup_take(old(self).unlabeled@, old(self).tested_urls@).0,
            final(self).tested_urls@ == spec_dedup_take(
                old(self).unlabeled@,
                old(self).tested_urls@,
            ).1,
            spec_batch_inv_urls(*old(self), *final(self), r@),
            forall|i: int| 0 <= i < r@.len() ==> old(self).unlabeled@.contains(#[trigger] r@[i]),
    {
        let src = clone_mirrors_list(&self.unlabeled);
        self.unlabeled = Vec::new();
        let mut out: Vec<Mirror> = Vec::new();
        let n = src.len();
        let mut i: usize = 0;
        proof {
            assert(src@.skip(0) =~= src@);
        }
        while i < n
            invariant
                old(self).wf(),
                self.wf(),
                n == src@.len(),
                src@ == old(self).unlabeled@,
                0 <= i <= n,
                self.graph == old(self).graph,
                self.config == old(self).config,
                self.by_country == old(self).by_country,
                self.results == old(self).results,
                self.visited == old(self).visited,
                self.explored == old(self).explored,
                self.frontier == old(self).frontier,
                self.jumps == old(self).jumps,
                self.latest_top_speeds == old(self).latest_top_speeds,
                self.latest_top_connection_times == old(self).latest_top_connection_times,
                self.unlabeled@.len() == 0,
                spec_dedup_take(old(self).unlabeled@, old(self).tested_urls@).0 == out@
                    + spec_dedup_take(src@.skip(i as int), self.tested_urls@).0,
                spec_dedup_take(old(self).unlabeled@, old(self).tested_urls@).1 == spec_dedup_take(
                    src@.skip(i as int),
                    self.tested_urls@,
                ).1,
                spec_batch_inv_urls(*old(self), *self, out@),
                forall|k: int|
                    0 <= k < out@.len() ==> old(self).unlabeled@.contains(#[trigger] out@[k]),
            decreases n - i,
        {
            proof {
                assert(src@.skip(i as int)[0] == src@[i as int]);
                assert(src@.skip(i as int).drop_first() =~= src@.skip(i + 1));
            }
            let m = clone_mirror(&src[i]);
            if !contains_code(&self.tested_urls, m.url_to_test.as_str()) {
                let ghost t_pre = self.tested_urls@;
                let ghost o_pre = out@;
                self.tested_urls.push(m.url_to_test.clone());
                out.push(m);
                proof {
                    assert(self.tested_urls@ =~= t_pre.push(src@[i as int].url_to_test));
                    assert forall|u: Seq<char>|
                        spec_in_codes(old(self).tested_urls@, u) implies #[trigger] spec_in_codes(
                        self.tested_urls@,
                        u,
                    ) by {
                        assert(spec_in_codes(t_pre, u));
                        let w = choose|w: int| 0 <= w < t_pre.len() && (#[trigger] t_pre[w])@ == u;
                        assert(self.tested_urls@[w]@ == u);
                    }
                    assert(spec_in_codes(self.tested_urls@, out@[out@.len() - 1].url_to_test@))
                        by {
                        assert(self.tested_urls@[self.tested_urls@.len() - 1]@ == out@[out@.len()
                            - 1].url_to_test@);
                    }
                    assert forall|k: int|
                        0 <= k < out@.len() - 1 implies spec_in_codes(
                        self.tested_urls@,
                        (#[trigger] out@[k]).url_to_test@,
                    ) by {
                        assert(spec_in_codes(t_pre, o_pre[k].url_to_test@));
                        let w = choose|w: int|
                            0 <= w < t_pre.len() && (#[trigger] t_pre[w])@ == o_pre[k].url_to_test@;
                        assert(self.tested_urls@[w]@ == out@[k].url_to_test@);
                    }
                    assert forall|a: int, b: int|
                        0 <= a < b < out@.len() implies (#[trigger] out@[a]).url_to_test@ != (
                    #[trigger] out@[b]).url_to_test@ by {
                        if b == out@.len() - 1 {
                            assert(spec_in_codes(t_pre, out@[a].url_to_test@));
                        }
                    }
                    assert(!spec_in_codes(old(self).tested_urls@, out@[out@.len() - 1].url_to_test@))
                        by {
                        if spec_in_codes(old(self).tested_urls@, out@[out@.len() - 1].url_to_test@) {
                            assert(spec_in_codes(t_pre, out@[out@.len() - 1].url_to_test@));
                        }
                    }
                    assert(src@[i as int] == old(self).unlabeled@[i as int]);
                    assert(out@[out@.len() - 1] == old(self).unlabeled@[i as int]);
                    assert forall|k: int|
                        0 <= k < out@.len() implies old(self).unlabeled@.contains(
                        #[trigger] out@[k]) by {
                        if k < out@.len() - 1 {
                            assert(o_pre[k] == out@[k]);
                            assert(old(self).unlabeled@.contains(o_pre[k]));
                        } else {
                            assert(old(self).unlabeled@[i as int] == out@[k]);
                        }
                    }
                    assert(spec_dedup_take(src@.skip(i as int), t_pre).0 =~= seq![src@[i as int]]
                        + spec_dedup_take(src@.skip(i + 1), self.tested_urls@).0);
                    assert(out@ =~= o_pre + seq![src@[i as int]]);
                    assert(out@ + spec_dedup_take(src@.skip(i + 1), self.tested_urls@).0
                        =~= o_pre + spec_dedup_take(src@.skip(i as int), t_pre).0);
                }
            } else {
                proof {
                    assert(spec_dedup_take(src@.skip(i as int), self.tested_urls@).0
                        == spec_dedup_take(src@.skip(i + 1), self.tested_urls@).0);
                    assert(spec_dedup_take(src@.skip(i as int), self.tested_urls@).1
                        == spec_dedup_take(src@.skip(i + 1), self.tested_urls@).1);
                }
            }
            i += 1;
        }
        proof {
            assert(src@.skip(n as int) =~= Seq::<Mirror>::empty());
            assert(spec_dedup_take(src@.skip(n as int), self.tested_urls@).0 =~= Seq::<
                Mirror,
            >::empty());
            assert(spec_dedup_take(old(self).unlabeled@, old(self).tested_urls@).0 =~= out@);
        }
        out
    }
}

/// The hand-out of a mirror pool, once per URL: the mirrors whose test
/// URL is not yet recorded, first occurrence only, in order, paired with
/// the record extended by exactly their URLs.
pub open spec fn spec_dedup_take(ms: Seq<Mirror>, tested: Seq<String>) -> (Seq<Mirror>, Seq<String>)
    decreases ms.len(),
{
    if ms.len() == 0 {
        (Seq::empty(), tested)
    } else {
        let m = ms[0];
        if spec_in_codes(tested, m.url_to_test@) {
            spec_dedup_take(ms.drop_first(), tested)
        } else {
            let rest = spec_dedup_take(ms.drop_first(), tested.push(m.url_to_test));
            (seq![m] + rest.0, rest.1)
        }
    }
}

/// The sample taken from the front of one country's mirror list: among
/// the first `take` mirrors, those whose test URL is not yet recorded,
/// paired with the record extended by exactly their URLs.
pub open spec fn spec_sample(ms: Seq<Mirror>, tested: Seq<String>, take: int) -> (
    Seq<Mirror>,
    Seq<String>,
)
    decreases take,
{
    if take <= 0 || ms.len() == 0 {
        (Seq::empty(), tested)
    } else {
        let m = ms[0];
        if spec_in_codes(tested, m.url_to_test@) {
            spec_sample(ms.drop_first(), tested, take - 1)
        } else {
            let rest = spec_sample(ms.drop_first(), tested.push(m.url_to_test), take - 1);
            (seq![m] + rest.0, rest.1)
        }
    }
}

/// The mirrors of `ms` whose test URL is not in `tested`, in order.
pub open spec fn spec_untested_of(ms: Seq<Mirror>, tested: Seq<String>) -> Seq<Mirror>
    decreases ms.len(),
{
    if ms.len() == 0 {
        Seq::empty()
    } else {
        let rest = spec_untested_of(ms.drop_last(), tested);
        if !spec_in_codes(tested, ms.last().url_to_test@) {
            rest.push(ms.last())
        } else {
            rest
        }
    }
}

/// The untested mirrors of the whole grouped pool, in grouping order.
pub open spec fn spec_untested_pool(by: Seq<(String, Vec<Mirror>)>, tested: Seq<String>) -> Seq<
    Mirror,
>
    decreases by.len(),
{
    if by.len() == 0 {
        Seq::empty()
    } else {
        spec_untested_pool(by.drop_last(), tested) + spec_untested_of(by.last().1@, tested)
    }
}

/// The probe-once guarantee of a hand-out: every URL is fresh, unique
/// within the hand-out, and recorded afterwards.
pub open spec fn spec_batch_inv_urls(pre: Engine, cur: Engine, batch: Seq<Mirror>) -> bool {
    &&& forall|u: Seq<char>|
        spec_in_codes(pre.tested_urls@, u) ==> #[trigger] spec_in_codes(cur.tested_urls@, u)
    &&& forall|i: int|
        0 <= i < batch.len() ==> spec_in_codes(
            cur.tested_urls@,
            (#[trigger] batch[i]).url_to_test@,
        ) && !spec_in_codes(pre.tested_urls@, batch[i].url_to_test@)
    &&& forall|i: int, j: int|
        0 <= i < j < batch.len() ==> (#[trigger] batch[i]).url_to_test@ != (
        #[trigger] batch[j]).url_to_test@
}

/// A field-wise copy of a mirror list, equal to the original as a value.
fn clone_mirrors_list(v: &Vec<Mirror>) -> (r: Vec<Mirror>)
    ensures
        r@ =~= v@,
{
    let n = v.len();
    let mut r: Vec<Mirror> = Vec::new();
    let mut i: usize = 0;
    while i < n
        invariant
            n == v@.len(),
            0 <= i <= n,
            r@ =~= v@.subrange(0, i as int),
        decreases n - i,
    {
        let c = clone_mirror(&v[i]);
        r.push(c);
        i += 1;
        assert(r@ =~= v@.subrange(0, i as int));
    }
    assert(v@.subrange(0, n as int) =~= v@);
    r
}


impl Engine {
    /// Accounts the unlabeled-stage results: sorts them by speed
    /// descending and merges them into the accumulated list.
    pub fn record_unlabeled_batch(&mut self, results: Vec<SpeedTestResult>) -> (evs: Vec<
        ProgressEvent,
    >)
        requires
            old(self).wf(),
            forall|i: int| 0 <= i < results@.len() ==> (#[trigger] results@[i]).wf(),
        ensures
            final(self).wf(),
            final(self).graph == old(self).graph,
            final(self).config == old(self).config,
            final(self).by_country == old(self).by_country,
            final(self).unlabeled == old(self).unlabeled,
            final(self).tested_urls == old(self).tested_urls,
            final(self).visited == old(self).visited,
            final(self).explored == old(self).explored,
            final(self).frontier == old(self).frontier,
            final(self).jumps == old(self).jumps,
            final(self).latest_top_speeds == old(self).latest_top_speeds,
            final(self).latest_top_connection_times == old(self).latest_top_connection_times,
            final(self).results@ == spec_merge_desc(
                old(self).results@,
                spec_vals(spec_sort_desc(spec_keyed_by_speed(results@))),
            ),
    {
        let evs: Vec<ProgressEvent> = Vec::new();
        let n = results.len();
        let mut keyed_s: Vec<(u64, SpeedTestResult)> = Vec::new();
        let mut i: usize = 0;
        while i < n
            invariant
                n == results@.len(),
                0 <= i <= n,
                keyed_s@ =~= spec_keyed_by_speed(results@.subrange(0, i as int)),
            decreases n - i,
        {
            let c = clone_result(&results[i]);
            keyed_s.push((c.speed, c));
            i += 1;
            proof {
                assert(keyed_s@ =~= spec_keyed_by_speed(results@.subrange(0, i as int)));
            }
        }
        proof {
            assert(results@.subrange(0, n as int) =~= results@);
        }
        let sorted_s = sort_pairs_desc(keyed_s);
        proof {
            broadcast use vstd::seq_lib::group_to_multiset_ensures;

            lemma_sort_desc_ensures(spec_keyed_by_speed(results@));
            assert forall|j: int|
                0 <= j < sorted_s@.len() implies (#[trigger] sorted_s@[j]).0
                    == sorted_s@[j].1.speed && sorted_s@[j].1.wf() by {
                let e = sorted_s@[j];
                assert(sorted_s@.to_multiset().count(e) > 0);
                assert(spec_keyed_by_speed(results@).to_multiset().count(e) > 0);
                assert(spec_keyed_by_speed(results@).contains(e));
                let w = choose|w: int|
                    0 <= w < spec_keyed_by_speed(results@).len() && spec_keyed_by_speed(
                        results@,
                    )[w] == e;
                assert(e == (results@[w].speed, results@[w]));
            }
        }
        let vals_s = pairs_values(sorted_s);
        proof {
            assert(spec_speeds_desc(vals_s@)) by {
                assert forall|p: int, q: int|
                    0 <= p <= q < vals_s@.len() implies (#[trigger] vals_s@[p]).speed >= (
                #[trigger] vals_s@[q]).speed by {
                    assert(vals_s@[p] == sorted_s@[p].1);
                    assert(vals_s@[q] == sorted_s@[q].1);
                    assert(sorted_s@[p].0 >= sorted_s@[q].0);
                }
            }
        }
        let prev = clone_results(&self.results);
        let ghost prev_view = prev@;
        let merged = merge_results_desc(prev, vals_s);
        proof {
            lemma_merge_desc_ensures(
                prev_view,
                spec_vals(spec_sort_desc(spec_keyed_by_speed(results@))),
            );
            broadcast use vstd::seq_lib::group_to_multiset_ensures;

            assert forall|j: int| 0 <= j < merged@.len() implies (#[trigger] merged@[j]).wf() by {
                let e = merged@[j];
                assert(merged@.to_multiset().count(e) > 0);
                if prev_view.to_multiset().count(e) > 0 {
                    assert(prev_view.contains(e));
                    let w = choose|w: int| 0 <= w < prev_view.len() && prev_view[w] == e;
                } else {
                    let vs = spec_vals(spec_sort_desc(spec_keyed_by_speed(results@)));
                    assert(vs.to_multiset().count(e) > 0);
                    assert(vs.contains(e));
                    let w = choose|w: int| 0 <= w < vs.len() && vs[w] == e;
                }
            }
        }
        self.results = merged;
        evs
    }

    /// Splits the accumulated list for the serial re-test: the mirrors of
    /// the top results leave for another round of probing, the tail stays.
    /// With no results at all there is nothing to re-test.
    pub fn split_for_retest(&mut self) -> (r: (Option<Vec<Mirror>>, Vec<ProgressEvent>))
        requires
            old(self).wf(),
        ensures
            final(self).wf(),
            final(self).graph == old(self).graph,
            final(self).config == old(self).config,
            final(self).by_country == old(self).by_country,
            final(self).unlabeled == old(self).unlabeled,
            final(self).tested_urls == old(self).tested_urls,
            final(self).visited == old(self).visited,
            final(self).explored == old(self).explored,
            final(self).frontier == old(self).frontier,
            final(self).jumps == old(self).jumps,
            final(self).latest_top_speeds == old(self).latest_top_speeds,
            final(self).latest_top_connection_times == old(self).latest_top_connection_times,
            (r.0 is None) <==> old(self).results@.len() == 0,
            r.0 is None ==> final(self).results == old(self).results,
            r.0 is Some ==> ({
                let k = vstd::math::min(
                    old(self).config.top_mirrors_number_to_retest as int,
                    old(self).results@.len() as int,
                );
                &&& r.0->0@.len() == k
                &&& forall|i: int| 0 <= i < k ==> (#[trigger] r.0->0@[i]) == old(self).results@[i].item
                &&& final(self).results@ == old(self).results@.skip(k)
            }),
    {
        let mut evs: Vec<ProgressEvent> = Vec::new();
        let len = self.results.len();
        if len == 0 {
            evs.push(ProgressEvent::NoResultsToRetest);
            return (None, evs);
        }
        evs.push(ProgressEvent::RetestingTopMirrors);
        let k: usize = if self.config.top_mirrors_number_to_retest < len {
            self.config.top_mirrors_number_to_retest
        } else {
            len
        };
        let mut top: Vec<Mirror> = Vec::new();
        let mut i: usize = 0;
        while i < k
            invariant
                k <= len == self.results@.len(),
                0 <= i <= k,
                top@.len() == i,
                forall|j: int| 0 <= j < i ==> (#[trigger] top@[j]) == self.results@[j].item,
            decreases k - i,
        {
            let m = clone_mirror(&self.results[i].item);
            top.push(m);
            i += 1;
        }
        let mut tail: Vec<SpeedTestResult> = Vec::new();
        let mut i: usize = k;
        while i < len
            invariant
                k <= len == self.results@.len(),
                k <= i <= len,
                tail@ =~= self.results@.subrange(k as int, i as int),
            decreases len - i,
        {
            let c = clone_result(&self.results[i]);
            tail.push(c);
            i += 1;
            proof {
                assert(tail@ =~= self.results@.subrange(k as int, i as int));
            }
        }
        proof {
            assert(tail@ =~= self.results@.skip(k as int));
            assert forall|p: int, q: int|
                0 <= p <= q < tail@.len() implies (#[trigger] tail@[p]).speed >= (
            #[trigger] tail@[q]).speed by {
                assert(tail@[p] == self.results@[k + p]);
                assert(tail@[q] == self.results@[k + q]);
            }
            assert forall|p: int| 0 <= p < tail@.len() implies (#[trigger] tail@[p]).wf() by {
                assert(tail@[p] == self.results@[k + p]);
            }
        }
        self.results = tail;
        (Some(top), evs)
    }

    /// Delivers the final ranking: the re-tested top results sorted by
    /// speed descending, followed by the tail kept from before the re-test.
    pub fn finalize(self, top_results: Vec<SpeedTestResult>) -> (r: Vec<SpeedTestResult>)
        requires
            self.wf(),
            forall|i: int| 0 <= i < top_results@.len() ==> (#[trigger] top_results@[i]).wf(),
        ensures
            r@ == spec_vals(spec_sort_desc(spec_keyed_by_speed(top_results@))) + self.results@,
            spec_speeds_desc(r@.take(top_results@.len() as int)),
            spec_speeds_desc(r@.skip(top_results@.len() as int)),
    {
        let n = top_results.len();
        let mut keyed_s: Vec<(u64, SpeedTestResult)> = Vec::new();
        let mut i: usize = 0;
        while i < n
            invariant
                n == top_results@.len(),
                0 <= i <= n,
                keyed_s@ =~= spec_keyed_by_speed(top_results@.subrange(0, i as int)),
            decreases n - i,
        {
            let c = clone_result(&top_results[i]);
            keyed_s.push((c.speed, c));
            i += 1;
            proof {
                assert(keyed_s@ =~= spec_keyed_by_speed(top_results@.subrange(0, i as int)));
            }
        }
        proof {
            assert(top_results@.subrange(0, n as int) =~= top_results@);
        }
        let sorted_s = sort_pairs_desc(keyed_s);
        proof {
            broadcast use vstd::seq_lib::group_to_multiset_ensures;

            lemma_sort_desc_ensures(spec_keyed_by_speed(top_results@));
            assert forall|j: int|
                0 <= j < sorted_s@.len() implies (#[trigger] sorted_s@[j]).0
                    == sorted_s@[j].1.speed by {
                let e = sorted_s@[j];
                assert(sorted_s@.to_multiset().count(e) > 0);
                assert(spec_keyed_by_speed(top_results@).to_multiset().count(e) > 0);
                assert(spec_keyed_by_speed(top_results@).contains(e));
                let w = choose|w: int|
                    0 <= w < spec_keyed_by_speed(top_results@).len() && spec_keyed_by_speed(
                        top_results@,
                    )[w] == e;
                assert(e == (top_results@[w].speed, top_results@[w]));
            }
        }
        let mut out = pairs_values(sorted_s);
        proof {
            assert(spec_speeds_desc(out@)) by {
                assert forall|p: int, q: int|
                    0 <= p <= q < out@.len() implies (#[trigger] out@[p]).speed >= (
                #[trigger] out@[q]).speed by {
                    assert(out@[p] == sorted_s@[p].1);
                    assert(out@[q] == sorted_s@[q].1);
                    assert(sorted_s@[p].0 >= sorted_s@[q].0);
                }
            }
        }
        let ghost top_sorted = out@;
        let mut rest = self.results;
        let ghost tail0 = rest@;
        while rest.len() > 0
            invariant
                rest@.len() <= tail0.len(),
                out@ =~= top_sorted + tail0.take(tail0.len() - rest@.len()),
                rest@ =~= tail0.skip(tail0.len() - rest@.len()),
            decreases rest@.len(),
        {
            let ghost r_pre = rest@;
            let x = rest.remove(0);
            out.push(x);
            proof {
                assert(rest@ =~= r_pre.drop_first());
                assert(out@ =~= top_sorted + tail0.take(tail0.len() - rest@.len()));
                assert(rest@ =~= tail0.skip(tail0.len() - rest@.len()));
            }
        }
        proof {
            assert(tail0.take(tail0.len() as int) =~= tail0);
            assert(out@ =~= top_sorted + tail0);
            assert(top_sorted.len() == top_results@.len());
            assert(out@.take(top_results@.len() as int) =~= top_sorted);
            assert(out@.skip(top_results@.len() as int) =~= tail0);
        }
        out
    }
}


/// Mirrors probed for two different countries in one batch are disjoint by
/// test URL: within a batch every test URL occurs once, whatever the
/// countries involved.
pub proof fn lemma_countries_sampled_disjoint(pre: Engine, post: Engine, batch: Seq<Mirror>)
    requires
        spec_batch_inv(pre, post, batch),
    ensures
        forall|i: int, j: int|
            0 <= i < batch.len() && 0 <= j < batch.len() && i != j ==> (
            #[trigger] batch[i]).url_to_test@ != (#[trigger] batch[j]).url_to_test@,
{
}

/// Across two probing stages — two jumps, or a jump and the unlabeled
/// stage — no test URL is handed out twice: the first stage records its
/// URLs, records only grow, and the second stage avoids everything
/// recorded.
pub proof fn lemma_url_probed_once(
    pre1: Engine,
    post1: Engine,
    pre2: Engine,
    post2: Engine,
    batch1: Seq<Mirror>,
    batch2: Seq<Mirror>,
)
    requires
        spec_batch_inv_urls(pre1, post1, batch1),
        spec_batch_inv_urls(pre2, post2, batch2),
        forall|u: Seq<char>|
            spec_in_codes(post1.tested_urls@, u) ==> #[trigger] spec_in_codes(
                pre2.tested_urls@,
                u,
            ),
    ensures
        forall|i: int, j: int|
            0 <= i < batch1.len() && 0 <= j < batch2.len() ==> (
            #[trigger] batch1[i]).url_to_test@ != (#[trigger] batch2[j]).url_to_test@,
{
    assert forall|i: int, j: int|
        0 <= i < batch1.len() && 0 <= j < batch2.len() implies (
    #[trigger] batch1[i]).url_to_test@ != (#[trigger] batch2[j]).url_to_test@ by {
        assert(spec_in_codes(post1.tested_urls@, batch1[i].url_to_test@));
        assert(spec_in_codes(pre2.tested_urls@, batch1[i].url_to_test@));
        assert(!spec_in_codes(pre2.tested_urls@, batch2[j].url_to_test@));
    }
}

/// A batch hand-out also satisfies the bare probe-once guarantee, so the
/// cross-stage law covers main-stage batches too.
pub proof fn lemma_batch_inv_gives_urls(pre: Engine, post: Engine, batch: Seq<Mirror>)
    requires
        spec_batch_inv(pre, post, batch),
    ensures
        spec_batch_inv_urls(pre, post, batch),
{
}

/// Under the distance-first strategy the nearer of two links of the same
/// kind always rates strictly higher, for any shared positive mirror
/// count: the inverse root never grows with the distance, and the
/// tiebreaker separates distances whose roots tie.
pub proof fn lemma_distance_first_strict(
    da: Country,
    db: Country,
    m: int,
    l1: LinkTo,
    l2: LinkTo,
)
    requires
        l1.link_type == l2.link_type,
        1 <= l1.distance < l2.distance <= 16000,
        m >= 1,
    ensures
        spec_rate(da, m, l1, RateStrategy::DistanceFirst) > spec_rate(
            db,
            m,
            l2,
            RateStrategy::DistanceFirst,
        ),
{
    let d1 = l1.distance as int;
    let d2 = l2.distance as int;
    let r1 = spec_link_root(l1);
    let r2 = spec_link_root(l2);
    if l1.link_type == LinkType::Submarine {
        assert(r1 == d1 && r2 == d2);
    } else {
        crate::arith::lemma_pow9_root10_props(d1);
        crate::arith::lemma_pow9_root10_props(d2);
        crate::arith::lemma_pow9_root10_mono(d1, d2);
    }
    assert(1 <= r1 <= r2 <= 16000);
    let c = 983_040_000int;
    let p1 = c / r1;
    let p2 = c / r2;
    vstd::arithmetic::div_mod::lemma_fundamental_div_mod(c, r1);
    vstd::arithmetic::div_mod::lemma_fundamental_div_mod(c, r2);
    assert(p2 >= 61440) by (nonlinear_arith)
        requires
            1 <= r2 <= 16000,
            c == 983_040_000,
            c == p2 * r2 + c % r2,
            0 <= c % r2 < r2,
    ;
    if r1 < r2 {
        // p1 > p2: (p2 + 1) * r1 fits under c because r2 <= p2
        assert(p1 > p2) by (nonlinear_arith)
            requires
                1 <= r1,
                r1 + 1 <= r2 <= 16000,
                r2 <= p2,
                c == 983_040_000,
                c == p1 * r1 + c % r1,
                0 <= c % r1 < r1,
                c == p2 * r2 + c % r2,
                0 <= c % r2 < r2,
        ;
        assert((p1 * 16384 - d1) > (p2 * 16384 - d2)) by (nonlinear_arith)
            requires
                p1 >= p2 + 1,
                1 <= d1 < d2 <= 16000,
        ;
    } else {
        assert((p1 * 16384 - d1) > (p2 * 16384 - d2));
    }
    assert(((p1 * 16384 - d1)) * m > ((p2 * 16384 - d2)) * m) by (nonlinear_arith)
        requires
            p1 * 16384 - d1 > p2 * 16384 - d2,
            m >= 1,
    ;
}

/// Mirrors removed by the protocol filter are never probed: every mirror
/// of a hand-out comes from the engine's own pool, so when every pooled
/// mirror passed the filter (as the list parsers guarantee of their
/// output), so did everything probed — a filtered-out mirror's test URL
/// never enters the record of probed URLs.
pub proof fn lemma_filtered_out_never_probed(
    pre: Engine,
    post: Engine,
    batch: Seq<Mirror>,
    cfg: Config,
)
    requires
        spec_batch_inv(pre, post, batch),
        forall|p: int, q: int|
            0 <= p < pre.by_country@.len() && 0 <= q < pre.by_country@[p].1@.len()
                ==> crate::config::spec_url_allowed(cfg, (#[trigger] pre.by_country@[p].1@[q]).url@),
    ensures
        forall|i: int|
            0 <= i < batch.len() ==> crate::config::spec_url_allowed(
                cfg,
                (#[trigger] batch[i]).url@,
            ),
{
    assert forall|i: int|
        0 <= i < batch.len() implies crate::config::spec_url_allowed(
        cfg,
        (#[trigger] batch[i]).url@,
    ) by {
        assert(spec_batch_from_pool(pre, batch));
        let (p, q) = choose|p: int, q: int|
            0 <= p < pre.by_country@.len() && 0 <= q < pre.by_country@[p].1@.len()
                && pre.by_country@[p].1@[q] == (#[trigger] batch[i]);
        assert(pre.by_country@[p].1@[q].url@ == batch[i].url@);
    }
}

/// The jump counter never exceeds the configured budget.
pub proof fn lemma_jump_budget(e: Engine)
    requires
        e.wf(),
    ensures
        e.jumps <= e.config.max_jumps,
{
}

/// The accumulated result list is sorted by speed descending in every
/// well-formed engine state.
pub proof fn lemma_results_sorted(e: Engine)
    requires
        e.wf(),
    ensures
        spec_speeds_desc(e.results@),
{
}

/// The delivered ranking is sorted end to end whenever the slowest
/// re-tested top mirror is still at least as fast as the fastest kept tail
/// entry; the two segments are always sorted on their own.
pub proof fn lemma_delivery_sorted(top: Seq<SpeedTestResult>, tail: Seq<SpeedTestResult>)
    requires
        spec_speeds_desc(top),
        spec_speeds_desc(tail),
        top.len() > 0 && tail.len() > 0 ==> top[top.len() - 1].speed >= tail[0].speed,
    ensures
        spec_speeds_desc(top + tail),
{
    assert forall|i: int, j: int|
        0 <= i <= j < (top + tail).len() implies (#[trigger] (top + tail)[i]).speed >= (
    #[trigger] (top + tail)[j]).speed by {
        if i < top.len() && j < top.len() {
            assert((top + tail)[i] == top[i]);
            assert((top + tail)[j] == top[j]);
        } else if i < top.len() {
            assert((top + tail)[i] == top[i]);
            assert((top + tail)[j] == tail[j - top.len()]);
            assert(top[i].speed >= top[top.len() - 1].speed);
            assert(tail[0].speed >= tail[j - top.len()].speed);
        } else {
            assert((top + tail)[i] == tail[i - top.len()]);
            assert((top + tail)[j] == tail[j - top.len()]);
        }
    }
}

} // verus!
