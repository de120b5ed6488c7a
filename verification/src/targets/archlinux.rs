//! The Arch Linux mirror status: filtering fetched mirror records by sync
//! state and protocol, pre-ordering them, and turning them into mirrors.

use vstd::prelude::*;

use crate::config::{Config, Protocol, spec_url_allowed};
use crate::countries::CountryGraph;
use crate::mirror::{Mirror, spec_mirror_view, spec_resolve_country};
use crate::order::{sort_pairs_desc, spec_sort_desc};
use crate::engine::spec_vals;
use crate::target_configs::archlinux::{ArchMirrorsSortingStrategy, ArchTarget};
use crate::urls::{join_url, parse_url, url_join_of, url_parse_of};

verus! {

/// One record of the fetched mirror-status document, held as plain
/// values: the completion ratio in permille, the score in millionths.
#[derive(Clone, Debug)]
pub struct ArchMirror {
    /// URL scheme of the mirror.
    pub protocol: String,
    /// Base URL.
    pub url: String,
    /// Mirror-status score, millionths; lower is better.
    pub score_micros: Option<u64>,
    /// Seconds since the last sync.
    pub delay: Option<i64>,
    /// Two-letter country tag.
    pub country_code: String,
    /// Sync completion, permille.
    pub completion_permille: Option<u64>,
}

/// A field-wise copy of a record, equal to the original as a value.
pub fn clone_arch_mirror(m: &ArchMirror) -> (r: ArchMirror)
    ensures
        r == *m,
{
    ArchMirror {
        protocol: m.protocol.clone(),
        url: m.url.clone(),
        score_micros: m.score_micros,
        delay: m.delay,
        country_code: m.country_code.clone(),
        completion_permille: m.completion_permille,
    }
}

/// Whether a record survives filtering: a known completion at or above
/// the threshold, a known delay within the maximum, a recognized and
/// allowed protocol, and a country tag.
pub open spec fn spec_arch_keep(target: ArchTarget, config: Config, m: ArchMirror) -> bool {
    &&& m.completion_permille is Some && m.completion_permille->0 >= target.completion_permille
    &&& m.delay is Some && m.delay->0 <= target.max_delay
    &&& ((m.protocol@ == "http"@ && (config.protocols@.len() == 0 || config.protocols@.contains(
        Protocol::Http,
    ))) || (m.protocol@ == "https"@ && (config.protocols@.len() == 0
        || config.protocols@.contains(Protocol::Https))))
    &&& m.country_code@.len() > 0
}

/// The kept records of a list, in order.
pub open spec fn spec_arch_filter(target: ArchTarget, config: Config, ms: Seq<ArchMirror>) -> Seq<
    ArchMirror,
>
    decreases ms.len(),
{
    if ms.len() == 0 {
        Seq::empty()
    } else {
        let rest = spec_arch_filter(target, config, ms.drop_last());
        if spec_arch_keep(target, config, ms.last()) {
            rest.push(ms.last())
        } else {
            rest
        }
    }
}

/// The pre-ordering key of a record under a deterministic strategy;
/// larger keys sort first.  Scores and delays order as the status
/// document defines, with missing values last.
pub open spec fn spec_arch_key(strategy: ArchMirrorsSortingStrategy, m: ArchMirror) -> u64 {
    match strategy {
        ArchMirrorsSortingStrategy::DelayAsc => (u64::MAX - spec_delay_enc(m.delay)) as u64,
        ArchMirrorsSortingStrategy::DelayDesc => spec_delay_enc(m.delay),
        ArchMirrorsSortingStrategy::ScoreAsc => (u64::MAX - spec_score_enc(m.score_micros)) as u64,
        ArchMirrorsSortingStrategy::ScoreDesc => spec_score_enc(m.score_micros),
        ArchMirrorsSortingStrategy::Random => 0,
    }
}

/// An order-preserving encoding of an optional delay (absent sorts
/// lowest).
pub open spec fn spec_delay_enc(d: Option<i64>) -> u64 {
    match d {
        None => 0,
        Some(x) => if x == i64::MAX {
            u64::MAX
        } else {
            (x as int + 0x8000_0000_0000_0000 + 1) as u64
        },
    }
}

/// An order-preserving encoding of an optional score (absent sorts
/// lowest); scores above the ceiling saturate.
pub open spec fn spec_score_enc(s: Option<u64>) -> u64 {
    match s {
        None => 0,
        Some(x) => if x >= u64::MAX {
            u64::MAX
        } else {
            (x + 1) as u64
        },
    }
}

/// What one status record yields: the URL, test-URL and country views of
/// its mirror, when the URL parses and the test path joins.
pub open spec fn spec_arch_record_mirror(rec: ArchMirror, path: Seq<char>, graph: CountryGraph)
    -> Option<(Seq<char>, Seq<char>, Option<Seq<char>>)> {
    match url_parse_of(rec.url@) {
        Some(p) => match url_join_of(p.0, path) {
            Some(t) => Some((p.0, t, spec_resolve_country(graph, rec.country_code@))),
            None => None,
        },
        None => None,
    }
}

/// The mirrors all the records yield, in order.
pub open spec fn spec_arch_record_mirrors(
    records: Seq<ArchMirror>,
    path: Seq<char>,
    graph: CountryGraph,
) -> Seq<(Seq<char>, Seq<char>, Option<Seq<char>>)>
    decreases records.len(),
{
    if records.len() == 0 {
        Seq::empty()
    } else {
        let rest = spec_arch_record_mirrors(records.drop_last(), path, graph);
        match spec_arch_record_mirror(records.last(), path, graph) {
            Some(x) => rest.push(x),
            None => rest,
        }
    }
}

impl ArchTarget {
    /// Prefixes a progress message with the configured comment prefix.
    pub fn format_comment(&self, message: &str) -> (r: String)
        ensures
            r@ == self.comment_prefix@ + message@,
    {
        self.comment_prefix.clone().concat(message)
    }

    /// Writes a mirror as a `Server = ` line with the repository layout
    /// variables appended.
    pub fn format_mirror(&self, mirror: &Mirror) -> (r: String)
        ensures
            r@ == "Server = "@ + mirror.url@ + "$repo/os/$arch"@,
    {
        String::from_str("Server = ").concat(mirror.url.as_str()).concat("$repo/os/$arch")
    }

    /// Keeps exactly the records that pass the sync and protocol checks,
    /// in order.
    pub fn filter_mirrors(&self, mirrors: Vec<ArchMirror>, config: &Config) -> (r: Vec<ArchMirror>)
        ensures
            r@ == spec_arch_filter(*self, *config, mirrors@),
    {
        proof {
            reveal_strlit("http");
            reveal_strlit("https");
        }
        let n = mirrors.len();
        let mut out: Vec<ArchMirror> = Vec::new();
        let mut i: usize = 0;
        while i < n
            invariant
                n == mirrors@.len(),
                0 <= i <= n,
                out@ == spec_arch_filter(*self, *config, mirrors@.subrange(0, i as int)),
            decreases n - i,
        {
            proof {
                reveal_strlit("http");
                reveal_strlit("https");
                assert(("http"@).len() == 4);
                assert(("https"@).len() == 5);
                assert(mirrors@.subrange(0, i + 1).drop_last() =~= mirrors@.subrange(0, i as int));
                assert(mirrors@.subrange(0, i + 1).last() == mirrors@[i as int]);
            }
            let m = &mirrors[i];
            let completion_ok: bool = match m.completion_permille {
                Some(c) => c >= self.completion_permille,
                None => false,
            };
            let delay_ok: bool = match m.delay {
                Some(d) => d <= self.max_delay,
                None => false,
            };
            let proto_ok: bool = match Protocol::from_str(m.protocol.as_str()) {
                Ok(p) => config.is_protocol_allowed(&p),
                Err(_) => false,
            };
            if completion_ok && delay_ok && proto_ok && m.protocol.as_str().unicode_len() > 0
                && m.country_code.as_str().unicode_len() > 0 {
                let c = clone_arch_mirror(m);
                out.push(c);
            }
            proof {
                if spec_arch_keep(*self, *config, mirrors@[i as int]) {
                    assert(mirrors@[i as int].protocol@ == "http"@ || mirrors@[i as int].protocol@
                        == "https"@);
                }
            }
            i += 1;
        }
        proof {
            assert(mirrors@.subrange(0, n as int) =~= mirrors@);
        }
        out
    }

    /// Pre-orders the records under a deterministic strategy: the stable
    /// descending sort by the strategy's key.
    pub fn sort_mirrors(&self, mirrors: Vec<ArchMirror>, strategy: ArchMirrorsSortingStrategy) -> (
        r: Vec<ArchMirror>)
        requires
            strategy != ArchMirrorsSortingStrategy::Random,
        ensures
            r@ == spec_vals(
                spec_sort_desc(
                    mirrors@.map_values(|m: ArchMirror| (spec_arch_key(strategy, m), m)),
                ),
            ),
    {
        let n = mirrors.len();
        let mut keyed: Vec<(u64, ArchMirror)> = Vec::new();
        let mut i: usize = 0;
        while i < n
            invariant
                n == mirrors@.len(),
                0 <= i <= n,
                keyed@ =~= mirrors@.subrange(0, i as int).map_values(
                    |m: ArchMirror| (spec_arch_key(strategy, m), m),
                ),
            decreases n - i,
        {
            let m = clone_arch_mirror(&mirrors[i]);
            let key: u64 = match strategy {
                ArchMirrorsSortingStrategy::DelayAsc => u64::MAX - delay_enc(m.delay),
                ArchMirrorsSortingStrategy::DelayDesc => delay_enc(m.delay),
                ArchMirrorsSortingStrategy::ScoreAsc => u64::MAX - score_enc(m.score_micros),
                ArchMirrorsSortingStrategy::ScoreDesc => score_enc(m.score_micros),
                ArchMirrorsSortingStrategy::Random => 0,
            };
            keyed.push((key, m));
            i += 1;
            proof {
                assert(keyed@ =~= mirrors@.subrange(0, i as int).map_values(
                    |m: ArchMirror| (spec_arch_key(strategy, m), m),
                ));
            }
        }
        proof {
            assert(mirrors@.subrange(0, n as int) =~= mirrors@);
        }
        let sorted = sort_pairs_desc(keyed);
        crate::engine::pairs_values(sorted)
    }

    /// Shuffles the records.
    ///
    /// Relies on `rand::seq::SliceRandom::shuffle` with `rand::rng`: the
    /// order after the call depends on the generator, but the slice keeps
    /// exactly the same records, whatever came back.
    #[verifier::external_body]
    pub fn shuffle_mirrors(&self, mirrors: &mut Vec<ArchMirror>)
        ensures
            final(mirrors)@.to_multiset() == old(mirrors)@.to_multiset(),
    {
        rand::seq::SliceRandom::shuffle(mirrors.as_mut_slice(), &mut rand::rng());
    }

    /// Turns the kept records into mirrors: exactly the records
    /// [`spec_arch_record_mirror`] accepts — URL parsed, test path joined
    /// — each carrying the country tag resolved against the graph.
    pub fn to_mirrors(&self, records: Vec<ArchMirror>, graph: &CountryGraph) -> (r: Vec<Mirror>)
        requires
            graph.wf(),
        ensures
            r@.map_values(|m: Mirror| spec_mirror_view(m)) == spec_arch_record_mirrors(
                records@,
                self.path_to_test@,
                *graph,
            ),
            forall|i: int|
                0 <= i < r@.len() ==> ((#[trigger] r@[i]).country is Some ==> graph.spec_has_code(
                    r@[i].country->0@,
                )) && r@[i].base_path is None,
    {
        let n = records.len();
        let mut out: Vec<Mirror> = Vec::new();
        let ghost gviews = Seq::<(Seq<char>, Seq<char>, Option<Seq<char>>)>::empty();
        let mut i: usize = 0;
        while i < n
            invariant
                n == records@.len(),
                0 <= i <= n,
                graph.wf(),
                gviews == spec_arch_record_mirrors(
                    records@.subrange(0, i as int),
                    self.path_to_test@,
                    *graph,
                ),
                gviews.len() == out@.len(),
                forall|k: int|
                    0 <= k < out@.len() ==> gviews[k] == spec_mirror_view(#[trigger] out@[k]),
                forall|k: int|
                    0 <= k < out@.len() ==> ((#[trigger] out@[k]).country is Some
                        ==> graph.spec_has_code(out@[k].country->0@)) && out@[k].base_path
                        is None,
            decreases n - i,
        {
            proof {
                assert(records@.subrange(0, i + 1).drop_last() =~= records@.subrange(0, i as int));
                assert(records@.subrange(0, i + 1).last() == records@[i as int]);
            }
            match parse_url(records[i].url.as_str()) {
                Some(p) => {
                    match join_url(p.0.as_str(), self.path_to_test.as_str()) {
                        Some(test) => {
                            let country: Option<String> = match graph.lookup(
                                records[i].country_code.as_str(),
                            ) {
                                Some(c) => Some(c.code.clone()),
                                None => None,
                            };
                            proof {
                                if country is Some {
                                    let g = *graph;
                                    let w = choose|w: int|
                                        0 <= w < g.spec_countries().len() && (
                                        #[trigger] g.spec_countries()[w]).code@
                                            == crate::countries::spec_upper(
                                            records@[i as int].country_code@,
                                        );
                                    assert(g.spec_countries()[w].code@ == country->0@);
                                }
                                gviews = gviews.push(
                                    (
                                        p.0@,
                                        test@,
                                        spec_resolve_country(
                                            *graph,
                                            records@[i as int].country_code@,
                                        ),
                                    ),
                                );
                            }
                            out.push(
                                Mirror { url: p.0, url_to_test: test, country, base_path: None },
                            );
                        },
                        None => {},
                    }
                },
                None => {},
            }
            i += 1;
            proof {
                assert(gviews =~= spec_arch_record_mirrors(
                    records@.subrange(0, i as int),
                    self.path_to_test@,
                    *graph,
                ));
            }
        }
        proof {
            assert(records@.subrange(0, n as int) =~= records@);
            let m = out@.map_values(|m: Mirror| spec_mirror_view(m));
            assert forall|k: int| 0 <= k < m.len() implies m[k] == gviews[k] by {
                assert(m[k] == spec_mirror_view(out@[k]));
            }
            assert(m =~= gviews);
        }
        out
    }
}

/// Executable form of [`spec_delay_enc`].
fn delay_enc(d: Option<i64>) -> (r: u64)
    ensures
        r == spec_delay_enc(d),
{
    match d {
        None => 0,
        Some(x) => {
            if x == i64::MAX {
                u64::MAX
            } else if x >= 0 {
                (x as u64) + 0x8000_0000_0000_0001
            } else {
                ((x + 0x4000_0000_0000_0000 + 0x4000_0000_0000_0000) as u64) + 1
            }
        },
    }
}

/// Executable form of [`spec_score_enc`].
fn score_enc(s: Option<u64>) -> (r: u64)
    ensures
        r == spec_score_enc(s),
{
    match s {
        None => 0,
        Some(x) => {
            if x >= u64::MAX {
                u64::MAX
            } else {
                x + 1
            }
        },
    }
}

} // verus!
