//! The Manjaro mirror status: filtering fetched records by branch and
//! sync age, and choosing a URL per mirror.

use vstd::prelude::*;

use crate::config::{Config, spec_url_allowed};
use crate::countries::CountryGraph;
use crate::mirror::{Mirror, spec_mirror_view, spec_resolve_country};
use crate::target_configs::manjaro::{ManjaroBranch, ManjaroTarget};
use crate::urls::{join_url, parse_url, url_join_of, url_parse_of};

verus! {

/// One record of the fetched status document, held as plain values; the
/// branch flags are in document order (stable, testing, unstable).
#[derive(Clone, Debug)]
pub struct ManjaroMirrorData {
    /// Per-branch availability flags.
    pub branches: Vec<i8>,
    /// Country name of the mirror.
    pub country: String,
    /// The `last_sync` timestamp text, when the document carried one.
    pub last_sync: Option<String>,
    /// URL schemes the mirror serves.
    pub protocols: Vec<String>,
    /// Host part of the mirror's URL.
    pub url: String,
}

/// What chrono reads out of a `YYYY-MM-DD HH:MM` timestamp: seconds since
/// the epoch, a function of the text alone; nothing when the text does
/// not match the format.
pub uninterp spec fn datetime_seconds_of(s: Seq<char>) -> Option<int>;

/// Relies on `chrono::NaiveDateTime::parse_from_str` with the
/// `%Y-%m-%d %H:%M` format, and `timestamp` on the parsed value: both
/// depend on the text alone.
#[verifier::external_body]
fn parse_sync_timestamp(s: &str) -> (r: Option<i64>)
    ensures
        match (r, datetime_seconds_of(s@)) {
            (Some(x), Some(y)) => x as int == y,
            (None, None) => true,
            _ => false,
        },
{
    chrono::NaiveDateTime::parse_from_str(s, "%Y-%m-%d %H:%M")
        .ok()
        .map(|dt| dt.and_utc().timestamp())
}


/// The candidate URLs a record offers: one per scheme that parses against
/// the record's host, as normalized serializations.
pub open spec fn spec_manjaro_candidates(protocols: Seq<String>, host: Seq<char>) -> Seq<Seq<char>>
    decreases protocols.len(),
{
    if protocols.len() == 0 {
        Seq::empty()
    } else {
        let rest = spec_manjaro_candidates(protocols.drop_last(), host);
        match url_parse_of(protocols.last()@ + "://"@ + host) {
            Some(p) => rest.push(p.0),
            None => rest,
        }
    }
}

/// The first candidate view passing the filter, if any.
pub open spec fn spec_first_allowed(cands: Seq<Seq<char>>, cfg: Config) -> Option<int>
    decreases cands.len(),
{
    if cands.len() == 0 {
        None
    } else if spec_url_allowed(cfg, cands[0]) {
        Some(0)
    } else {
        match spec_first_allowed(cands.drop_first(), cfg) {
            Some(i) => Some(i + 1),
            None => None,
        }
    }
}

/// Choosing by entry or by view is the same choice, since the filter
/// reads views only.
proof fn lemma_first_allowed_view(cfg: Config, cs: Seq<String>, cands: Seq<Seq<char>>)
    requires
        cs.len() == cands.len(),
        forall|k: int| 0 <= k < cs.len() ==> (#[trigger] cs[k])@ == cands[k],
    ensures
        crate::config::spec_preferred_idx(cfg, cs) == spec_first_allowed(cands, cfg),
    decreases cs.len(),
{
    if cs.len() > 0 && !spec_url_allowed(cfg, cs[0]@) {
        assert forall|k: int|
            0 <= k < cs.drop_first().len() implies (#[trigger] cs.drop_first()[k])@
            == cands.drop_first()[k] by {
            assert(cs.drop_first()[k] == cs[k + 1]);
        }
        lemma_first_allowed_view(cfg, cs.drop_first(), cands.drop_first());
    }
}

/// The lowercase name of a branch.
pub open spec fn spec_branch_text(b: ManjaroBranch) -> Seq<char> {
    match b {
        ManjaroBranch::Stable => "stable"@,
        ManjaroBranch::Testing => "testing"@,
        ManjaroBranch::Unstable => "unstable"@,
    }
}

/// What one status record yields: the URL, test-URL and country views of
/// its mirror, when the record synced recently enough (its timestamp
/// against `now_ts`), serves the branch, offers an allowed URL (the first
/// such wins), and both the branch directory and the test path join.
pub open spec fn spec_manjaro_record(
    rec: ManjaroMirrorData,
    cfg: Config,
    max_delay: i64,
    path: Seq<char>,
    branch: ManjaroBranch,
    graph: CountryGraph,
    now_ts: i64,
) -> Option<(Seq<char>, Seq<char>, Option<Seq<char>>)> {
    let synced = match rec.last_sync {
        Some(text) => match datetime_seconds_of(text@) {
            Some(ts) => now_ts - ts <= max_delay,
            None => false,
        },
        None => false,
    };
    let bidx: int = match branch {
        ManjaroBranch::Stable => 0,
        ManjaroBranch::Testing => 1,
        ManjaroBranch::Unstable => 2,
    };
    let branch_ok = bidx < rec.branches@.len() && rec.branches@[bidx] > 0;
    if !synced || !branch_ok {
        None
    } else {
        let cands = spec_manjaro_candidates(rec.protocols@, rec.url@);
        match spec_first_allowed(cands, cfg) {
            Some(i) => {
                let u = cands[i];
                match url_join_of(u, spec_branch_text(branch) + "/"@) {
                    Some(mid) => match url_join_of(mid, path) {
                        Some(t) => Some((u, t, spec_resolve_country(graph, rec.country@))),
                        None => None,
                    },
                    None => None,
                }
            },
            None => None,
        }
    }
}

/// The mirrors all the records yield, in order.
pub open spec fn spec_manjaro_records(
    records: Seq<ManjaroMirrorData>,
    cfg: Config,
    max_delay: i64,
    path: Seq<char>,
    branch: ManjaroBranch,
    graph: CountryGraph,
    now_ts: i64,
) -> Seq<(Seq<char>, Seq<char>, Option<Seq<char>>)>
    decreases records.len(),
{
    if records.len() == 0 {
        Seq::empty()
    } else {
        let rest = spec_manjaro_records(
            records.drop_last(),
            cfg,
            max_delay,
            path,
            branch,
            graph,
            now_ts,
        );
        match spec_manjaro_record(records.last(), cfg, max_delay, path, branch, graph, now_ts) {
            Some(x) => rest.push(x),
            None => rest,
        }
    }
}

impl ManjaroTarget {
    /// Prefixes a progress message with the configured comment prefix.
    pub fn format_comment(&self, message: &str) -> (r: String)
        ensures
            r@ == self.comment_prefix@ + message@,
    {
        self.comment_prefix.clone().concat(message)
    }

    /// Writes a mirror as a `Server = ` line with the branch and the
    /// repository layout variables appended.
    pub fn format_mirror(&self, mirror: &Mirror) -> (r: String)
        ensures
            self.branch == ManjaroBranch::Stable ==> r@ == "Server = "@ + mirror.url@ + "stable"@
                + "/$repo/$arch"@,
            self.branch == ManjaroBranch::Testing ==> r@ == "Server = "@ + mirror.url@ + "testing"@
                + "/$repo/$arch"@,
            self.branch == ManjaroBranch::Unstable ==> r@ == "Server = "@ + mirror.url@
                + "unstable"@ + "/$repo/$arch"@,
    {
        String::from_str("Server = ").concat(mirror.url.as_str()).concat(
            self.branch.as_text().as_str(),
        ).concat("/$repo/$arch")
    }

    /// Turns the fetched records into mirrors: exactly the records
    /// [`spec_manjaro_records`] accepts, each carrying the country
    /// resolved against the graph.
    pub fn to_mirrors(
        &self,
        records: Vec<ManjaroMirrorData>,
        config: &Config,
        graph: &CountryGraph,
        now_ts: i64,
    ) -> (r: Vec<Mirror>)
        requires
            graph.wf(),
        ensures
            r@.map_values(|m: Mirror| spec_mirror_view(m)) == spec_manjaro_records(
                records@,
                *config,
                self.max_delay,
                self.path_to_test@,
                self.branch,
                *graph,
                now_ts,
            ),
            forall|i: int|
                0 <= i < r@.len() ==> {
                    &&& spec_url_allowed(*config, (#[trigger] r@[i]).url@)
                    &&& (r@[i].country is Some ==> graph.spec_has_code(r@[i].country->0@))
                    &&& r@[i].base_path is None
                },
    {
        let n = records.len();
        let mut out: Vec<Mirror> = Vec::new();
        let ghost gviews = Seq::<(Seq<char>, Seq<char>, Option<Seq<char>>)>::empty();
        let branch_idx: usize = match self.branch {
            ManjaroBranch::Stable => 0,
            ManjaroBranch::Testing => 1,
            ManjaroBranch::Unstable => 2,
        };
        let mut i: usize = 0;
        while i < n
            invariant
                n == records@.len(),
                0 <= i <= n,
                graph.wf(),
                branch_idx as int == (match self.branch {
                    ManjaroBranch::Stable => 0int,
                    ManjaroBranch::Testing => 1int,
                    ManjaroBranch::Unstable => 2int,
                }),
                gviews == spec_manjaro_records(
                    records@.subrange(0, i as int),
                    *config,
                    self.max_delay,
                    self.path_to_test@,
                    self.branch,
                    *graph,
                    now_ts,
                ),
                gviews.len() == out@.len(),
                forall|k: int|
                    0 <= k < out@.len() ==> gviews[k] == spec_mirror_view(#[trigger] out@[k]),
                forall|k: int|
                    0 <= k < out@.len() ==> {
                        &&& spec_url_allowed(*config, (#[trigger] out@[k]).url@)
                        &&& (out@[k].country is Some ==> graph.spec_has_code(out@[k].country->0@))
                        &&& out@[k].base_path is None
                    },
            decreases n - i,
        {
            proof {
                assert(records@.subrange(0, i + 1).drop_last() =~= records@.subrange(0, i as int));
                assert(records@.subrange(0, i + 1).last() == records@[i as int]);
            }
            let rec = &records[i];
            let synced: bool = match &rec.last_sync {
                Some(text) => match parse_sync_timestamp(text.as_str()) {
                    Some(ts) => (now_ts as i128) - (ts as i128) <= self.max_delay as i128,
                    None => false,
                },
                None => false,
            };
            let branch_ok: bool = branch_idx < rec.branches.len() && rec.branches[branch_idx] > 0;
            if synced && branch_ok {
                // build one candidate URL per offered scheme, keep the
                // first allowed one
                let pn = rec.protocols.len();
                let mut candidates: Vec<String> = Vec::new();
                let ghost cviews = Seq::<Seq<char>>::empty();
                let mut j: usize = 0;
                while j < pn
                    invariant
                        pn == records@[i as int].protocols@.len(),
                        0 <= i < n == records@.len(),
                        0 <= j <= pn,
                        cviews == spec_manjaro_candidates(
                            records@[i as int].protocols@.subrange(0, j as int),
                            records@[i as int].url@,
                        ),
                        cviews.len() == candidates@.len(),
                        forall|k: int|
                            0 <= k < candidates@.len() ==> (#[trigger] candidates@[k])@
                                == cviews[k],
                    decreases pn - j,
                {
                    proof {
                        assert(records@[i as int].protocols@.subrange(0, j + 1).drop_last()
                            =~= records@[i as int].protocols@.subrange(0, j as int));
                        assert(records@[i as int].protocols@.subrange(0, j + 1).last()
                            == records@[i as int].protocols@[j as int]);
                    }
                    let candidate = records[i].protocols[j].clone().concat("://").concat(
                        records[i].url.as_str(),
                    );
                    proof {
                        assert(candidate@ == records@[i as int].protocols@[j as int]@ + "://"@
                            + records@[i as int].url@);
                    }
                    match parse_url(candidate.as_str()) {
                        Some(p) => {
                            proof {
                                cviews = cviews.push(p.0@);
                            }
                            candidates.push(p.0);
                        },
                        None => {},
                    }
                    j += 1;
                    proof {
                        assert(cviews =~= spec_manjaro_candidates(
                            records@[i as int].protocols@.subrange(0, j as int),
                            records@[i as int].url@,
                        ));
                    }
                }
                proof {
                    assert(records@[i as int].protocols@.subrange(0, pn as int)
                        =~= records@[i as int].protocols@);
                    lemma_first_allowed_view(*config, candidates@, cviews);
                    crate::config::lemma_preferred_idx_some(*config, candidates@);
                }
                let preferred: Option<String> = match config.get_preferred_url(&candidates) {
                    Some(u) => Some(u.clone()),
                    None => None,
                };
                if let Some(url) = preferred {
                    let branch_dir = self.branch.as_text().concat("/");
                    proof {
                        assert(branch_dir@ == spec_branch_text(self.branch) + "/"@);
                    }
                    let mid = join_url(url.as_str(), branch_dir.as_str());
                    if let Some(mid) = mid {
                        match join_url(mid.as_str(), self.path_to_test.as_str()) {
                            Some(test) => {
                                let country: Option<String> = match graph.lookup(
                                    records[i].country.as_str(),
                                ) {
                                    Some(c) => Some(c.code.clone()),
                                    None => None,
                                };
                                proof {
                                    if country is Some {
                                        let g = *graph;
                                        let w = choose|w: int|
                                            0 <= w < g.spec_countries().len() && (
                                            #[trigger] g.spec_countries()[w]).code@
                                                == crate::countries::spec_upper(
                                                records@[i as int].country@,
                                            );
                                        assert(g.spec_countries()[w].code@ == country->0@);
                                    }
                                    gviews = gviews.push(
                                        (
                                            url@,
                                            test@,
                                            spec_resolve_country(
                                                *graph,
                                                records@[i as int].country@,
                                            ),
                                        ),
                                    );
                                }
                                out.push(
                                    Mirror {
                                        url,
                                        url_to_test: test,
                                        country,
                                        base_path: None,
                                    },
                                );
                            },
                            None => {},
                        }
                    }
                }
            }
            i += 1;
            proof {
                assert(gviews =~= spec_manjaro_records(
                    records@.subrange(0, i as int),
                    *config,
                    self.max_delay,
                    self.path_to_test@,
                    self.branch,
                    *graph,
                    now_ts,
                ));
            }
        }
        proof {
            assert(records@.subrange(0, n as int) =~= records@);
            let m = out@.map_values(|m: Mirror| spec_mirror_view(m));
            assert forall|k: int| 0 <= k < m.len() implies m[k] == gviews[k] by {
                assert(m[k] == spec_mirror_view(out@[k]));
            }
            assert(m =~= gviews);
        }
        out
    }
}

} // verus!
