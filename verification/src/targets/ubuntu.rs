//! The Ubuntu archive-mirror table: keeping the up-to-date rows and
//! choosing one allowed URL per mirror.  Walking the fetched HTML into
//! rows is the caller's business.

use vstd::prelude::*;

use crate::config::{Config, spec_preferred_idx, spec_url_allowed};
use crate::countries::CountryGraph;
use crate::mirror::Mirror;
use crate::strutil::str_eq;
use crate::target_configs::ubuntu::UbuntuTarget;
use crate::urls::{join_url, url_join_of};

verus! {

/// One row of the mirror table, as plain values.
#[derive(Clone, Debug)]
pub struct UbuntuMirrorInfo {
    /// The row's mirror URLs, one per offered scheme.
    pub urls: Vec<String>,
    /// Whether the row's state column read "up to date".
    pub is_up_to_date: bool,
}

/// What one table row yields: the URL and test-URL views of its mirror,
/// when the row is up to date, some offered URL passes the filter (the
/// first such wins), and the test path joins.
pub open spec fn spec_ubuntu_row(row: UbuntuMirrorInfo, cfg: Config, path: Seq<char>) -> Option<
    (Seq<char>, Seq<char>),
> {
    if !row.is_up_to_date {
        None
    } else {
        match spec_preferred_idx(cfg, row.urls@) {
            Some(i) => match url_join_of(row.urls@[i]@, path) {
                Some(t) => Some((row.urls@[i]@, t)),
                None => None,
            },
            None => None,
        }
    }
}

/// The mirrors all the rows of one country block yield, in order.
pub open spec fn spec_ubuntu_rows(rows: Seq<UbuntuMirrorInfo>, cfg: Config, path: Seq<char>) -> Seq<
    (Seq<char>, Seq<char>),
>
    decreases rows.len(),
{
    if rows.len() == 0 {
        Seq::empty()
    } else {
        let rest = spec_ubuntu_rows(rows.drop_last(), cfg, path);
        match spec_ubuntu_row(rows.last(), cfg, path) {
            Some(x) => rest.push(x),
            None => rest,
        }
    }
}

/// Whether a state-column text means the mirror is current.
pub fn state_is_up_to_date(state: &str) -> (r: bool)
    ensures
        r == (state@ == "up to date"@),
{
    str_eq(state, "up to date")
}

impl UbuntuTarget {
    /// Prefixes a progress message with the configured comment prefix.
    pub fn format_comment(&self, message: &str) -> (r: String)
        ensures
            r@ == self.comment_prefix@ + message@,
    {
        self.comment_prefix.clone().concat(message)
    }

    /// Writes a mirror as its sources.list entries.
    pub fn format_mirror(&self, mirror: &Mirror) -> (r: String)
        ensures
            r@ == crate::strutil::spec_joined(
                crate::targets::debian::spec_debian_lines(
                    self.source_list_opts.types@.map_values(|s: String| s@),
                    self.source_list_opts.options@.map_values(|s: String| s@),
                    mirror.url@,
                    self.source_list_opts.suites@.map_values(|s: String| s@),
                    self.source_list_opts.components@.map_values(|s: String| s@),
                ),
                "\n"@,
            ),
    {
        crate::targets::debian::format_debian_mirror(&self.source_list_opts, mirror)
    }

    /// Builds the mirrors of one country block: exactly the rows
    /// [`spec_ubuntu_rows`] keeps — up to date, first allowed URL, test
    /// path joined — each carrying the country when it resolves against
    /// the graph.
    pub fn build_mirrors(
        &self,
        country_name: &str,
        rows: Vec<UbuntuMirrorInfo>,
        config: &Config,
        graph: &CountryGraph,
    ) -> (r: Vec<Mirror>)
        requires
            graph.wf(),
        ensures
            r@.map_values(|m: Mirror| (m.url@, m.url_to_test@)) == spec_ubuntu_rows(
                rows@,
                *config,
                self.path_to_test@,
            ),
            forall|i: int|
                0 <= i < r@.len() ==> {
                    &&& spec_url_allowed(*config, (#[trigger] r@[i]).url@)
                    &&& (r@[i].country is Some ==> graph.spec_has_code(r@[i].country->0@))
                    &&& r@[i].base_path is None
                },
    {
        let country: Option<String> = match graph.lookup(country_name) {
            Some(c) => Some(c.code.clone()),
            None => None,
        };
        proof {
            if country is Some {
                let g = *graph;
                let w = choose|w: int|
                    0 <= w < g.spec_countries().len() && (#[trigger] g.spec_countries()[w]).code@
                        == crate::countries::spec_upper(country_name@);
                assert(g.spec_countries()[w].code@ == country->0@);
            }
        }
        let n = rows.len();
        let mut out: Vec<Mirror> = Vec::new();
        let ghost gviews = Seq::<(Seq<char>, Seq<char>)>::empty();
        let mut i: usize = 0;
        while i < n
            invariant
                n == rows@.len(),
                0 <= i <= n,
                graph.wf(),
                country is Some ==> graph.spec_has_code(country->0@),
                gviews == spec_ubuntu_rows(rows@.subrange(0, i as int), *config, self.path_to_test@),
                gviews.len() == out@.len(),
                forall|k: int|
                    0 <= k < out@.len() ==> gviews[k] == ((#[trigger] out@[k]).url@,
                    out@[k].url_to_test@),
                forall|k: int|
                    0 <= k < out@.len() ==> {
                        &&& spec_url_allowed(*config, (#[trigger] out@[k]).url@)
                        &&& (out@[k].country is Some ==> graph.spec_has_code(out@[k].country->0@))
                        &&& out@[k].base_path is None
                    },
            decreases n - i,
        {
            proof {
                assert(rows@.subrange(0, i + 1).drop_last() =~= rows@.subrange(0, i as int));
                assert(rows@.subrange(0, i + 1).last() == rows@[i as int]);
            }
            if rows[i].is_up_to_date {
                proof {
                    crate::config::lemma_preferred_idx_some(*config, rows@[i as int].urls@);
                }
                let preferred: Option<String> = match config.get_preferred_url(&rows[i].urls) {
                    Some(u) => Some(u.clone()),
                    None => None,
                };
                if let Some(url) = preferred {
                    match join_url(url.as_str(), self.path_to_test.as_str()) {
                        Some(test) => {
                            let c: Option<String> = match &country {
                                Some(c) => Some(c.clone()),
                                None => None,
                            };
                            proof {
                                gviews = gviews.push((url@, test@));
                            }
                            out.push(
                                Mirror { url, url_to_test: test, country: c, base_path: None },
                            );
                        },
                        None => {},
                    }
                }
            }
            i += 1;
            proof {
                assert(gviews =~= spec_ubuntu_rows(
                    rows@.subrange(0, i as int),
                    *config,
                    self.path_to_test@,
                ));
            }
        }
        proof {
            assert(rows@.subrange(0, n as int) =~= rows@);
            let m = crate::mirror::spec_mirror_views(out@);
            assert forall|k: int| 0 <= k < m.len() implies m[k] == gviews[k] by {
                assert(m[k] == (out@[k].url@, out@[k].url_to_test@));
            }
            assert(m =~= gviews);
        }
        out
    }
}

} // verus!
