//! The Artix mirror list: `##` country headers over possibly commented
//! `Server = ` lines.

use vstd::prelude::*;

use crate::config::{Config, spec_url_allowed};
use crate::countries::CountryGraph;
use crate::mirror::{Mirror, spec_mirror_view, spec_resolve_country};
use crate::strutil::{
    chars_of, replace_chars, spec_lines, spec_replace, spec_starts_with, spec_trim_start,
    split_lines, string_from_chars, strip_prefix, trim_start,
};
use crate::target_configs::artix::ArtixTarget;
use crate::urls::{join_url, parse_url, url_join_of, url_parse_of};

verus! {

/// The mirrors the lines yield, read front to back: `##` headers set the
/// country (resolved against the graph) of the `Server = ` lines that
/// follow, commented-out server lines included; a URL must parse, pass
/// the filter, and join with the repository base path.
pub open spec fn spec_artix_list(
    lines: Seq<Seq<char>>,
    cfg: Config,
    base: Seq<char>,
    graph: CountryGraph,
    country: Option<Seq<char>>,
) -> Seq<(Seq<char>, Seq<char>, Option<Seq<char>>)>
    decreases lines.len(),
{
    if lines.len() == 0 {
        Seq::empty()
    } else {
        let trimmed = spec_trim_start(lines[0]);
        if spec_starts_with(trimmed, "##"@) {
            spec_artix_list(
                lines.drop_first(),
                cfg,
                base,
                graph,
                spec_resolve_country(
                    graph,
                    spec_trim_start(trimmed.skip(("##"@).len() as int)),
                ),
            )
        } else {
            let uncommented = if spec_starts_with(trimmed, "#"@) {
                spec_trim_start(trimmed.skip(("#"@).len() as int))
            } else {
                trimmed
            };
            let rest = spec_artix_list(lines.drop_first(), cfg, base, graph, country);
            if spec_starts_with(uncommented, "Server = "@) {
                let cleaned = spec_replace(
                    uncommented.skip(("Server = "@).len() as int),
                    "$repo/os/$arch"@,
                    ""@,
                );
                if cleaned.len() == 0 {
                    rest
                } else {
                    match url_parse_of(cleaned) {
                        Some(p) => if spec_url_allowed(cfg, p.0) {
                            match url_join_of(p.0, base) {
                                Some(t) => seq![(p.0, t, country)] + rest,
                                None => rest,
                            }
                        } else {
                            rest
                        },
                        None => rest,
                    }
                }
            } else {
                rest
            }
        }
    }
}

impl ArtixTarget {
    /// Prefixes a progress message with the configured comment prefix.
    pub fn format_comment(&self, message: &str) -> (r: String)
        ensures
            r@ == self.comment_prefix@ + message@,
    {
        self.comment_prefix.clone().concat(message)
    }

    /// Writes a mirror as a `Server = ` line with the repository layout
    /// variables appended.
    pub fn format_mirror(&self, mirror: &Mirror) -> (r: String)
        ensures
            r@ == "Server = "@ + mirror.url@ + "$repo/os/$arch"@,
    {
        String::from_str("Server = ").concat(mirror.url.as_str()).concat("$repo/os/$arch")
    }

    /// Parses the fetched mirror list: exactly the mirrors
    /// [`spec_artix_list`] reads off the lines, starting with no country,
    /// each carrying the base path.
    pub fn parse_mirror_list(&self, output: &str, config: &Config, graph: &CountryGraph) -> (r:
        Vec<Mirror>)
        requires
            graph.wf(),
        ensures
            r@.map_values(|m: Mirror| spec_mirror_view(m)) == spec_artix_list(
                spec_lines(output@),
                *config,
                self.base_path@,
                *graph,
                None,
            ),
            forall|i: int|
                0 <= i < r@.len() ==> {
                    &&& spec_url_allowed(*config, (#[trigger] r@[i]).url@)
                    &&& (r@[i].country is Some ==> graph.spec_has_code(r@[i].country->0@))
                    &&& r@[i].base_path == Some(self.base_path)
                },
    {
        let ov = chars_of(output);
        let lines = split_lines(&ov);
        let ghost lview = lines@.map_values(|x: Vec<char>| x@);
        let dhash = chars_of("##");
        let hash = chars_of("#");
        let server = chars_of("Server = ");
        let repoarch = chars_of("$repo/os/$arch");
        let empty = chars_of("");
        let mut current_country: Option<String> = None;
        let mut out: Vec<Mirror> = Vec::new();
        let ghost gviews = Seq::<(Seq<char>, Seq<char>, Option<Seq<char>>)>::empty();
        let n = lines.len();
        let mut i: usize = 0;
        proof {
            assert(lview.skip(0) =~= lview);
        }
        while i < n
            invariant
                n == lines@.len(),
                0 <= i <= n,
                lview == lines@.map_values(|x: Vec<char>| x@),
                dhash@ == "##"@,
                hash@ == "#"@,
                server@ == "Server = "@,
                repoarch@ == "$repo/os/$arch"@,
                empty@ == ""@,
                graph.wf(),
                current_country is Some ==> graph.spec_has_code(current_country->0@),
                spec_artix_list(lview, *config, self.base_path@, *graph, None) == gviews
                    + spec_artix_list(
                    lview.skip(i as int),
                    *config,
                    self.base_path@,
                    *graph,
                    match current_country {
                        Some(c) => Some(c@),
                        None => None,
                    },
                ),
                gviews.len() == out@.len(),
                forall|k: int|
                    0 <= k < out@.len() ==> gviews[k] == spec_mirror_view(#[trigger] out@[k]),
                forall|k: int|
                    0 <= k < out@.len() ==> {
                        &&& spec_url_allowed(*config, (#[trigger] out@[k]).url@)
                        &&& (out@[k].country is Some ==> graph.spec_has_code(out@[k].country->0@))
                        &&& out@[k].base_path == Some(self.base_path)
                    },
            decreases n - i,
        {
            proof {
                assert(lview.skip(i as int)[0] == lview[i as int]);
                assert(lview.skip(i as int).drop_first() =~= lview.skip(i + 1));
                assert(lview[i as int] == lines@[i as int]@);
            }
            let trimmed = trim_start(&lines[i]);
            if let Some(name_raw) = strip_prefix(&trimmed, &dhash) {
                let name = trim_start(&name_raw);
                let name_s = string_from_chars(&name);
                current_country = match graph.lookup(name_s.as_str()) {
                    Some(c) => Some(c.code.clone()),
                    None => None,
                };
                proof {
                    if current_country is Some {
                        let g = *graph;
                        let w = choose|w: int|
                            0 <= w < g.spec_countries().len() && (
                            #[trigger] g.spec_countries()[w]).code@ == crate::countries::spec_upper(
                                name_s@,
                            );
                        assert(g.spec_countries()[w].code@ == current_country->0@);
                    }
                    assert(match &current_country {
                        Some(c) => Some(c@),
                        None => None::<Seq<char>>,
                    } == spec_resolve_country(
                        *graph,
                        spec_trim_start(spec_trim_start(lview[i as int]).skip(("##"@).len() as int)),
                    ));
                }
            } else {
                let uncommented: Vec<char> = match strip_prefix(&trimmed, &hash) {
                    Some(rest) => trim_start(&rest),
                    None => trimmed,
                };
                if let Some(rest) = strip_prefix(&uncommented, &server) {
                    let cleaned = replace_chars(&rest, &repoarch, &empty);
                    if cleaned.len() > 0 {
                        let text = string_from_chars(&cleaned);
                        match parse_url(text.as_str()) {
                            Some(p) => {
                                if config.is_protocol_allowed_for_url(p.0.as_str()) {
                                    match join_url(p.0.as_str(), self.base_path.as_str()) {
                                        Some(test) => {
                                            let country: Option<String> = match &current_country {
                                                Some(c) => Some(c.clone()),
                                                None => None,
                                            };
                                            proof {
                                                gviews = gviews.push(
                                                    (
                                                        p.0@,
                                                        test@,
                                                        match &current_country {
                                                            Some(c) => Some(c@),
                                                            None => None,
                                                        },
                                                    ),
                                                );
                                            }
                                            out.push(
                                                Mirror {
                                                    url: p.0,
                                                    url_to_test: test,
                                                    country,
                                                    base_path: Some(self.base_path.clone()),
                                                },
                                            );
                                        },
                                        None => {},
                                    }
                                }
                            },
                            None => {},
                        }
                    }
                }
            }
            i += 1;
            proof {
                assert(spec_artix_list(lview, *config, self.base_path@, *graph, None) =~= gviews
                    + spec_artix_list(
                    lview.skip(i as int),
                    *config,
                    self.base_path@,
                    *graph,
                    match current_country {
                        Some(c) => Some(c@),
                        None => None,
                    },
                ));
            }
        }
        proof {
            assert(lview.skip(n as int) =~= Seq::<Seq<char>>::empty());
            assert(spec_artix_list(lview, *config, self.base_path@, *graph, None) =~= gviews);
            let m = out@.map_values(|m: Mirror| spec_mirror_view(m));
            assert forall|k: int| 0 <= k < m.len() implies m[k] == gviews[k] by {
                assert(m[k] == spec_mirror_view(out@[k]));
            }
            assert(m =~= gviews);
        }
        out
    }
}

} // verus!
