//! The BlackArch mirror list: `COUNTRY|url|host` lines.

use vstd::prelude::*;

use crate::config::{Config, spec_url_allowed};
use crate::countries::CountryGraph;
use crate::mirror::{Mirror, spec_mirror_view, spec_resolve_country};
use crate::strutil::{
    chars_of, replace_chars, spec_lines, spec_replace, spec_split, spec_starts_with, split_chars,
    split_lines, starts_with, string_from_chars,
};
use crate::target_configs::blackarch::BlackArchTarget;
use crate::urls::{join_url, parse_url, url_join_of, url_parse_of};

verus! {

/// What one list line yields: the URL, test-URL and country views of its
/// mirror, for an uncommented pipe-separated line with at least two
/// fields whose URL field (free of the layout variables) parses, passes
/// the filter, and joins with the repository's `.files` database.
pub open spec fn spec_blackarch_line(
    line: Seq<char>,
    cfg: Config,
    db: Seq<char>,
    graph: CountryGraph,
) -> Option<(Seq<char>, Seq<char>, Option<Seq<char>>)> {
    if spec_starts_with(line, "#"@) {
        None
    } else {
        let pieces = spec_split(line, "|"@);
        if pieces.len() < 2 {
            None
        } else {
            let cleaned = spec_replace(pieces[1], "$repo/os/$arch"@, ""@);
            match url_parse_of(cleaned) {
                Some(p) => if spec_url_allowed(cfg, p.0) {
                    match url_join_of(p.0, db) {
                        Some(t) => Some((p.0, t, spec_resolve_country(graph, pieces[0]))),
                        None => None,
                    }
                } else {
                    None
                },
                None => None,
            }
        }
    }
}

/// The mirrors all the lines yield, in order.
pub open spec fn spec_blackarch_list(
    lines: Seq<Seq<char>>,
    cfg: Config,
    db: Seq<char>,
    graph: CountryGraph,
) -> Seq<(Seq<char>, Seq<char>, Option<Seq<char>>)>
    decreases lines.len(),
{
    if lines.len() == 0 {
        Seq::empty()
    } else {
        let rest = spec_blackarch_list(lines.drop_last(), cfg, db, graph);
        match spec_blackarch_line(lines.last(), cfg, db, graph) {
            Some(x) => rest.push(x),
            None => rest,
        }
    }
}

impl BlackArchTarget {
    /// Prefixes a progress message with the configured comment prefix.
    pub fn format_comment(&self, message: &str) -> (r: String)
        ensures
            r@ == self.comment_prefix@ + message@,
    {
        self.comment_prefix.clone().concat(message)
    }

    /// Writes a mirror as a `Server = ` line with the configured
    /// architecture or the placeholder.
    pub fn format_mirror(&self, mirror: &Mirror) -> (r: String)
        ensures
            self.arch@ == "auto"@ ==> r@ == "Server = "@ + mirror.url@ + "$repo/os/"@ + "$arch"@,
            self.arch@ != "auto"@ ==> r@ == "Server = "@ + mirror.url@ + "$repo/os/"@ + self.arch@,
    {
        proof {
            reveal_strlit("auto");
        }
        let arch: &str = if crate::strutil::str_eq(self.arch.as_str(), "auto") {
            "$arch"
        } else {
            self.arch.as_str()
        };
        String::from_str("Server = ").concat(mirror.url.as_str()).concat("$repo/os/").concat(arch)
    }

    /// Parses the fetched list: exactly the mirrors
    /// [`spec_blackarch_list`] reads off the lines, each carrying the
    /// base path and the country when it resolves against the graph.
    pub fn parse_mirror_list(&self, output: &str, config: &Config, graph: &CountryGraph) -> (r:
        Vec<Mirror>)
        requires
            graph.wf(),
        ensures
            r@.map_values(|m: Mirror| spec_mirror_view(m)) == spec_blackarch_list(
                spec_lines(output@),
                *config,
                self.base_path@ + ".files"@,
                *graph,
            ),
            forall|i: int|
                0 <= i < r@.len() ==> {
                    &&& spec_url_allowed(*config, (#[trigger] r@[i]).url@)
                    &&& (r@[i].country is Some ==> graph.spec_has_code(r@[i].country->0@))
                    &&& r@[i].base_path == Some(self.base_path)
                },
    {
        let ov = chars_of(output);
        let lines = split_lines(&ov);
        let ghost lview = lines@.map_values(|x: Vec<char>| x@);
        let hash = chars_of("#");
        let pipe = chars_of("|");
        let repoarch = chars_of("$repo/os/$arch");
        let empty = chars_of("");
        let files = String::from_str(".files");
        let db = self.base_path.clone().concat(files.as_str());
        proof {
            reveal_strlit(".files");
            reveal_strlit("|");
            assert(db@ == self.base_path@ + ".files"@);
        }
        let mut out: Vec<Mirror> = Vec::new();
        let ghost gviews = Seq::<(Seq<char>, Seq<char>, Option<Seq<char>>)>::empty();
        let n = lines.len();
        let mut i: usize = 0;
        while i < n
            invariant
                n == lines@.len(),
                0 <= i <= n,
                lview == lines@.map_values(|x: Vec<char>| x@),
                hash@ == "#"@,
                pipe@ == "|"@,
                pipe@.len() == 1,
                repoarch@ == "$repo/os/$arch"@,
                empty@ == ""@,
                db@ == self.base_path@ + ".files"@,
                graph.wf(),
                gviews == spec_blackarch_list(
                    lview.take(i as int),
                    *config,
                    self.base_path@ + ".files"@,
                    *graph,
                ),
                gviews.len() == out@.len(),
                forall|k: int|
                    0 <= k < out@.len() ==> gviews[k] == spec_mirror_view(#[trigger] out@[k]),
                forall|k: int|
                    0 <= k < out@.len() ==> {
                        &&& spec_url_allowed(*config, (#[trigger] out@[k]).url@)
                        &&& (out@[k].country is Some ==> graph.spec_has_code(out@[k].country->0@))
                        &&& out@[k].base_path == Some(self.base_path)
                    },
            decreases n - i,
        {
            proof {
                assert(lview.take(i + 1).drop_last() =~= lview.take(i as int));
                assert(lview.take(i + 1).last() == lview[i as int]);
                assert(lview[i as int] == lines@[i as int]@);
            }
            if !starts_with(&lines[i], &hash) {
                let pieces = split_chars(&lines[i], &pipe);
                proof {
                    assert(pieces@.map_values(|x: Vec<char>| x@) == crate::strutil::spec_split(
                        lview[i as int],
                        "|"@,
                    ));
                    if pieces@.len() >= 2 {
                        assert(pieces@.map_values(|x: Vec<char>| x@)[0] == pieces@[0]@);
                        assert(pieces@.map_values(|x: Vec<char>| x@)[1] == pieces@[1]@);
                    }
                }
                if pieces.len() >= 2 {
                    let country_s = string_from_chars(&pieces[0]);
                    let cleaned = replace_chars(&pieces[1], &repoarch, &empty);
                    let text = string_from_chars(&cleaned);
                    match parse_url(text.as_str()) {
                        Some(p) => {
                            if config.is_protocol_allowed_for_url(p.0.as_str()) {
                                match join_url(p.0.as_str(), db.as_str()) {
                                    Some(test) => {
                                        let country: Option<String> = match graph.lookup(
                                            country_s.as_str(),
                                        ) {
                                            Some(c) => Some(c.code.clone()),
                                            None => None,
                                        };
                                        proof {
                                            if country is Some {
                                                let g = *graph;
                                                let w = choose|w: int|
                                                    0 <= w < g.spec_countries().len() && (
                                                    #[trigger] g.spec_countries()[w]).code@
                                                        == crate::countries::spec_upper(
                                                        country_s@,
                                                    );
                                                assert(g.spec_countries()[w].code@
                                                    == country->0@);
                                            }
                                            gviews = gviews.push(
                                                (
                                                    p.0@,
                                                    test@,
                                                    spec_resolve_country(*graph, country_s@),
                                                ),
                                            );
                                        }
                                        out.push(
                                            Mirror {
                                                url: p.0,
                                                url_to_test: test,
                                                country,
                                                base_path: Some(self.base_path.clone()),
                                            },
                                        );
                                    },
                                    None => {},
                                }
                            }
                        },
                        None => {},
                    }
                }
            }
            i += 1;
            proof {
                assert(gviews =~= spec_blackarch_list(
                    lview.take(i as int),
                    *config,
                    self.base_path@ + ".files"@,
                    *graph,
                ));
            }
        }
        proof {
            assert(lview.take(n as int) =~= lview);
            let m = out@.map_values(|m: Mirror| spec_mirror_view(m));
            assert forall|k: int| 0 <= k < m.len() implies m[k] == gviews[k] by {
                assert(m[k] == spec_mirror_view(out@[k]));
            }
            assert(m =~= gviews);
        }
        out
    }
}

} // verus!
