//! The EndeavourOS mirror list: `## Country` headers over `Server = `
//! lines, plus the per-mirror state file whose first line carries the
//! repository update number.

use vstd::prelude::*;

use crate::config::{Config, spec_url_allowed};
use crate::countries::CountryGraph;
use crate::mirror::{Mirror, spec_mirror_view, spec_resolve_country};
use crate::strutil::{
    chars_of, parse_u64, replace_chars, spec_lines, spec_replace, spec_starts_with, split_lines,
    starts_with, string_from_chars, strip_prefix,
};
use crate::target_configs::endeavouros::EndeavourOSTarget;
use crate::urls::{join_url, parse_url, url_join_of, url_parse_of};

verus! {

/// The mirrors the lines yield, read front to back: `## ` headers set
/// the country (resolved against the graph) of the `Server = ` lines
/// that follow; a URL must parse, pass the filter, and join with the
/// test path.
pub open spec fn spec_eos_list(
    lines: Seq<Seq<char>>,
    cfg: Config,
    path: Seq<char>,
    graph: CountryGraph,
    country: Option<Seq<char>>,
) -> Seq<(Seq<char>, Seq<char>, Option<Seq<char>>)>
    decreases lines.len(),
{
    if lines.len() == 0 {
        Seq::empty()
    } else {
        let line = lines[0];
        if spec_starts_with(line, "## "@) {
            spec_eos_list(
                lines.drop_first(),
                cfg,
                path,
                graph,
                spec_resolve_country(graph, line.skip(("## "@).len() as int)),
            )
        } else if spec_starts_with(line, "#"@) {
            spec_eos_list(lines.drop_first(), cfg, path, graph, country)
        } else {
            let cleaned = spec_replace(
                spec_replace(line, "Server = "@, ""@),
                "$repo/$arch"@,
                ""@,
            );
            let rest = spec_eos_list(lines.drop_first(), cfg, path, graph, country);
            if cleaned.len() == 0 {
                rest
            } else {
                match url_parse_of(cleaned) {
                    Some(p) => if spec_url_allowed(cfg, p.0) {
                        match url_join_of(p.0, path) {
                            Some(t) => seq![(p.0, t, country)] + rest,
                            None => rest,
                        }
                    } else {
                        rest
                    },
                    None => rest,
                }
            }
        }
    }
}

/// The mirrors of the entries carrying exactly version `v`, in order.
pub open spec fn spec_with_version(s: Seq<(Mirror, Option<u64>)>, v: u64) -> Seq<Mirror>
    decreases s.len(),
{
    if s.len() == 0 {
        Seq::empty()
    } else {
        let rest = spec_with_version(s.drop_last(), v);
        if s.last().1 == Some(v) {
            rest.push(s.last().0)
        } else {
            rest
        }
    }
}

impl EndeavourOSTarget {
    /// Prefixes a progress message with the configured comment prefix.
    pub fn format_comment(&self, message: &str) -> (r: String)
        ensures
            r@ == self.comment_prefix@ + message@,
    {
        self.comment_prefix.clone().concat(message)
    }

    /// Writes a mirror as a `Server = ` line with the repository and
    /// architecture variables appended.
    pub fn format_mirror(&self, mirror: &Mirror) -> (r: String)
        ensures
            r@ == "Server = "@ + mirror.url@ + "$repo/$arch"@,
    {
        String::from_str("Server = ").concat(mirror.url.as_str()).concat("$repo/$arch")
    }

    /// Parses the fetched mirror list: exactly the mirrors
    /// [`spec_eos_list`] reads off the lines, starting with no country.
    pub fn parse_mirror_list(&self, output: &str, config: &Config, graph: &CountryGraph) -> (r:
        Vec<Mirror>)
        requires
            graph.wf(),
        ensures
            r@.map_values(|m: Mirror| spec_mirror_view(m)) == spec_eos_list(
                spec_lines(output@),
                *config,
                self.path_to_test@,
                *graph,
                None,
            ),
            forall|i: int|
                0 <= i < r@.len() ==> {
                    &&& spec_url_allowed(*config, (#[trigger] r@[i]).url@)
                    &&& (r@[i].country is Some ==> graph.spec_has_code(r@[i].country->0@))
                    &&& r@[i].base_path is None
                },
    {
        let ov = chars_of(output);
        let lines = split_lines(&ov);
        let ghost lview = lines@.map_values(|x: Vec<char>| x@);
        let header = chars_of("## ");
        let hash = chars_of("#");
        let server = chars_of("Server = ");
        let repoarch = chars_of("$repo/$arch");
        let empty = chars_of("");
        let mut current_country: Option<String> = None;
        let mut out: Vec<Mirror> = Vec::new();
        let ghost gviews = Seq::<(Seq<char>, Seq<char>, Option<Seq<char>>)>::empty();
        let n = lines.len();
        let mut i: usize = 0;
        proof {
            assert(lview.skip(0) =~= lview);
        }
        while i < n
            invariant
                n == lines@.len(),
                0 <= i <= n,
                lview == lines@.map_values(|x: Vec<char>| x@),
                header@ == "## "@,
                hash@ == "#"@,
                server@ == "Server = "@,
                repoarch@ == "$repo/$arch"@,
                empty@ == ""@,
                graph.wf(),
                current_country is Some ==> graph.spec_has_code(current_country->0@),
                spec_eos_list(lview, *config, self.path_to_test@, *graph, None) == gviews
                    + spec_eos_list(
                    lview.skip(i as int),
                    *config,
                    self.path_to_test@,
                    *graph,
                    match current_country {
                        Some(c) => Some(c@),
                        None => None,
                    },
                ),
                gviews.len() == out@.len(),
                forall|k: int|
                    0 <= k < out@.len() ==> gviews[k] == spec_mirror_view(#[trigger] out@[k]),
                forall|k: int|
                    0 <= k < out@.len() ==> {
                        &&& spec_url_allowed(*config, (#[trigger] out@[k]).url@)
                        &&& (out@[k].country is Some ==> graph.spec_has_code(out@[k].country->0@))
                        &&& out@[k].base_path is None
                    },
            decreases n - i,
        {
            proof {
                assert(lview.skip(i as int)[0] == lview[i as int]);
                assert(lview.skip(i as int).drop_first() =~= lview.skip(i + 1));
                assert(lview[i as int] == lines@[i as int]@);
            }
            if let Some(name) = strip_prefix(&lines[i], &header) {
                let name_s = string_from_chars(&name);
                current_country = match graph.lookup(name_s.as_str()) {
                    Some(c) => Some(c.code.clone()),
                    None => None,
                };
                proof {
                    if current_country is Some {
                        let g = *graph;
                        let w = choose|w: int|
                            0 <= w < g.spec_countries().len() && (
                            #[trigger] g.spec_countries()[w]).code@ == crate::countries::spec_upper(
                                name_s@,
                            );
                        assert(g.spec_countries()[w].code@ == current_country->0@);
                    }
                    assert(match &current_country {
                        Some(c) => Some(c@),
                        None => None::<Seq<char>>,
                    } == spec_resolve_country(*graph, lview[i as int].skip(("## "@).len() as int)));
                }
            } else if !starts_with(&lines[i], &hash) {
                let step = replace_chars(&lines[i], &server, &empty);
                let cleaned = replace_chars(&step, &repoarch, &empty);
                if cleaned.len() > 0 {
                    let text = string_from_chars(&cleaned);
                    match parse_url(text.as_str()) {
                        Some(p) => {
                            if config.is_protocol_allowed_for_url(p.0.as_str()) {
                                match join_url(p.0.as_str(), self.path_to_test.as_str()) {
                                    Some(test) => {
                                        let country: Option<String> = match &current_country {
                                            Some(c) => Some(c.clone()),
                                            None => None,
                                        };
                                        proof {
                                            gviews = gviews.push(
                                                (
                                                    p.0@,
                                                    test@,
                                                    match &current_country {
                                                        Some(c) => Some(c@),
                                                        None => None,
                                                    },
                                                ),
                                            );
                                        }
                                        out.push(
                                            Mirror {
                                                url: p.0,
                                                url_to_test: test,
                                                country,
                                                base_path: None,
                                            },
                                        );
                                    },
                                    None => {},
                                }
                            }
                        },
                        None => {},
                    }
                }
            }
            i += 1;
            proof {
                assert(spec_eos_list(lview, *config, self.path_to_test@, *graph, None) =~= gviews
                    + spec_eos_list(
                    lview.skip(i as int),
                    *config,
                    self.path_to_test@,
                    *graph,
                    match current_country {
                        Some(c) => Some(c@),
                        None => None,
                    },
                ));
            }
        }
        proof {
            assert(lview.skip(n as int) =~= Seq::<Seq<char>>::empty());
            assert(spec_eos_list(lview, *config, self.path_to_test@, *graph, None) =~= gviews);
            let m = out@.map_values(|m: Mirror| spec_mirror_view(m));
            assert forall|k: int| 0 <= k < m.len() implies m[k] == gviews[k] by {
                assert(m[k] == spec_mirror_view(out@[k]));
            }
            assert(m =~= gviews);
        }
        out
    }

    /// Reads a mirror's update number out of its state file: the first
    /// line, parsed as an unsigned decimal number.
    pub fn parse_state_line(&self, output: &str) -> (r: Option<u64>)
        ensures
            ({
                let ls = crate::strutil::spec_lines(output@);
                match r {
                    Some(x) => ls.len() > 0 && ({
                        let body = crate::strutil::spec_unsigned_body(ls[0]);
                        body.len() > 0 && crate::strutil::spec_all_digits(body) && x
                            == crate::strutil::spec_digits_val(body)
                    }),
                    None => ls.len() == 0 || ({
                        let body = crate::strutil::spec_unsigned_body(ls[0]);
                        body.len() == 0 || !crate::strutil::spec_all_digits(body)
                            || crate::strutil::spec_digits_val(body) > u64::MAX
                    }),
                }
            }),
    {
        let ov = chars_of(output);
        let lines = split_lines(&ov);
        if lines.len() == 0 {
            return None;
        }
        proof {
            assert(lines@.map_values(|x: Vec<char>| x@)[0] == lines@[0]@);
        }
        parse_u64(&lines[0])
    }

    /// Keeps exactly the mirrors whose update number matches the highest
    /// one observed, in order; with no version fetched at all, nothing is
    /// kept.
    pub fn select_latest_version(&self, versioned: Vec<(Mirror, Option<u64>)>) -> (r: (
        Vec<Mirror>,
        Option<u64>,
    ))
        ensures
            (r.1 is Some) <==> (exists|i: int|
                0 <= i < versioned@.len() && (#[trigger] versioned@[i]).1 is Some),
            r.1 is None ==> r.0@.len() == 0,
            r.1 is Some ==> {
                &&& (exists|i: int|
                    0 <= i < versioned@.len() && (#[trigger] versioned@[i]).1 == Some(r.1->0))
                &&& forall|i: int|
                    0 <= i < versioned@.len() ==> ((#[trigger] versioned@[i]).1 is Some
                        ==> versioned@[i].1->0 <= r.1->0)
                &&& r.0@ == spec_with_version(versioned@, r.1->0)
            },
    {
        let n = versioned.len();
        let mut max_v: Option<u64> = None;
        let mut i: usize = 0;
        while i < n
            invariant
                n == versioned@.len(),
                0 <= i <= n,
                max_v is Some ==> exists|j: int|
                    0 <= j < i && (#[trigger] versioned@[j]).1 == Some(max_v->0),
                max_v is None ==> forall|j: int|
                    0 <= j < i ==> (#[trigger] versioned@[j]).1 is None,
                forall|j: int|
                    0 <= j < i ==> ((#[trigger] versioned@[j]).1 is Some ==> max_v is Some
                        && versioned@[j].1->0 <= max_v->0),
            decreases n - i,
        {
            match versioned[i].1 {
                Some(v) => {
                    match max_v {
                        Some(m) => {
                            if v > m {
                                max_v = Some(v);
                            }
                        },
                        None => {
                            max_v = Some(v);
                        },
                    }
                },
                None => {},
            }
            i += 1;
        }
        let mut out: Vec<Mirror> = Vec::new();
        if let Some(m) = max_v {
            let mut i: usize = 0;
            while i < n
                invariant
                    n == versioned@.len(),
                    0 <= i <= n,
                    max_v == Some(m),
                    out@ == spec_with_version(versioned@.subrange(0, i as int), m),
                decreases n - i,
            {
                proof {
                    assert(versioned@.subrange(0, i + 1).drop_last() =~= versioned@.subrange(
                        0,
                        i as int,
                    ));
                    assert(versioned@.subrange(0, i + 1).last() == versioned@[i as int]);
                }
                if let Some(v) = versioned[i].1 {
                    if v == m {
                        let mc = crate::engine::clone_mirror(&versioned[i].0);
                        out.push(mc);
                    }
                }
                i += 1;
            }
            proof {
                assert(versioned@.subrange(0, n as int) =~= versioned@);
            }
        }
        (out, max_v)
    }
}

} // verus!
