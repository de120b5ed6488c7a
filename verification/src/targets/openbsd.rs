//! The OpenBSD mirror list: a URL followed by a location description,
//! whose trailing part names the hosting country.

use vstd::prelude::*;

use crate::config::{Config, spec_url_allowed};
use crate::countries::CountryGraph;
use crate::mirror::{Mirror, spec_mirror_view, spec_resolve_country};
use crate::strutil::{
    chars_of, ends_with, is_whitespace_char, spec_ends_with, spec_is_whitespace, spec_lines,
    spec_trim, spec_trim_start, split_lines, string_from_chars, sub_chars, trim, trim_start,
};
use crate::target_configs::openbsd::OpenBSDTarget;
use crate::urls::{parse_url, url_parse_of};

verus! {

/// Length of the leading whitespace-free token.
pub open spec fn spec_token_len(s: Seq<char>) -> int
    decreases s.len(),
{
    if s.len() == 0 || spec_is_whitespace(s[0]) {
        0
    } else {
        1 + spec_token_len(s.drop_first())
    }
}

/// An index bounded by non-whitespace on its left and whitespace (or the
/// end) at its position is the token length.
proof fn lemma_token_len_char(s: Seq<char>, idx: int)
    requires
        0 <= idx <= s.len(),
        forall|j: int| 0 <= j < idx ==> !spec_is_whitespace(#[trigger] s[j]),
        idx < s.len() ==> spec_is_whitespace(s[idx]),
    ensures
        spec_token_len(s) == idx,
    decreases s.len(),
{
    if s.len() > 0 && idx > 0 {
        assert forall|j: int|
            0 <= j < idx - 1 implies !spec_is_whitespace(#[trigger] s.drop_first()[j]) by {
            assert(s.drop_first()[j] == s[j + 1]);
        }
        if idx - 1 < s.drop_first().len() {
            assert(s.drop_first()[idx - 1] == s[idx]);
        }
        lemma_token_len_char(s.drop_first(), idx - 1);
    }
}

/// The position of the last comma, if any.
pub open spec fn spec_last_comma(s: Seq<char>) -> Option<int>
    decreases s.len(),
{
    if s.len() == 0 {
        None
    } else if s.last() == ',' {
        Some(s.len() - 1)
    } else {
        spec_last_comma(s.drop_last())
    }
}

/// An index holding a comma followed only by non-commas is the last
/// comma; a comma-free sequence has none.
proof fn lemma_last_comma_char(s: Seq<char>, idx: int)
    requires
        -1 <= idx < s.len(),
        idx >= 0 ==> s[idx] == ',',
        forall|j: int| idx < j < s.len() ==> (#[trigger] s[j]) != ',',
    ensures
        idx >= 0 ==> spec_last_comma(s) == Some(idx),
        idx < 0 ==> spec_last_comma(s) is None,
    decreases s.len(),
{
    if s.len() > 0 && idx < s.len() - 1 {
        assert(s.last() != ',');
        assert forall|j: int|
            idx < j < s.drop_last().len() implies (#[trigger] s.drop_last()[j]) != ',' by {
            assert(s.drop_last()[j] == s[j]);
        }
        if idx >= 0 {
            assert(s.drop_last()[idx] == s[idx]);
        }
        lemma_last_comma_char(s.drop_last(), idx);
    }
}

/// The country text of a location description: a `(CDN)` tail, a known
/// full name, the part after the last comma when non-blank, or the whole
/// description.
pub open spec fn spec_openbsd_country_text(desc: Seq<char>) -> Seq<char> {
    if spec_ends_with(desc, " (CDN)"@) {
        "CDN"@
    } else if spec_ends_with(desc, ", The Netherlands"@) {
        "NL"@
    } else if spec_ends_with(desc, ", USA"@) {
        "US"@
    } else {
        match spec_last_comma(desc) {
            Some(c) => {
                let potential = spec_trim(desc.skip(c + 1));
                if potential.len() > 0 {
                    potential
                } else {
                    desc
                }
            },
            None => desc,
        }
    }
}

/// What one list line yields: the URL, test-URL and country views of its
/// mirror, when the line splits into a URL token and a location, the URL
/// parses and passes the filter, and the URL text with the test path
/// appended parses again.
pub open spec fn spec_openbsd_line(
    line: Seq<char>,
    cfg: Config,
    path: Seq<char>,
    graph: CountryGraph,
) -> Option<(Seq<char>, Seq<char>, Option<Seq<char>>)> {
    let tok = spec_token_len(line);
    let url_part = line.take(tok);
    let desc = spec_trim_start(line.skip(tok));
    if url_part.len() == 0 || desc.len() == 0 {
        None
    } else {
        match url_parse_of(url_part) {
            Some(p) => if spec_url_allowed(cfg, p.0) {
                match url_parse_of(p.0 + path) {
                    Some(t) => Some(
                        (p.0, t.0, spec_resolve_country(graph, spec_openbsd_country_text(desc))),
                    ),
                    None => None,
                }
            } else {
                None
            },
            None => None,
        }
    }
}

/// The mirrors all the lines yield, in order.
pub open spec fn spec_openbsd_list(
    lines: Seq<Seq<char>>,
    cfg: Config,
    path: Seq<char>,
    graph: CountryGraph,
) -> Seq<(Seq<char>, Seq<char>, Option<Seq<char>>)>
    decreases lines.len(),
{
    if lines.len() == 0 {
        Seq::empty()
    } else {
        let rest = spec_openbsd_list(lines.drop_last(), cfg, path, graph);
        match spec_openbsd_line(lines.last(), cfg, path, graph) {
            Some(x) => rest.push(x),
            None => rest,
        }
    }
}

impl OpenBSDTarget {
    /// Prefixes a progress message with the configured comment prefix.
    pub fn format_comment(&self, message: &str) -> (r: String)
        ensures
            r@ == self.comment_prefix@ + message@,
    {
        self.comment_prefix.clone().concat(message)
    }

    /// Writes a mirror as its bare URL.
    pub fn format_mirror(&self, mirror: &Mirror) -> (r: String)
        ensures
            r@ == mirror.url@,
    {
        mirror.url.clone()
    }

    /// Parses the fetched list: exactly the mirrors
    /// [`spec_openbsd_list`] reads off the lines — URL token, location
    /// description, country off the description's tail — each carrying
    /// the country when it resolves against the graph.
    pub fn parse_mirror_list(&self, output: &str, config: &Config, graph: &CountryGraph) -> (r:
        Vec<Mirror>)
        requires
            graph.wf(),
        ensures
            r@.map_values(|m: Mirror| spec_mirror_view(m)) == spec_openbsd_list(
                spec_lines(output@),
                *config,
                self.path_to_test@,
                *graph,
            ),
            forall|i: int|
                0 <= i < r@.len() ==> {
                    &&& spec_url_allowed(*config, (#[trigger] r@[i]).url@)
                    &&& ((#[trigger] r@[i]).country is Some ==> graph.spec_has_code(
                        r@[i].country->0@,
                    ))
                    &&& r@[i].base_path is None
                },
    {
        let ov = chars_of(output);
        let lines = split_lines(&ov);
        let ghost lview = lines@.map_values(|x: Vec<char>| x@);
        let cdn = chars_of(" (CDN)");
        let nl_name = chars_of(", The Netherlands");
        let usa = chars_of(", USA");
        let mut out: Vec<Mirror> = Vec::new();
        let ghost gviews = Seq::<(Seq<char>, Seq<char>, Option<Seq<char>>)>::empty();
        let n = lines.len();
        let mut i: usize = 0;
        while i < n
            invariant
                n == lines@.len(),
                0 <= i <= n,
                lview == lines@.map_values(|x: Vec<char>| x@),
                cdn@ == " (CDN)"@,
                nl_name@ == ", The Netherlands"@,
                usa@ == ", USA"@,
                graph.wf(),
                gviews == spec_openbsd_list(
                    lview.take(i as int),
                    *config,
                    self.path_to_test@,
                    *graph,
                ),
                gviews.len() == out@.len(),
                forall|k: int|
                    0 <= k < out@.len() ==> gviews[k] == spec_mirror_view(#[trigger] out@[k]),
                forall|k: int|
                    0 <= k < out@.len() ==> {
                        &&& spec_url_allowed(*config, (#[trigger] out@[k]).url@)
                        &&& ((#[trigger] out@[k]).country is Some ==> graph.spec_has_code(
                            out@[k].country->0@,
                        ))
                        &&& out@[k].base_path is None
                    },
            decreases n - i,
        {
            proof {
                assert(lview.take(i + 1).drop_last() =~= lview.take(i as int));
                assert(lview.take(i + 1).last() == lview[i as int]);
                assert(lview[i as int] == lines@[i as int]@);
            }
            let line = &lines[i];
            let ln = line.len();
            let mut split_at: usize = 0;
            while split_at < ln && !is_whitespace_char(line[split_at])
                invariant
                    ln == line@.len(),
                    0 <= split_at <= ln,
                    forall|j: int| 0 <= j < split_at ==> !spec_is_whitespace(#[trigger] line@[j]),
                decreases ln - split_at,
            {
                split_at += 1;
            }
            proof {
                lemma_token_len_char(line@, split_at as int);
            }
            let url_part = sub_chars(line, 0, split_at);
            let rest = sub_chars(line, split_at, ln);
            let desc = trim_start(&rest);
            proof {
                assert(url_part@ =~= line@.take(spec_token_len(line@)));
                assert(rest@ =~= line@.skip(spec_token_len(line@)));
                assert(desc@ == spec_trim_start(line@.skip(spec_token_len(line@))));
            }
            if url_part.len() > 0 && desc.len() > 0 {
                let url_text = string_from_chars(&url_part);
                match parse_url(url_text.as_str()) {
                    Some(p) => {
                        if config.is_protocol_allowed_for_url(p.0.as_str()) {
                            let country_text: Vec<char> = if ends_with(&desc, &cdn) {
                                chars_of("CDN")
                            } else if ends_with(&desc, &nl_name) {
                                chars_of("NL")
                            } else if ends_with(&desc, &usa) {
                                chars_of("US")
                            } else {
                                let dn = desc.len();
                                let mut comma: usize = dn;
                                let mut j: usize = dn;
                                while j > 0 && comma == dn
                                    invariant
                                        dn == desc@.len(),
                                        0 <= j <= dn,
                                        comma == dn || (j <= comma < dn && desc@[comma as int]
                                            == ','),
                                        comma == dn ==> forall|k: int|
                                            j <= k < dn ==> (#[trigger] desc@[k]) != ',',
                                        comma < dn ==> forall|k: int|
                                            comma < k < dn ==> (#[trigger] desc@[k]) != ',',
                                    decreases j,
                                {
                                    j -= 1;
                                    if desc[j] == ',' {
                                        comma = j;
                                    }
                                }
                                proof {
                                    if comma < dn {
                                        lemma_last_comma_char(desc@, comma as int);
                                    } else {
                                        lemma_last_comma_char(desc@, -1);
                                    }
                                }
                                if comma < dn {
                                    let after = sub_chars(&desc, comma + 1, dn);
                                    let potential = trim(&after);
                                    proof {
                                        assert(after@ =~= desc@.skip(comma + 1));
                                    }
                                    if potential.len() > 0 {
                                        potential
                                    } else {
                                        sub_chars(&desc, 0, dn)
                                    }
                                } else {
                                    sub_chars(&desc, 0, dn)
                                }
                            };
                            proof {
                                assert(desc@.subrange(0, desc@.len() as int) =~= desc@);
                                assert(country_text@ == spec_openbsd_country_text(desc@));
                            }
                            let country_s = string_from_chars(&country_text);
                            let country: Option<String> = match graph.lookup(country_s.as_str()) {
                                Some(c) => Some(c.code.clone()),
                                None => None,
                            };
                            proof {
                                if country is Some {
                                    let g = *graph;
                                    let w = choose|w: int|
                                        0 <= w < g.spec_countries().len() && (
                                        #[trigger] g.spec_countries()[w]).code@
                                            == crate::countries::spec_upper(country_s@);
                                    assert(g.spec_countries()[w].code@ == country->0@);
                                }
                            }
                            let candidate = p.0.clone().concat(self.path_to_test.as_str());
                            match parse_url(candidate.as_str()) {
                                Some(t) => {
                                    proof {
                                        assert(candidate@ == p.0@ + self.path_to_test@);
                                        gviews = gviews.push(
                                            (
                                                p.0@,
                                                t.0@,
                                                spec_resolve_country(*graph, country_text@),
                                            ),
                                        );
                                    }
                                    out.push(
                                        Mirror {
                                            url: p.0,
                                            url_to_test: t.0,
                                            country,
                                            base_path: None,
                                        },
                                    );
                                },
                                None => {},
                            }
                        }
                    },
                    None => {},
                }
            }
            i += 1;
            proof {
                assert(gviews =~= spec_openbsd_list(
                    lview.take(i as int),
                    *config,
                    self.path_to_test@,
                    *graph,
                ));
            }
        }
        proof {
            assert(lview.take(n as int) =~= lview);
            let m = out@.map_values(|m: Mirror| spec_mirror_view(m));
            assert forall|k: int| 0 <= k < m.len() implies m[k] == gviews[k] by {
                assert(m[k] == spec_mirror_view(out@[k]));
            }
            assert(m =~= gviews);
        }
        out
    }
}

} // verus!
