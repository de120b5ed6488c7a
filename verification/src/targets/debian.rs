//! Writing mirrors as Debian sources.list entries.

use vstd::prelude::*;

use crate::config::{Config, spec_url_allowed};
use crate::countries::CountryGraph;
use crate::mirror::Mirror;
use crate::strutil::{join_strings, spec_joined};
use crate::target_configs::debian::{DebianTarget, SourceListEntriesOpts};
use crate::urls::{join_url, url_join_of};

verus! {

/// What one extracted archive link yields: the mirror's URL and test-URL
/// views, when the link passes the protocol filter and joins with the
/// test path.
pub open spec fn spec_debian_link(href: Seq<char>, cfg: Config, path: Seq<char>) -> Option<
    (Seq<char>, Seq<char>),
> {
    if spec_url_allowed(cfg, href) {
        match url_join_of(href, path) {
            Some(t) => Some((href, t)),
            None => None,
        }
    } else {
        None
    }
}

/// The mirrors all the links of one country block yield, in order.
pub open spec fn spec_debian_links(hrefs: Seq<String>, cfg: Config, path: Seq<char>) -> Seq<
    (Seq<char>, Seq<char>),
>
    decreases hrefs.len(),
{
    if hrefs.len() == 0 {
        Seq::empty()
    } else {
        let rest = spec_debian_links(hrefs.drop_last(), cfg, path);
        match spec_debian_link(hrefs.last()@, cfg, path) {
            Some(x) => rest.push(x),
            None => rest,
        }
    }
}

/// The option block of an entry: ` [opt1 opt2] ` when options are given,
/// a single space otherwise.
pub open spec fn spec_options_text(options: Seq<Seq<char>>) -> Seq<char> {
    if options.len() > 0 {
        " ["@ + spec_joined(options, " "@) + "] "@
    } else {
        " "@
    }
}

/// One sources.list line: type, options, URL, suite and components.
pub open spec fn spec_source_line(
    t: Seq<char>,
    options: Seq<Seq<char>>,
    url: Seq<char>,
    suite: Seq<char>,
    components: Seq<Seq<char>>,
) -> Seq<char> {
    t + spec_options_text(options) + url + " "@ + suite + " "@ + spec_joined(components, " "@)
}

/// The entry lines of one type: one line per suite, in order.
pub open spec fn spec_type_lines(
    t: Seq<char>,
    options: Seq<Seq<char>>,
    url: Seq<char>,
    suites: Seq<Seq<char>>,
    components: Seq<Seq<char>>,
) -> Seq<Seq<char>>
    decreases suites.len(),
{
    if suites.len() == 0 {
        Seq::empty()
    } else {
        spec_type_lines(t, options, url, suites.drop_last(), components) + seq![
            spec_source_line(t, options, url, suites.last(), components),
        ]
    }
}

/// All the entry lines of one mirror: one line per type and suite, in
/// order, types outermost.
pub open spec fn spec_debian_lines(
    types: Seq<Seq<char>>,
    options: Seq<Seq<char>>,
    url: Seq<char>,
    suites: Seq<Seq<char>>,
    components: Seq<Seq<char>>,
) -> Seq<Seq<char>>
    decreases types.len(),
{
    if types.len() == 0 {
        Seq::empty()
    } else {
        spec_debian_lines(types.drop_last(), options, url, suites, components) + spec_type_lines(
            types.last(),
            options,
            url,
            suites,
            components,
        )
    }
}

/// Writes a mirror as its sources.list entries, one line per configured
/// type and suite, joined with newlines: exactly [`spec_debian_lines`].
pub fn format_debian_mirror(opts: &SourceListEntriesOpts, mirror: &Mirror) -> (r: String)
    ensures
        r@ == spec_joined(
            spec_debian_lines(
                opts.types@.map_values(|s: String| s@),
                opts.options@.map_values(|s: String| s@),
                mirror.url@,
                opts.suites@.map_values(|s: String| s@),
                opts.components@.map_values(|s: String| s@),
            ),
            "\n"@,
        ),
{
    let ghost tview = opts.types@.map_values(|s: String| s@);
    let ghost oview = opts.options@.map_values(|s: String| s@);
    let ghost sview = opts.suites@.map_values(|s: String| s@);
    let ghost cview = opts.components@.map_values(|s: String| s@);
    let options_text: String = if opts.options.len() > 0 {
        String::from_str(" [").concat(join_strings(&opts.options, " ").as_str()).concat("] ")
    } else {
        String::from_str(" ")
    };
    let components_text = join_strings(&opts.components, " ");
    proof {
        assert(options_text@ == spec_options_text(oview));
        assert(components_text@ == spec_joined(cview, " "@));
    }
    let mut lines: Vec<String> = Vec::new();
    let tn = opts.types.len();
    let mut ti: usize = 0;
    while ti < tn
        invariant
            tn == opts.types@.len(),
            tview == opts.types@.map_values(|s: String| s@),
            oview == opts.options@.map_values(|s: String| s@),
            sview == opts.suites@.map_values(|s: String| s@),
            cview == opts.components@.map_values(|s: String| s@),
            options_text@ == spec_options_text(oview),
            components_text@ == spec_joined(cview, " "@),
            0 <= ti <= tn,
            lines@.map_values(|s: String| s@) =~~= spec_debian_lines(
                tview.take(ti as int),
                oview,
                mirror.url@,
                sview,
                cview,
            ),
        decreases tn - ti,
    {
        let ghost base = spec_debian_lines(tview.take(ti as int), oview, mirror.url@, sview, cview);
        let sn = opts.suites.len();
        let mut si: usize = 0;
        proof {
            assert(sview.take(0) =~= Seq::<Seq<char>>::empty());
            assert(spec_type_lines(tview[ti as int], oview, mirror.url@, sview.take(0), cview)
                =~= Seq::<Seq<char>>::empty());
            assert(lines@.map_values(|s: String| s@) =~~= base + spec_type_lines(
                tview[ti as int],
                oview,
                mirror.url@,
                sview.take(0),
                cview,
            ));
        }
        while si < sn
            invariant
                tn == opts.types@.len(),
                sn == opts.suites@.len(),
                0 <= ti < tn,
                tview == opts.types@.map_values(|s: String| s@),
                oview == opts.options@.map_values(|s: String| s@),
                sview == opts.suites@.map_values(|s: String| s@),
                cview == opts.components@.map_values(|s: String| s@),
                options_text@ == spec_options_text(oview),
                components_text@ == spec_joined(cview, " "@),
                base == spec_debian_lines(tview.take(ti as int), oview, mirror.url@, sview, cview),
                0 <= si <= sn,
                lines@.map_values(|s: String| s@) =~~= base + spec_type_lines(
                    tview[ti as int],
                    oview,
                    mirror.url@,
                    sview.take(si as int),
                    cview,
                ),
            decreases sn - si,
        {
            let line = opts.types[ti].clone().concat(options_text.as_str()).concat(
                mirror.url.as_str(),
            ).concat(" ").concat(opts.suites[si].as_str()).concat(" ").concat(
                components_text.as_str(),
            );
            proof {
                assert(tview[ti as int] == opts.types@[ti as int]@);
                assert(sview[si as int] == opts.suites@[si as int]@);
                assert(line@ == spec_source_line(
                    tview[ti as int],
                    oview,
                    mirror.url@,
                    sview[si as int],
                    cview,
                ));
            }
            let ghost lines_pre = lines@;
            lines.push(line);
            si += 1;
            proof {
                assert(sview.take(si as int).drop_last() =~= sview.take(si - 1));
                assert(sview.take(si as int).last() == sview[si - 1]);
                let rhs = base + spec_type_lines(
                    tview[ti as int],
                    oview,
                    mirror.url@,
                    sview.take(si as int),
                    cview,
                );
                let rhs_pre = base + spec_type_lines(
                    tview[ti as int],
                    oview,
                    mirror.url@,
                    sview.take(si - 1),
                    cview,
                );
                assert(rhs =~~= rhs_pre + seq![line@]);
                assert forall|k: int|
                    0 <= k < lines@.len() implies (#[trigger] lines@[k])@ == rhs[k] by {
                    if k < lines_pre.len() {
                        assert(lines@[k] == lines_pre[k]);
                        assert(lines_pre.map_values(|s: String| s@)[k] == rhs_pre[k]);
                    } else {
                        assert(lines@[k] == line);
                    }
                }
                assert(lines@.map_values(|s: String| s@) =~~= rhs);
            }
        }
        ti += 1;
        proof {
            assert(sview.take(sn as int) =~= sview);
            assert(tview.take(ti as int).drop_last() =~= tview.take(ti - 1));
            assert(tview.take(ti as int).last() == tview[ti - 1]);
            assert(lines@.map_values(|s: String| s@) =~~= spec_debian_lines(
                tview.take(ti as int),
                oview,
                mirror.url@,
                sview,
                cview,
            ));
        }
    }
    proof {
        assert(tview.take(tn as int) =~= tview);
    }
    join_strings(&lines, "\n")
}

impl DebianTarget {
    /// Prefixes a progress message with the configured comment prefix.
    pub fn format_comment(&self, message: &str) -> (r: String)
        ensures
            r@ == self.comment_prefix@ + message@,
    {
        self.comment_prefix.clone().concat(message)
    }

    /// Builds the mirrors of one country block from its extracted archive
    /// links: exactly the links [`spec_debian_links`] keeps, each carrying
    /// the country when it resolves against the graph.
    pub fn build_mirrors(
        &self,
        country_name: &str,
        hrefs: Vec<String>,
        config: &Config,
        graph: &CountryGraph,
    ) -> (r: Vec<Mirror>)
        requires
            graph.wf(),
        ensures
            r@.map_values(|m: Mirror| (m.url@, m.url_to_test@)) == spec_debian_links(
                hrefs@,
                *config,
                self.path_to_test@,
            ),
            forall|i: int|
                0 <= i < r@.len() ==> ((#[trigger] r@[i]).country is Some
                    ==> graph.spec_has_code(r@[i].country->0@)) && r@[i].base_path is None,
    {
        let country: Option<String> = match graph.lookup(country_name) {
            Some(c) => Some(c.code.clone()),
            None => None,
        };
        proof {
            if country is Some {
                let g = *graph;
                let w = choose|w: int|
                    0 <= w < g.spec_countries().len() && (#[trigger] g.spec_countries()[w]).code@
                        == crate::countries::spec_upper(country_name@);
                assert(g.spec_countries()[w].code@ == country->0@);
            }
        }
        let n = hrefs.len();
        let mut out: Vec<Mirror> = Vec::new();
        let ghost gviews = Seq::<(Seq<char>, Seq<char>)>::empty();
        let mut i: usize = 0;
        while i < n
            invariant
                n == hrefs@.len(),
                0 <= i <= n,
                graph.wf(),
                country is Some ==> graph.spec_has_code(country->0@),
                gviews == spec_debian_links(hrefs@.subrange(0, i as int), *config, self.path_to_test@),
                gviews.len() == out@.len(),
                forall|k: int|
                    0 <= k < out@.len() ==> gviews[k] == ((#[trigger] out@[k]).url@,
                    out@[k].url_to_test@),
                forall|k: int|
                    0 <= k < out@.len() ==> ((#[trigger] out@[k]).country is Some
                        ==> graph.spec_has_code(out@[k].country->0@)) && out@[k].base_path
                        is None,
            decreases n - i,
        {
            proof {
                assert(hrefs@.subrange(0, i + 1).drop_last() =~= hrefs@.subrange(0, i as int));
                assert(hrefs@.subrange(0, i + 1).last() == hrefs@[i as int]);
            }
            if config.is_protocol_allowed_for_url(hrefs[i].as_str()) {
                match join_url(hrefs[i].as_str(), self.path_to_test.as_str()) {
                    Some(test) => {
                        let c: Option<String> = match &country {
                            Some(c) => Some(c.clone()),
                            None => None,
                        };
                        proof {
                            gviews = gviews.push((hrefs@[i as int]@, test@));
                        }
                        out.push(
                            Mirror {
                                url: hrefs[i].clone(),
                                url_to_test: test,
                                country: c,
                                base_path: None,
                            },
                        );
                    },
                    None => {},
                }
            }
            i += 1;
            proof {
                assert(gviews =~= spec_debian_links(
                    hrefs@.subrange(0, i as int),
                    *config,
                    self.path_to_test@,
                ));
            }
        }
        proof {
            assert(hrefs@.subrange(0, n as int) =~= hrefs@);
            let m = crate::mirror::spec_mirror_views(out@);
            assert forall|k: int| 0 <= k < m.len() implies m[k] == gviews[k] by {
                assert(m[k] == (out@[k].url@, out@[k].url_to_test@));
            }
            assert(m =~= gviews);
        }
        out
    }

    /// Writes a mirror as its sources.list entries.
    pub fn format_mirror(&self, mirror: &Mirror) -> (r: String)
        ensures
            r@ == spec_joined(
                spec_debian_lines(
                    self.source_list_opts.types@.map_values(|s: String| s@),
                    self.source_list_opts.options@.map_values(|s: String| s@),
                    mirror.url@,
                    self.source_list_opts.suites@.map_values(|s: String| s@),
                    self.source_list_opts.components@.map_values(|s: String| s@),
                ),
                "\n"@,
            ),
    {
        format_debian_mirror(&self.source_list_opts, mirror)
    }
}

} // verus!
