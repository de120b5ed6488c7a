//! Mirrors read line by line from standard input; reading the stream is
//! the caller's business, turning its lines into mirrors happens here.

use vstd::prelude::*;

use crate::config::{Config, spec_url_allowed};
use crate::countries::{CountryGraph, spec_upper};
use crate::mirror::{Mirror, MirrorInfo, MirrorParseError, spec_resolve_country};
use crate::strutil::{spec_split, spec_trim};
use crate::target_configs::stdin::StdinTarget;
use crate::urls::{join_url, url_join_of, url_parse_of};

verus! {

impl StdinTarget {
    /// Prefixes a progress message with the configured comment prefix.
    pub fn format_comment(&self, message: &str) -> (r: String)
        ensures
            r@ == self.comment_prefix@ + message@,
    {
        self.comment_prefix.clone().concat(message)
    }

    /// Writes a mirror as its URL behind the configured output prefix.
    pub fn format_mirror(&self, mirror: &Mirror) -> (r: String)
        ensures
            r@ == self.output_prefix@ + mirror.url@,
    {
        self.output_prefix.clone().concat(mirror.url.as_str())
    }

    /// Builds a mirror out of one input line: the line must parse (a URL,
    /// optionally with a country), the resulting URL must pass the
    /// protocol filter, and the return path must join; exactly then a
    /// mirror comes back, with the parsed URL, the joined test URL, and
    /// the line's country resolved against the graph.
    pub fn build_mirror(&self, line: &str, config: &Config, graph: &CountryGraph) -> (r: Result<
        Option<Mirror>,
        MirrorParseError,
    >)
        requires
            graph.wf(),
            self.input_separator@.len() >= 1,
        ensures
            ({
                let args = spec_split(spec_trim(line@), self.input_separator@);
                match r {
                    Err(e) => (args.len() == 1 && url_parse_of(args[0]) is None && e is BadUrl)
                        || (args.len() == 2 && url_parse_of(args[0]) is None && url_parse_of(
                        args[1],
                    ) is None && e is BadUrl) || (args.len() != 1 && args.len() != 2
                        && e is BadLine),
                    Ok(opt) => (args.len() == 1 || args.len() == 2) && ({
                        let u = if args.len() == 1 || url_parse_of(args[0]) is Some {
                            (url_parse_of(args[0])->0).0
                        } else {
                            (url_parse_of(args[1])->0).0
                        };
                        &&& ((opt is Some) <==> (spec_url_allowed(*config, u) && url_join_of(
                            u,
                            self.path_to_return@,
                        ) is Some))
                        &&& (opt is Some ==> opt->0.url@ == u && opt->0.url_to_test@
                            == url_join_of(u, self.path_to_return@)->0 && opt->0.base_path
                            is None)
                        &&& (opt is Some && args.len() == 1 ==> opt->0.country is None)
                        &&& (opt is Some && args.len() == 2 && url_parse_of(args[0]) is Some
                            ==> ((opt->0.country is Some) <==> (spec_resolve_country(
                            *graph,
                            args[1],
                        ) is Some)) && (opt->0.country is Some ==> opt->0.country->0@
                            == spec_upper(args[1])))
                        &&& (opt is Some && args.len() == 2 && url_parse_of(args[0]) is None
                            ==> ((opt->0.country is Some) <==> (spec_resolve_country(
                            *graph,
                            args[0],
                        ) is Some)) && (opt->0.country is Some ==> opt->0.country->0@
                            == spec_upper(args[0])))
                    }),
                }
            }),
    {
        let info = MirrorInfo::parse(line, self.input_separator.as_str(), graph)?;
        if !config.is_protocol_allowed_for_url(info.url.as_str()) {
            return Ok(None);
        }
        match join_url(info.url.as_str(), self.path_to_return.as_str()) {
            Some(test) => {
                Ok(
                    Some(
                        Mirror {
                            url: info.url,
                            url_to_test: test,
                            country: info.country,
                            base_path: None,
                        },
                    ),
                )
            },
            None => Ok(None),
        }
    }
}

} // verus!
