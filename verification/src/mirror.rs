//! The mirror candidate type and the line format it is parsed from.

use vstd::prelude::*;

use crate::countries::{CountryGraph, spec_upper};
use crate::strutil::{
    chars_of, split_chars, string_from_chars, spec_split, spec_trim, trim,
};
use crate::urls::{parse_url, url_parse_of};

verus! {

/// One candidate server hosting a package repository.
#[derive(Clone, Debug)]
pub struct Mirror {
    /// The base URL to emit in output.
    pub url: String,
    /// A URL on the same host known to serve a file large enough to measure
    /// download speed.
    pub url_to_test: String,
    /// Canonical two-letter code of the hosting country, when known.
    pub country: Option<String>,
    /// Repository base path, present only when a freshness comparison
    /// applies to this mirror.
    pub base_path: Option<String>,
}

/// Why a mirror line from an input list was rejected.
#[derive(Debug)]
pub enum MirrorParseError {
    /// The line did not have one or two fields.
    BadLine(String),
    /// No field of the line parsed as a URL.
    BadUrl(String),
}

impl MirrorParseError {
    /// A short description, in place of a `Display` rendering.
    pub fn message(&self) -> (r: String)
        ensures
            self is BadLine ==> r@ == "Bad line: "@ + self->BadLine_0@,
            self is BadUrl ==> r@ == "Bad url: "@ + self->BadUrl_0@,
    {
        match self {
            MirrorParseError::BadLine(s) => String::from_str("Bad line: ").concat(s.as_str()),
            MirrorParseError::BadUrl(s) => String::from_str("Bad url: ").concat(s.as_str()),
        }
    }
}


/// A parsed input line: a URL and, possibly, a country.
#[derive(Debug)]
pub struct MirrorInfo {
    /// Normalized URL serialization.
    pub url: String,
    /// Canonical country code, when the line named a country known to the
    /// graph.
    pub country: Option<String>,
}

/// The URL and test-URL views of a mirror list.
pub open spec fn spec_mirror_views(s: Seq<Mirror>) -> Seq<(Seq<char>, Seq<char>)> {
    s.map_values(|m: Mirror| (m.url@, m.url_to_test@))
}

/// The plain views of a mirror: URL, test URL and country code.
pub open spec fn spec_mirror_view(m: Mirror) -> (Seq<char>, Seq<char>, Option<Seq<char>>) {
    (
        m.url@,
        m.url_to_test@,
        match m.country {
            Some(c) => Some(c@),
            None => None,
        },
    )
}

/// The canonical code of `name` when the graph knows it, `None` otherwise.
pub open spec fn spec_resolve_country(graph: CountryGraph, name: Seq<char>) -> Option<Seq<char>> {
    if graph.spec_has_code(spec_upper(name)) {
        Some(spec_upper(name))
    } else {
        None
    }
}

/// The parsed country field is `name` resolved against the graph.
pub open spec fn spec_country_field(graph: CountryGraph, info: MirrorInfo, name: Seq<char>) -> bool {
    &&& (info.country is Some) <==> (spec_resolve_country(graph, name) is Some)
    &&& (info.country is Some ==> info.country->0@ == spec_upper(name))
}

impl MirrorInfo {
    /// Pairs a URL with a country name resolved against the graph;
    /// unknown countries resolve to none.
    pub fn new(url: String, country: Option<&str>, graph: &CountryGraph) -> (r: MirrorInfo)
        requires
            graph.wf(),
        ensures
            r.url == url,
            match country {
                Some(c) => ((r.country is Some) <==> spec_resolve_country(*graph, c@) is Some)
                    && (r.country is Some ==> r.country->0@ == spec_upper(c@)),
                None => r.country is None,
            },
    {
        let country: Option<String> = match country {
            Some(c) => match graph.lookup(c) {
                Some(rec) => Some(rec.code.clone()),
                None => None,
            },
            None => None,
        };
        MirrorInfo { url, country }
    }

    /// Parses one input line: either a URL alone, or a URL and a country
    /// in either order, separated by `sep`.  Exactly the lines with one or
    /// two fields whose URL field parses are accepted.
    pub fn parse(input: &str, sep: &str, graph: &CountryGraph) -> (r: Result<
        MirrorInfo,
        MirrorParseError,
    >)
        requires
            graph.wf(),
            sep@.len() >= 1,
        ensures
            ({
                let args = spec_split(spec_trim(input@), sep@);
                match r {
                    Ok(info) => (args.len() == 1 && url_parse_of(args[0]) is Some
                        && info.url@ == (url_parse_of(args[0])->0).0 && info.country is None) || (
                    args.len() == 2 && ((url_parse_of(args[0]) is Some && info.url@ == (
                    url_parse_of(args[0])->0).0 && spec_country_field(*graph, info, args[1])) || (
                    url_parse_of(args[0]) is None && url_parse_of(args[1]) is Some && info.url@
                        == (url_parse_of(args[1])->0).0 && spec_country_field(
                        *graph,
                        info,
                        args[0],
                    )))),
                    Err(e) => (args.len() == 1 && url_parse_of(args[0]) is None && e is BadUrl) || (
                    args.len() == 2 && url_parse_of(args[0]) is None && url_parse_of(args[1])
                        is None && e is BadUrl) || (args.len() != 1 && args.len() != 2
                        && e is BadLine),
                }
            }),
    {
        let iv = chars_of(input);
        let tv = trim(&iv);
        let sv = chars_of(sep);
        let args = split_chars(&tv, &sv);
        proof {
            assert(args@.map_values(|x: Vec<char>| x@).len() == args@.len());
        }
        if args.len() == 1 {
            let a0 = string_from_chars(&args[0]);
            proof {
                assert(args@.map_values(|x: Vec<char>| x@)[0] == args@[0]@);
            }
            match parse_url(a0.as_str()) {
                Some(p) => Ok(MirrorInfo { url: p.0, country: None }),
                None => Err(MirrorParseError::BadUrl(a0)),
            }
        } else if args.len() == 2 {
            let a0 = string_from_chars(&args[0]);
            let a1 = string_from_chars(&args[1]);
            proof {
                assert(args@.map_values(|x: Vec<char>| x@)[0] == args@[0]@);
                assert(args@.map_values(|x: Vec<char>| x@)[1] == args@[1]@);
            }
            match parse_url(a0.as_str()) {
                Some(p) => {
                    let info = MirrorInfo::new(p.0, Some(a1.as_str()), graph);
                    Ok(info)
                },
                None => match parse_url(a1.as_str()) {
                    Some(p) => {
                        let info = MirrorInfo::new(p.0, Some(a0.as_str()), graph);
                        Ok(info)
                    },
                    None => Err(MirrorParseError::BadUrl(a1)),
                },
            }
        } else {
            let t = string_from_chars(&tv);
            Err(MirrorParseError::BadLine(t))
        }
    }
}

} // verus!
