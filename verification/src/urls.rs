//! Trusted bindings to the `url` crate.
//!
//! URL parsing and joining are functions of their string arguments alone;
//! their results are given names here, and the library's contracts speak
//! of those names.

use vstd::prelude::*;

verus! {

/// What `url::Url::parse` makes of a string: `None` when it is not an
/// absolute URL, otherwise the normalized serialization and the scheme.
pub uninterp spec fn url_parse_of(s: Seq<char>) -> Option<(Seq<char>, Seq<char>)>;

/// Relies on `url::Url::parse`, `url::Url::as_str` and `url::Url::scheme`:
/// parsing depends on the input string alone; on success the pair holds
/// the normalized serialization and the scheme.
#[verifier::external_body]
pub fn parse_url(s: &str) -> (r: Option<(String, String)>)
    ensures
        match (r, url_parse_of(s@)) {
            (Some(p), Some(q)) => p.0@ == q.0 && p.1@ == q.1,
            (None, None) => true,
            _ => false,
        },
{
    match url::Url::parse(s) {
        Ok(u) => {
            let scheme = u.scheme().to_string();
            Some((u.as_str().to_string(), scheme))
        },
        Err(_) => None,
    }
}

/// What joining `path` onto the URL parsed from `base` serializes to,
/// `None` when either step fails.
pub uninterp spec fn url_join_of(base: Seq<char>, path: Seq<char>) -> Option<Seq<char>>;

/// Relies on `url::Url::parse` and `url::Url::join`: both depend on their
/// string arguments alone; the result is the joined URL's serialization.
#[verifier::external_body]
pub fn join_url(base: &str, path: &str) -> (r: Option<String>)
    ensures
        match (r, url_join_of(base@, path@)) {
            (Some(p), Some(q)) => p@ == q,
            (None, None) => true,
            _ => false,
        },
{
    match url::Url::parse(base) {
        Ok(u) => match u.join(path) {
            Ok(j) => Some(j.as_str().to_string()),
            Err(_) => None,
        },
        Err(_) => None,
    }
}

} // verus!
