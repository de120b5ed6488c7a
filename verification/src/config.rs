//! Measurement and engine options, and the top-level error taxonomy.

use vstd::prelude::*;

use crate::strutil::str_eq;
use crate::urls::{parse_url, url_parse_of};

verus! {

/// URL scheme a mirror may be reached through.
#[derive(Clone, Copy, Debug, PartialEq, Eq, Structural)]
pub enum Protocol {
    Http,
    Https,
}

impl Protocol {
    /// Parses the lowercase scheme names used on the command line and in URLs.
    pub fn from_str(protocol: &str) -> (r: Result<Protocol, &'static str>)
        ensures
            protocol@ == "http"@ ==> r == Result::<Protocol, &'static str>::Ok(Protocol::Http),
            protocol@ == "https"@ ==> r == Result::<Protocol, &'static str>::Ok(Protocol::Https),
            protocol@ != "http"@ && protocol@ != "https"@ ==> r == Result::<
                Protocol,
                &'static str,
            >::Err("could not parse protocol"),
    {
        proof {
            reveal_strlit("http");
            reveal_strlit("https");
            assert(("http"@).len() == 4);
            assert(("https"@).len() == 5);
        }
        if str_eq(protocol, "http") {
            Ok(Protocol::Http)
        } else if str_eq(protocol, "https") {
            Ok(Protocol::Https)
        } else {
            Err("could not parse protocol")
        }
    }
}

/// Top-level failures that end a run.
#[derive(Clone, Debug)]
pub enum AppError {
    /// The adapter returned no mirrors (after protocol filtering).
    NoMirrorsAfterFiltering,
    /// The engine produced zero results and the untested fallback is disabled.
    SpeedTestsFailed,
    /// The adapter failed to retrieve its mirror list.
    FetchError(String),
    /// The process is privileged and running as root was not allowed.
    RootRefused,
}

/// Options of one engine run.  Durations are in milliseconds, the convergence
/// threshold `eps` is carried in millionths (62_500 stands for 0.0625).
#[derive(Clone, Debug)]
pub struct Config {
    /// Allowed URL schemes; empty means every scheme is allowed.
    pub protocols: Vec<Protocol>,
    /// Hard connect timeout on the initial request, ms.
    pub per_mirror_timeout: u64,
    /// Minimum measurement wall-clock before convergence counts, ms.
    pub min_per_mirror: u64,
    /// Maximum wall-clock a probe may spend after the first byte, ms.
    pub max_per_mirror: u64,
    /// Minimum bytes received before a result counts.
    pub min_bytes_per_mirror: u64,
    /// Allowed coefficient of variation of recent chunk speeds, in millionths.
    pub eps_micros: u64,
    /// Ring-buffer length over which mean and deviation are computed.
    pub eps_checks: usize,
    /// Size of the main probe pool.
    pub concurrency: usize,
    /// Size of the probe pool for the unlabeled fallback stage.
    pub concurrency_for_unlabeled: usize,
    /// Hard cap on the number of country jumps.
    pub max_jumps: u64,
    /// Two-letter code of the first country to test.
    pub entry_country: String,
    /// Neighbor countries to add per visited country and strategy pass.
    pub country_neighbors_per_country: u64,
    /// Mirrors to sample per country.
    pub country_test_mirrors_per_country: u64,
    /// Number of top mirrors to re-test serially.
    pub top_mirrors_number_to_retest: usize,
}

impl Config {
    /// Machine limits under which all engine arithmetic stays in bounds.
    pub open spec fn wf(&self) -> bool {
        &&& 1 <= self.min_per_mirror <= 0x1_0000_0000
        &&& self.max_per_mirror <= 0x1_0000_0000
        &&& 1 <= self.min_bytes_per_mirror <= 0x20_0000_0000_0000
        &&& self.eps_micros <= 0x4000_0000
        &&& 1 <= self.eps_checks <= 4096
        &&& self.max_jumps <= 0x1_0000
        &&& self.country_neighbors_per_country <= 0x1_0000
        &&& self.country_test_mirrors_per_country <= 0x1_0000
    }

    /// Runtime check of the same machine limits, for callers built outside
    /// the library.
    pub fn check_wf(&self) -> (r: bool)
        ensures
            r == self.wf(),
    {
        1 <= self.min_per_mirror && self.min_per_mirror <= 0x1_0000_0000
            && self.max_per_mirror <= 0x1_0000_0000
            && 1 <= self.min_bytes_per_mirror && self.min_bytes_per_mirror <= 0x20_0000_0000_0000
            && self.eps_micros <= 0x4000_0000
            && 1 <= self.eps_checks && self.eps_checks <= 4096
            && self.max_jumps <= 0x1_0000
            && self.country_neighbors_per_country <= 0x1_0000
            && self.country_test_mirrors_per_country <= 0x1_0000
    }

    /// Whether `protocol` passes the configured filter: an empty filter
    /// allows everything.
    pub fn is_protocol_allowed(&self, protocol: &Protocol) -> (r: bool)
        ensures
            r == (self.protocols@.len() == 0 || self.protocols@.contains(*protocol)),
    {
        if self.protocols.len() == 0 {
            return true;
        }
        let n = self.protocols.len();
        let mut i: usize = 0;
        while i < n
            invariant
                n == self.protocols@.len(),
                0 <= i <= n,
                forall|j: int| 0 <= j < i ==> self.protocols@[j] != *protocol,
            decreases n - i,
        {
            if self.protocols[i] == *protocol {
                return true;
            }
            i += 1;
        }
        false
    }
}

/// Whether a URL string passes the configured protocol filter: an empty
/// filter allows everything; otherwise the URL must parse and its scheme
/// must name an allowed protocol.
pub open spec fn spec_url_allowed(cfg: Config, s: Seq<char>) -> bool {
    cfg.protocols@.len() == 0 || (match url_parse_of(s) {
        Some(p) => (p.1 == "http"@ && cfg.protocols@.contains(Protocol::Http)) || (p.1 == "https"@
            && cfg.protocols@.contains(Protocol::Https)),
        None => false,
    })
}

/// The first index of `urls` whose entry passes the filter, if any.
pub open spec fn spec_preferred_idx(cfg: Config, urls: Seq<String>) -> Option<int>
    decreases urls.len(),
{
    if urls.len() == 0 {
        None
    } else if spec_url_allowed(cfg, urls[0]@) {
        Some(0)
    } else {
        match spec_preferred_idx(cfg, urls.drop_first()) {
            Some(i) => Some(i + 1),
            None => None,
        }
    }
}

/// A successful first-allowed search returns a valid index of an allowed
/// entry, preceded only by disallowed ones.
pub proof fn lemma_preferred_idx_char(cfg: Config, urls: Seq<String>, idx: int)
    requires
        0 <= idx <= urls.len(),
        forall|j: int| 0 <= j < idx ==> !spec_url_allowed(cfg, (#[trigger] urls[j])@),
        idx < urls.len() ==> spec_url_allowed(cfg, urls[idx]@),
    ensures
        idx < urls.len() ==> spec_preferred_idx(cfg, urls) == Some(idx),
        idx == urls.len() ==> spec_preferred_idx(cfg, urls) is None,
    decreases urls.len(),
{
    if urls.len() > 0 {
        if idx == 0 {
        } else {
            assert(!spec_url_allowed(cfg, urls[0]@));
            assert forall|j: int|
                0 <= j < idx - 1 implies !spec_url_allowed(
                cfg,
                (#[trigger] urls.drop_first()[j])@,
            ) by {
                assert(urls.drop_first()[j] == urls[j + 1]);
            }
            if idx - 1 < urls.drop_first().len() {
                assert(urls.drop_first()[idx - 1] == urls[idx]);
            }
            lemma_preferred_idx_char(cfg, urls.drop_first(), idx - 1);
        }
    }
}

/// A successful first-allowed search points at a valid, allowed entry.
pub proof fn lemma_preferred_idx_some(cfg: Config, urls: Seq<String>)
    ensures
        match spec_preferred_idx(cfg, urls) {
            Some(i) => 0 <= i < urls.len() && spec_url_allowed(cfg, urls[i]@),
            None => true,
        },
    decreases urls.len(),
{
    if urls.len() > 0 && !spec_url_allowed(cfg, urls[0]@) {
        lemma_preferred_idx_some(cfg, urls.drop_first());
        if spec_preferred_idx(cfg, urls.drop_first()) is Some {
            let i = spec_preferred_idx(cfg, urls.drop_first())->0;
            assert(urls.drop_first()[i] == urls[i + 1]);
        }
    }
}

impl Config {
    /// Whether the URL's scheme passes the filter, deciding
    /// [`spec_url_allowed`].
    pub fn is_protocol_allowed_for_url(&self, url: &str) -> (r: bool)
        ensures
            r == spec_url_allowed(*self, url@),
    {
        if self.protocols.len() == 0 {
            return true;
        }
        match parse_url(url) {
            Some(p) => match Protocol::from_str(p.1.as_str()) {
                Ok(proto) => {
                    proof {
                        reveal_strlit("http");
                        reveal_strlit("https");
                        assert(("http"@).len() == 4);
                        assert(("https"@).len() == 5);
                    }
                    self.is_protocol_allowed(&proto)
                },
                Err(_) => false,
            },
            None => false,
        }
    }

    /// The first URL of the list that passes the protocol filter, if any:
    /// exactly the entry [`spec_preferred_idx`] points at.
    pub fn get_preferred_url<'a>(&self, urls: &'a Vec<String>) -> (r: Option<&'a String>)
        ensures
            match r {
                Some(u) => spec_preferred_idx(*self, urls@) is Some && *u == urls@[spec_preferred_idx(
                    *self,
                    urls@,
                )->0],
                None => spec_preferred_idx(*self, urls@) is None,
            },
    {
        let n = urls.len();
        let mut i: usize = 0;
        while i < n
            invariant
                n == urls@.len(),
                0 <= i <= n,
                forall|j: int| 0 <= j < i ==> !spec_url_allowed(*self, (#[trigger] urls@[j])@),
            decreases n - i,
        {
            if self.is_protocol_allowed_for_url(urls[i].as_str()) {
                proof {
                    lemma_preferred_idx_char(*self, urls@, i as int);
                }
                return Some(&urls[i]);
            }
            i += 1;
        }
        proof {
            lemma_preferred_idx_char(*self, urls@, n as int);
        }
        None
    }
}

impl Default for Config {
    /// The documented defaults of the command-line surface.
    fn default() -> (r: Config)
        ensures
            r.protocols@.len() == 0,
            r.per_mirror_timeout == 8000,
            r.min_per_mirror == 300,
            r.max_per_mirror == 1000,
            r.min_bytes_per_mirror == 70000,
            r.eps_micros == 62500,
            r.eps_checks == 40,
            r.concurrency == 16,
            r.concurrency_for_unlabeled == 40,
            r.max_jumps == 7,
            r.entry_country@ == "US"@,
            r.country_neighbors_per_country == 3,
            r.country_test_mirrors_per_country == 2,
            r.top_mirrors_number_to_retest == 5,
            r.wf(),
    {
        Config {
            protocols: Vec::new(),
            per_mirror_timeout: 8000,
            min_per_mirror: 300,
            max_per_mirror: 1000,
            min_bytes_per_mirror: 70000,
            eps_micros: 62500,
            eps_checks: 40,
            concurrency: 16,
            concurrency_for_unlabeled: 40,
            max_jumps: 7,
            entry_country: String::from_str("US"),
            country_neighbors_per_country: 3,
            country_test_mirrors_per_country: 2,
            top_mirrors_number_to_retest: 5,
        }
    }
}

} // verus!
