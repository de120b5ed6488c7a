//! The static country-adjacency graph the engine traverses.
//!
//! The dataset itself is an input: a list of country records with
//! infrastructure weights and outgoing links.  [`CountryGraph::new`] checks
//! the dataset once (unique canonical codes, closed links, bounded
//! distances); the engine then reads it and never mutates it.

use vstd::prelude::*;

use crate::strutil::str_eq;

verus! {

/// Whether a link crosses the sea or runs over land.
#[derive(Clone, Copy, Debug, PartialEq, Eq, Structural)]
pub enum LinkType {
    Submarine,
    Terrestrial,
}

/// A directed edge of the country graph.
#[derive(Clone, Debug)]
pub struct LinkTo {
    /// Canonical code of the destination country.
    pub code: String,
    /// Distance in kilometers; positive and bounded.
    pub distance: u32,
    /// Kind of connection.
    pub link_type: LinkType,
}

/// A node of the country graph.
#[derive(Clone, Debug)]
pub struct Country {
    /// Stable two-letter tag, stored canonical (ASCII uppercase).
    pub code: String,
    /// Number of submarine cable landings, an infrastructure weight.
    pub cable_connections_number: u64,
    /// Number of internet exchanges, an infrastructure weight.
    pub internet_exchanges_number: u64,
    /// Outgoing links, in dataset order.
    pub links: Vec<LinkTo>,
}

/// The ASCII-uppercase form of a character.
pub open spec fn spec_upper_char(c: char) -> char {
    if 'a' <= c && c <= 'z' {
        ((c as u8) - 32) as char
    } else {
        c
    }
}

/// The ASCII-uppercase form of a character sequence.
pub open spec fn spec_upper(s: Seq<char>) -> Seq<char> {
    s.map_values(|c: char| spec_upper_char(c))
}

/// Canonicalizes a code: ASCII letters mapped to uppercase.
pub fn upper_chars(v: &Vec<char>) -> (r: Vec<char>)
    ensures
        r@ == spec_upper(v@),
{
    let n = v.len();
    let mut r: Vec<char> = Vec::new();
    let mut i: usize = 0;
    while i < n
        invariant
            n == v@.len(),
            0 <= i <= n,
            r@ =~= spec_upper(v@.subrange(0, i as int)),
        decreases n - i,
    {
        let c = v[i];
        let u: char = if 'a' <= c && c <= 'z' {
            ((c as u8) - 32) as char
        } else {
            c
        };
        r.push(u);
        i += 1;
        assert(r@ =~= spec_upper(v@.subrange(0, i as int))) by {
            assert(v@.subrange(0, i as int).drop_last() =~= v@.subrange(0, i - 1));
            assert(spec_upper(v@.subrange(0, i as int)) =~= spec_upper(
                v@.subrange(0, i - 1),
            ).push(spec_upper_char(v@[i - 1])));
        }
    }
    assert(v@.subrange(0, n as int) =~= v@);
    r
}

/// What the graph check enforces of one record.
pub open spec fn spec_country_wf(c: Country, codes: Seq<Seq<char>>) -> bool {
    &&& c.cable_connections_number <= 1000000
    &&& c.internet_exchanges_number <= 1000000
    &&& forall|i: int|
        0 <= i < c.links@.len() ==> {
            &&& 1 <= (#[trigger] c.links@[i]).distance <= 16000
            &&& codes.contains(c.links@[i].code@)
        }
}

/// What the graph check enforces of the whole dataset.
pub open spec fn spec_graph_wf(countries: Seq<Country>) -> bool {
    &&& forall|i: int, j: int|
        0 <= i < j < countries.len() ==> (#[trigger] countries[i]).code@ != (
        #[trigger] countries[j]).code@
    &&& forall|i: int|
        0 <= i < countries.len() ==> (#[trigger] countries[i]).code@ == spec_upper(
            countries[i].code@,
        )
    &&& forall|i: int|
        0 <= i < countries.len() ==> spec_country_wf(
            #[trigger] countries[i],
            countries.map_values(|c: Country| c.code@),
        )
}

/// The read-only country graph.
pub struct CountryGraph {
    countries: Vec<Country>,
}

impl CountryGraph {
    /// The records of the graph, in dataset order.
    pub closed spec fn spec_countries(&self) -> Seq<Country> {
        self.countries@
    }

    /// A checked graph: unique canonical codes, bounded weights and
    /// distances, and no link pointing outside the dataset.
    pub open spec fn wf(&self) -> bool {
        spec_graph_wf(self.spec_countries())
    }

    /// Whether the graph has a country under the given canonical code.
    pub open spec fn spec_has_code(&self, code: Seq<char>) -> bool {
        exists|i: int|
            0 <= i < self.spec_countries().len() && (#[trigger] self.spec_countries()[i]).code@
                == code
    }

    /// Builds a graph after checking the dataset; rejects it otherwise.
    pub fn new(countries: Vec<Country>) -> (r: Option<CountryGraph>)
        ensures
            r is Some <==> spec_graph_wf(countries@),
            r is Some ==> r->0.spec_countries() == countries@,
    {
        let n = countries.len();
        let ghost code_seq = countries@.map_values(|c: Country| c.code@);
        let mut i: usize = 0;
        while i < n
            invariant
                n == countries@.len(),
                0 <= i <= n,
                code_seq == countries@.map_values(|c: Country| c.code@),
                forall|p: int, q: int|
                    0 <= p < q < i ==> (#[trigger] countries@[p]).code@ != (
                    #[trigger] countries@[q]).code@,
                forall|p: int|
                    0 <= p < i ==> (#[trigger] countries@[p]).code@ == spec_upper(
                        countries@[p].code@,
                    ),
                forall|p: int| 0 <= p < i ==> spec_country_wf(#[trigger] countries@[p], code_seq),
            decreases n - i,
        {
            let c = &countries[i];
            // canonical code
            let cv = crate::strutil::chars_of(c.code.as_str());
            let cu = upper_chars(&cv);
            let cus = crate::strutil::string_from_chars(&cu);
            if !str_eq(c.code.as_str(), cus.as_str()) {
                proof {
                    assert(countries@[i as int].code@ != spec_upper(countries@[i as int].code@));
                }
                return None;
            }
            // unique against earlier records
            let mut j: usize = 0;
            while j < i
                invariant
                    n == countries@.len(),
                    0 <= j <= i < n,
                    forall|q: int|
                        0 <= q < j ==> (#[trigger] countries@[q]).code@ != countries@[i as int].code@,
                decreases i - j,
            {
                if str_eq(countries[j].code.as_str(), countries[i].code.as_str()) {
                    return None;
                }
                j += 1;
            }
            // weights and links
            let c = &countries[i];
            if c.cable_connections_number > 1000000 || c.internet_exchanges_number > 1000000 {
                return None;
            }
            let ln = c.links.len();
            let mut k: usize = 0;
            while k < ln
                invariant
                    n == countries@.len(),
                    0 <= i < n,
                    ln == countries@[i as int].links@.len(),
                    0 <= k <= ln,
                    code_seq == countries@.map_values(|c: Country| c.code@),
                    forall|q: int|
                        0 <= q < k ==> {
                            &&& 1 <= (#[trigger] countries@[i as int].links@[q]).distance <= 16000
                            &&& code_seq.contains(countries@[i as int].links@[q].code@)
                        },
                decreases ln - k,
            {
                let link = &countries[i].links[k];
                if link.distance < 1 || link.distance > 16000 {
                    return None;
                }
                // the destination must exist
                let mut m: usize = 0;
                let mut found: bool = false;
                while m < n && !found
                    invariant
                        n == countries@.len(),
                        0 <= m <= n,
                        0 <= i < n,
                        0 <= k < countries@[i as int].links@.len(),
                        code_seq == countries@.map_values(|c: Country| c.code@),
                        found ==> code_seq.contains(countries@[i as int].links@[k as int].code@),
                        !found ==> forall|q: int|
                            0 <= q < m ==> (#[trigger] countries@[q]).code@ != countries@[i as int].links@[k as int].code@,
                    decreases n - m + (if found { 0int } else { 1int }),
                {
                    if str_eq(countries[m].code.as_str(), countries[i].links[k].code.as_str()) {
                        proof {
                            assert(code_seq[m as int] == countries@[m as int].code@);
                        }
                        found = true;
                    } else {
                        m += 1;
                    }
                }
                if !found {
                    proof {
                        assert forall|q: int|
                            0 <= q < code_seq.len() implies code_seq[q] != countries@[i as int].links@[k as int].code@ by {
                            assert(code_seq[q] == countries@[q].code@);
                        }
                    }
                    return None;
                }
                k += 1;
            }
            i += 1;
        }
        Some(CountryGraph { countries })
    }

    /// Looks a country up by code, case-insensitively.
    pub fn lookup(&self, code: &str) -> (r: Option<&Country>)
        requires
            self.wf(),
        ensures
            r is Some <==> self.spec_has_code(spec_upper(code@)),
            r is Some ==> exists|i: int|
                0 <= i < self.spec_countries().len() && *r->0 == (
                #[trigger] self.spec_countries()[i]) && self.spec_countries()[i].code@ == spec_upper(
                    code@,
                ),
    {
        let cv = crate::strutil::chars_of(code);
        let cu = upper_chars(&cv);
        let cus = crate::strutil::string_from_chars(&cu);
        let n = self.countries.len();
        let mut i: usize = 0;
        while i < n
            invariant
                n == self.spec_countries().len(),
                0 <= i <= n,
                cus@ == spec_upper(code@),
                forall|j: int|
                    0 <= j < i ==> (#[trigger] self.spec_countries()[j]).code@ != spec_upper(code@),
            decreases n - i,
        {
            if str_eq(self.countries[i].code.as_str(), cus.as_str()) {
                return Some(&self.countries[i]);
            }
            i += 1;
        }
        None
    }
}

} // verus!
