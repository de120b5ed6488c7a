//! The Chaotic-AUR mirror list: `Server = <url>$repo/$arch` lines,
//! possibly commented out.

use vstd::prelude::*;

use crate::mirror::Mirror;

use crate::strutil::{
    chars_of, replace_chars, spec_lines, spec_replace, spec_starts_with, split_lines,
    string_from_chars,
};
use crate::target_configs::chaotic::ChaoticTarget;
use crate::urls::{join_url, parse_url, url_join_of, url_parse_of};

verus! {

/// What one mirror-list line yields: the URL and test-URL views of its
/// mirror, for a `Server = ` line (commented out or not) whose URL
/// parses and joins with the test path; no protocol filter applies.
pub open spec fn spec_chaotic_line(line: Seq<char>, path: Seq<char>) -> Option<
    (Seq<char>, Seq<char>),
> {
    let rest = if spec_starts_with(line, "# Server = "@) {
        Some(line.skip(("# Server = "@).len() as int))
    } else if spec_starts_with(line, "Server = "@) {
        Some(line.skip(("Server = "@).len() as int))
    } else {
        None
    };
    match rest {
        None => None,
        Some(rest) => {
            let cleaned = spec_replace(rest, "$repo/$arch"@, ""@);
            match url_parse_of(cleaned) {
                Some(p) => match url_join_of(p.0, path) {
                    Some(t) => Some((p.0, t)),
                    None => None,
                },
                None => None,
            }
        },
    }
}

/// The mirrors all the lines yield, in order.
pub open spec fn spec_chaotic_list(lines: Seq<Seq<char>>, path: Seq<char>) -> Seq<
    (Seq<char>, Seq<char>),
>
    decreases lines.len(),
{
    if lines.len() == 0 {
        Seq::empty()
    } else {
        let rest = spec_chaotic_list(lines.drop_last(), path);
        match spec_chaotic_line(lines.last(), path) {
            Some(x) => rest.push(x),
            None => rest,
        }
    }
}

impl ChaoticTarget {
    /// Prefixes a progress message with the configured comment prefix.
    pub fn format_comment(&self, message: &str) -> (r: String)
        ensures
            r@ == self.comment_prefix@ + message@,
    {
        self.comment_prefix.clone().concat(message)
    }

    /// Writes a mirror as a `Server = ` line with the configured
    /// architecture or the placeholder.
    pub fn format_mirror(&self, mirror: &Mirror) -> (r: String)
        ensures
            self.arch@ == "auto"@ ==> r@ == "Server = "@ + mirror.url@ + "$repo/"@ + "$arch"@,
            self.arch@ != "auto"@ ==> r@ == "Server = "@ + mirror.url@ + "$repo/"@ + self.arch@,
    {
        proof {
            reveal_strlit("auto");
        }
        let arch: &str = if crate::strutil::str_eq(self.arch.as_str(), "auto") {
            "$arch"
        } else {
            self.arch.as_str()
        };
        String::from_str("Server = ").concat(mirror.url.as_str()).concat("$repo/").concat(arch)
    }

    /// Parses the fetched mirror list: exactly the mirrors
    /// [`spec_chaotic_list`] reads off the lines, without country or
    /// base path.
    pub fn parse_mirror_list(&self, output: &str) -> (r: Vec<Mirror>)
        ensures
            r@.map_values(|m: Mirror| (m.url@, m.url_to_test@)) == spec_chaotic_list(
                spec_lines(output@),
                self.path_to_test@,
            ),
            forall|i: int|
                0 <= i < r@.len() ==> (#[trigger] r@[i]).country is None && r@[i].base_path
                    is None,
    {
        let ov = chars_of(output);
        let lines = split_lines(&ov);
        let ghost lview = lines@.map_values(|x: Vec<char>| x@);
        let comment_server = chars_of("# Server = ");
        let server = chars_of("Server = ");
        let repoarch = chars_of("$repo/$arch");
        let empty = chars_of("");
        let mut out: Vec<Mirror> = Vec::new();
        let ghost gviews = Seq::<(Seq<char>, Seq<char>)>::empty();
        let n = lines.len();
        let mut i: usize = 0;
        while i < n
            invariant
                n == lines@.len(),
                0 <= i <= n,
                lview == lines@.map_values(|x: Vec<char>| x@),
                comment_server@ == "# Server = "@,
                server@ == "Server = "@,
                repoarch@ == "$repo/$arch"@,
                empty@ == ""@,
                gviews == spec_chaotic_list(lview.take(i as int), self.path_to_test@),
                gviews.len() == out@.len(),
                forall|k: int|
                    0 <= k < out@.len() ==> gviews[k] == ((#[trigger] out@[k]).url@,
                    out@[k].url_to_test@),
                forall|k: int|
                    0 <= k < out@.len() ==> (#[trigger] out@[k]).country is None
                        && out@[k].base_path is None,
            decreases n - i,
        {
            proof {
                assert(lview.take(i + 1).drop_last() =~= lview.take(i as int));
                assert(lview.take(i + 1).last() == lview[i as int]);
                assert(lview[i as int] == lines@[i as int]@);
            }
            let stripped: Option<Vec<char>> = match crate::strutil::strip_prefix(
                &lines[i],
                &comment_server,
            ) {
                Some(rest) => Some(rest),
                None => match crate::strutil::strip_prefix(&lines[i], &server) {
                    Some(rest) => Some(rest),
                    None => None,
                },
            };
            if let Some(rest) = stripped {
                let cleaned = replace_chars(&rest, &repoarch, &empty);
                let text = string_from_chars(&cleaned);
                match parse_url(text.as_str()) {
                    Some(p) => {
                        match join_url(p.0.as_str(), self.path_to_test.as_str()) {
                            Some(test) => {
                                proof {
                                    gviews = gviews.push((p.0@, test@));
                                }
                                out.push(
                                    Mirror {
                                        url: p.0,
                                        url_to_test: test,
                                        country: None,
                                        base_path: None,
                                    },
                                );
                            },
                            None => {},
                        }
                    },
                    None => {},
                }
            }
            i += 1;
            proof {
                assert(gviews =~= spec_chaotic_list(lview.take(i as int), self.path_to_test@));
            }
        }
        proof {
            assert(lview.take(n as int) =~= lview);
            let m = crate::mirror::spec_mirror_views(out@);
            assert forall|k: int| 0 <= k < m.len() implies m[k] == gviews[k] by {
                assert(m[k] == (out@[k].url@, out@[k].url_to_test@));
            }
            assert(m =~= gviews);
        }
        out
    }
}

} // verus!
