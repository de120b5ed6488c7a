//! The Arch Linux ARM mirror list: `Server = <url>$arch/$repo` lines.

use vstd::prelude::*;

use crate::config::{Config, spec_url_allowed};
use crate::mirror::Mirror;

use crate::strutil::{
    chars_of, replace_chars, spec_lines, spec_replace, spec_starts_with, split_lines, starts_with,
    string_from_chars,
};
use crate::target_configs::archarm::ArcharmTarget;
use crate::urls::{join_url, parse_url, url_join_of, url_parse_of};

verus! {

/// What one mirror-list line yields: the URL and test-URL views of its
/// mirror, for an uncommented non-empty `Server = ` line whose URL parses,
/// passes the protocol filter, and joins with the test path.
pub open spec fn spec_archarm_line(line: Seq<char>, cfg: Config, path: Seq<char>) -> Option<
    (Seq<char>, Seq<char>),
> {
    if spec_starts_with(line, "#"@) {
        None
    } else {
        let cleaned = spec_replace(spec_replace(line, "Server = "@, ""@), "$arch/$repo"@, ""@);
        if cleaned.len() == 0 {
            None
        } else {
            match url_parse_of(cleaned) {
                Some(p) => if spec_url_allowed(cfg, p.0) {
                    match url_join_of(p.0, path) {
                        Some(t) => Some((p.0, t)),
                        None => None,
                    }
                } else {
                    None
                },
                None => None,
            }
        }
    }
}

/// The mirrors all the lines yield, in order.
pub open spec fn spec_archarm_list(lines: Seq<Seq<char>>, cfg: Config, path: Seq<char>) -> Seq<
    (Seq<char>, Seq<char>),
>
    decreases lines.len(),
{
    if lines.len() == 0 {
        Seq::empty()
    } else {
        let rest = spec_archarm_list(lines.drop_last(), cfg, path);
        match spec_archarm_line(lines.last(), cfg, path) {
            Some(x) => rest.push(x),
            None => rest,
        }
    }
}

impl ArcharmTarget {
    /// Prefixes a progress message with the configured comment prefix.
    pub fn format_comment(&self, message: &str) -> (r: String)
        ensures
            r@ == self.comment_prefix@ + message@,
    {
        self.comment_prefix.clone().concat(message)
    }

    /// Writes a mirror as a `Server = ` line with the configured
    /// architecture (or the placeholder) and the repository variable.
    pub fn format_mirror(&self, mirror: &Mirror) -> (r: String)
        ensures
            self.arch@ == "auto"@ ==> r@ == "Server = "@ + mirror.url@ + "$arch"@
                + "/$arch/$repo"@,
            self.arch@ != "auto"@ ==> r@ == "Server = "@ + mirror.url@ + self.arch@
                + "/$arch/$repo"@,
    {
        proof {
            reveal_strlit("auto");
        }
        let arch: &str = if crate::strutil::str_eq(self.arch.as_str(), "auto") {
            "$arch"
        } else {
            self.arch.as_str()
        };
        String::from_str("Server = ").concat(mirror.url.as_str()).concat(arch).concat("/$arch/$repo")
    }

    /// Parses the fetched mirror list: exactly the mirrors
    /// [`spec_archarm_list`] reads off the lines, without country or
    /// base path.
    pub fn parse_mirror_list(&self, output: &str, config: &Config) -> (r: Vec<Mirror>)
        ensures
            r@.map_values(|m: Mirror| (m.url@, m.url_to_test@)) == spec_archarm_list(
                spec_lines(output@),
                *config,
                self.path_to_test@,
            ),
            forall|i: int|
                0 <= i < r@.len() ==> (#[trigger] r@[i]).country is None && r@[i].base_path
                    is None,
    {
        let ov = chars_of(output);
        let lines = split_lines(&ov);
        let ghost lview = lines@.map_values(|x: Vec<char>| x@);
        let hash = chars_of("#");
        let server = chars_of("Server = ");
        let archrepo = chars_of("$arch/$repo");
        let empty = chars_of("");
        let mut out: Vec<Mirror> = Vec::new();
        let ghost gviews = Seq::<(Seq<char>, Seq<char>)>::empty();
        let n = lines.len();
        let mut i: usize = 0;
        while i < n
            invariant
                n == lines@.len(),
                0 <= i <= n,
                lview == lines@.map_values(|x: Vec<char>| x@),
                hash@ == "#"@,
                server@ == "Server = "@,
                archrepo@ == "$arch/$repo"@,
                empty@ == ""@,
                gviews == spec_archarm_list(
                    lview.take(i as int),
                    *config,
                    self.path_to_test@,
                ),
                gviews.len() == out@.len(),
                forall|k: int|
                    0 <= k < out@.len() ==> gviews[k] == ((#[trigger] out@[k]).url@,
                    out@[k].url_to_test@),
                forall|k: int|
                    0 <= k < out@.len() ==> (#[trigger] out@[k]).country is None
                        && out@[k].base_path is None,
            decreases n - i,
        {
            proof {
                assert(lview.take(i + 1).drop_last() =~= lview.take(i as int));
                assert(lview.take(i + 1).last() == lview[i as int]);
                assert(lview[i as int] == lines@[i as int]@);
            }
            if !starts_with(&lines[i], &hash) {
                let step = replace_chars(&lines[i], &server, &empty);
                let cleaned = replace_chars(&step, &archrepo, &empty);
                if cleaned.len() > 0 {
                    let text = string_from_chars(&cleaned);
                    match parse_url(text.as_str()) {
                        Some(p) => {
                            if config.is_protocol_allowed_for_url(p.0.as_str()) {
                                match join_url(p.0.as_str(), self.path_to_test.as_str()) {
                                    Some(test) => {
                                        proof {
                                            gviews = gviews.push((p.0@, test@));
                                        }
                                        out.push(
                                            Mirror {
                                                url: p.0,
                                                url_to_test: test,
                                                country: None,
                                                base_path: None,
                                            },
                                        );
                                    },
                                    None => {},
                                }
                            }
                        },
                        None => {},
                    }
                }
            }
            i += 1;
            proof {
                assert(gviews =~= spec_archarm_list(
                    lview.take(i as int),
                    *config,
                    self.path_to_test@,
                ));
            }
        }
        proof {
            assert(lview.take(n as int) =~= lview);
            let m = crate::mirror::spec_mirror_views(out@);
            assert forall|k: int| 0 <= k < m.len() implies m[k] == gviews[k] by {
                assert(m[k] == (out@[k].url@, out@[k].url_to_test@));
            }
            assert(m =~= gviews);
        }
        out
    }
}

} // verus!
