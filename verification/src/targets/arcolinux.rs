//! The ArcoLinux mirror list: `Server = <url>` lines, with gitlab-hosted
//! repositories probed through a different path.

use vstd::prelude::*;

use crate::config::{Config, spec_url_allowed};
use crate::mirror::Mirror;
use crate::strutil::{
    chars_of, replace_chars, spec_lines, spec_replace, spec_split, spec_starts_with, split_lines,
    starts_with, string_from_chars,
};
use crate::target_configs::arcolinux::ArcoLinuxTarget;
use crate::urls::{parse_url, url_parse_of};

verus! {

/// What one mirror-list line yields: the URL and test-URL views of its
/// mirror, for an uncommented non-empty `Server = ` line whose URL parses
/// and passes the filter; a gitlab-style URL (holding the raw-file
/// pattern) is probed through the gitlab test path, any other through the
/// plain one, in both cases by re-parsing the pattern-free URL text with
/// the path appended.
pub open spec fn spec_arcolinux_line(
    line: Seq<char>,
    cfg: Config,
    path: Seq<char>,
    gitlab_path: Seq<char>,
) -> Option<(Seq<char>, Seq<char>)> {
    if spec_starts_with(line, "#"@) {
        None
    } else {
        let cleaned = spec_replace(line, "Server = "@, ""@);
        if cleaned.len() == 0 {
            None
        } else {
            match url_parse_of(cleaned) {
                Some(p) => if spec_url_allowed(cfg, p.0) {
                    let is_gitlab = spec_split(p.0, "$repo/-/raw/main/$arch"@).len() > 1;
                    let candidate = if is_gitlab {
                        spec_replace(p.0, "$repo/-/raw/main/$arch"@, ""@) + gitlab_path
                    } else {
                        spec_replace(p.0, "$repo/$arch"@, ""@) + path
                    };
                    match url_parse_of(candidate) {
                        Some(t) => Some((p.0, t.0)),
                        None => None,
                    }
                } else {
                    None
                },
                None => None,
            }
        }
    }
}

/// The mirrors all the lines yield, in order.
pub open spec fn spec_arcolinux_list(
    lines: Seq<Seq<char>>,
    cfg: Config,
    path: Seq<char>,
    gitlab_path: Seq<char>,
) -> Seq<(Seq<char>, Seq<char>)>
    decreases lines.len(),
{
    if lines.len() == 0 {
        Seq::empty()
    } else {
        let rest = spec_arcolinux_list(lines.drop_last(), cfg, path, gitlab_path);
        match spec_arcolinux_line(lines.last(), cfg, path, gitlab_path) {
            Some(x) => rest.push(x),
            None => rest,
        }
    }
}

impl ArcoLinuxTarget {
    /// Prefixes a progress message with the configured comment prefix.
    pub fn format_comment(&self, message: &str) -> (r: String)
        ensures
            r@ == self.comment_prefix@ + message@,
    {
        self.comment_prefix.clone().concat(message)
    }

    /// Writes a mirror as a `Server = ` line.
    pub fn format_mirror(&self, mirror: &Mirror) -> (r: String)
        ensures
            r@ == "Server = "@ + mirror.url@,
    {
        String::from_str("Server = ").concat(mirror.url.as_str())
    }

    /// Parses the fetched mirror list: exactly the mirrors
    /// [`spec_arcolinux_list`] reads off the lines, without country or
    /// base path.
    pub fn parse_mirror_list(&self, output: &str, config: &Config) -> (r: Vec<Mirror>)
        ensures
            r@.map_values(|m: Mirror| (m.url@, m.url_to_test@)) == spec_arcolinux_list(
                spec_lines(output@),
                *config,
                self.path_to_test@,
                self.gitlab_path_to_test@,
            ),
            forall|i: int|
                0 <= i < r@.len() ==> (#[trigger] r@[i]).country is None && r@[i].base_path
                    is None,
    {
        let ov = chars_of(output);
        let lines = split_lines(&ov);
        let ghost lview = lines@.map_values(|x: Vec<char>| x@);
        let hash = chars_of("#");
        let server = chars_of("Server = ");
        let gitlab = chars_of("$repo/-/raw/main/$arch");
        let other = chars_of("$repo/$arch");
        let empty = chars_of("");
        proof {
            reveal_strlit("$repo/-/raw/main/$arch");
            assert(gitlab@.len() == 22);
        }
        let mut out: Vec<Mirror> = Vec::new();
        let ghost gviews = Seq::<(Seq<char>, Seq<char>)>::empty();
        let n = lines.len();
        let mut i: usize = 0;
        while i < n
            invariant
                n == lines@.len(),
                0 <= i <= n,
                lview == lines@.map_values(|x: Vec<char>| x@),
                hash@ == "#"@,
                server@ == "Server = "@,
                gitlab@ == "$repo/-/raw/main/$arch"@,
                gitlab@.len() == 22,
                other@ == "$repo/$arch"@,
                empty@ == ""@,
                gviews == spec_arcolinux_list(
                    lview.take(i as int),
                    *config,
                    self.path_to_test@,
                    self.gitlab_path_to_test@,
                ),
                gviews.len() == out@.len(),
                forall|k: int|
                    0 <= k < out@.len() ==> gviews[k] == ((#[trigger] out@[k]).url@,
                    out@[k].url_to_test@),
                forall|k: int|
                    0 <= k < out@.len() ==> (#[trigger] out@[k]).country is None
                        && out@[k].base_path is None,
            decreases n - i,
        {
            proof {
                assert(lview.take(i + 1).drop_last() =~= lview.take(i as int));
                assert(lview.take(i + 1).last() == lview[i as int]);
                assert(lview[i as int] == lines@[i as int]@);
            }
            if !starts_with(&lines[i], &hash) {
                let cleaned = replace_chars(&lines[i], &server, &empty);
                if cleaned.len() > 0 {
                    let text = string_from_chars(&cleaned);
                    match parse_url(text.as_str()) {
                        Some(p) => {
                            if config.is_protocol_allowed_for_url(p.0.as_str()) {
                                let uv = chars_of(p.0.as_str());
                                let is_gitlab = crate::strutil::split_chars(&uv, &gitlab).len()
                                    > 1;
                                proof {
                                    assert(crate::strutil::spec_split(p.0@, gitlab@).len() > 1
                                        <==> is_gitlab);
                                }
                                let (pat, path): (&Vec<char>, &str) = if is_gitlab {
                                    (&gitlab, self.gitlab_path_to_test.as_str())
                                } else {
                                    (&other, self.path_to_test.as_str())
                                };
                                let stripped = replace_chars(&uv, pat, &empty);
                                let base = string_from_chars(&stripped);
                                let candidate = base.concat(path);
                                match parse_url(candidate.as_str()) {
                                    Some(t) => {
                                        proof {
                                            gviews = gviews.push((p.0@, t.0@));
                                        }
                                        out.push(
                                            Mirror {
                                                url: p.0,
                                                url_to_test: t.0,
                                                country: None,
                                                base_path: None,
                                            },
                                        );
                                    },
                                    None => {},
                                }
                            }
                        },
                        None => {},
                    }
                }
            }
            i += 1;
            proof {
                assert(gviews =~= spec_arcolinux_list(
                    lview.take(i as int),
                    *config,
                    self.path_to_test@,
                    self.gitlab_path_to_test@,
                ));
            }
        }
        proof {
            assert(lview.take(n as int) =~= lview);
            let m = crate::mirror::spec_mirror_views(out@);
            assert forall|k: int| 0 <= k < m.len() implies m[k] == gviews[k] by {
                assert(m[k] == (out@[k].url@, out@[k].url_to_test@));
            }
            assert(m =~= gviews);
        }
        out
    }
}

} // verus!
