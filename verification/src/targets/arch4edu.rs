//! The arch4edu mirror list: `Server = <url>$arch` lines, possibly
//! commented out, with a `Global Server` variant.

use vstd::prelude::*;

use crate::mirror::Mirror;
use crate::strutil::{
    chars_of, replace_chars, spec_is_whitespace, spec_replace, spec_starts_with, spec_trim,
    string_from_chars, strip_prefix, trim,
};
use crate::target_configs::arch4edu::Arch4eduTarget;
use crate::urls::{parse_url, url_parse_of};

verus! {

/// `s` without its leading mixture of `#` marks and whitespace.
pub open spec fn spec_strip_hash_ws(s: Seq<char>) -> Seq<char>
    decreases s.len(),
{
    if s.len() > 0 && (s[0] == '#' || spec_is_whitespace(s[0])) {
        spec_strip_hash_ws(s.drop_first())
    } else {
        s
    }
}

/// The URL text a mirror-list line denotes: the line without comment
/// marks, without its `Server = ` or `Global Server = ` prefix, trimmed,
/// and with the architecture placeholder removed.  `None` when the line
/// has no such prefix.
pub open spec fn spec_server_line_url(line: Seq<char>) -> Option<Seq<char>> {
    let c = spec_strip_hash_ws(line);
    if spec_starts_with(c, "Global Server = "@) {
        Some(spec_replace(spec_trim(c.skip(("Global Server = "@).len() as int)), "$arch"@, ""@))
    } else if spec_starts_with(c, "Server = "@) {
        Some(spec_replace(spec_trim(c.skip(("Server = "@).len() as int)), "$arch"@, ""@))
    } else {
        None
    }
}

/// Parses one mirror-list line into a normalized mirror URL: exactly the
/// `Server` lines whose remaining text is non-empty and parses as a URL
/// are accepted.
pub fn parse_mirror_url(line: &str) -> (r: Option<String>)
    ensures
        match spec_server_line_url(line@) {
            None => r is None,
            Some(t) => {
                &&& (t.len() == 0 ==> r is None)
                &&& (t.len() > 0 ==> match (r, url_parse_of(t)) {
                    (Some(u), Some(p)) => u@ == p.0,
                    (None, None) => true,
                    _ => false,
                })
            },
        },
{
    let lv = chars_of(line);
    let n = lv.len();
    let mut i: usize = 0;
    proof {
        assert(lv@.skip(0) =~= lv@);
    }
    while i < n && (lv[i] == '#' || lv[i] == ' ' || lv[i] == '\t' || lv[i] == '\n' || lv[i] == '\r'
        || lv[i] == '\u{b}' || lv[i] == '\u{c}')
        invariant
            n == lv@.len(),
            0 <= i <= n,
            spec_strip_hash_ws(lv@) == spec_strip_hash_ws(lv@.skip(i as int)),
        decreases n - i,
    {
        proof {
            assert(lv@.skip(i as int).drop_first() =~= lv@.skip(i + 1));
        }
        i += 1;
    }
    let cleaned = crate::strutil::sub_chars(&lv, i, n);
    proof {
        assert(cleaned@ =~= lv@.skip(i as int));
        if i < n {
            assert(!(lv@.skip(i as int)[0] == '#' || spec_is_whitespace(lv@.skip(i as int)[0])));
        }
        assert(spec_strip_hash_ws(cleaned@) == cleaned@);
    }
    let gpref = chars_of("Global Server = ");
    let spref = chars_of("Server = ");
    let raw: Vec<char> = match strip_prefix(&cleaned, &gpref) {
        Some(rest) => rest,
        None => match strip_prefix(&cleaned, &spref) {
            Some(rest) => rest,
            None => {
                return None;
            },
        },
    };
    let trimmed = trim(&raw);
    let pat = chars_of("$arch");
    let empty = chars_of("");
    let replaced = replace_chars(&trimmed, &pat, &empty);
    if replaced.len() == 0 {
        return None;
    }
    let text = string_from_chars(&replaced);
    match parse_url(text.as_str()) {
        Some(p) => Some(p.0),
        None => None,
    }
}

impl Arch4eduTarget {
    /// Prefixes a progress message with the configured comment prefix.
    pub fn format_comment(&self, message: &str) -> (r: String)
        ensures
            r@ == self.comment_prefix@ + message@,
    {
        self.comment_prefix.clone().concat(message)
    }

    /// Writes a mirror as a `Server = ` line, with the configured
    /// architecture or the `$arch` placeholder for "auto".
    pub fn format_mirror(&self, mirror: &Mirror) -> (r: String)
        ensures
            self.arch@ == "auto"@ ==> r@ == "Server = "@ + mirror.url@ + "$arch"@,
            self.arch@ != "auto"@ ==> r@ == "Server = "@ + mirror.url@ + self.arch@,
    {
        proof {
            reveal_strlit("auto");
        }
        let arch: &str = if crate::strutil::str_eq(self.arch.as_str(), "auto") {
            "$arch"
        } else {
            self.arch.as_str()
        };
        String::from_str("Server = ").concat(mirror.url.as_str()).concat(arch)
    }
}

} // verus!
