//! Package-database freshness comparison.
//!
//! A repository database is a (possibly zstd- or gzip-compressed) tar
//! archive whose `desc` entries carry `%BUILDDATE%` stamps.  Decompression
//! and tar walking are trusted calls into their crates; everything read
//! out of the entries — build dates, package names, the freshness score —
//! is parsed and computed here, verified.

use vstd::prelude::*;

use crate::strutil::{
    chars_of, ends_with, parse_i64, spec_all_digits, spec_digits_val, spec_ends_with, spec_lines,
    spec_trim, split_lines, string_from_chars, sub_chars, trim,
};

verus! {

/// Build dates of the packages of one database, keyed by package name;
/// keys are unique, in first-seen order.
#[derive(Debug, Clone)]
pub struct PackageBuildDates {
    /// Package name and build timestamp, seconds.
    pub packages: Vec<(String, i64)>,
}

impl PackageBuildDates {
    /// Unique keys.
    pub open spec fn wf(&self) -> bool {
        forall|i: int, j: int|
            0 <= i < j < self.packages@.len() ==> (#[trigger] self.packages@[i]).0@ != (
            #[trigger] self.packages@[j]).0@
    }

    /// The stamp stored under `name`, if any.
    pub open spec fn spec_get(&self, name: Seq<char>) -> Option<i64> {
        if exists|i: int|
            0 <= i < self.packages@.len() && (#[trigger] self.packages@[i]).0@ == name {
            let i = choose|i: int|
                0 <= i < self.packages@.len() && (#[trigger] self.packages@[i]).0@ == name;
            Some(self.packages@[i].1)
        } else {
            None
        }
    }

    /// Looks a package up by name.
    pub fn get(&self, name: &str) -> (r: Option<i64>)
        requires
            self.wf(),
        ensures
            r == self.spec_get(name@),
    {
        let n = self.packages.len();
        let mut i: usize = 0;
        while i < n
            invariant
                self.wf(),
                n == self.packages@.len(),
                0 <= i <= n,
                forall|j: int| 0 <= j < i ==> (#[trigger] self.packages@[j]).0@ != name@,
            decreases n - i,
        {
            if crate::strutil::str_eq(self.packages[i].0.as_str(), name) {
                proof {
                    let j = choose|j: int|
                        0 <= j < self.packages@.len() && (#[trigger] self.packages@[j]).0@
                            == name@;
                    assert(j == i);
                }
                return Some(self.packages[i].1);
            }
            i += 1;
        }
        None
    }

    /// Stores `value` under `name`: overwrites an existing entry, appends
    /// otherwise; every other entry keeps its stamp.
    pub fn upsert(&mut self, name: String, value: i64)
        requires
            old(self).wf(),
        ensures
            final(self).wf(),
            final(self).spec_get(name@) == Some(value),
            forall|other: Seq<char>|
                other != name@ ==> #[trigger] final(self).spec_get(other) == old(self).spec_get(
                    other,
                ),
    {
        let ghost pre = self.packages@;
        let n = self.packages.len();
        let mut i: usize = 0;
        while i < n
            invariant
                self.wf(),
                old(self).wf(),
                pre == self.packages@,
                pre == old(self).packages@,
                n == self.packages@.len(),
                0 <= i <= n,
                forall|j: int| 0 <= j < i ==> (#[trigger] self.packages@[j]).0@ != name@,
            decreases n - i,
        {
            if crate::strutil::str_eq(self.packages[i].0.as_str(), name.as_str()) {
                let _old_entry = self.packages.remove(i);
                self.packages.insert(i, (name, value));
                proof {
                    assert(self.packages@.len() == pre.len());
                    assert forall|j: int|
                        0 <= j < pre.len() && j != i implies self.packages@[j] == pre[j] by {}
                    assert(self.packages@[i as int].0@ == name@);
                    assert(pre[i as int].0@ == name@);
                    assert forall|j: int|
                        0 <= j < pre.len() implies (#[trigger] self.packages@[j]).0@ == pre[j].0@
                        by {}
                    assert(self.wf());
                    assert(self.spec_get(name@) == Some(value)) by {
                        let j = choose|k: int|
                            0 <= k < self.packages@.len() && (#[trigger] self.packages@[k]).0@
                                == name@;
                        assert(j == i);
                    }
                    assert forall|other: Seq<char>|
                        other != name@ implies #[trigger] self.spec_get(other) == old(
                        self,
                    ).spec_get(other) by {
                        if exists|k: int| 0 <= k < pre.len() && (#[trigger] pre[k]).0@ == other {
                            let j = choose|k: int|
                                0 <= k < pre.len() && (#[trigger] pre[k]).0@ == other;
                            assert(j != i);
                            assert(self.packages@[j].0@ == other);
                            let j2 = choose|k: int|
                                0 <= k < self.packages@.len() && (#[trigger] self.packages@[k]).0@
                                    == other;
                            assert(j2 == j);
                            assert(self.spec_get(other) == Some(self.packages@[j].1));
                            assert(old(self).spec_get(other) == Some(pre[j].1));
                        } else {
                            if exists|k: int|
                                0 <= k < self.packages@.len() && (#[trigger] self.packages@[k]).0@
                                    == other {
                                let k = choose|k: int|
                                    0 <= k < self.packages@.len() && (
                                    #[trigger] self.packages@[k]).0@ == other;
                                assert(pre[k].0@ == other);
                                assert(false);
                            }
                        }
                    }
                }
                return ;
            }
            i += 1;
        }
        self.packages.push((name, value));
        proof {
            assert(self.packages@.len() == pre.len() + 1);
            assert forall|j: int| 0 <= j < pre.len() implies self.packages@[j] == pre[j] by {}
            assert(self.packages@[pre.len() as int].0@ == name@);
            assert(self.wf());
            assert(self.spec_get(name@) == Some(value)) by {
                let j = choose|k: int|
                    0 <= k < self.packages@.len() && (#[trigger] self.packages@[k]).0@ == name@;
                assert(j == pre.len());
            }
            assert forall|other: Seq<char>|
                other != name@ implies #[trigger] self.spec_get(other) == old(self).spec_get(
                other,
            ) by {
                if exists|k: int| 0 <= k < pre.len() && (#[trigger] pre[k]).0@ == other {
                    let j = choose|k: int| 0 <= k < pre.len() && (#[trigger] pre[k]).0@ == other;
                    assert(self.packages@[j].0@ == other);
                    let j2 = choose|k: int|
                        0 <= k < self.packages@.len() && (#[trigger] self.packages@[k]).0@
                            == other;
                    assert(j2 == j);
                } else {
                    if exists|k: int|
                        0 <= k < self.packages@.len() && (#[trigger] self.packages@[k]).0@
                            == other {
                        let k = choose|k: int|
                            0 <= k < self.packages@.len() && (#[trigger] self.packages@[k]).0@
                                == other;
                        assert(k < pre.len());
                        assert(pre[k].0@ == other);
                        assert(false);
                    }
                }
            }
        }
    }
}

/// The characters a byte sequence reads as, one character per byte.
pub open spec fn spec_bytes_chars(s: Seq<u8>) -> Seq<char> {
    s.map_values(|b: u8| b as char)
}

/// Reads bytes as characters, one per byte.
pub fn bytes_to_chars(v: &[u8]) -> (r: Vec<char>)
    ensures
        r@ == spec_bytes_chars(v@),
{
    let n = v.len();
    let mut r: Vec<char> = Vec::new();
    let mut i: usize = 0;
    while i < n
        invariant
            n == v@.len(),
            0 <= i <= n,
            r@ =~= spec_bytes_chars(v@.subrange(0, i as int)),
        decreases n - i,
    {
        r.push(v[i] as char);
        i += 1;
        proof {
            assert(r@ =~= spec_bytes_chars(v@.subrange(0, i as int)));
        }
    }
    proof {
        assert(v@.subrange(0, n as int) =~= v@);
    }
    r
}

/// The build date a `desc` entry carries: the first `%BUILDDATE%` line
/// that is followed by a line parsing as a signed decimal timestamp.
pub open spec fn spec_build_date_in(lines: Seq<Seq<char>>) -> Option<int>
    decreases lines.len(),
{
    if lines.len() < 2 {
        None
    } else if spec_trim(lines[0]) == "%BUILDDATE%"@ && spec_stamp_of(spec_trim(lines[1])) is Some {
        spec_stamp_of(spec_trim(lines[1]))
    } else {
        spec_build_date_in(lines.drop_first())
    }
}

/// A signed decimal timestamp in the i64 range, if the text is one.
pub open spec fn spec_stamp_of(s: Seq<char>) -> Option<int> {
    let neg = s.len() > 0 && s[0] == '-';
    let body = if s.len() > 0 && (s[0] == '-' || s[0] == '+') {
        s.drop_first()
    } else {
        s
    };
    if body.len() > 0 && spec_all_digits(body) && (if neg {
        spec_digits_val(body) <= 0x8000_0000_0000_0000
    } else {
        spec_digits_val(body) <= i64::MAX
    }) {
        Some(
            if neg {
                -spec_digits_val(body)
            } else {
                spec_digits_val(body)
            },
        )
    } else {
        None
    }
}

/// Extracts the `%BUILDDATE%` stamp of a `desc` entry, reading the bytes
/// character-wise: the stamp on the line after the first `%BUILDDATE%`
/// marker line, when that stamp parses as a signed decimal number.
pub fn extract_build_date(desc: &[u8]) -> (r: Option<i64>)
    ensures
        match (r, spec_build_date_in(spec_lines(spec_bytes_chars(desc@)))) {
            (Some(x), Some(y)) => x as int == y,
            (None, None) => true,
            _ => false,
        },
{
    let cv = bytes_to_chars(desc);
    let lines = split_lines(&cv);
    let ghost lview = lines@.map_values(|x: Vec<char>| x@);
    let n = lines.len();
    if n < 1 {
        return None;
    }
    let marker = chars_of("%BUILDDATE%");
    let mut i: usize = 0;
    proof {
        assert(lview.skip(0) =~= lview);
    }
    while i + 1 < n
        invariant
            n == lines@.len(),
            lview == lines@.map_values(|x: Vec<char>| x@),
            lview == spec_lines(spec_bytes_chars(desc@)),
            marker@ == "%BUILDDATE%"@,
            0 <= i,
            i + 1 <= n,
            spec_build_date_in(lview) == spec_build_date_in(lview.skip(i as int)),
        decreases n - i,
    {
        let t = trim(&lines[i]);
        proof {
            assert(lview[i as int] == lines@[i as int]@);
            assert(lview[i + 1] == lines@[i + 1]@);
            assert(lview.skip(i as int)[0] == lview[i as int]);
            assert(lview.skip(i as int)[1] == lview[i + 1]);
        }
        if crate::strutil::chars_eq(&t, &marker) {
            let stamp_text = trim(&lines[i + 1]);
            match parse_i64(&stamp_text) {
                Some(x) => {
                    proof {
                        assert(stamp_text@ == spec_trim(lview[i + 1]));
                        assert(spec_stamp_of(spec_trim(lview[i + 1])) == Some(x as int));
                        assert(spec_build_date_in(lview.skip(i as int)) == Some(x as int));
                    }
                    return Some(x);
                },
                None => {
                    proof {
                        assert(spec_stamp_of(spec_trim(lview[i + 1])) is None);
                        assert(lview.skip(i as int).drop_first() =~= lview.skip(i + 1));
                    }
                },
            }
        } else {
            proof {
                assert(spec_trim(lview[i as int]) != "%BUILDDATE%"@);
                assert(lview.skip(i as int).drop_first() =~= lview.skip(i + 1));
            }
        }
        i += 1;
    }
    proof {
        assert(lview.skip(i as int).len() < 2);
    }
    None
}

/// The freshness points of a mirror database against a reference: two
/// points for every reference package the mirror has newer, one point for
/// every one it has at the same stamp; `compared` counts the packages
/// present on both sides.
pub open spec fn spec_freshness(mirror: PackageBuildDates, reference: Seq<(String, i64)>) -> (
    int,
    int,
)
    decreases reference.len(),
{
    if reference.len() == 0 {
        (0, 0)
    } else {
        let rest = spec_freshness(mirror, reference.drop_last());
        let last = reference.last();
        match mirror.spec_get(last.0@) {
            Some(m_ts) => (
                rest.0 + if m_ts > last.1 {
                    2int
                } else if m_ts == last.1 {
                    1int
                } else {
                    0int
                },
                rest.1 + 1,
            ),
            None => rest,
        }
    }
}

/// Scores a mirror database against the reference, exactly as
/// [`spec_freshness`] describes.  Points are out of two per compared
/// package; a caller wanting the 0..1 score divides by `2 * compared`.
pub fn calculate_freshness_score(mirror: &PackageBuildDates, reference: &PackageBuildDates) -> (r:
    (u64, u64))
    requires
        mirror.wf(),
        reference.wf(),
        reference.packages@.len() <= 0x1_0000_0000,
    ensures
        (r.0 as int, r.1 as int) == spec_freshness(*mirror, reference.packages@),
{
    let n = reference.packages.len();
    let mut points: u64 = 0;
    let mut compared: u64 = 0;
    let mut i: usize = 0;
    while i < n
        invariant
            mirror.wf(),
            n == reference.packages@.len() <= 0x1_0000_0000,
            0 <= i <= n,
            points <= 2 * i,
            compared <= i,
            (points as int, compared as int) == spec_freshness(
                *mirror,
                reference.packages@.subrange(0, i as int),
            ),
        decreases n - i,
    {
        let entry = &reference.packages[i];
        proof {
            assert(reference.packages@.subrange(0, i + 1).drop_last() =~= reference.packages@.subrange(
                0,
                i as int,
            ));
            assert(reference.packages@.subrange(0, i + 1).last() == reference.packages@[i as int]);
        }
        match mirror.get(entry.0.as_str()) {
            Some(m_ts) => {
                if m_ts > entry.1 {
                    points = points + 2;
                } else if m_ts == entry.1 {
                    points = points + 1;
                }
                compared = compared + 1;
            },
            None => {},
        }
        i += 1;
    }
    proof {
        assert(reference.packages@.subrange(0, n as int) =~= reference.packages@);
    }
    (points, compared)
}


/// What the tar crate reads out of an archive: the entries' paths and
/// contents, a function of the bytes alone; nothing when the archive
/// cannot be walked.
pub uninterp spec fn tar_entries_of(data: Seq<u8>) -> Option<Seq<(Seq<u8>, Seq<u8>)>>;

/// Relies on `tar::Archive::entries`, `tar::Entry::path_bytes` and
/// `tar::Entry::read_to_end`: walking a tar archive held in memory depends
/// on its bytes alone and yields each entry's path and contents.
#[verifier::external_body]
fn tar_entries(data: &[u8]) -> (r: Option<Vec<(Vec<u8>, Vec<u8>)>>)
    ensures
        match (r, tar_entries_of(data@)) {
            (Some(v), Some(s)) => v@.len() == s.len() && forall|i: int|
                0 <= i < s.len() ==> (#[trigger] v@[i]).0@ == s[i].0 && v@[i].1@ == s[i].1,
            (None, None) => true,
            _ => false,
        },
{
    let mut archive = tar::Archive::new(std::io::Cursor::new(data));
    let mut out: Vec<(Vec<u8>, Vec<u8>)> = Vec::new();
    for e in archive.entries().ok()? {
        let mut e = e.ok()?;
        let path = e.path_bytes().to_vec();
        let mut buf: Vec<u8> = Vec::new();
        std::io::Read::read_to_end(&mut e, &mut buf).ok()?;
        out.push((path, buf));
    }
    Some(out)
}

/// What zstd decompression makes of the bytes, a function of them alone.
pub uninterp spec fn zstd_decoded_of(data: Seq<u8>) -> Option<Seq<u8>>;

/// Relies on `zstd::stream::decode_all`: decompression depends on the
/// input bytes alone.
#[verifier::external_body]
fn zstd_decode(data: &[u8]) -> (r: Option<Vec<u8>>)
    ensures
        match (r, zstd_decoded_of(data@)) {
            (Some(v), Some(s)) => v@ == s,
            (None, None) => true,
            _ => false,
        },
{
    zstd::stream::decode_all(data).ok()
}

/// What gzip decompression makes of the bytes, a function of them alone.
pub uninterp spec fn gzip_decoded_of(data: Seq<u8>) -> Option<Seq<u8>>;

/// Relies on `flate2::read::GzDecoder` driven by `Read::read_to_end`:
/// decompression depends on the input bytes alone.
#[verifier::external_body]
fn gzip_decode(data: &[u8]) -> (r: Option<Vec<u8>>)
    ensures
        match (r, gzip_decoded_of(data@)) {
            (Some(v), Some(s)) => v@ == s,
            (None, None) => true,
            _ => false,
        },
{
    let mut decoder = flate2::read::GzDecoder::new(data);
    let mut buf: Vec<u8> = Vec::new();
    match std::io::Read::read_to_end(&mut decoder, &mut buf) {
        Ok(_) => Some(buf),
        Err(_) => None,
    }
}

/// Whether an entry path names a package `desc` file.
pub open spec fn spec_is_desc_name(name: Seq<char>) -> bool {
    spec_ends_with(name, "/desc"@) || name == "desc"@
}

/// The name with every trailing `/desc` removed.
pub open spec fn spec_trim_desc(s: Seq<char>) -> Seq<char>
    decreases s.len(),
{
    if spec_ends_with(s, "/desc"@) && ("/desc"@).len() > 0 {
        spec_trim_desc(s.take(s.len() - ("/desc"@).len()))
    } else {
        s
    }
}

/// The suffix after the last slash (the whole name when there is none).
pub open spec fn spec_last_segment(s: Seq<char>) -> Seq<char>
    decreases s.len(),
{
    if s.len() == 0 {
        s
    } else if s.last() == '/' {
        Seq::empty()
    } else {
        spec_last_segment(s.drop_last()).push(s.last())
    }
}

/// The package name of a `desc` entry: the last path segment before the
/// trailing `/desc` parts.
pub open spec fn spec_pkg_name(name: Seq<char>) -> Seq<char> {
    spec_last_segment(spec_trim_desc(name))
}

/// The stamp a database holds for `name` after reading the entries in
/// order (a later `desc` entry for the same package wins).
pub open spec fn spec_tar_get(entries: Seq<(Seq<u8>, Seq<u8>)>, name: Seq<char>) -> Option<i64>
    decreases entries.len(),
{
    if entries.len() == 0 {
        None
    } else {
        let e = entries.last();
        let path = spec_bytes_chars(e.0);
        let stamp = spec_build_date_in(spec_lines(spec_bytes_chars(e.1)));
        if spec_is_desc_name(path) && stamp is Some && spec_pkg_name(path) == name {
            Some(stamp->0 as i64)
        } else {
            spec_tar_get(entries.drop_last(), name)
        }
    }
}

/// The name with every trailing `/desc` removed, executably.
fn trim_desc(v: &Vec<char>) -> (r: Vec<char>)
    ensures
        r@ == spec_trim_desc(v@),
    decreases v@.len(),
{
    let pat = chars_of("/desc");
    let mut cur = sub_chars(v, 0, v.len());
    proof {
        reveal_strlit("/desc");
        assert(cur@ =~= v@);
    }
    while ends_with(&cur, &pat)
        invariant
            pat@ == "/desc"@,
            pat@.len() == 5,
            spec_trim_desc(v@) == spec_trim_desc(cur@),
        decreases cur@.len(),
    {
        proof {
            reveal_strlit("/desc");
        }
        let nl = cur.len() - pat.len();
        cur = sub_chars(&cur, 0, nl);
    }
    proof {
        assert(spec_trim_desc(cur@) == cur@);
    }
    cur
}

/// The suffix after the last slash, executably.
fn last_segment(v: &Vec<char>) -> (r: Vec<char>)
    ensures
        r@ == spec_last_segment(v@),
{
    let n = v.len();
    let mut j: usize = n;
    proof {
        assert(v@.take(n as int) =~= v@);
        assert(v@.subrange(n as int, n as int) =~= Seq::<char>::empty());
        assert(spec_last_segment(v@) =~= spec_last_segment(v@.take(n as int)) + v@.subrange(
            n as int,
            n as int,
        ));
    }
    while j > 0 && v[j - 1] != '/'
        invariant
            n == v@.len(),
            0 <= j <= n,
            spec_last_segment(v@) =~= spec_last_segment(v@.take(j as int)) + v@.subrange(
                j as int,
                n as int,
            ),
            forall|k: int| j <= k < n ==> v@[k] != '/',
        decreases j,
    {
        proof {
            assert(v@.take(j as int).drop_last() =~= v@.take(j - 1));
        }
        j -= 1;
    }
    proof {
        if j > 0 {
            assert(v@.take(j as int).last() == '/');
            assert(spec_last_segment(v@.take(j as int)) =~= Seq::<char>::empty());
        } else {
            assert(v@.take(0) =~= Seq::<char>::empty());
        }
        assert(spec_last_segment(v@) =~= v@.subrange(j as int, n as int));
    }
    sub_chars(v, j, n)
}

/// Reads the package build dates out of a raw tar archive: exactly the
/// stamps [`spec_tar_get`] describes, for every package name.
pub fn parse_tar(data: &[u8]) -> (r: Option<PackageBuildDates>)
    ensures
        (r is Some) <==> (tar_entries_of(data@) is Some),
        r is Some ==> r->0.wf() && forall|name: Seq<char>|
            #[trigger] r->0.spec_get(name) == spec_tar_get(tar_entries_of(data@)->0, name),
{
    let entries = match tar_entries(data) {
        Some(e) => e,
        None => {
            return None;
        },
    };
    let ghost eview = tar_entries_of(data@)->0;
    let mut db = PackageBuildDates { packages: Vec::new() };
    let n = entries.len();
    let mut i: usize = 0;
    proof {
        assert forall|name: Seq<char>|
            #[trigger] db.spec_get(name) == spec_tar_get(eview.take(0), name) by {
            assert(eview.take(0).len() == 0);
        }
    }
    while i < n
        invariant
            n == entries@.len() == eview.len(),
            0 <= i <= n,
            forall|k: int|
                0 <= k < n ==> (#[trigger] entries@[k]).0@ == eview[k].0 && entries@[k].1@
                    == eview[k].1,
            db.wf(),
            forall|name: Seq<char>|
                #[trigger] db.spec_get(name) == spec_tar_get(eview.take(i as int), name),
        decreases n - i,
    {
        let ghost pre = eview.take(i as int);
        proof {
            assert(eview.take(i + 1).drop_last() =~= pre);
            assert(eview.take(i + 1).last() == eview[i as int]);
        }
        let path_chars = bytes_to_chars(entries[i].0.as_slice());
        let desc_lit = chars_of("desc");
        let desc_suffix = chars_of("/desc");
        let is_desc = ends_with(&path_chars, &desc_suffix) || crate::strutil::chars_eq(
            &path_chars,
            &desc_lit,
        );
        if is_desc {
            match extract_build_date(entries[i].1.as_slice()) {
                Some(ts) => {
                    let td = trim_desc(&path_chars);
                    let seg = last_segment(&td);
                    let pkg = string_from_chars(&seg);
                    proof {
                        assert(pkg@ == spec_pkg_name(spec_bytes_chars(eview[i as int].0)));
                    }
                    db.upsert(pkg, ts);
                    proof {
                        assert forall|name: Seq<char>|
                            #[trigger] db.spec_get(name) == spec_tar_get(
                            eview.take(i + 1),
                            name,
                        ) by {
                            if name == spec_pkg_name(spec_bytes_chars(eview[i as int].0)) {
                            } else {
                            }
                        }
                    }
                },
                None => {
                    proof {
                        assert forall|name: Seq<char>|
                            #[trigger] db.spec_get(name) == spec_tar_get(
                            eview.take(i + 1),
                            name,
                        ) by {}
                    }
                },
            }
        } else {
            proof {
                assert forall|name: Seq<char>|
                    #[trigger] db.spec_get(name) == spec_tar_get(eview.take(i + 1), name) by {}
            }
        }
        i += 1;
    }
    proof {
        assert(eview.take(n as int) =~= eview);
    }
    Some(db)
}

/// The entry list a database's bytes denote: a zstd-compressed tar, a
/// gzip-compressed tar, or a raw tar, tried in that order.
pub open spec fn spec_db_entries(data: Seq<u8>) -> Option<Seq<(Seq<u8>, Seq<u8>)>> {
    if zstd_decoded_of(data) is Some && tar_entries_of(zstd_decoded_of(data)->0) is Some {
        tar_entries_of(zstd_decoded_of(data)->0)
    } else if gzip_decoded_of(data) is Some && tar_entries_of(gzip_decoded_of(data)->0) is Some {
        tar_entries_of(gzip_decoded_of(data)->0)
    } else {
        tar_entries_of(data)
    }
}

/// Reads the package build dates out of possibly compressed database
/// bytes, trying zstd, then gzip, then a raw tar archive.
pub fn parse_db_bytes(data: &[u8]) -> (r: Option<PackageBuildDates>)
    ensures
        (r is Some) <==> (spec_db_entries(data@) is Some),
        r is Some ==> r->0.wf() && forall|name: Seq<char>|
            #[trigger] r->0.spec_get(name) == spec_tar_get(spec_db_entries(data@)->0, name),
{
    match zstd_decode(data) {
        Some(buf) => match parse_tar(buf.as_slice()) {
            Some(db) => {
                return Some(db);
            },
            None => {},
        },
        None => {},
    }
    match gzip_decode(data) {
        Some(buf) => match parse_tar(buf.as_slice()) {
            Some(db) => {
                return Some(db);
            },
            None => {},
        },
        None => {},
    }
    parse_tar(data)
}

} // verus!
