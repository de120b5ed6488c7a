//! Character-sequence utilities the mirror-list parsers are built on.
//!
//! Parsing works on `Vec<char>` so that every step has an exact
//! specification over `Seq<char>`; strings enter through [`chars_of`] and
//! leave through [`string_from_chars`].

use vstd::prelude::*;

verus! {

/// Whether `s` begins with `p`.
pub open spec fn spec_starts_with(s: Seq<char>, p: Seq<char>) -> bool {
    p.len() <= s.len() && s.subrange(0, p.len() as int) == p
}

/// Whether `s` ends with `p`.
pub open spec fn spec_ends_with(s: Seq<char>, p: Seq<char>) -> bool {
    p.len() <= s.len() && s.subrange(s.len() - p.len(), s.len() as int) == p
}

/// ASCII whitespace, as the parsers understand it.
pub open spec fn spec_is_whitespace(c: char) -> bool {
    c == ' ' || c == '\t' || c == '\n' || c == '\r' || c == '\u{b}' || c == '\u{c}'
}

/// `s` without leading whitespace.
pub open spec fn spec_trim_start(s: Seq<char>) -> Seq<char>
    decreases s.len(),
{
    if s.len() > 0 && spec_is_whitespace(s[0]) {
        spec_trim_start(s.drop_first())
    } else {
        s
    }
}

/// `s` without trailing whitespace.
pub open spec fn spec_trim_end(s: Seq<char>) -> Seq<char>
    decreases s.len(),
{
    if s.len() > 0 && spec_is_whitespace(s[s.len() - 1]) {
        spec_trim_end(s.drop_last())
    } else {
        s
    }
}

/// `s` without leading and trailing whitespace.
pub open spec fn spec_trim(s: Seq<char>) -> Seq<char> {
    spec_trim_end(spec_trim_start(s))
}

/// Equality of two string slices, decided character by character.
pub fn str_eq(a: &str, b: &str) -> (r: bool)
    ensures
        r == (a@ == b@),
{
    let an = a.unicode_len();
    let bn = b.unicode_len();
    if an != bn {
        assert(a@ != b@) by {
            assert(a@.len() != b@.len());
        }
        return false;
    }
    let mut i: usize = 0;
    while i < an
        invariant
            an == a@.len(),
            an == b@.len(),
            0 <= i <= an,
            forall|j: int| 0 <= j < i ==> a@[j] == b@[j],
        decreases an - i,
    {
        if a.get_char(i) != b.get_char(i) {
            assert(a@ != b@) by {
                assert(a@[i as int] != b@[i as int]);
            }
            return false;
        }
        i += 1;
    }
    assert(a@ =~= b@);
    true
}

/// The characters of `s`, as a vector.
pub fn chars_of(s: &str) -> (r: Vec<char>)
    ensures
        r@ == s@,
{
    let n = s.unicode_len();
    let mut r: Vec<char> = Vec::new();
    let mut i: usize = 0;
    while i < n
        invariant
            n == s@.len(),
            0 <= i <= n,
            r@ == s@.subrange(0, i as int),
        decreases n - i,
    {
        r.push(s.get_char(i));
        i += 1;
        assert(r@ =~= s@.subrange(0, i as int));
    }
    assert(r@ =~= s@);
    r
}

/// Builds a `String` out of a character vector.
///
/// Relies on `String`'s `FromIterator` instance: collecting characters
/// yields the string with exactly those characters.
#[verifier::external_body]
pub fn string_from_chars(v: &Vec<char>) -> (r: String)
    ensures
        r@ == v@,
{
    v.iter().collect()
}

/// Whether `v` begins with `p`.
pub fn starts_with(v: &Vec<char>, p: &Vec<char>) -> (r: bool)
    ensures
        r == spec_starts_with(v@, p@),
{
    let pn = p.len();
    if pn > v.len() {
        return false;
    }
    let mut i: usize = 0;
    while i < pn
        invariant
            pn == p@.len(),
            pn <= v@.len(),
            0 <= i <= pn,
            forall|j: int| 0 <= j < i ==> v@[j] == p@[j],
        decreases pn - i,
    {
        if v[i] != p[i] {
            assert(v@.subrange(0, pn as int)[i as int] != p@[i as int]);
            return false;
        }
        i += 1;
    }
    assert(v@.subrange(0, pn as int) =~= p@);
    true
}

/// Whether `v` ends with `p`.
pub fn ends_with(v: &Vec<char>, p: &Vec<char>) -> (r: bool)
    ensures
        r == spec_ends_with(v@, p@),
{
    let pn = p.len();
    let vn = v.len();
    if pn > vn {
        return false;
    }
    let off = vn - pn;
    let mut i: usize = 0;
    while i < pn
        invariant
            pn == p@.len(),
            vn == v@.len(),
            off == vn - pn,
            0 <= i <= pn,
            forall|j: int| 0 <= j < i ==> v@[off + j] == p@[j],
        decreases pn - i,
    {
        if v[off + i] != p[i] {
            assert(v@.subrange(off as int, vn as int)[i as int] != p@[i as int]);
            return false;
        }
        i += 1;
    }
    assert(v@.subrange(off as int, vn as int) =~= p@);
    true
}

/// The subrange `[from, to)` of `v`, as a new vector.
pub fn sub_chars(v: &Vec<char>, from: usize, to: usize) -> (r: Vec<char>)
    requires
        from <= to <= v@.len(),
    ensures
        r@ == v@.subrange(from as int, to as int),
{
    let mut r: Vec<char> = Vec::new();
    let mut i: usize = from;
    while i < to
        invariant
            from <= i <= to <= v@.len(),
            r@ == v@.subrange(from as int, i as int),
        decreases to - i,
    {
        r.push(v[i]);
        i += 1;
        assert(r@ =~= v@.subrange(from as int, i as int));
    }
    r
}

/// Whether `c` is ASCII whitespace.
pub fn is_whitespace_char(c: char) -> (r: bool)
    ensures
        r == spec_is_whitespace(c),
{
    c == ' ' || c == '\t' || c == '\n' || c == '\r' || c == '\u{b}' || c == '\u{c}'
}

/// `v` without leading whitespace.
pub fn trim_start(v: &Vec<char>) -> (r: Vec<char>)
    ensures
        r@ == spec_trim_start(v@),
{
    let n = v.len();
    let mut i: usize = 0;
    assert(v@.subrange(0, n as int) =~= v@);
    while i < n && is_whitespace_char(v[i])
        invariant
            n == v@.len(),
            0 <= i <= n,
            spec_trim_start(v@) == spec_trim_start(v@.subrange(i as int, n as int)),
            forall|j: int| 0 <= j < i ==> spec_is_whitespace(v@[j]),
        decreases n - i,
    {
        proof {
            let s = v@.subrange(i as int, n as int);
            assert(s.drop_first() =~= v@.subrange(i + 1, n as int));
        }
        i += 1;
    }
    proof {
        let s = v@.subrange(i as int, n as int);
        if i < n {
            assert(!spec_is_whitespace(s[0]));
        }
        assert(spec_trim_start(s) == s);
    }
    sub_chars(v, i, n)
}

/// `v` without trailing whitespace.
pub fn trim_end(v: &Vec<char>) -> (r: Vec<char>)
    ensures
        r@ == spec_trim_end(v@),
{
    let n = v.len();
    let mut j: usize = n;
    assert(v@.subrange(0, n as int) =~= v@);
    while j > 0 && is_whitespace_char(v[j - 1])
        invariant
            n == v@.len(),
            0 <= j <= n,
            spec_trim_end(v@) == spec_trim_end(v@.subrange(0, j as int)),
        decreases j,
    {
        proof {
            let s = v@.subrange(0, j as int);
            assert(s.drop_last() =~= v@.subrange(0, j - 1));
        }
        j -= 1;
    }
    proof {
        let s = v@.subrange(0, j as int);
        if j > 0 {
            assert(!spec_is_whitespace(s[s.len() - 1]));
        }
        assert(spec_trim_end(s) == s);
    }
    sub_chars(v, 0, j)
}

/// `v` without leading and trailing whitespace.
pub fn trim(v: &Vec<char>) -> (r: Vec<char>)
    ensures
        r@ == spec_trim(v@),
{
    let t = trim_start(v);
    trim_end(&t)
}


/// First match of `pat` in `s` at or after the front, if any.
pub open spec fn spec_find(s: Seq<char>, pat: Seq<char>) -> Option<int>
    decreases s.len(),
    via spec_find_decreases
{
    if s.len() < pat.len() {
        None
    } else if spec_starts_with(s, pat) {
        Some(0)
    } else {
        match spec_find(s.drop_first(), pat) {
            Some(i) => Some(i + 1),
            None => None,
        }
    }
}

#[via_fn]
proof fn spec_find_decreases(s: Seq<char>, pat: Seq<char>) {
    if s.len() >= pat.len() && !spec_starts_with(s, pat) {
        if pat.len() == 0 {
            assert(s.subrange(0, 0) =~= pat);
        }
    }
}

/// The pattern of a failed prefix match is non-empty.
proof fn lemma_no_match_nonempty(s: Seq<char>, pat: Seq<char>)
    requires
        s.len() >= pat.len(),
        !spec_starts_with(s, pat),
    ensures
        pat.len() >= 1,
        s.len() >= 1,
{
    if pat.len() == 0 {
        assert(s.subrange(0, 0) =~= pat);
    }
}

/// A found index is in range and marks a match preceded by no other.
pub proof fn lemma_find_ensures(s: Seq<char>, pat: Seq<char>)
    ensures
        match spec_find(s, pat) {
            Some(i) => 0 <= i && i + pat.len() <= s.len() && spec_starts_with(s.skip(i), pat),
            None => true,
        },
    decreases s.len(),
{
    if s.len() >= pat.len() && !spec_starts_with(s, pat) {
        lemma_no_match_nonempty(s, pat);
        lemma_find_ensures(s.drop_first(), pat);
        if spec_find(s.drop_first(), pat) is Some {
            let i = spec_find(s.drop_first(), pat)->0;
            assert(s.drop_first().skip(i) =~= s.skip(i + 1));
        }
    } else if s.len() >= pat.len() {
        assert(s.skip(0) =~= s);
    }
}

/// Replaces every occurrence of `pat` (left to right, non-overlapping)
/// with `rep`; an empty pattern leaves `s` unchanged.
pub open spec fn spec_replace(s: Seq<char>, pat: Seq<char>, rep: Seq<char>) -> Seq<char>
    decreases s.len(),
{
    if pat.len() == 0 || s.len() < pat.len() {
        s
    } else if spec_starts_with(s, pat) {
        rep + spec_replace(s.skip(pat.len() as int), pat, rep)
    } else {
        seq![s[0]] + spec_replace(s.drop_first(), pat, rep)
    }
}

/// Replaces every occurrence of `pat` with `rep`, exactly as
/// [`spec_replace`] describes.
pub fn replace_chars(v: &Vec<char>, pat: &Vec<char>, rep: &Vec<char>) -> (r: Vec<char>)
    ensures
        r@ == spec_replace(v@, pat@, rep@),
{
    let n = v.len();
    let pn = pat.len();
    if pn == 0 {
        return sub_chars(v, 0, n);
    }
    let mut out: Vec<char> = Vec::new();
    let mut i: usize = 0;
    proof {
        assert(v@.skip(0) =~= v@);
    }
    while i < n
        invariant
            n == v@.len(),
            pn == pat@.len(),
            pn >= 1,
            0 <= i <= n,
            spec_replace(v@, pat@, rep@) == out@ + spec_replace(v@.skip(i as int), pat@, rep@),
        decreases n - i,
    {
        let matches_here: bool = if pn <= n - i {
            let w = sub_chars(v, i, i + pn);
            chars_eq(&w, pat)
        } else {
            false
        };
        let ghost rem = v@.skip(i as int);
        if matches_here {
            proof {
                assert(rem.subrange(0, pn as int) =~= v@.subrange(i as int, i + pn));
                assert(spec_starts_with(rem, pat@));
                assert(rem.skip(pn as int) =~= v@.skip(i + pn));
            }
            let mut j: usize = 0;
            let rn = rep.len();
            let ghost out_pre = out@;
            while j < rn
                invariant
                    rn == rep@.len(),
                    0 <= j <= rn,
                    out@ =~= out_pre + rep@.subrange(0, j as int),
                decreases rn - j,
            {
                out.push(rep[j]);
                j += 1;
                assert(out@ =~= out_pre + rep@.subrange(0, j as int));
            }
            proof {
                assert(rep@.subrange(0, rn as int) =~= rep@);
                assert(out@ =~= out_pre + rep@);
            }
            i = i + pn;
            proof {
                assert(spec_replace(v@, pat@, rep@) == out@ + spec_replace(
                    v@.skip(i as int),
                    pat@,
                    rep@,
                ));
            }
        } else {
            proof {
                if i + pn <= n {
                    assert(rem.subrange(0, pn as int) =~= v@.subrange(i as int, i + pn));
                    assert(!spec_starts_with(rem, pat@));
                } else {
                    assert(rem.len() < pn);
                }
                assert(rem.drop_first() =~= v@.skip(i + 1));
                if rem.len() >= pn {
                    assert(spec_replace(rem, pat@, rep@) == seq![rem[0]] + spec_replace(
                        rem.drop_first(),
                        pat@,
                        rep@,
                    ));
                } else {
                    assert(spec_replace(rem, pat@, rep@) == rem);
                    assert(rem =~= seq![rem[0]] + rem.drop_first());
                    assert(spec_replace(rem.drop_first(), pat@, rep@) == rem.drop_first());
                }
            }
            out.push(v[i]);
            i += 1;
            proof {
                assert(spec_replace(v@, pat@, rep@) =~= out@ + spec_replace(
                    v@.skip(i as int),
                    pat@,
                    rep@,
                ));
            }
        }
    }
    proof {
        assert(v@.skip(n as int) =~= Seq::<char>::empty());
        assert(spec_replace(v@.skip(n as int), pat@, rep@) =~= Seq::<char>::empty());
        assert(spec_replace(v@, pat@, rep@) =~= out@);
    }
    out
}

/// Equality of two character vectors.
pub fn chars_eq(a: &Vec<char>, b: &Vec<char>) -> (r: bool)
    ensures
        r == (a@ == b@),
{
    let n = a.len();
    if n != b.len() {
        assert(a@.len() != b@.len());
        return false;
    }
    let mut i: usize = 0;
    while i < n
        invariant
            n == a@.len() == b@.len(),
            0 <= i <= n,
            forall|j: int| 0 <= j < i ==> a@[j] == b@[j],
        decreases n - i,
    {
        if a[i] != b[i] {
            return false;
        }
        i += 1;
    }
    assert(a@ =~= b@);
    true
}

/// `v` without the prefix `p`, when `v` begins with it.
pub fn strip_prefix(v: &Vec<char>, p: &Vec<char>) -> (r: Option<Vec<char>>)
    ensures
        r is Some <==> spec_starts_with(v@, p@),
        r is Some ==> r->0@ == v@.skip(p@.len() as int),
{
    if starts_with(v, p) {
        let r = sub_chars(v, p.len(), v.len());
        proof {
            assert(v@.subrange(p@.len() as int, v@.len() as int) =~= v@.skip(p@.len() as int));
        }
        Some(r)
    } else {
        None
    }
}

/// The fields of `s` between occurrences of the non-empty separator
/// `sep`, left to right; a separator at the edge yields an empty field.
pub open spec fn spec_split(s: Seq<char>, sep: Seq<char>) -> Seq<Seq<char>>
    decreases s.len(),
    via spec_split_decreases
{
    if sep.len() == 0 {
        seq![s]
    } else {
        match spec_find(s, sep) {
            None => seq![s],
            Some(i) => seq![s.take(i)] + spec_split(s.skip(i + sep.len()), sep),
        }
    }
}

#[via_fn]
proof fn spec_split_decreases(s: Seq<char>, sep: Seq<char>) {
    lemma_find_ensures(s, sep);
}

/// Splits `v` on the separator, exactly as [`spec_split`] describes.
pub fn split_chars(v: &Vec<char>, sep: &Vec<char>) -> (r: Vec<Vec<char>>)
    requires
        sep@.len() >= 1,
    ensures
        r@.map_values(|x: Vec<char>| x@) == spec_split(v@, sep@),
{
    let mut out: Vec<Vec<char>> = Vec::new();
    let n = v.len();
    let pn = sep.len();
    let mut start: usize = 0;
    let mut i: usize = 0;
    proof {
        assert(v@.skip(0) =~= v@);
    }
    while i < n
        invariant
            n == v@.len(),
            pn == sep@.len() >= 1,
            0 <= start <= i <= n,
            spec_split(v@, sep@) =~= out@.map_values(|x: Vec<char>| x@) + spec_split(
                v@.skip(start as int),
                sep@,
            ),
            spec_find(v@.skip(start as int), sep@) == spec_find_from(v@, sep@, start as int, i as int),
        decreases n - i,
    {
        let matches_here: bool = if pn <= n - i {
            let w = sub_chars(v, i, i + pn);
            chars_eq(&w, sep)
        } else {
            false
        };
        if matches_here {
            let field = sub_chars(v, start, i);
            out.push(field);
            proof {
                let rem = v@.skip(start as int);
                assert(rem.subrange((i - start) as int, (i - start) + pn as int) =~= v@.subrange(
                    i as int,
                    i + pn,
                ));
                assert(spec_starts_with(rem.skip((i - start) as int), sep@)) by {
                    assert(rem.skip((i - start) as int) =~= v@.skip(i as int));
                    assert(v@.skip(i as int).subrange(0, pn as int) =~= v@.subrange(
                        i as int,
                        i + pn,
                    ));
                }
                assert(spec_starts_with(v@.skip(i as int), sep@)) by {
                    assert(v@.skip(i as int).subrange(0, pn as int) =~= v@.subrange(
                        i as int,
                        i + pn,
                    ));
                }
                assert(spec_find(v@.skip(i as int), sep@) == Some(0int));
                assert(spec_find(rem, sep@) == Some((i - start) as int));
                assert(rem.take((i - start) as int) =~= v@.subrange(start as int, i as int));
                assert(rem.skip((i - start) + pn) =~= v@.skip(i + pn));
                assert(spec_split(rem, sep@) == seq![rem.take((i - start) as int)] + spec_split(
                    rem.skip((i - start) + pn),
                    sep@,
                ));
            }
            i = i + pn;
            start = i;
            proof {
                assert(spec_split(v@, sep@) =~= out@.map_values(|x: Vec<char>| x@) + spec_split(
                    v@.skip(start as int),
                    sep@,
                ));
                lemma_find_from_start(v@, sep@, start as int);
            }
        } else {
            proof {
                lemma_find_from_step(v@, sep@, start as int, i as int);
            }
            i += 1;
        }
    }
    let field = sub_chars(v, start, n);
    out.push(field);
    proof {
        let rem = v@.skip(start as int);
        lemma_find_from_end(v@, sep@, start as int, n as int);
        assert(spec_find(rem, sep@) is None);
        assert(spec_split(rem, sep@) == seq![rem]);
        assert(rem =~= v@.subrange(start as int, n as int));
        assert(out@.map_values(|x: Vec<char>| x@) =~= spec_split(v@, sep@));
    }
    out
}

/// The first match of `sep` in `s` at or after `start`, given that no
/// match begins in `[start, i)`: what is left to search.
pub open spec fn spec_find_from(s: Seq<char>, sep: Seq<char>, start: int, i: int) -> Option<int> {
    match spec_find(s.skip(i), sep) {
        Some(k) => Some(k + (i - start)),
        None => None,
    }
}

/// At the search front, the remaining search is the whole search.
proof fn lemma_find_from_start(s: Seq<char>, sep: Seq<char>, start: int)
    requires
        0 <= start <= s.len(),
    ensures
        spec_find(s.skip(start), sep) == spec_find_from(s, sep, start, start),
{
}

/// A non-match at `i` moves the search front one step.
proof fn lemma_find_from_step(s: Seq<char>, sep: Seq<char>, start: int, i: int)
    requires
        0 <= start <= i < s.len(),
        sep.len() >= 1,
        !(i + sep.len() <= s.len() && s.subrange(i, i + sep.len()) == sep),
    ensures
        spec_find_from(s, sep, start, i) == spec_find_from(s, sep, start, i + 1),
{
    let rem = s.skip(i);
    assert(rem.drop_first() =~= s.skip(i + 1));
    if rem.len() >= sep.len() {
        assert(rem.subrange(0, sep.len() as int) =~= s.subrange(i, i + sep.len()));
        assert(!spec_starts_with(rem, sep));
    }
}

/// With the front at the end and no match found, the search is empty.
proof fn lemma_find_from_end(s: Seq<char>, sep: Seq<char>, start: int, n: int)
    requires
        0 <= start <= n == s.len(),
        sep.len() >= 1,
        spec_find(s.skip(start), sep) == spec_find_from(s, sep, start, n),
    ensures
        spec_find(s.skip(start), sep) is None,
{
    assert(s.skip(n) =~= Seq::<char>::empty());
    assert(spec_find(s.skip(n), sep) is None);
}


/// An ASCII decimal digit.
pub open spec fn spec_is_digit(c: char) -> bool {
    '0' <= c && c <= '9'
}

/// The numeric value of a digit sequence (most significant first).
pub open spec fn spec_digits_val(s: Seq<char>) -> int
    decreases s.len(),
{
    if s.len() == 0 {
        0
    } else {
        spec_digits_val(s.drop_last()) * 10 + (s.last() as int - '0' as int)
    }
}

/// Whether every character of `s` is a digit.
pub open spec fn spec_all_digits(s: Seq<char>) -> bool {
    forall|i: int| 0 <= i < s.len() ==> spec_is_digit(#[trigger] s[i])
}

/// The digit body of an unsigned decimal literal: the characters after an
/// optional leading plus sign.
pub open spec fn spec_unsigned_body(s: Seq<char>) -> Seq<char> {
    if s.len() > 0 && s[0] == '+' {
        s.drop_first()
    } else {
        s
    }
}

/// The value of a digit prefix never shrinks as the prefix grows.
proof fn lemma_digits_val_mono(s: Seq<char>, i: int)
    requires
        0 <= i <= s.len(),
        spec_all_digits(s),
    ensures
        spec_digits_val(s.take(i)) <= spec_digits_val(s),
        spec_digits_val(s) >= 0,
    decreases s.len() - i,
{
    if i == s.len() {
        assert(s.take(i) =~= s);
        lemma_digits_val_nonneg(s);
    } else {
        lemma_digits_val_mono(s, i + 1);
        lemma_digits_val_nonneg(s.take(i));
        assert(s.take(i + 1).drop_last() =~= s.take(i));
        assert(s.take(i + 1).last() == s[i]);
        assert(spec_digits_val(s.take(i)) <= spec_digits_val(s.take(i + 1))) by (nonlinear_arith)
            requires
                spec_digits_val(s.take(i + 1)) == spec_digits_val(s.take(i)) * 10 + (s[i] as int
                    - '0' as int),
                spec_digits_val(s.take(i)) >= 0,
                '0' <= s[i] <= '9',
        ;
    }
}

/// Digit values are nonnegative.
proof fn lemma_digits_val_nonneg(s: Seq<char>)
    requires
        spec_all_digits(s),
    ensures
        spec_digits_val(s) >= 0,
    decreases s.len(),
{
    if s.len() > 0 {
        assert(spec_all_digits(s.drop_last())) by {
            assert(forall|i: int| 0 <= i < s.len() - 1 ==> s.drop_last()[i] == #[trigger] s[i]);
        }
        lemma_digits_val_nonneg(s.drop_last());
    }
}

/// Parses an unsigned decimal integer, as `str::parse::<u64>` does: an
/// optional leading plus sign, then only digits, at least one, with a
/// value that fits.
pub fn parse_u64(v: &Vec<char>) -> (r: Option<u64>)
    ensures
        ({
            let body = spec_unsigned_body(v@);
            match r {
                Some(x) => body.len() > 0 && spec_all_digits(body) && spec_digits_val(body)
                    <= u64::MAX && x == spec_digits_val(body),
                None => body.len() == 0 || !spec_all_digits(body) || spec_digits_val(body)
                    > u64::MAX,
            }
        }),
{
    let n = v.len();
    let start: usize = if n > 0 && v[0] == '+' {
        1
    } else {
        0
    };
    proof {
        if start == 1 {
            assert(spec_unsigned_body(v@) =~= v@.skip(1));
        } else {
            assert(spec_unsigned_body(v@) =~= v@);
        }
    }
    let ghost body = spec_unsigned_body(v@);
    if start >= n {
        return None;
    }
    let mut acc: u64 = 0;
    let mut i: usize = start;
    while i < n
        invariant
            n == v@.len(),
            start <= i <= n,
            start < n,
            start == 0 || start == 1,
            body == spec_unsigned_body(v@),
            body == v@.skip(start as int),
            spec_all_digits(body.take((i - start) as int)),
            acc == spec_digits_val(body.take((i - start) as int)),
        decreases n - i,
    {
        let c = v[i];
        if c < '0' || c > '9' {
            proof {
                assert(body[(i - start) as int] == v@[i as int]);
                assert(!spec_is_digit(body[(i - start) as int]));
                assert(!spec_all_digits(body)) by {
                    if spec_all_digits(body) {
                        assert(spec_is_digit(body[(i - start) as int]));
                    }
                }
            }
            return None;
        }
        let d: u64 = (c as u8 - 48) as u64;
        proof {
            assert(d == c as int - '0' as int);
            assert(body.take((i + 1 - start) as int).drop_last() =~= body.take((i - start) as int));
            assert(body.take((i + 1 - start) as int).last() == v@[i as int]);
        }
        if acc > (u64::MAX - d) / 10 {
            proof {
                let pre = body.take((i - start) as int);
                let cur = body.take((i + 1 - start) as int);
                assert(spec_all_digits(cur));
                assert(spec_digits_val(cur) == acc * 10 + d);
                assert(acc * 10 + d > u64::MAX) by (nonlinear_arith)
                    requires
                        acc > (u64::MAX as int - d) / 10,
                        0 <= d <= 9,
                        acc >= 0,
                ;
                assert(spec_all_digits(body) ==> spec_digits_val(body) > u64::MAX) by {
                    if spec_all_digits(body) {
                        lemma_digits_val_mono(body, (i + 1 - start) as int);
                    }
                }
            }
            return None;
        }
        proof {
            assert(acc * 10 + d <= u64::MAX) by (nonlinear_arith)
                requires
                    acc <= (u64::MAX as int - d) / 10,
                    0 <= d <= 9,
                    acc >= 0,
            ;
        }
        acc = acc * 10 + d;
        i += 1;
    }
    proof {
        assert(body.take((n - start) as int) =~= body);
    }
    Some(acc)
}

/// Parses a signed decimal integer, as `str::parse::<i64>` does: an
/// optional sign, then only digits, at least one, with a value in range.
pub fn parse_i64(v: &Vec<char>) -> (r: Option<i64>)
    ensures
        ({
            let neg = v@.len() > 0 && v@[0] == '-';
            let body = if v@.len() > 0 && (v@[0] == '-' || v@[0] == '+') {
                v@.drop_first()
            } else {
                v@
            };
            match r {
                Some(x) => body.len() > 0 && spec_all_digits(body) && (if neg {
                    x == -spec_digits_val(body) && spec_digits_val(body) <= 0x8000_0000_0000_0000
                } else {
                    x == spec_digits_val(body) && spec_digits_val(body) <= i64::MAX
                }),
                None => body.len() == 0 || !spec_all_digits(body) || (if neg {
                    spec_digits_val(body) > 0x8000_0000_0000_0000
                } else {
                    spec_digits_val(body) > i64::MAX
                }),
            }
        }),
{
    let n = v.len();
    if n == 0 {
        return None;
    }
    let neg = v[0] == '-';
    let rest: Vec<char> = if v[0] == '-' || v[0] == '+' {
        sub_chars(v, 1, n)
    } else {
        sub_chars(v, 0, n)
    };
    proof {
        if v@[0] == '-' || v@[0] == '+' {
            assert(rest@ =~= v@.drop_first());
        } else {
            assert(rest@ =~= v@);
        }
    }
    if rest.len() > 0 {
        let c0 = rest[0];
        if c0 == '+' {
            proof {
                assert(!spec_is_digit(rest@[0]));
                assert(!spec_all_digits(rest@));
            }
            return None;
        }
    }
    proof {
        assert(spec_unsigned_body(rest@) == rest@);
    }
    let mag = match parse_u64(&rest) {
        Some(x) => x,
        None => {
            return None;
        },
    };
    if neg {
        if mag > 0x8000_0000_0000_0000 {
            return None;
        }
        if mag == 0x8000_0000_0000_0000 {
            return Some(i64::MIN);
        }
        Some(-(mag as i64))
    } else {
        if mag > i64::MAX as u64 {
            return None;
        }
        Some(mag as i64)
    }
}


/// A line without its trailing carriage return, if it has one.
pub open spec fn spec_strip_cr(l: Seq<char>) -> Seq<char> {
    if l.len() > 0 && l[l.len() - 1] == '\r' {
        l.drop_last()
    } else {
        l
    }
}

/// The lines of `s`: fields between newline characters, with a trailing
/// carriage return removed from each, and no phantom line after a final
/// newline.
pub open spec fn spec_lines(s: Seq<char>) -> Seq<Seq<char>> {
    let parts = spec_split(s, seq!['\n']);
    let parts2 = if s.len() > 0 && s[s.len() - 1] == '\n' {
        parts.drop_last()
    } else {
        parts
    };
    parts2.map_values(|l: Seq<char>| spec_strip_cr(l))
}

/// Splits text into lines, exactly as [`spec_lines`] describes (and as
/// `str::lines` behaves).
pub fn split_lines(v: &Vec<char>) -> (r: Vec<Vec<char>>)
    ensures
        r@.map_values(|x: Vec<char>| x@) == spec_lines(v@),
{
    let mut sep: Vec<char> = Vec::new();
    sep.push('\n');
    proof {
        assert(sep@ =~= seq!['\n']);
    }
    let mut parts = split_chars(v, &sep);
    let ghost parts0 = parts@.map_values(|x: Vec<char>| x@);
    if v.len() > 0 && v[v.len() - 1] == '\n' {
        proof {
            lemma_split_nonempty(v@, seq!['\n']);
        }
        let _ = parts.pop();
        proof {
            assert(parts@.map_values(|x: Vec<char>| x@) =~= parts0.drop_last());
        }
    }
    let ghost parts2 = parts@.map_values(|x: Vec<char>| x@);
    let n = parts.len();
    let mut out: Vec<Vec<char>> = Vec::new();
    let mut i: usize = 0;
    while i < n
        invariant
            n == parts@.len(),
            0 <= i <= n,
            parts2 == parts@.map_values(|x: Vec<char>| x@),
            out@.map_values(|x: Vec<char>| x@) =~~= parts2.map_values(|l: Seq<char>| spec_strip_cr(l)).take(i as int),
        decreases n - i,
    {
        proof {
            assert(parts2[i as int] == parts@[i as int]@);
        }
        let ln = parts[i].len();
        let line: Vec<char> = if ln > 0 && parts[i][ln - 1] == '\r' {
            let t = sub_chars(&parts[i], 0, ln - 1);
            proof {
                assert(t@ =~= parts2[i as int].drop_last());
            }
            t
        } else {
            let t = sub_chars(&parts[i], 0, ln);
            proof {
                assert(t@ =~= parts2[i as int]);
            }
            t
        };
        let ghost out_pre = out@;
        out.push(line);
        proof {
            let m = parts2.map_values(|l: Seq<char>| spec_strip_cr(l));
            assert(line@ == spec_strip_cr(parts2[i as int]));
            assert(line@ == m[i as int]);
            assert(out_pre.map_values(|x: Vec<char>| x@).len() == i);
            assert forall|k: int|
                0 <= k < out@.len() implies (#[trigger] out@[k])@ == m.take(i + 1)[k] by {
                if k < i {
                    assert(out@[k] == out_pre[k]);
                    assert(out_pre.map_values(|x: Vec<char>| x@)[k] == m.take(i as int)[k]);
                } else {
                    assert(out@[k] == line);
                }
            }
            assert(out@.map_values(|x: Vec<char>| x@) =~~= m.take(i + 1));
        }
        i += 1;
    }
    proof {
        let m = parts2.map_values(|l: Seq<char>| spec_strip_cr(l));
        assert(m.take(n as int) =~= m);
        assert(out@.map_values(|x: Vec<char>| x@) =~~= spec_lines(v@));
    }
    out
}

/// A split always yields at least one field.
proof fn lemma_split_nonempty(s: Seq<char>, sep: Seq<char>)
    requires
        sep.len() >= 1,
    ensures
        spec_split(s, sep).len() >= 1,
    decreases s.len(),
{
    lemma_find_ensures(s, sep);
    if spec_find(s, sep) is Some {
        let i = spec_find(s, sep)->0;
        lemma_split_nonempty(s.skip(i + sep.len()), sep);
    }
}


/// The parts joined with `sep` between them.
pub open spec fn spec_joined(parts: Seq<Seq<char>>, sep: Seq<char>) -> Seq<char>
    decreases parts.len(),
{
    if parts.len() == 0 {
        Seq::empty()
    } else if parts.len() == 1 {
        parts[0]
    } else {
        spec_joined(parts.drop_last(), sep) + sep + parts.last()
    }
}

/// Joins strings with a separator, exactly as [`spec_joined`] describes.
pub fn join_strings(parts: &Vec<String>, sep: &str) -> (r: String)
    ensures
        r@ == spec_joined(parts@.map_values(|s: String| s@), sep@),
{
    let ghost pview = parts@.map_values(|s: String| s@);
    let n = parts.len();
    let mut out = String::new();
    let mut i: usize = 0;
    while i < n
        invariant
            n == parts@.len(),
            pview == parts@.map_values(|s: String| s@),
            0 <= i <= n,
            out@ == spec_joined(pview.take(i as int), sep@),
        decreases n - i,
    {
        proof {
            assert(pview.take(i + 1).drop_last() =~= pview.take(i as int));
            assert(pview.take(i + 1).last() == pview[i as int]);
            assert(pview[i as int] == parts@[i as int]@);
            if i == 0 {
                assert(spec_joined(pview.take(1), sep@) == pview[0]);
            }
        }
        if i > 0 {
            out.append(sep);
        }
        out.append(parts[i].as_str());
        i += 1;
    }
    proof {
        assert(pview.take(n as int) =~= pview);
    }
    out
}

} // verus!
