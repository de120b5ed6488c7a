//! Deterministic ordering: a stable descending sort over `u64` keys, and a
//! stable merge of speed-sorted result lists.
//!
//! Both operations have exact functional specifications: the executable
//! code returns precisely the sequence the spec functions describe.

use vstd::prelude::*;
use vstd::multiset::Multiset;

use crate::speed_test::SpeedTestResult;

verus! {

/// Index of the first pair holding the greatest key.
pub open spec fn spec_first_max_index<T>(s: Seq<(u64, T)>) -> int
    decreases s.len(),
{
    if s.len() <= 1 {
        0
    } else {
        let rest = spec_first_max_index(s.drop_first()) + 1;
        if s[0].0 >= s[rest].0 {
            0
        } else {
            rest
        }
    }
}

/// The first-max index is a valid index, holds a maximal key, and is the
/// first position where that key appears.
pub proof fn lemma_first_max_index_ensures<T>(s: Seq<(u64, T)>)
    requires
        s.len() > 0,
    ensures
        0 <= spec_first_max_index(s) < s.len(),
        forall|i: int| 0 <= i < s.len() ==> (#[trigger] s[i]).0 <= s[spec_first_max_index(s)].0,
        forall|i: int| 0 <= i < spec_first_max_index(s) ==> (#[trigger] s[i]).0 < s[
            spec_first_max_index(s)].0,
    decreases s.len(),
{
    if s.len() > 1 {
        lemma_first_max_index_ensures(s.drop_first());
        let rest = spec_first_max_index(s.drop_first()) + 1;
        assert forall|i: int| 0 <= i < s.len() implies (#[trigger] s[i]).0 <= s[
            spec_first_max_index(s)].0 by {
            if i >= 1 {
                assert(s.drop_first()[i - 1] == s[i]);
            }
        }
        assert forall|i: int| 0 <= i < spec_first_max_index(s) implies (#[trigger] s[i]).0 < s[
            spec_first_max_index(s)].0 by {
            if i >= 1 {
                assert(s.drop_first()[i - 1] == s[i]);
            }
        }
    }
}

/// Any index that holds a maximal key, preceded only by strictly smaller
/// keys, is the first-max index.
pub proof fn lemma_first_max_index_unique<T>(s: Seq<(u64, T)>, idx: int)
    requires
        0 <= idx < s.len(),
        forall|i: int| 0 <= i < s.len() ==> (#[trigger] s[i]).0 <= s[idx].0,
        forall|i: int| 0 <= i < idx ==> (#[trigger] s[i]).0 < s[idx].0,
    ensures
        spec_first_max_index(s) == idx,
{
    lemma_first_max_index_ensures(s);
    let m = spec_first_max_index(s);
    if m < idx {
        assert(s[m].0 < s[idx].0);
        assert(s[idx].0 <= s[m].0);
        assert(false);
    }
    if idx < m {
        assert(s[idx].0 < s[m].0);
        assert(s[m].0 <= s[idx].0);
        assert(false);
    }
}

/// Stable descending sort by key: repeatedly moves the first maximal pair
/// to the front.
pub open spec fn spec_sort_desc<T>(s: Seq<(u64, T)>) -> Seq<(u64, T)>
    decreases s.len(),
    via spec_sort_desc_decreases::<T>
{
    if s.len() == 0 {
        Seq::empty()
    } else {
        let i = spec_first_max_index(s);
        seq![s[i]] + spec_sort_desc(s.remove(i))
    }
}

#[via_fn]
proof fn spec_sort_desc_decreases<T>(s: Seq<(u64, T)>) {
    if s.len() > 0 {
        lemma_first_max_index_ensures(s);
    }
}

/// Keys descending.
pub open spec fn spec_keys_desc<T>(s: Seq<(u64, T)>) -> bool {
    forall|i: int, j: int| 0 <= i <= j < s.len() ==> (#[trigger] s[i]).0 >= (#[trigger] s[j]).0
}

/// The sort yields a permutation with descending keys.
pub proof fn lemma_sort_desc_ensures<T>(s: Seq<(u64, T)>)
    ensures
        spec_sort_desc(s).to_multiset() =~= s.to_multiset(),
        spec_sort_desc(s).len() == s.len(),
        spec_keys_desc(spec_sort_desc(s)),
    decreases s.len(),
{
    broadcast use vstd::seq_lib::group_to_multiset_ensures;

    if s.len() > 0 {
        let i = spec_first_max_index(s);
        lemma_first_max_index_ensures(s);
        lemma_sort_desc_ensures(s.remove(i));
        let rest = spec_sort_desc(s.remove(i));
        assert(s.remove(i).to_multiset() =~= s.to_multiset().remove(s[i]));
        assert(spec_sort_desc(s) =~= seq![s[i]] + rest);
        vstd::seq_lib::lemma_multiset_commutative(seq![s[i]], rest);
        assert(seq![s[i]] =~= Seq::empty().push(s[i]));
        assert(seq![s[i]].to_multiset() =~= Multiset::empty().insert(s[i]));
        assert(s.contains(s[i]));
        assert(s.to_multiset().count(s[i]) > 0);
        assert(spec_sort_desc(s).to_multiset() =~= s.to_multiset());
        // descending: the front key dominates every remaining key
        assert forall|p: int, q: int|
            0 <= p <= q < spec_sort_desc(s).len() implies (#[trigger] spec_sort_desc(s)[p]).0 >= (
        #[trigger] spec_sort_desc(s)[q]).0 by {
            if p == 0 {
                if q > 0 {
                    let e = rest[q - 1];
                    assert(rest.to_multiset().count(e) > 0);
                    assert(s.remove(i).to_multiset().count(e) > 0);
                    assert(s.remove(i).contains(e));
                    let w = choose|w: int| 0 <= w < s.remove(i).len() && s.remove(i)[w] == e;
                    if w < i {
                        assert(s[w] == e);
                    } else {
                        assert(s[w + 1] == e);
                    }
                }
            } else {
                assert(rest[p - 1].0 >= rest[q - 1].0);
            }
        }
    }
}

/// Finds the first maximal key in `v` starting at nothing, executably.
fn first_max_index<T>(v: &Vec<(u64, T)>) -> (r: usize)
    requires
        v@.len() > 0,
    ensures
        r == spec_first_max_index(v@),
{
    let n = v.len();
    let mut best: usize = 0;
    let mut i: usize = 1;
    while i < n
        invariant
            n == v@.len(),
            0 <= best < i <= n,
            forall|j: int| 0 <= j < i ==> (#[trigger] v@[j]).0 <= v@[best as int].0,
            forall|j: int| 0 <= j < best ==> (#[trigger] v@[j]).0 < v@[best as int].0,
        decreases n - i,
    {
        if v[i].0 > v[best].0 {
            best = i;
        }
        i += 1;
    }
    proof {
        lemma_first_max_index_unique(v@, best as int);
    }
    best
}

/// Sorts pairs by key, descending, stably: exactly [`spec_sort_desc`].
pub fn sort_pairs_desc<T>(v: Vec<(u64, T)>) -> (r: Vec<(u64, T)>)
    ensures
        r@ == spec_sort_desc(v@),
{
    let mut rest = v;
    let mut out: Vec<(u64, T)> = Vec::new();
    let ghost orig = rest@;
    while rest.len() > 0
        invariant
            spec_sort_desc(orig) == out@ + spec_sort_desc(rest@),
        decreases rest@.len(),
    {
        let idx = first_max_index(&rest);
        proof {
            lemma_first_max_index_ensures(rest@);
        }
        let ghost pre = rest@;
        let picked = rest.remove(idx);
        out.push(picked);
        proof {
            assert(spec_sort_desc(pre) =~= seq![pre[idx as int]] + spec_sort_desc(
                pre.remove(idx as int),
            ));
            assert(out@ + spec_sort_desc(rest@) =~= spec_sort_desc(orig));
        }
    }
    proof {
        assert(out@ + spec_sort_desc(rest@) =~= out@);
    }
    out
}

/// Stable merge of two speed-descending lists: on ties the left list wins.
pub open spec fn spec_merge_desc(a: Seq<SpeedTestResult>, b: Seq<SpeedTestResult>) -> Seq<
    SpeedTestResult,
>
    decreases a.len() + b.len(),
{
    if a.len() == 0 {
        b
    } else if b.len() == 0 {
        a
    } else if a[0].speed >= b[0].speed {
        seq![a[0]] + spec_merge_desc(a.drop_first(), b)
    } else {
        seq![b[0]] + spec_merge_desc(a, b.drop_first())
    }
}

/// Speeds descending.
pub open spec fn spec_speeds_desc(s: Seq<SpeedTestResult>) -> bool {
    forall|i: int, j: int|
        0 <= i <= j < s.len() ==> (#[trigger] s[i]).speed >= (#[trigger] s[j]).speed
}

/// The merge of two speed-descending lists is their combined contents, in
/// descending order.
pub proof fn lemma_merge_desc_ensures(a: Seq<SpeedTestResult>, b: Seq<SpeedTestResult>)
    requires
        spec_speeds_desc(a),
        spec_speeds_desc(b),
    ensures
        spec_merge_desc(a, b).to_multiset() =~= a.to_multiset().add(b.to_multiset()),
        spec_merge_desc(a, b).len() == a.len() + b.len(),
        spec_speeds_desc(spec_merge_desc(a, b)),
    decreases a.len() + b.len(),
{
    broadcast use vstd::seq_lib::group_to_multiset_ensures;

    if a.len() == 0 {
        assert(a.to_multiset() =~= Multiset::<SpeedTestResult>::empty());
        assert(spec_merge_desc(a, b).to_multiset() =~= a.to_multiset().add(b.to_multiset()));
    } else if b.len() == 0 {
        assert(b.to_multiset() =~= Multiset::<SpeedTestResult>::empty());
        assert(spec_merge_desc(a, b).to_multiset() =~= a.to_multiset().add(b.to_multiset()));
    } else {
        let m = spec_merge_desc(a, b);
        if a[0].speed >= b[0].speed {
            assert(spec_speeds_desc(a.drop_first())) by {
                assert(forall|i: int, j: int|
                    0 <= i <= j < a.drop_first().len() ==> (#[trigger] a.drop_first()[i]).speed >= (
                    #[trigger] a.drop_first()[j]).speed);
            }
            lemma_merge_desc_ensures(a.drop_first(), b);
            let rest = spec_merge_desc(a.drop_first(), b);
            assert(m =~= seq![a[0]] + rest);
            vstd::seq_lib::lemma_multiset_commutative(seq![a[0]], rest);
            assert(seq![a[0]] =~= Seq::empty().push(a[0]));
            assert(seq![a[0]].to_multiset() =~= Multiset::empty().insert(a[0]));
            assert(a =~= seq![a[0]] + a.drop_first());
            vstd::seq_lib::lemma_multiset_commutative(seq![a[0]], a.drop_first());
            assert(m.to_multiset() =~= a.to_multiset().add(b.to_multiset()));
            assert forall|p: int, q: int| 0 <= p <= q < m.len() implies (#[trigger] m[p]).speed >= (
            #[trigger] m[q]).speed by {
                if p == 0 && q > 0 {
                    let e = rest[q - 1];
                    assert(rest.to_multiset().count(e) > 0);
                    assert(a.drop_first().to_multiset().count(e) + b.to_multiset().count(e) > 0);
                    if a.drop_first().to_multiset().count(e) > 0 {
                        assert(a.drop_first().contains(e));
                        let w = choose|w: int|
                            0 <= w < a.drop_first().len() && a.drop_first()[w] == e;
                        assert(a[w + 1] == e);
                        assert(a[0].speed >= e.speed);
                    } else {
                        assert(b.to_multiset().count(e) > 0);
                        assert(b.contains(e));
                        let w = choose|w: int| 0 <= w < b.len() && b[w] == e;
                        assert(b[0].speed >= e.speed);
                    }
                } else if p > 0 {
                    assert(rest[p - 1].speed >= rest[q - 1].speed);
                }
            }
        } else {
            assert(spec_speeds_desc(b.drop_first())) by {
                assert(forall|i: int, j: int|
                    0 <= i <= j < b.drop_first().len() ==> (#[trigger] b.drop_first()[i]).speed >= (
                    #[trigger] b.drop_first()[j]).speed);
            }
            lemma_merge_desc_ensures(a, b.drop_first());
            let rest = spec_merge_desc(a, b.drop_first());
            assert(m =~= seq![b[0]] + rest);
            vstd::seq_lib::lemma_multiset_commutative(seq![b[0]], rest);
            assert(seq![b[0]] =~= Seq::empty().push(b[0]));
            assert(seq![b[0]].to_multiset() =~= Multiset::empty().insert(b[0]));
            assert(b =~= seq![b[0]] + b.drop_first());
            vstd::seq_lib::lemma_multiset_commutative(seq![b[0]], b.drop_first());
            assert(m.to_multiset() =~= a.to_multiset().add(b.to_multiset()));
            assert forall|p: int, q: int| 0 <= p <= q < m.len() implies (#[trigger] m[p]).speed >= (
            #[trigger] m[q]).speed by {
                if p == 0 && q > 0 {
                    let e = rest[q - 1];
                    assert(rest.to_multiset().count(e) > 0);
                    assert(a.to_multiset().count(e) + b.drop_first().to_multiset().count(e) > 0);
                    if a.to_multiset().count(e) > 0 {
                        assert(a.contains(e));
                        let w = choose|w: int| 0 <= w < a.len() && a[w] == e;
                        assert(a[0].speed >= e.speed);
                        assert(b[0].speed > a[0].speed);
                    } else {
                        assert(b.drop_first().to_multiset().count(e) > 0);
                        assert(b.drop_first().contains(e));
                        let w = choose|w: int|
                            0 <= w < b.drop_first().len() && b.drop_first()[w] == e;
                        assert(b[w + 1] == e);
                        assert(b[0].speed >= e.speed);
                    }
                } else if p > 0 {
                    assert(rest[p - 1].speed >= rest[q - 1].speed);
                }
            }
        }
    }
}

/// Merges two speed-descending result lists, stably: exactly
/// [`spec_merge_desc`].
pub fn merge_results_desc(a: Vec<SpeedTestResult>, b: Vec<SpeedTestResult>) -> (r: Vec<
    SpeedTestResult,
>)
    ensures
        r@ == spec_merge_desc(a@, b@),
{
    let mut aa = a;
    let mut bb = b;
    let ghost ao = aa@;
    let ghost bo = bb@;
    let mut out: Vec<SpeedTestResult> = Vec::new();
    while aa.len() > 0 || bb.len() > 0
        invariant
            spec_merge_desc(ao, bo) == out@ + spec_merge_desc(aa@, bb@),
        decreases aa@.len() + bb@.len(),
    {
        let take_a: bool = if aa.len() > 0 && bb.len() > 0 {
            aa[0].speed >= bb[0].speed
        } else {
            aa.len() > 0
        };
        let ghost ra = aa@;
        let ghost rb = bb@;
        proof {
            if take_a {
                if rb.len() > 0 {
                    assert(spec_merge_desc(ra, rb) == seq![ra[0]] + spec_merge_desc(
                        ra.drop_first(),
                        rb,
                    ));
                } else {
                    assert(spec_merge_desc(ra, rb) == ra);
                    assert(ra =~= seq![ra[0]] + ra.drop_first());
                    assert(spec_merge_desc(ra.drop_first(), rb) == ra.drop_first());
                }
            } else {
                if ra.len() > 0 {
                    assert(spec_merge_desc(ra, rb) == seq![rb[0]] + spec_merge_desc(
                        ra,
                        rb.drop_first(),
                    ));
                } else {
                    assert(spec_merge_desc(ra, rb) == rb);
                    assert(rb =~= seq![rb[0]] + rb.drop_first());
                    assert(spec_merge_desc(ra, rb.drop_first()) == rb.drop_first());
                }
            }
        }
        if take_a {
            let x = aa.remove(0);
            out.push(x);
            proof {
                assert(aa@ =~= ra.drop_first());
            }
        } else {
            let x = bb.remove(0);
            out.push(x);
            proof {
                assert(bb@ =~= rb.drop_first());
            }
        }
        proof {
            assert(spec_merge_desc(ao, bo) =~= out@ + spec_merge_desc(aa@, bb@));
        }
    }
    proof {
        assert(spec_merge_desc(aa@, bb@) =~= bb@);
        assert(spec_merge_desc(ao, bo) =~= out@);
    }
    out
}

} // verus!
