//! Exact integer arithmetic used by the scoring and convergence rules:
//! bounded power comparison, integer square root, and the tenth root of a
//! ninth power (the integer form of raising a distance to the power 0.9).

use vstd::prelude::*;
use vstd::arithmetic::power::{
    pow, lemma_pow_adds, lemma_pow_positive, lemma_pow_strictly_increases,
};

verus! {

/// `pow` is monotone in its base (for natural bases).
pub proof fn lemma_pow_base_increases(a: nat, b: nat, e: nat)
    requires
        a <= b,
    ensures
        pow(a as int, e) <= pow(b as int, e),
    decreases e,
{
    reveal(pow);
    if e > 0 {
        if a == 0 {
            vstd::arithmetic::power::lemma0_pow(e);
            if b == 0 {
            } else {
                lemma_pow_positive(b as int, e);
            }
        } else {
            lemma_pow_base_increases(a, b, (e - 1) as nat);
            lemma_pow_positive(a as int, (e - 1) as nat);
            lemma_pow_positive(b as int, (e - 1) as nat);
            assert(a as int * pow(a as int, (e - 1) as nat) <= b as int * pow(
                b as int,
                (e - 1) as nat,
            )) by (nonlinear_arith)
                requires
                    0 < a as int <= b as int,
                    0 < pow(a as int, (e - 1) as nat) <= pow(b as int, (e - 1) as nat),
            ;
        }
    }
}

/// Decides whether `base^exp <= limit`, without ever overflowing.
pub fn pow_le(base: u128, exp: u32, limit: u128) -> (r: bool)
    ensures
        r == (pow(base as int, exp as nat) <= limit as int),
{
    if exp == 0 {
        proof {
            reveal(pow);
        }
        return 1 <= limit;
    }
    if base <= 1 {
        // 0^e == 0 and 1^e == 1 for e > 0.
        proof {
            if base == 0 {
                vstd::arithmetic::power::lemma0_pow(exp as nat);
            } else {
                vstd::arithmetic::power::lemma1_pow(exp as nat);
            }
        }
        return base <= limit;
    }
    if limit == 0 {
        proof {
            lemma_pow_positive(base as int, exp as nat);
        }
        return false;
    }
    let mut acc: u128 = 1;
    let mut k: u32 = 0;
    proof {
        reveal(pow);
    }
    while k < exp
        invariant
            2 <= base,
            0 < exp,
            0 <= k <= exp,
            acc as int == pow(base as int, k as nat),
            acc <= limit,
        decreases exp - k,
    {
        if acc > limit / base {
            proof {
                // acc * base > limit, by the fundamental property of division.
                assert(limit < ((limit as int) / (base as int) + 1) * base as int) by (nonlinear_arith)
                    requires
                        base as int >= 2,
                        limit as int >= 0,
                ;
                assert(acc as int * base as int >= ((limit as int) / (base as int) + 1) * base as int)
                    by (nonlinear_arith)
                    requires
                        acc as int >= (limit as int) / (base as int) + 1,
                        base as int >= 2,
                ;
                assert(pow(base as int, (k + 1) as nat) == pow(base as int, k as nat) * base as int)
                    by {
                    lemma_pow_adds(base as int, k as nat, 1);
                    assert(pow(base as int, 1) == base as int) by {
                        vstd::arithmetic::power::lemma_pow1(base as int);
                    }
                }
                if k + 1 < exp {
                    lemma_pow_strictly_increases(base as nat, (k + 1) as nat, exp as nat);
                }
            }
            return false;
        }
        proof {
            // acc * base stays within limit, hence within u128 range.
            assert(acc as int * base as int <= ((limit as int) / (base as int)) * base as int + (limit as int) % (base as int)) by (nonlinear_arith)
                requires
                    acc as int <= (limit as int) / (base as int),
                    base as int >= 2,
                    (limit as int) % (base as int) >= 0,
            ;
            assert(((limit as int) / (base as int)) * base as int + (limit as int) % (base as int) == limit as int)
                by {
                vstd::arithmetic::div_mod::lemma_fundamental_div_mod(limit as int, base as int);
            }
            assert(pow(base as int, (k + 1) as nat) == pow(base as int, k as nat) * base as int)
                by {
                lemma_pow_adds(base as int, k as nat, 1);
                assert(pow(base as int, 1) == base as int) by {
                    vstd::arithmetic::power::lemma_pow1(base as int);
                }
            }
        }
        acc = acc * base;
        k = k + 1;
    }
    true
}

/// Integer square root: the greatest `r` with `r * r <= x`.
pub fn isqrt(x: u128) -> (r: u64)
    ensures
        (r as int) * (r as int) <= x as int,
        (x as int) < (r as int + 1) * (r as int + 1),
{
    let mut lo: u128 = 0;
    let mut hi: u128 = 0x1_0000_0000_0000_0000;
    proof {
        assert((0x1_0000_0000_0000_0000 as int) * (0x1_0000_0000_0000_0000 as int) > u128::MAX
            as int);
    }
    while hi - lo > 1
        invariant
            0 <= lo < hi <= 0x1_0000_0000_0000_0000,
            (lo as int) * (lo as int) <= x as int,
            (x as int) < (hi as int) * (hi as int),
        decreases hi - lo,
    {
        let mid: u128 = lo + (hi - lo) / 2;
        proof {
            assert(mid as int * mid as int <= 0xFFFF_FFFF_FFFF_FFFF as int
                * 0xFFFF_FFFF_FFFF_FFFF as int) by (nonlinear_arith)
                requires
                    0 <= mid as int <= 0xFFFF_FFFF_FFFF_FFFF as int,
            ;
            assert(0xFFFF_FFFF_FFFF_FFFF as int * 0xFFFF_FFFF_FFFF_FFFF as int <= u128::MAX
                as int);
        }
        if mid * mid <= x {
            lo = mid;
        } else {
            hi = mid;
        }
    }
    proof {
        assert(lo <= 0xFFFF_FFFF_FFFF_FFFF);
    }
    lo as u64
}

/// The tenth root of the ninth power, as a value.
pub open spec fn spec_pow9_root10(d: int) -> int {
    choose|r: int| 1 <= r && #[trigger] pow(r, 10) <= pow(d, 9) < pow(r + 1, 10)
}

/// That root is unique, so the `choose` above picks exactly the witness the
/// executable search finds.
pub proof fn lemma_pow9_root10_unique(d: int, r: int)
    requires
        1 <= r,
        pow(r, 10) <= pow(d, 9),
        pow(d, 9) < pow(r + 1, 10),
    ensures
        spec_pow9_root10(d) == r,
{
    let c = choose|c: int| 1 <= c && #[trigger] pow(c, 10) <= pow(d, 9) < pow(c + 1, 10);
    assert(1 <= c && pow(c, 10) <= pow(d, 9) < pow(c + 1, 10));
    if c < r {
        lemma_pow_base_increases((c + 1) as nat, r as nat, 10);
        assert(false);
    }
    if r < c {
        lemma_pow_base_increases((r + 1) as nat, c as nat, 10);
        assert(false);
    }
}

/// The greatest `r` with `r^10 <= d^9`: the integer form of `d^(9/10)`.
///
/// Distances are bounded so that `d^9` fits comfortably in 128 bits.
pub fn tenth_root_of_ninth_power(d: u32) -> (r: u64)
    requires
        1 <= d <= 16000,
    ensures
        1 <= r <= d,
        pow(r as int, 10) <= pow(d as int, 9),
        pow(d as int, 9) < pow(r as int + 1, 10),
        r == spec_pow9_root10(d as int),
{
    proof {
        reveal_with_fuel(pow, 10);
        assert(pow(16000, 9) == 68719476736000000000000000000000000000int);
        lemma_pow_base_increases(d as nat, 16000, 9);
        lemma_pow_positive(d as int, 9);
    }
    let mut d9: u128 = 1;
    let mut k: u32 = 0;
    proof {
        reveal(pow);
    }
    while k < 9
        invariant
            1 <= d <= 16000,
            0 <= k <= 9,
            d9 as int == pow(d as int, k as nat),
            pow(d as int, 9) <= pow(16000, 9),
            pow(16000, 9) == 68719476736000000000000000000000000000int,
        decreases 9 - k,
    {
        proof {
            lemma_pow_adds(d as int, k as nat, 1);
            assert(pow(d as int, 1) == d as int) by {
                vstd::arithmetic::power::lemma_pow1(d as int);
            }
            // The next partial product is pow(d, k + 1), which is at most
            // pow(d, 9), itself below the 128-bit range.
            assert(pow(d as int, (k + 1) as nat) <= pow(d as int, 9)) by {
                if d > 1 {
                    if k + 1 < 9 {
                        lemma_pow_strictly_increases(d as nat, (k + 1) as nat, 9);
                    }
                } else {
                    vstd::arithmetic::power::lemma1_pow((k + 1) as nat);
                    vstd::arithmetic::power::lemma1_pow(9);
                }
            }
        }
        d9 = d9 * (d as u128);
        k = k + 1;
    }
    // Binary search for the root; 16001^10 certainly exceeds d^9.
    let mut lo: u128 = 1;
    let mut hi: u128 = 16001;
    proof {
        vstd::arithmetic::power::lemma1_pow(10);
        // pow(16001, 10) > pow(16001, 9) >= pow(d, 9)
        lemma_pow_strictly_increases(16001, 9, 10);
        lemma_pow_base_increases(d as nat, 16001, 9);
    }
    while hi - lo > 1
        invariant
            d9 as int == pow(d as int, 9),
            1 <= lo < hi <= 16001,
            pow(lo as int, 10) <= d9 as int,
            (d9 as int) < pow(hi as int, 10),
        decreases hi - lo,
    {
        let mid: u128 = lo + (hi - lo) / 2;
        if pow_le(mid, 10, d9) {
            lo = mid;
        } else {
            hi = mid;
        }
    }
    proof {
        lemma_pow9_root10_unique(d as int, lo as int);
        // The root cannot exceed d: lo >= d + 1 would give
        // pow(lo, 10) >= pow(d + 1, 10) > pow(d + 1, 9) >= pow(d, 9).
        if lo > d {
            lemma_pow_base_increases((d + 1) as nat, lo as nat, 10);
            lemma_pow_strictly_increases((d + 1) as nat, 9, 10);
            lemma_pow_base_increases(d as nat, (d + 1) as nat, 9);
            assert(false);
        }
    }
    lo as u64
}


/// For every bounded distance an integer tenth root of the ninth power
/// exists, so the root value is characterized: it lies in `[1, d]` and
/// brackets `d^9` between consecutive tenth powers.
pub proof fn lemma_pow9_root10_props(d: int)
    requires
        1 <= d <= 16000,
    ensures
        1 <= spec_pow9_root10(d) <= d,
        pow(spec_pow9_root10(d), 10) <= pow(d, 9),
        pow(d, 9) < pow(spec_pow9_root10(d) + 1, 10),
{
    lemma_pow_positive(d, 9);
    assert(pow(1, 10) == 1) by {
        vstd::arithmetic::power::lemma1_pow(10);
    }
    assert(pow(1, 9) == 1) by {
        vstd::arithmetic::power::lemma1_pow(9);
    }
    lemma_pow_base_increases(1, d as nat, 9);
    assert(pow(d + 1, 10) > pow(d, 9)) by {
        lemma_pow_strictly_increases((d + 1) as nat, 9, 10);
        lemma_pow_base_increases(d as nat, (d + 1) as nat, 9);
    }
    lemma_root_exists_below(d, d + 1);
    let r = spec_pow9_root10(d);
    assert(1 <= r && pow(r, 10) <= pow(d, 9) < pow(r + 1, 10));
    if r > d {
        lemma_pow_base_increases((d + 1) as nat, r as nat, 10);
        lemma_pow_strictly_increases((d + 1) as nat, 9, 10);
        lemma_pow_base_increases(d as nat, (d + 1) as nat, 9);
        assert(false);
    }
}

/// Downward search for the root below a known upper candidate.
proof fn lemma_root_exists_below(d: int, c: int)
    requires
        1 <= d,
        2 <= c,
        pow(c, 10) > pow(d, 9),
        pow(1, 10) <= pow(d, 9),
    ensures
        exists|r: int| 1 <= r && #[trigger] pow(r, 10) <= pow(d, 9) < pow(r + 1, 10),
    decreases c,
{
    if pow(c - 1, 10) <= pow(d, 9) {
        assert(1 <= c - 1 && pow(c - 1, 10) <= pow(d, 9) < pow((c - 1) + 1, 10));
    } else if c - 1 >= 2 {
        lemma_root_exists_below(d, c - 1);
    } else {
        assert(1 <= 1int && pow(1int, 10) <= pow(d, 9) < pow(1int + 1, 10));
    }
}

/// The root grows with the distance.
pub proof fn lemma_pow9_root10_mono(d1: int, d2: int)
    requires
        1 <= d1 <= d2 <= 16000,
    ensures
        spec_pow9_root10(d1) <= spec_pow9_root10(d2),
{
    lemma_pow9_root10_props(d1);
    lemma_pow9_root10_props(d2);
    let r1 = spec_pow9_root10(d1);
    let r2 = spec_pow9_root10(d2);
    if r1 > r2 {
        lemma_pow_base_increases((r2 + 1) as nat, r1 as nat, 10);
        lemma_pow_base_increases(d1 as nat, d2 as nat, 9);
        assert(false);
    }
}

} // verus!
