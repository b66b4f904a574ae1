use vstd::prelude::*;
use vstd::arithmetic::div_mod::{lemma_fundamental_div_mod, lemma_fundamental_div_mod_converse, lemma_mod_bound};

verus! {

/// `r` is the integer square root of `n`: the largest `r` with `r * r <= n`.
pub open spec fn is_floor_sqrt(r: nat, n: nat) -> bool {
    r * r <= n < (r + 1) * (r + 1)
}

/// The integer square root of `n`.
pub open spec fn floor_sqrt(n: nat) -> nat {
    choose|r: nat| #[trigger] is_floor_sqrt(r, n)
}

/// Any `r` with `r * r <= n < (r + 1) * (r + 1)` is the integer square root.
pub proof fn lemma_floor_sqrt_unique(r: nat, n: nat)
    requires
        r * r <= n < (r + 1) * (r + 1),
    ensures
        floor_sqrt(n) == r,
{
    assert(is_floor_sqrt(r, n));
    let s = floor_sqrt(n);
    assert(is_floor_sqrt(s, n));
    assert(s * s <= n < (s + 1) * (s + 1));
    if s < r {
        assert((s + 1) * (s + 1) <= r * r) by (nonlinear_arith)
            requires
                s < r,
        ;
    } else if r < s {
        assert((r + 1) * (r + 1) <= s * s) by (nonlinear_arith)
            requires
                r < s,
        ;
    }
}

/// `n / d` rounded toward negative infinity.
pub fn floor_div(n: i128, d: i128) -> (q: i128)
    requires
        d > 0,
        n > i128::MIN,
    ensures
        q == n / d,
{
    if n >= 0 {
        let q0: u128 = (n as u128) / (d as u128);
        q0 as i128
    } else {
        let m: u128 = (-n) as u128;
        let q0: u128 = m / (d as u128);
        let r0: u128 = m % (d as u128);
        proof {
            lemma_fundamental_div_mod(m as int, d as int);
            assert(m == q0 * d + r0) by (nonlinear_arith)
                requires
                    m == d * q0 + r0,
            ;
        }
        assert(q0 <= m) by (nonlinear_arith)
            requires
                m == q0 * d + r0,
                d >= 1,
                r0 >= 0,
                q0 >= 0,
        ;
        if r0 == 0 {
            proof {
                assert(n == -(q0 as int) * d + 0) by (nonlinear_arith)
                    requires
                        m == q0 * d + r0,
                        r0 == 0,
                        n == -m,
                ;
                lemma_fundamental_div_mod_converse(n as int, d as int, -(q0 as int), 0);
            }
            -(q0 as i128)
        } else {
            proof {
                assert(n == (-(q0 as int) - 1) * d + (d - r0)) by (nonlinear_arith)
                    requires
                        m == q0 * d + r0,
                        n == -m,
                ;
                lemma_fundamental_div_mod_converse(n as int, d as int, -(q0 as int) - 1, d - r0);
            }
            -(q0 as i128) - 1
        }
    }
}

/// The integer square root of `n`.
pub fn isqrt(n: u128) -> (r: u128)
    ensures
        r * r <= n < (r + 1) * (r + 1),
        r == floor_sqrt(n as nat),
{
    let mut lo: u128 = 0;
    let mut hi: u128 = 0x1_0000_0000_0000_0000;
    assert(n < hi * hi);
    while hi - lo > 1
        invariant
            lo < hi <= 0x1_0000_0000_0000_0000,
            lo * lo <= n,
            n < hi * hi,
        decreases hi - lo,
    {
        let mid: u128 = lo + (hi - lo) / 2;
        assert(mid * mid < 0x1_0000_0000_0000_0000 * 0x1_0000_0000_0000_0000) by (nonlinear_arith)
            requires
                mid < 0x1_0000_0000_0000_0000,
        ;
        if mid * mid <= n {
            lo = mid;
        } else {
            hi = mid;
        }
    }
    proof {
        lemma_floor_sqrt_unique(lo as nat, n as nat);
    }
    lo
}

/// Bounds on a dividend carry over to the rounded-down quotient.
pub proof fn lemma_div_between(num: int, t: int, lo: int, hi: int)
    requires
        t > 0,
        lo * t <= num <= hi * t,
    ensures
        lo <= num / t <= hi,
{
    let q = num / t;
    lemma_fundamental_div_mod(num, t);
    lemma_mod_bound(num, t);
    if q < lo {
        assert(t * q + t <= lo * t) by (nonlinear_arith)
            requires
                q < lo,
                t > 0,
        ;
    }
    if q > hi {
        assert(t * q >= hi * t + t) by (nonlinear_arith)
            requires
                q > hi,
                t > 0,
        ;
    }
}

/// A weighted sum with nonnegative weights lies between the smallest and the
/// largest value, scaled by the total weight.
pub proof fn lemma_weighted_sum_between(w0: int, w1: int, w2: int, a: int, b: int, c: int, lo: int, hi: int)
    requires
        w0 >= 0,
        w1 >= 0,
        w2 >= 0,
        lo <= a <= hi,
        lo <= b <= hi,
        lo <= c <= hi,
    ensures
        lo * (w0 + w1 + w2) <= w0 * a + w1 * b + w2 * c <= hi * (w0 + w1 + w2),
{
    assert(w0 * lo <= w0 * a <= w0 * hi) by (nonlinear_arith)
        requires
            w0 >= 0,
            lo <= a <= hi,
    ;
    assert(w1 * lo <= w1 * b <= w1 * hi) by (nonlinear_arith)
        requires
            w1 >= 0,
            lo <= b <= hi,
    ;
    assert(w2 * lo <= w2 * c <= w2 * hi) by (nonlinear_arith)
        requires
            w2 >= 0,
            lo <= c <= hi,
    ;
    assert(lo * (w0 + w1 + w2) == w0 * lo + w1 * lo + w2 * lo) by (nonlinear_arith);
    assert(hi * (w0 + w1 + w2) == w0 * hi + w1 * hi + w2 * hi) by (nonlinear_arith);
}

} // verus!
