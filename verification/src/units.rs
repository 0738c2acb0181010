//! Fixed-point scales and small arithmetic helpers.
//!
//! All real-valued quantities of the model are carried as integers:
//! probabilities and percentiles in thousandths (`MILLI`), fine-grained
//! scores in millionths (`MICRO`), and products of unit quantities in
//! `SCALE12` (= MILLI * MILLI * MICRO).

use vstd::prelude::*;

verus! {

pub const MILLI: u64 = 1000;
pub const MICRO: u64 = 1000000;
pub const SCALE12: u64 = 1000000000000;

/// Integer square root: the largest `r` with `r * r <= n`.
pub open spec fn is_isqrt(n: u64, r: u64) -> bool {
    r * r <= n && (r + 1) * (r + 1) > n
}

/// Binary-search integer square root.
pub fn isqrt(n: u64) -> (r: u64)
    ensures
        is_isqrt(n, r),
{
    if n == 0 {
        return 0;
    }
    let mut lo: u64 = 0;
    let mut hi: u64 = 4294967296;
    // Invariant: lo * lo <= n < hi * hi.
    assert(hi * hi > n) by (nonlinear_arith)
        requires hi == 4294967296u64;
    while hi - lo > 1
        invariant
            lo < hi,
            hi <= 4294967296,
            lo * lo <= n,
            hi * hi > n,
        decreases hi - lo,
    {
        let mid: u64 = lo + (hi - lo) / 2;
        assert(lo < mid && mid < hi);
        assert(mid * mid < 0xffffffffffffffff) by (nonlinear_arith)
            requires mid < 4294967296u64;
        if (mid * mid) <= n {
            lo = mid;
        } else {
            hi = mid;
        }
    }
    lo
}

/// The square root is unique: two values meeting `is_isqrt` are equal.
pub proof fn lemma_isqrt_unique(n: u64, a: u64, b: u64)
    requires
        is_isqrt(n, a),
        is_isqrt(n, b),
    ensures
        a == b,
{
    if a < b {
        assert((a + 1) * (a + 1) <= b * b) by (nonlinear_arith)
            requires a + 1 <= b;
    }
    if b < a {
        assert((b + 1) * (b + 1) <= a * a) by (nonlinear_arith)
            requires b + 1 <= a;
    }
}

/// `min(init + rate * w, cap)`: the monotone backoff envelope, over
/// unbounded integers.
pub open spec fn spec_backoff(init: u64, rate: u64, cap: u64, w: u64) -> int {
    let raw = init + rate * w;
    if raw <= cap {
        raw
    } else {
        cap as int
    }
}

/// Monotone tolerance: for a fixed envelope, a longer wait never narrows
/// the allowance.
pub proof fn lemma_backoff_monotone(init: u64, rate: u64, cap: u64, w1: u64, w2: u64)
    requires
        w1 <= w2,
    ensures
        spec_backoff(init, rate, cap, w1) <= spec_backoff(init, rate, cap, w2),
{
    assert(rate * w1 <= rate * w2) by (nonlinear_arith)
        requires w1 <= w2;
}

/// Evaluate the backoff envelope in bounded arithmetic.
pub fn backoff_value(init: u64, rate: u64, cap: u64, w: u64) -> (r: u64)
    requires
        init <= MICRO,
        rate <= MICRO,
        cap <= MICRO,
    ensures
        r == spec_backoff(init, rate, cap, w),
{
    if rate == 0 {
        if init <= cap {
            init
        } else {
            cap
        }
    } else {
        let wcap: u64 = cap / rate + 1;
        let we: u64 = if w <= wcap {
            w
        } else {
            wcap
        };
        assert(rate * we <= rate * wcap) by (nonlinear_arith)
            requires we <= wcap, rate >= 1;
        assert(rate * wcap <= MICRO * (MICRO + 1)) by (nonlinear_arith)
            requires rate <= MICRO, wcap <= MICRO + 1, rate >= 0;
        let raw: u64 = init + rate * we;
        proof {
            if we < w {
                // Waiting past the cap point cannot lower the raw value below cap.
                assert(rate * wcap > cap) by (nonlinear_arith)
                    requires rate >= 1, wcap == cap / rate + 1;
                assert(rate * w >= rate * wcap) by (nonlinear_arith)
                    requires wcap <= w, rate >= 0;
            }
        }
        if raw <= cap {
            raw
        } else {
            cap
        }
    }
}

/// Multiply two `SCALE12` fixed-point values, flooring back to `SCALE12`.
pub fn mul12(a: u64, b: u64) -> (r: u64)
    requires
        a <= SCALE12,
        b <= SCALE12,
    ensures
        r == ((a as int) * (b as int)) / (SCALE12 as int),
        r <= SCALE12,
{
    proof {
        assert((a as int) * (b as int) <= (SCALE12 as int) * (SCALE12 as int)) by (nonlinear_arith)
            requires a <= SCALE12, b <= SCALE12;
    }
    let wide: u128 = (a as u128) * (b as u128);
    let q: u128 = wide / (SCALE12 as u128);
    proof {
        assert((a as int) * (b as int) / (SCALE12 as int) <= SCALE12 as int) by (nonlinear_arith)
            requires (a as int) * (b as int) <= (SCALE12 as int) * (SCALE12 as int);
    }
    q as u64
}

/// `e^(-x/1000)` in `SCALE12` fixed point, as the `x`-th power of the
/// per-milli decay constant.
pub open spec fn spec_exp_neg_milli(x: u64) -> u64
    decreases x,
{
    if x == 0 {
        SCALE12
    } else {
        (((spec_exp_neg_milli((x - 1) as u64) as int) * (EXP_NEG_ONE_MILLI as int)
            / (SCALE12 as int)) as u64)
    }
}

/// `e^(-0.001)` in `SCALE12` fixed point.
pub const EXP_NEG_ONE_MILLI: u64 = 999000499833;

pub proof fn lemma_exp_neg_bounded(x: u64)
    ensures
        spec_exp_neg_milli(x) <= SCALE12,
    decreases x,
{
    if x == 0 {
    } else {
        lemma_exp_neg_bounded((x - 1) as u64);
        let p = spec_exp_neg_milli((x - 1) as u64);
        assert((p as int) * (EXP_NEG_ONE_MILLI as int) / (SCALE12 as int) <= SCALE12 as int)
            by (nonlinear_arith)
            requires p <= SCALE12, EXP_NEG_ONE_MILLI < SCALE12;
        assert((p as int) * (EXP_NEG_ONE_MILLI as int) >= 0) by (nonlinear_arith)
            requires p >= 0;
    }
}

/// Evaluate `e^(-x/1000)` in `SCALE12` fixed point.
pub fn exp_neg_milli(x: u64) -> (r: u64)
    requires
        x <= 1000000,
    ensures
        r == spec_exp_neg_milli(x),
        r <= SCALE12,
{
    let mut acc: u64 = SCALE12;
    let mut i: u64 = 0;
    proof {
        lemma_exp_neg_bounded(0);
    }
    while i < x
        invariant
            i <= x,
            acc == spec_exp_neg_milli(i),
            acc <= SCALE12,
        decreases x - i,
    {
        proof {
            lemma_exp_neg_bounded((i + 1) as u64);
        }
        acc = mul12(acc, EXP_NEG_ONE_MILLI);
        i = i + 1;
    }
    acc
}

} // verus!
