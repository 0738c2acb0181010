//! Deterministic randomness.
//!
//! Every random decision of a tick is one draw from a freshly seeded
//! generator, whose 64-bit seed mixes the tick stream seed with a running
//! draw counter. A freshly seeded generator is a pure function of its
//! seed, which keeps the whole simulation a function of
//! `(seed, config, initial population)`.

use vstd::prelude::*;
use rand::Rng;
use rand::SeedableRng;
use crate::units::{SCALE12, MICRO, spec_exp_neg_milli, exp_neg_milli};

verus! {

/// The value a freshly seeded standard generator returns for one draw
/// below `bound`.
pub uninterp spec fn stream_draw(seed: u64, bound: u64) -> u64;

/// Relies on rand::rngs::StdRng: `SeedableRng::seed_from_u64` yields a
/// generator that is a pure function of the seed, and `Rng::gen_range`
/// over `0..bound` returns a value below `bound` (it panics on an empty
/// range, which `bound >= 1` rules out).
#[verifier::external_body]
fn draw_raw(seed: u64, bound: u64) -> (r: u64)
    requires
        bound >= 1,
    ensures
        r == stream_draw(seed, bound),
        r < bound,
{
    let mut rng = rand::rngs::StdRng::seed_from_u64(seed);
    rng.gen_range(0..bound)
}

/// Golden-ratio increment for the per-draw seed mix.
pub const MIX_CONST: u64 = 11400714819323198485;

/// The seed of the `counter`-th draw of the stream seeded `tick_seed`.
pub open spec fn spec_mix(tick_seed: u64, counter: u64) -> u64 {
    tick_seed ^ vstd::wrapping::u64_specs::wrapping_mul(counter, MIX_CONST)
}

/// One multiplicative step of the Poisson sampler: the running product
/// scaled by a uniform draw, which strictly shrinks it.
pub open spec fn spec_poisson_step(p: u64, u: u64) -> u64 {
    if p == 0 {
        0u64
    } else {
        let raw = (p as int) * (u as int) / (MICRO as int);
        if raw < p {
            raw as u64
        } else {
            (p - 1) as u64
        }
    }
}

/// The count and final draw counter of the Poisson sampler started at
/// product `p` and threshold `l` on the stream `(ts, ctr)`.
pub open spec fn spec_poisson_from(ts: u64, ctr: u64, p: u64, l: u64) -> (int, u64)
    decreases p,
{
    let u = stream_draw(spec_mix(ts, ctr), MICRO);
    let p2 = spec_poisson_step(p, u);
    let ctr2 = vstd::wrapping::u64_specs::wrapping_add(ctr, 1);
    if p2 <= l {
        (0int, ctr2)
    } else {
        let rest = spec_poisson_from(ts, ctr2, p2, l);
        (rest.0 + 1, rest.1)
    }
}

/// A per-tick stream of deterministic draws.
#[derive(Clone, Copy, Debug)]
pub struct DrawStream {
    pub tick_seed: u64,
    pub counter: u64,
}

impl DrawStream {
    pub fn new(tick_seed: u64) -> (r: DrawStream)
        ensures
            r.tick_seed == tick_seed,
            r.counter == 0,
    {
        DrawStream { tick_seed, counter: 0 }
    }

    /// One uniform draw below `bound`.
    pub fn draw(&mut self, bound: u64) -> (r: u64)
        requires
            bound >= 1,
        ensures
            r == stream_draw(spec_mix(old(self).tick_seed, old(self).counter), bound),
            r < bound,
            final(self).tick_seed == old(self).tick_seed,
            final(self).counter == vstd::wrapping::u64_specs::wrapping_add(old(self).counter, 1),
    {
        let seed: u64 = self.tick_seed ^ self.counter.wrapping_mul(MIX_CONST);
        self.counter = self.counter.wrapping_add(1);
        draw_raw(seed, bound)
    }

    /// The Bernoulli decision the stream makes at a given position for a
    /// probability in thousandths.
    pub open spec fn spec_bernoulli(ts: u64, ctr: u64, p_milli: u64) -> bool {
        let pm = if p_milli <= 1000 {
            p_milli
        } else {
            1000u64
        };
        stream_draw(spec_mix(ts, ctr), 1000000) < pm * 1000
    }

    /// Bernoulli decision: true with probability `p_milli / 1000`,
    /// exactly the stream's decision at the current position.
    pub fn bernoulli(&mut self, p_milli: u64) -> (r: bool)
        ensures
            r == DrawStream::spec_bernoulli(old(self).tick_seed, old(self).counter, p_milli),
            final(self).tick_seed == old(self).tick_seed,
            final(self).counter == vstd::wrapping::u64_specs::wrapping_add(old(self).counter, 1),
            p_milli == 0 ==> r == false,
            p_milli >= 1000 ==> r == true,
    {
        let u: u64 = self.draw(1000000);
        let pm: u64 = if p_milli <= 1000 {
            p_milli
        } else {
            1000
        };
        u < pm * 1000
    }

    /// Uniform draw from `[lo, hi)`: the stream's draw at the current
    /// position, shifted to the range.
    pub fn range(&mut self, lo: u64, hi: u64) -> (r: u64)
        requires
            lo < hi,
        ensures
            r == lo + stream_draw(spec_mix(old(self).tick_seed, old(self).counter), (hi - lo) as u64),
            lo <= r < hi,
            final(self).tick_seed == old(self).tick_seed,
            final(self).counter == vstd::wrapping::u64_specs::wrapping_add(old(self).counter, 1),
    {
        let u: u64 = self.draw(hi - lo);
        lo + u
    }

    /// Knuth's Poisson sampler in `SCALE12` fixed point: count how many
    /// uniform factors it takes for a running product to fall below
    /// `e^(-lambda)`. The count is exactly the function of the named
    /// draw stream that `spec_poisson_from` computes; it is zero when
    /// the rate is zero.
    pub fn poisson(&mut self, lambda_milli: u64) -> (r: u64)
        requires
            lambda_milli <= 1000000,
        ensures
            final(self).tick_seed == old(self).tick_seed,
            lambda_milli == 0 ==> r == 0,
            r == spec_poisson_from(
                old(self).tick_seed,
                old(self).counter,
                SCALE12,
                crate::units::spec_exp_neg_milli(lambda_milli),
            ).0,
            final(self).counter == spec_poisson_from(
                old(self).tick_seed,
                old(self).counter,
                SCALE12,
                crate::units::spec_exp_neg_milli(lambda_milli),
            ).1,
    {
        let l: u64 = exp_neg_milli(lambda_milli);
        let mut k: u64 = 0;
        let mut p: u64 = SCALE12;
        let ghost goal = spec_poisson_from(old(self).tick_seed, old(self).counter, SCALE12, l);
        proof {
            if lambda_milli == 0 {
                assert(spec_exp_neg_milli(0) == SCALE12);
            }
        }
        let mut finished: bool = false;
        while !finished
            invariant
                p <= SCALE12,
                l <= SCALE12,
                k + p <= SCALE12,
                lambda_milli == 0 ==> l == SCALE12,
                lambda_milli == 0 ==> k == 0,
                self.tick_seed == old(self).tick_seed,
                goal == spec_poisson_from(old(self).tick_seed, old(self).counter, SCALE12, l),
                !finished ==> goal.0 == k + spec_poisson_from(
                    self.tick_seed,
                    self.counter,
                    p,
                    l,
                ).0 && goal.1 == spec_poisson_from(self.tick_seed, self.counter, p, l).1,
                finished ==> k == goal.0 && self.counter == goal.1,
            decreases p, (if finished {
                0int
            } else {
                1int
            }),
        {
            let ghost ctr_in = self.counter;
            let ghost p_in = p;
            let u: u64 = self.draw(MICRO);
            proof {
                if p >= 1 {
                    assert((p as int) * (u as int) < (p as int) * (MICRO as int)) by (nonlinear_arith)
                        requires u < MICRO, p >= 1;
                    assert((p as int) * (u as int) / (MICRO as int) < p as int) by (nonlinear_arith)
                        requires
                            (p as int) * (u as int) < (p as int) * (MICRO as int),
                            p >= 1,
                    ;
                    assert((p as int) * (u as int) <= (SCALE12 as int) * (MICRO as int))
                        by (nonlinear_arith)
                        requires p <= SCALE12, u <= MICRO;
                    assert((p as int) * (u as int) >= 0) by (nonlinear_arith)
                        requires p >= 0, u >= 0;
                }
            }
            let p_new: u64 = if p == 0 {
                0
            } else {
                (p * u) / MICRO
            };
            proof {
                assert(u == stream_draw(spec_mix(self.tick_seed, ctr_in), MICRO));
                assert(p_new == spec_poisson_step(p_in, u));
            }
            p = p_new;
            if p <= l {
                finished = true;
            } else {
                // The product stayed above `l`, which rules out a zero
                // rate: with `lambda == 0` the threshold is the full
                // scale.
                proof {
                    assert(lambda_milli != 0);
                }
                k = k + 1;
            }
        }
        k
    }
}

} // verus!
