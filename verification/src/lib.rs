//! A Goertzel filter: a single-bin discrete Fourier transform computed
//! by a second-order IIR recursion, used to measure the power of a
//! signal at one target frequency without a full spectrum.
//!
//! All arithmetic is exact integer arithmetic. Samples and the two
//! running registers are plain `i64` amplitudes; the coefficient
//! `2 * cos(2*pi*f/fs)` is a Q30 fixed-point value (see [`fixed::SCALE`])
//! that the caller computes and hands to [`Filter::new`]. The power
//! estimate is returned as an exact rational [`Power`].

use vstd::prelude::*;

pub mod fixed;

verus! {

use crate::fixed::{SCALE, tdiv, descale, lemma_mul_bound, lemma_tdiv_bound};

/// Largest magnitude the stored coefficient may have: `2.0` in Q30.
pub const COEF_LIMIT: i64 = 0x8000_0000;

/// Largest magnitude either running register may reach; a step that
/// would exceed it is reported as [`ProcessError::StateOverflow`]
/// instead of wrapping.
pub const STATE_LIMIT: i64 = 0x8000_0000;

/// The last two "running values" of the Goertzel filter implemented
/// as an IIR filter: `v1` is the most recent output, `v2` the one
/// before it.
#[derive(Clone, Copy, Debug, PartialEq, Eq, Structural)]
pub struct Vn {
    pub v1: i64,
    pub v2: i64,
}

/// Processing a buffer failed.
#[derive(Clone, Copy, Debug, PartialEq, Eq, Structural)]
pub enum ProcessError {
    /// A recursion step left the range `[-STATE_LIMIT, STATE_LIMIT]`.
    StateOverflow,
}

impl Vn {
    /// Both registers are within the range the kernel keeps them in.
    pub open spec fn wf(self) -> bool {
        &&& -STATE_LIMIT <= self.v1 <= STATE_LIMIT
        &&& -STATE_LIMIT <= self.v2 <= STATE_LIMIT
    }
}

/// One step of the Goertzel recursion: the new `v1` register,
/// `t = coefficient * v1 - v2 + x`, with the Q30 coefficient product
/// brought back to amplitude units by a truncating division.
pub open spec fn step_v1(c: int, v1: int, v2: int, x: int) -> int {
    tdiv(c * v1, SCALE as int) - v2 + x
}

/// The state the recursion reaches after consuming `samples` in
/// order, starting from registers `(v1, v2)`, with coefficient `c`.
/// Defined over unbounded integers: no overflow, no rounding beyond
/// the fixed-point division inside each step.
pub open spec fn kernel_spec(c: int, v1: int, v2: int, samples: Seq<i64>) -> (int, int)
    decreases samples.len(),
{
    if samples.len() == 0 {
        (v1, v2)
    } else {
        let prev = kernel_spec(c, v1, v2, samples.drop_last());
        (step_v1(c, prev.0, prev.1, samples.last() as int), prev.0)
    }
}

/// Every intermediate register value of the recursion stays within
/// `[-STATE_LIMIT, STATE_LIMIT]`: the exact condition under which the
/// executable kernel succeeds.
pub open spec fn kernel_fits(c: int, v1: int, v2: int, samples: Seq<i64>) -> bool
    decreases samples.len(),
{
    if samples.len() == 0 {
        true
    } else {
        let prev = kernel_spec(c, v1, v2, samples.drop_last());
        &&& kernel_fits(c, v1, v2, samples.drop_last())
        &&& -STATE_LIMIT <= step_v1(c, prev.0, prev.1, samples.last() as int) <= STATE_LIMIT
    }
}

/// If the whole recursion stays in range, so does every prefix of it.
pub proof fn lemma_fits_prefix(c: int, v1: int, v2: int, samples: Seq<i64>, i: int)
    requires
        0 <= i <= samples.len(),
        kernel_fits(c, v1, v2, samples),
    ensures
        kernel_fits(c, v1, v2, samples.take(i)),
    decreases samples.len(),
{
    if i == samples.len() {
        assert(samples.take(i) =~= samples);
    } else {
        lemma_fits_prefix(c, v1, v2, samples.drop_last(), i);
        assert(samples.drop_last().take(i) =~= samples.take(i));
    }
}

/// The kernel of the Goertzel filter as an IIR filter: iterate the
/// recursion over `sample` in order, updating `vn` in place. An empty
/// buffer is a valid no-op.
///
/// Succeeds exactly when every intermediate register value fits in
/// `[-STATE_LIMIT, STATE_LIMIT]`; on overflow `vn` is left unchanged.
pub fn kernel(sample: &[i64], k: i64, vn: &mut Vn) -> (r: Result<(), ProcessError>)
    requires
        -COEF_LIMIT <= k <= COEF_LIMIT,
        old(vn).wf(),
    ensures
        match r {
            Ok(()) => {
                &&& kernel_fits(k as int, old(vn).v1 as int, old(vn).v2 as int, sample@)
                &&& (final(vn).v1 as int, final(vn).v2 as int) == kernel_spec(
                    k as int,
                    old(vn).v1 as int,
                    old(vn).v2 as int,
                    sample@,
                )
                &&& final(vn).wf()
            },
            Err(ProcessError::StateOverflow) => {
                &&& !kernel_fits(k as int, old(vn).v1 as int, old(vn).v2 as int, sample@)
                &&& *final(vn) == *old(vn)
            },
        },
{
    let ghost c = k as int;
    let ghost v01 = old(vn).v1 as int;
    let ghost v02 = old(vn).v2 as int;
    let mut v1: i64 = vn.v1;
    let mut v2: i64 = vn.v2;
    let n: usize = sample.len();
    let mut i: usize = 0;
    while i < n
        invariant
            n == sample@.len(),
            i <= n,
            -COEF_LIMIT <= k <= COEF_LIMIT,
            -STATE_LIMIT <= v1 <= STATE_LIMIT,
            -STATE_LIMIT <= v2 <= STATE_LIMIT,
            c == k as int,
            v01 == old(vn).v1 as int,
            v02 == old(vn).v2 as int,
            kernel_fits(c, v01, v02, sample@.take(i as int)),
            (v1 as int, v2 as int) == kernel_spec(c, v01, v02, sample@.take(i as int)),
        decreases n - i,
    {
        let x: i64 = sample[i];
        proof {
            lemma_mul_bound(k as int, v1 as int, COEF_LIMIT as int, STATE_LIMIT as int);
            lemma_tdiv_bound(
                (k as int) * (v1 as int),
                SCALE as int,
                (COEF_LIMIT as int) * (STATE_LIMIT as int),
            );
        }
        let prod: i128 = (k as i128) * (v1 as i128);
        let scaled: i128 = descale(prod);
        let t: i128 = scaled - (v2 as i128) + (x as i128);
        proof {
            assert(sample@.take(i + 1).drop_last() =~= sample@.take(i as int));
            assert(sample@.take(i + 1).last() == sample@[i as int]);
        }
        if t < -(STATE_LIMIT as i128) || t > STATE_LIMIT as i128 {
            proof {
                // the step at index i breaks the bound, so a run over
                // the whole buffer cannot stay in range either
                if kernel_fits(c, v01, v02, sample@) {
                    lemma_fits_prefix(c, v01, v02, sample@, i + 1);
                }
            }
            return Err(ProcessError::StateOverflow);
        }
        v2 = v1;
        v1 = t as i64;
        i = i + 1;
    }
    proof {
        assert(sample@.take(n as int) =~= sample@);
    }
    vn.v1 = v1;
    vn.v2 = v2;
    Ok(())
}

/// An exact rational power estimate: `num / den` in squared amplitude
/// units. `den` is the square of the number of samples processed.
#[derive(Clone, Copy, Debug, PartialEq, Eq, Structural)]
pub struct Power {
    pub num: i128,
    pub den: u128,
}

/// The raw (un-floored) power of the registers left by the kernel:
/// `v1*v1 + v2*v2 - coefficient*v1*v2`, the coefficient product again
/// brought back to amplitude units by the truncating Q30 division.
pub open spec fn raw_power(c: int, v1: int, v2: int) -> int {
    v1 * v1 + v2 * v2 - tdiv(c * v1 * v2, SCALE as int)
}

/// The power numerator actually reported: the raw power, floored at 1,
/// the smallest positive value of the integer domain, so that a
/// logarithm taken downstream never sees a zero or negative power.
pub open spec fn power_num(c: int, v1: int, v2: int) -> int {
    if raw_power(c, v1, v2) < 1 {
        1
    } else {
        raw_power(c, v1, v2)
    }
}

/// Returns the power of the signal that has passed through a Goertzel
/// filter, normalized by the square of the sample count `n`: the exact
/// rational `max(raw, 1) / n^2`.
pub fn power(k: i64, vn: Vn, n: usize) -> (r: Power)
    requires
        n > 0,
        -COEF_LIMIT <= k <= COEF_LIMIT,
        vn.wf(),
    ensures
        r.num == power_num(k as int, vn.v1 as int, vn.v2 as int),
        r.den == n * n,
        r.num >= 1,
        r.den >= 1,
{
    proof {
        lemma_mul_bound(vn.v1 as int, vn.v1 as int, STATE_LIMIT as int, STATE_LIMIT as int);
        lemma_mul_bound(vn.v2 as int, vn.v2 as int, STATE_LIMIT as int, STATE_LIMIT as int);
        lemma_mul_bound(k as int, vn.v1 as int, COEF_LIMIT as int, STATE_LIMIT as int);
        lemma_mul_bound(
            (k as int) * (vn.v1 as int),
            vn.v2 as int,
            (COEF_LIMIT as int) * (STATE_LIMIT as int),
            STATE_LIMIT as int,
        );
        lemma_tdiv_bound(
            (k as int) * (vn.v1 as int) * (vn.v2 as int),
            SCALE as int,
            (COEF_LIMIT as int) * (STATE_LIMIT as int) * (STATE_LIMIT as int),
        );
        lemma_mul_bound(n as int, n as int, u64::MAX as int, u64::MAX as int);
        assert((n as int) * (n as int) >= 1) by (nonlinear_arith)
            requires
                n >= 1,
        ;
    }
    let a: i128 = (vn.v1 as i128) * (vn.v1 as i128);
    let b: i128 = (vn.v2 as i128) * (vn.v2 as i128);
    let cross: i128 = (k as i128) * (vn.v1 as i128) * (vn.v2 as i128);
    let scaled: i128 = descale(cross);
    let mut rslt: i128 = a + b - scaled;
    if rslt < 1 {
        rslt = 1;
    }
    Power { num: rslt, den: (n as u128) * (n as u128) }
}

/// Construction was refused.
#[derive(Clone, Copy, Debug, PartialEq, Eq, Structural)]
pub enum ConfigError {
    /// The sampling frequency was zero.
    NonPositiveSamplingFrequency,
    /// The target frequency was at or above half the sampling
    /// frequency, so it cannot be represented without aliasing.
    FrequencyAboveNyquist,
    /// The Q30 coefficient lay outside `[-COEF_LIMIT, COEF_LIMIT]`,
    /// the range `2 * cos(theta)` can take.
    CoefficientOutOfRange,
}

/// Holds data for a Goertzel filter configured for one target
/// frequency.
#[derive(Clone, Copy, Debug, PartialEq, Eq, Structural)]
pub struct Filter {
    /// The target frequency of the filter, in hertz.
    pub f: u64,
    /// The sampling frequency of the samples to process, in hertz.
    pub fs: u64,
    /// The Goertzel coefficient `2 * cos(2*pi*f/fs)` as a Q30
    /// fixed-point value; immutable after construction.
    pub koef: i64,
    /// The running values of the Goertzel filter calculation: the
    /// only mutable part.
    pub vn: Vn,
}

/// The filter with its running state cleared and everything else kept.
pub open spec fn reset_spec(flt: Filter) -> Filter {
    Filter { f: flt.f, fs: flt.fs, koef: flt.koef, vn: Vn { v1: 0, v2: 0 } }
}

impl Filter {
    /// The configuration is valid and the running state is in range.
    pub open spec fn wf(self) -> bool {
        &&& self.fs > 0
        &&& 2 * self.f < self.fs
        &&& -COEF_LIMIT <= self.koef <= COEF_LIMIT
        &&& self.vn.wf()
    }

    /// Returns a Goertzel filter for the given parameters, with its
    /// running state zeroed, or says exactly why the configuration is
    /// rejected: a zero sampling frequency, a target frequency at or
    /// above the Nyquist limit `fs / 2`, or a coefficient outside the
    /// range of `2 * cos(theta)`.
    ///
    /// * `f` The target frequency of the filter, in hertz
    /// * `fs` The sampling frequency of the samples to process
    /// * `koef` The coefficient `2 * cos(2*pi*f/fs)` in Q30 fixed
    ///   point, computed by the caller (it is a transcendental value
    ///   this crate does not evaluate itself)
    pub fn new(f: u64, fs: u64, koef: i64) -> (r: Result<Filter, ConfigError>)
        ensures
            match r {
                Ok(flt) => {
                    &&& fs > 0
                    &&& 2 * f < fs
                    &&& -COEF_LIMIT <= koef <= COEF_LIMIT
                    &&& flt == (Filter { f, fs, koef, vn: Vn { v1: 0, v2: 0 } })
                    &&& flt.wf()
                },
                Err(ConfigError::NonPositiveSamplingFrequency) => fs == 0,
                Err(ConfigError::FrequencyAboveNyquist) => fs > 0 && 2 * f >= fs,
                Err(ConfigError::CoefficientOutOfRange) => {
                    &&& fs > 0
                    &&& 2 * f < fs
                    &&& !(-COEF_LIMIT <= koef <= COEF_LIMIT)
                },
            },
    {
        if fs == 0 {
            return Err(ConfigError::NonPositiveSamplingFrequency);
        }
        if 2 * (f as u128) >= fs as u128 {
            return Err(ConfigError::FrequencyAboveNyquist);
        }
        if koef < -COEF_LIMIT || koef > COEF_LIMIT {
            return Err(ConfigError::CoefficientOutOfRange);
        }
        Ok(Filter { f, fs, koef, vn: Vn { v1: 0, v2: 0 } })
    }

    /// Resets the filter so that we can start it over again: both
    /// running values return to zero, the configuration is untouched.
    pub fn reset(&mut self)
        ensures
            *final(self) == reset_spec(*old(self)),
    {
        self.vn.v1 = 0;
        self.vn.v2 = 0;
    }

    /// Process the samples using the filter: run the kernel over the
    /// whole buffer (accumulating on whatever state was already
    /// there), then report the power of the post-update state
    /// normalized by this call's sample count.
    ///
    /// Succeeds exactly when the recursion stays within
    /// `[-STATE_LIMIT, STATE_LIMIT]`; on overflow the filter is left
    /// unchanged.
    pub fn process(&mut self, sample: &[i64]) -> (r: Result<Power, ProcessError>)
        requires
            old(self).wf(),
            sample@.len() > 0,
        ensures
            final(self).wf(),
            final(self).f == old(self).f,
            final(self).fs == old(self).fs,
            final(self).koef == old(self).koef,
            match r {
                Ok(p) => {
                    &&& kernel_fits(
                        old(self).koef as int,
                        old(self).vn.v1 as int,
                        old(self).vn.v2 as int,
                        sample@,
                    )
                    &&& (final(self).vn.v1 as int, final(self).vn.v2 as int) == kernel_spec(
                        old(self).koef as int,
                        old(self).vn.v1 as int,
                        old(self).vn.v2 as int,
                        sample@,
                    )
                    &&& p.num == power_num(
                        old(self).koef as int,
                        final(self).vn.v1 as int,
                        final(self).vn.v2 as int,
                    )
                    &&& p.den == sample@.len() * sample@.len()
                    &&& p.num >= 1
                },
                Err(ProcessError::StateOverflow) => {
                    &&& !kernel_fits(
                        old(self).koef as int,
                        old(self).vn.v1 as int,
                        old(self).vn.v2 as int,
                        sample@,
                    )
                    &&& *final(self) == *old(self)
                },
            },
    {
        match kernel(sample, self.koef, &mut self.vn) {
            Ok(()) => Ok(power(self.koef, self.vn, sample.len())),
            Err(e) => Err(e),
        }
    }
}

/// Resetting a filter twice in a row leaves the same filter as
/// resetting it once: reset is idempotent.
pub proof fn lemma_reset_idempotent(flt: Filter)
    ensures
        reset_spec(reset_spec(flt)) == reset_spec(flt),
{
}

/// Resetting a filter whose running state is already zero — a freshly
/// constructed one — changes nothing.
pub proof fn lemma_reset_fresh(flt: Filter)
    requires
        flt.vn == (Vn { v1: 0, v2: 0 }),
    ensures
        reset_spec(flt) == flt,
{
}

/// Kernel determinism: the state the recursion reaches is a function
/// of the coefficient, the initial registers and the sample sequence
/// alone, so two runs from equal initial states end in equal states.
pub proof fn lemma_kernel_deterministic(
    c: int,
    v1a: int,
    v2a: int,
    v1b: int,
    v2b: int,
    samples: Seq<i64>,
)
    requires
        v1a == v1b,
        v2a == v2b,
    ensures
        kernel_spec(c, v1a, v2a, samples) == kernel_spec(c, v1b, v2b, samples),
{
}

/// Power floor: whatever the coefficient and the registers — in
/// particular when cancellation drives the raw power to zero or below
/// — the reported numerator is at least 1, so the normalized power is
/// at least `1 / n^2`.
pub proof fn lemma_power_floor(c: int, v1: int, v2: int)
    ensures
        power_num(c, v1, v2) >= 1,
{
}

/// Accumulation across calls: feeding a buffer in two chunks without
/// a reset in between drives the recursion to the same final state as
/// feeding the concatenation in one call.
pub proof fn lemma_kernel_append(c: int, v1: int, v2: int, s1: Seq<i64>, s2: Seq<i64>)
    ensures
        kernel_spec(c, v1, v2, s1 + s2) == ({
            let mid = kernel_spec(c, v1, v2, s1);
            kernel_spec(c, mid.0, mid.1, s2)
        }),
    decreases s2.len(),
{
    if s2.len() == 0 {
        assert(s1 + s2 =~= s1);
    } else {
        lemma_kernel_append(c, v1, v2, s1, s2.drop_last());
        assert((s1 + s2).drop_last() =~= s1 + s2.drop_last());
    }
}

/// A chunked run stays in range exactly when the one-shot run over
/// the concatenation does: overflow does not depend on where the
/// buffer is split.
pub proof fn lemma_fits_append(c: int, v1: int, v2: int, s1: Seq<i64>, s2: Seq<i64>)
    ensures
        kernel_fits(c, v1, v2, s1 + s2) <==> ({
            let mid = kernel_spec(c, v1, v2, s1);
            kernel_fits(c, v1, v2, s1) && kernel_fits(c, mid.0, mid.1, s2)
        }),
    decreases s2.len(),
{
    if s2.len() == 0 {
        assert(s1 + s2 =~= s1);
    } else {
        lemma_fits_append(c, v1, v2, s1, s2.drop_last());
        lemma_kernel_append(c, v1, v2, s1, s2.drop_last());
        assert((s1 + s2).drop_last() =~= s1 + s2.drop_last());
        assert((s1 + s2).last() == s2.last());
    }
}

} // verus!
