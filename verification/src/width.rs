//! The adaptive beam width controller: a scalar Kalman filter over the
//! per-width-unit execution cost, used to pick, every turn, the largest
//! beam width whose projected total cost stays inside the wall-clock
//! budget with a three-standard-deviation safety margin.
//!
//! Times are carried in nanoseconds and variances in squared microseconds,
//! all in integers, so every update is exact and free of overflow.

use vstd::prelude::*;
use crate::MAX_TURN;

verus! {

/// Largest supported time budget, in nanoseconds (1000 seconds).
pub const TIME_LIMIT_CAP_NS: u64 = 0xE8_D4A5_1000;

/// Largest supported single observation, in nanoseconds.
pub const OBSERVED_CAP_NS: u64 = 0x100_0000_0000;

/// Interface of interchangeable width-suggestion strategies; a fixed or
/// no-op strategy satisfies it just as the Kalman estimator does, so a
/// test harness can substitute one.
pub trait BeamWidthSuggester: Sized {
    /// Whether another suggestion may be requested.
    spec fn ready(&self) -> bool;

    /// The smallest width the strategy will ever propose.
    spec fn min_width_spec(&self) -> usize;

    /// The largest width the strategy will ever propose.
    spec fn max_width_spec(&self) -> usize;

    /// Proposes the beam width for the coming turn, given two clock
    /// readings in nanoseconds: the time elapsed since the previous call
    /// and the total time elapsed since the run began.
    fn suggest(&mut self, observed_ns: u64, elapsed_total_ns: u64) -> (r: usize)
        requires
            old(self).ready(),
            observed_ns <= OBSERVED_CAP_NS,
        ensures
            old(self).min_width_spec() <= r <= old(self).max_width_spec(),
    ;
}

/// `w` clamped into `[mn, mx]`.
pub open spec fn clamp_width(w: int, mn: usize, mx: usize) -> int {
    if w < mn {
        mn as int
    } else if w > mx {
        mx as int
    } else {
        w
    }
}

/// Integer square root: the greatest `r` with `r * r <= x`.
pub fn isqrt(x: u128) -> (r: u128)
    ensures
        r * r <= x,
        (r + 1) * (r + 1) > x,
{
    let mut lo: u128 = 0;
    let mut hi: u128 = 0x1_0000_0000_0000_0000;
    proof {
        assert(hi * hi > x) by (nonlinear_arith)
            requires
                hi == 0x1_0000_0000_0000_0000u128,
                x <= 0xffff_ffff_ffff_ffff_ffff_ffff_ffff_ffffu128,
        ;
    }
    while lo + 1 < hi
        invariant
            lo < hi <= 0x1_0000_0000_0000_0000,
            lo * lo <= x,
            hi * hi > x,
        decreases hi - lo,
    {
        let mid: u128 = lo + (hi - lo) / 2;
        proof {
            assert(mid * mid < 0x1_0000_0000_0000_0000u128 * 0x1_0000_0000_0000_0000u128)
                by (nonlinear_arith)
                requires
                    mid < 0x1_0000_0000_0000_0000u128,
            ;
        }
        if mid * mid <= x {
            lo = mid;
        } else {
            hi = mid;
        }
    }
    lo
}

/// The Kalman estimator of a safe beam width.  The hidden state is the
/// per-width-unit execution time; each turn's measured elapsed time is
/// folded in by a standard one-dimensional Bayesian update, and the
/// proposed width is the largest one whose projected cost over all
/// remaining turns, padded by three standard deviations, fits the
/// remaining budget, clamped to the configured bounds.
pub struct BayesianBeamWidthSuggester {
    /// Posterior mean of the per-width-unit cost, in nanoseconds.
    pub mean_ns: u128,
    /// Posterior variance of that mean, in squared microseconds.
    pub variance: u128,
    /// Process noise folded in every turn, in squared microseconds.
    pub variance_state: u128,
    /// Observation noise, in squared microseconds.
    pub variance_observe: u128,
    /// The run's wall-clock budget, in nanoseconds.
    pub time_limit_ns: u64,
    /// Turns proposed so far.
    pub current_turn: usize,
    /// Total turns the run will take.
    pub max_turn: usize,
    /// Turns whose measurements are discarded before updating begins.
    pub warmup_turn: usize,
    /// Smallest width ever proposed.
    pub min_beam_width: usize,
    /// Largest width ever proposed.
    pub max_beam_width: usize,
    /// The width proposed by the previous call.
    pub current_beam_width: usize,
}

impl BayesianBeamWidthSuggester {
    /// The bounds every field respects between calls.
    pub open spec fn inv(self) -> bool {
        &&& 1 <= self.min_beam_width <= self.max_beam_width
        &&& 1 <= self.warmup_turn
        &&& 1 <= self.max_turn <= 0x10_0000
        &&& self.time_limit_ns <= TIME_LIMIT_CAP_NS
        &&& self.mean_ns <= OBSERVED_CAP_NS as u128
        &&& 1 <= self.variance_observe <= 0x10_0000_0000_0000
        &&& self.variance <= 0x100_0000_0000_0000
        &&& self.variance_state <= 0x1_0000_0000_0000
        &&& (self.current_turn >= 1 ==> self.current_beam_width >= 1)
    }

    /// Configures the estimator.  The prior mean is the budget spread
    /// uniformly over `max_turn` turns of the standard width; the prior
    /// standard deviation is a tenth of it, the process noise a
    /// hundredth, the observation noise a twentieth.  The divisors in the
    /// ensured variances fold those fractions with the nanosecond to
    /// microsecond conversion: a tenth of the mean in microseconds is
    /// `mean_ns / 10_000`, squared to give `variance` in squared
    /// microseconds, and likewise `100_000` for the hundredth and
    /// `20_000` for the twentieth.
    ///
    /// The floor of 20 microseconds of budget per width-unit per turn is
    /// a limit of the integer microsecond model: below it the observation
    /// noise would round to zero and the correction step would divide by
    /// zero.
    pub fn new(
        max_turn: usize,
        warmup_turn: usize,
        time_limit_ns: u64,
        standard_beam_width: usize,
        min_beam_width: usize,
        max_beam_width: usize,
    ) -> (r: Self)
        requires
            1 <= max_turn <= 0x10_0000,
            1 <= standard_beam_width <= 0x10_0000,
            1 <= warmup_turn,
            1 <= min_beam_width <= max_beam_width,
            time_limit_ns as int >= 20_000 * (max_turn as int) * (standard_beam_width as int),
            time_limit_ns <= TIME_LIMIT_CAP_NS,
        ensures
            r.inv(),
            r.ready(),
            r.current_turn == 0,
            r.current_beam_width == 0,
            r.min_width_spec() == min_beam_width,
            r.max_width_spec() == max_beam_width,
            r.max_turn == max_turn,
            r.warmup_turn == warmup_turn,
            r.time_limit_ns == time_limit_ns,
            r.mean_ns == (time_limit_ns as int) / ((max_turn as int) * (
            standard_beam_width as int)),
            r.variance == (r.mean_ns / 10_000) * (r.mean_ns / 10_000),
            r.variance_state == (r.mean_ns / 100_000) * (r.mean_ns / 100_000),
            r.variance_observe == (r.mean_ns / 20_000) * (r.mean_ns / 20_000),
    {
        proof {
            assert(1 <= (max_turn as u64) * (standard_beam_width as u64) <= 0x10_0000u64
                * 0x10_0000u64) by (nonlinear_arith)
                requires
                    1 <= max_turn <= 0x10_0000,
                    1 <= standard_beam_width <= 0x10_0000,
            ;
        }
        let denom: u64 = (max_turn as u64) * (standard_beam_width as u64);
        proof {
            assert(20_000 * (max_turn as int) * (standard_beam_width as int) == 20_000 * (
            denom as int)) by (nonlinear_arith)
                requires
                    denom == (max_turn as int) * (standard_beam_width as int),
            ;
            assert(time_limit_ns as int / (denom as int) >= 20_000) by (nonlinear_arith)
                requires
                    denom >= 1,
                    time_limit_ns as int >= 20_000 * (denom as int),
            ;
        }
        let mean_ns: u64 = time_limit_ns / denom;
        let sd0_us: u64 = mean_ns / 10_000;
        let sds_us: u64 = mean_ns / 100_000;
        let sdo_us: u64 = mean_ns / 20_000;
        proof {
            assert(sd0_us <= 100_000_000 && sds_us <= 10_000_000 && sdo_us <= 50_000_000);
            assert((sd0_us as u128) * (sd0_us as u128) <= 0x100_0000_0000_0000u128)
                by (nonlinear_arith)
                requires
                    sd0_us <= 100_000_000u64,
            ;
            assert((sds_us as u128) * (sds_us as u128) <= 0x1_0000_0000_0000u128)
                by (nonlinear_arith)
                requires
                    sds_us <= 10_000_000u64,
            ;
            assert((sdo_us as u128) * (sdo_us as u128) <= 0x10_0000_0000_0000u128)
                by (nonlinear_arith)
                requires
                    sdo_us <= 50_000_000u64,
            ;
            assert(sdo_us >= 1);
            assert((sdo_us as u128) * (sdo_us as u128) >= 1) by (nonlinear_arith)
                requires
                    sdo_us >= 1,
            ;
        }
        let variance: u128 = (sd0_us as u128) * (sd0_us as u128);
        let variance_state: u128 = (sds_us as u128) * (sds_us as u128);
        let variance_observe: u128 = (sdo_us as u128) * (sdo_us as u128);
        Self {
            mean_ns: mean_ns as u128,
            variance,
            variance_state,
            variance_observe,
            time_limit_ns,
            current_turn: 0,
            max_turn,
            warmup_turn,
            min_beam_width,
            max_beam_width,
            current_beam_width: 0,
        }
    }

    /// Folds the process noise into the belief: the hidden cost may have
    /// drifted since the last turn.
    fn update_state(&mut self)
        requires
            old(self).inv(),
        ensures
            *final(self) == (Self {
                variance: (old(self).variance + old(self).variance_state) as u128,
                ..*old(self)
            }),
    {
        self.variance = self.variance + self.variance_state;
    }

    /// The standard one-dimensional Bayesian correction of the belief by
    /// one observation.
    fn update_distribution(&mut self, observed_ns: u128)
        requires
            old(self).mean_ns <= OBSERVED_CAP_NS as u128,
            1 <= old(self).variance_observe <= 0x10_0000_0000_0000,
            old(self).variance <= 0x101_0000_0000_0000,
            observed_ns <= OBSERVED_CAP_NS as u128,
        ensures
            final(self).mean_ns == (old(self).mean_ns * old(self).variance_observe + old(
                self,
            ).variance * observed_ns) / (old(self).variance_observe + old(self).variance),
            final(self).variance == old(self).variance * old(self).variance_observe / (old(
                self,
            ).variance + old(self).variance_observe),
            final(self).mean_ns <= OBSERVED_CAP_NS as u128,
            final(self).variance <= old(self).variance_observe,
            *final(self) == (Self {
                mean_ns: final(self).mean_ns,
                variance: final(self).variance,
                ..*old(self)
            }),
    {
        let m = self.mean_ns;
        let v = self.variance;
        let b = self.variance_observe;
        proof {
            let cap = OBSERVED_CAP_NS as u128;
            assert(m * b <= 0x100_0000_0000u128 * 0x10_0000_0000_0000u128) by (nonlinear_arith)
                requires
                    m <= 0x100_0000_0000u128,
                    b <= 0x10_0000_0000_0000u128,
            ;
            assert(v * observed_ns <= 0x101_0000_0000_0000u128 * 0x100_0000_0000u128)
                by (nonlinear_arith)
                requires
                    v <= 0x101_0000_0000_0000u128,
                    observed_ns <= 0x100_0000_0000u128,
            ;
            assert(v * b <= 0x101_0000_0000_0000u128 * 0x10_0000_0000_0000u128)
                by (nonlinear_arith)
                requires
                    v <= 0x101_0000_0000_0000u128,
                    b <= 0x10_0000_0000_0000u128,
            ;
            assert(m * b <= cap * b && v * observed_ns <= v * cap) by (nonlinear_arith)
                requires
                    m <= cap,
                    observed_ns <= cap,
                    b >= 0,
                    v >= 0,
            ;
            assert(cap * b + v * cap == cap * (b + v)) by (nonlinear_arith);
            assert(m * b + v * observed_ns <= cap * (b + v));
            assert(cap * (b + v) / (b + v) == cap) by (nonlinear_arith)
                requires
                    b + v >= 1,
            ;
            assert((m * b + v * observed_ns) / (b + v) <= cap * (b + v) / (b + v))
                by (nonlinear_arith)
                requires
                    m * b + v * observed_ns <= cap * (b + v),
                    b + v >= 1,
            ;
            assert(v * b <= (v + b) * b) by (nonlinear_arith)
                requires
                    v >= 0,
                    b >= 0,
            ;
            assert((v + b) * b / (v + b) == b) by (nonlinear_arith)
                requires
                    v + b >= 1,
            ;
            assert(v * b / (v + b) <= (v + b) * b / (v + b)) by (nonlinear_arith)
                requires
                    v * b <= (v + b) * b,
                    v + b >= 1,
            ;
        }
        self.mean_ns = (m * b + v * observed_ns) / (b + v);
        self.variance = v * b / (v + b);
    }

    /// Exactly what `calc_safe_beam_width` returns: with `s` the integer
    /// square root of the remaining turns times the total variance, the
    /// remaining budget divided by the projected per-width cost plus a
    /// three-standard-deviation margin, clamped to the width bounds.
    pub open spec fn width_choice(self, elapsed_total_ns: u64, r: usize) -> bool {
        let rt = (self.max_turn - self.current_turn) as int;
        let remaining = if elapsed_total_ns >= self.time_limit_ns {
            0
        } else {
            self.time_limit_ns - elapsed_total_ns
        };
        let vt = self.variance + self.variance_observe;
        exists|s: int|
            0 <= s && (#[trigger] (s * s)) <= rt * vt && rt * vt < (s + 1) * (s + 1) && r
                == clamp_width(
                remaining / (rt * self.mean_ns + 3 * s * 1000),
                self.min_beam_width,
                self.max_beam_width,
            )
    }

    /// The largest width whose projected cost over the remaining turns,
    /// with a three-standard-deviation margin, fits the remaining budget,
    /// clamped to the configured bounds.
    pub fn calc_safe_beam_width(&self, elapsed_total_ns: u64) -> (r: usize)
        requires
            self.inv(),
            self.current_turn < self.max_turn,
        ensures
            self.min_beam_width <= r <= self.max_beam_width,
            self.width_choice(elapsed_total_ns, r),
    {
        let rt: u64 = (self.max_turn - self.current_turn) as u64;
        let remaining_ns: u64 = if elapsed_total_ns >= self.time_limit_ns {
            0
        } else {
            self.time_limit_ns - elapsed_total_ns
        };
        let vt: u128 = self.variance + self.variance_observe;
        proof {
            assert((rt as u128) * vt <= 0x10_0000u128 * 0x111_0000_0000_0000u128)
                by (nonlinear_arith)
                requires
                    rt <= 0x10_0000u64,
                    vt <= 0x111_0000_0000_0000u128,
            ;
        }
        let x: u128 = (rt as u128) * vt;
        let sd_us: u128 = isqrt(x);
        proof {
            assert(sd_us * sd_us <= x);
            assert(sd_us <= 0x80_0000_0000u128) by (nonlinear_arith)
                requires
                    sd_us * sd_us <= 0x10_0000u128 * 0x111_0000_0000_0000u128,
                    sd_us >= 0,
            ;
            assert((rt as u128) * self.mean_ns <= 0x10_0000u128 * (OBSERVED_CAP_NS as u128))
                by (nonlinear_arith)
                requires
                    rt <= 0x10_0000u64,
                    self.mean_ns <= OBSERVED_CAP_NS as u128,
            ;
            if self.mean_ns == 0 {
                assert(vt >= 1);
                assert((rt as u128) * vt >= 1) by (nonlinear_arith)
                    requires
                        rt >= 1,
                        vt >= 1,
                ;
                assert(sd_us >= 1) by (nonlinear_arith)
                    requires
                        (sd_us + 1) * (sd_us + 1) > x,
                        x >= 1,
                        sd_us >= 0,
                ;
            } else {
                assert((rt as u128) * self.mean_ns >= 1) by (nonlinear_arith)
                    requires
                        rt >= 1,
                        self.mean_ns >= 1,
                ;
            }
        }
        let needed: u128 = (rt as u128) * self.mean_ns + 3 * sd_us * 1000;
        let w128: u128 = (remaining_ns as u128) / needed;
        if w128 < self.min_beam_width as u128 {
            self.min_beam_width
        } else if w128 > self.max_beam_width as u128 {
            self.max_beam_width
        } else {
            w128 as usize
        }
    }
}

impl BeamWidthSuggester for BayesianBeamWidthSuggester {
    /// A suggestion may be requested while the invariant holds and the
    /// declared turn horizon is not exhausted; asking after it is a fatal
    /// caller defect and excluded by contract.
    open spec fn ready(&self) -> bool {
        self.inv() && self.current_turn < self.max_turn
    }

    open spec fn min_width_spec(&self) -> usize {
        self.min_beam_width
    }

    open spec fn max_width_spec(&self) -> usize {
        self.max_beam_width
    }

    /// Past the warm-up turns, folds the measured elapsed time per width
    /// unit into the belief, then proposes a width for the coming turn.
    /// During warm-up the belief is untouched; afterwards exactly one
    /// Kalman step is folded in — predict by the process noise, correct
    /// by the measured time divided by the width it paid for — and the
    /// proposed width is exactly `width_choice` of the updated belief.
    fn suggest(&mut self, observed_ns: u64, elapsed_total_ns: u64) -> (r: usize)
        ensures
            final(self).inv(),
            final(self).current_turn == old(self).current_turn + 1,
            final(self).current_beam_width == r,
            final(self).max_turn == old(self).max_turn,
            final(self).min_beam_width == old(self).min_beam_width,
            final(self).max_beam_width == old(self).max_beam_width,
            final(self).warmup_turn == old(self).warmup_turn,
            final(self).time_limit_ns == old(self).time_limit_ns,
            final(self).variance_state == old(self).variance_state,
            final(self).variance_observe == old(self).variance_observe,
            old(self).current_turn < old(self).warmup_turn ==> final(self).mean_ns == old(
                self,
            ).mean_ns && final(self).variance == old(self).variance,
            old(self).current_turn >= old(self).warmup_turn ==> ({
                let obs = (observed_ns as int) / (old(self).current_beam_width as int);
                let vpred = old(self).variance + old(self).variance_state;
                &&& final(self).mean_ns == (old(self).mean_ns * old(self).variance_observe
                    + vpred * obs) / (old(self).variance_observe + vpred)
                &&& final(self).variance == vpred * old(self).variance_observe / (vpred + old(
                    self,
                ).variance_observe)
            }),
            (Self {
                mean_ns: final(self).mean_ns,
                variance: final(self).variance,
                ..*old(self)
            }).width_choice(elapsed_total_ns, r),
    {
        if self.current_turn >= self.warmup_turn {
            let obs_per: u64 = observed_ns / (self.current_beam_width as u64);
            self.update_state();
            self.update_distribution(obs_per as u128);
        }
        let w = self.calc_safe_beam_width(elapsed_total_ns);
        self.current_beam_width = w;
        self.current_turn = self.current_turn + 1;
        w
    }
}

} // verus!
