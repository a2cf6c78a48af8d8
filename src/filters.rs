//! Filters: a one-pole low-pass and a biquad notch.
//!
//! Cutoff and centre frequencies are in millihertz, sample rates in hertz.

use vstd::prelude::*;

use crate::{UNIT, PHASE_ONE};
use crate::fixed::{mul_q, mul_unit, lemma_mul_q_shrinks, lemma_mul_q_magnitude};
use crate::oscillator::{sine_q, sine_value, phase_inc_q, phase_increment};

verus! {

/// Largest sample magnitude a filter accepts or holds (64.0).
pub const SAMPLE_MAX: i64 = 1073741824;

/// One-pole smoothing factor `dt / (rc + dt)` with `rc = 1/(2π·cutoff)` and
/// `dt = 1/sample_rate`, i.e. `2π·cutoff / (2π·cutoff + sample_rate)`, in Q24.
/// `2π` is taken as `710/113`; the cutoff is in millihertz.
/// A positive cutoff never rounds down to a filter that passes nothing: the
/// factor is then at least one Q24 step.
pub open spec fn lowpass_alpha(cutoff: int, sample_rate: int) -> int {
    let num = 710 * cutoff;
    let den = 710 * cutoff + 113000 * sample_rate;
    if den == 0 {
        0
    } else if cutoff > 0 && num * UNIT / den < 1 {
        1
    } else {
        num * UNIT / den
    }
}

/// One low-pass step: `y + alpha·(x − y)`.
pub open spec fn lowpass_step(alpha: int, y: int, x: int) -> int {
    y + mul_q(x - y, alpha)
}

/// The smoothing factor lies within `[0, UNIT]`.
pub proof fn lemma_lowpass_alpha_bounds(cutoff: int, sample_rate: int)
    requires
        cutoff >= 0,
        sample_rate >= 0,
    ensures
        0 <= lowpass_alpha(cutoff, sample_rate) <= UNIT,
        cutoff > 0 ==> lowpass_alpha(cutoff, sample_rate) > 0,
{
    let n = 710 * cutoff;
    let d = 710 * cutoff + 113000 * sample_rate;
    let u = UNIT as int;
    if d != 0 {
        assert(n * u <= d * u) by (nonlinear_arith)
            requires 0 <= n <= d, u > 0;
        assert((n * u) / d <= u) by (nonlinear_arith)
            requires n * u <= d * u, d > 0;
        assert((n * u) / d >= 0) by (nonlinear_arith)
            requires n >= 0, u > 0, d > 0;
    }
}

#[derive(Clone, Copy)]
pub struct LowPassFilter {
    /// Cutoff in millihertz.
    pub cutoff: u64,
    pub sample_rate: u32,
    pub alpha: i64,
    pub prev_output: i64,
}

fn alpha_for(cutoff: u64, sample_rate: u32) -> (a: i64)
    requires
        cutoff <= 0xffff_ffff_ffff,
    ensures
        a == lowpass_alpha(cutoff as int, sample_rate as int),
        0 <= a <= UNIT,
        cutoff > 0 ==> a > 0,
{
    let num: u128 = 710 * (cutoff as u128);
    let den: u128 = num + 113000 * (sample_rate as u128);
    if den == 0 {
        0
    } else {
        proof {
            let (n, d, u) = (num as int, den as int, UNIT as int);
            assert(n * u <= d * u) by (nonlinear_arith)
                requires n <= d, u > 0;
            assert((n * u) / d <= u) by (nonlinear_arith)
                requires n * u <= d * u, d > 0;
            assert(n * u <= 0xffff_ffff_ffff_ffff_ffff_ffff_ffff) by (nonlinear_arith)
                requires n <= 710 * 0xffff_ffff_ffff, u == 16777216;
        }
        let a = (num * (UNIT as u128) / den) as i64;
        if cutoff > 0 && a < 1 {
            1
        } else {
            a
        }
    }
}

impl LowPassFilter {
    pub open spec fn wf(&self) -> bool {
        &&& self.cutoff <= 0xffff_ffff_ffff
        &&& self.cutoff > 0 ==> self.alpha > 0
        &&& self.alpha == lowpass_alpha(self.cutoff as int, self.sample_rate as int)
        &&& -SAMPLE_MAX <= self.prev_output <= SAMPLE_MAX
    }

    pub fn new(cutoff: u64, sample_rate: u32) -> (f: Self)
        requires
            cutoff <= 0xffff_ffff_ffff,
        ensures
            f.wf(),
            f.cutoff == cutoff,
            f.sample_rate == sample_rate,
            f.prev_output == 0,
    {
        LowPassFilter { cutoff, sample_rate, alpha: alpha_for(cutoff, sample_rate), prev_output: 0 }
    }

    /// Filters one sample; the output always lies between the previous
    /// output and the input.
    pub fn process(&mut self, input: i64) -> (r: i64)
        requires
            old(self).wf(),
            -SAMPLE_MAX <= input <= SAMPLE_MAX,
        ensures
            final(self).wf(),
            r == lowpass_step(old(self).alpha as int, old(self).prev_output as int, input as int),
            old(self).prev_output <= input ==> old(self).prev_output <= r <= input,
            input <= old(self).prev_output ==> input <= r <= old(self).prev_output,
            *final(self) == (LowPassFilter { prev_output: r, ..*old(self) }),
    {
        let y = self.prev_output;
        proof {
            lemma_lowpass_alpha_bounds(self.cutoff as int, self.sample_rate as int);
            lemma_mul_q_shrinks(input - y, self.alpha as int);
        }
        let r = y + mul_unit(input - y, self.alpha);
        self.prev_output = r;
        r
    }

    /// Sets cutoff and sample rate together and recomputes the coefficient.
    pub fn set_cutoff(&mut self, cutoff: u64, sample_rate: u32)
        requires
            old(self).wf(),
            cutoff <= 0xffff_ffff_ffff,
        ensures
            final(self).wf(),
            *final(self) == (LowPassFilter {
                cutoff,
                sample_rate,
                alpha: final(self).alpha,
                ..*old(self)
            }),
    {
        self.cutoff = cutoff;
        self.sample_rate = sample_rate;
        self.alpha = alpha_for(cutoff, sample_rate);
    }

    /// Changes the sample rate and recomputes the coefficient.
    pub fn set_sample_rate(&mut self, sample_rate: u32)
        requires
            old(self).wf(),
        ensures
            final(self).wf(),
            *final(self) == (LowPassFilter { sample_rate, alpha: final(self).alpha, ..*old(self) }),
    {
        self.sample_rate = sample_rate;
        self.alpha = alpha_for(self.cutoff, sample_rate);
    }
}

/// Division truncated toward zero.
pub open spec fn div_tz(a: int, d: int) -> int {
    if a >= 0 { a / d } else { -((-a) / d) }
}

/// The notch's `ω = 2π·frequency/sample_rate`, as a fraction of a cycle.
pub open spec fn notch_omega(frequency: int, sample_rate: int) -> int {
    phase_inc_q(frequency, sample_rate)
}

/// RBJ `alpha = sin(ω)/(2Q)` in Q24, on `|sin ω|` so that a frequency above
/// Nyquist acts as its alias below it; `Q` is taken as at least `1/UNIT`.
pub open spec fn notch_alpha(frequency: int, q: int, sample_rate: int) -> int {
    let s = sine_q(notch_omega(frequency, sample_rate));
    let m = if s >= 0 { s } else { -s };
    let qq = if q < 1 { 1 } else { q };
    m * UNIT / (2 * qq)
}

/// `cos ω` in Q24, as the sine a quarter cycle on.
pub open spec fn notch_cos(frequency: int, sample_rate: int) -> int {
    sine_q((notch_omega(frequency, sample_rate) + PHASE_ONE / 4) % (PHASE_ONE as int))
}

/// Maximum allowed notch Q (in Q24): 1024.0.
pub const MAX_Q: i64 = 17179869184;

pub struct NotchFilter {
    /// Centre frequency in millihertz.
    pub frequency: u32,
    /// Quality factor in Q24.
    pub q: i64,
    pub sample_rate: u32,
    pub x1: i64,
    pub x2: i64,
    pub y1: i64,
    pub y2: i64,
    pub a0: i64,
    pub a1: i64,
    pub a2: i64,
    pub b0: i64,
    pub b1: i64,
    pub b2: i64,
}

/// Notch coefficients `(b0, b1, b2, a1, a2)`, normalised so that `a0 = 1`.
fn notch_coefficients(frequency: u32, q: i64, sample_rate: u32) -> (c: (i64, i64, i64, i64, i64))
    ensures
        ({
            let alpha = notch_alpha(frequency as int, q as int, sample_rate as int);
            let cs = notch_cos(frequency as int, sample_rate as int);
            let den = UNIT + alpha;
            &&& c.0 == UNIT * UNIT / den
            &&& c.1 == div_tz(-2 * cs * UNIT, den)
            &&& c.2 == c.0
            &&& c.3 == c.1
            &&& c.4 == div_tz((UNIT - alpha) * UNIT, den)
            &&& 0 <= c.0 <= UNIT
            &&& -2 * UNIT <= c.1 <= 2 * UNIT
            &&& -UNIT <= c.4 <= UNIT
        }),
{
    let w = phase_increment(frequency as u64, sample_rate);
    let s = sine_value(w);
    let cs = sine_value((w + PHASE_ONE / 4) % PHASE_ONE);
    let m: i128 = if s >= 0 { s as i128 } else { -(s as i128) };
    let qq: i128 = if q < 1 { 1 } else { q as i128 };
    let u: i128 = UNIT as i128;
    proof {
        assert(m * u <= u * u) by (nonlinear_arith)
            requires 0 <= m <= u, u > 0;
        assert(m * u / (2 * qq as int) <= m * u) by (nonlinear_arith)
            requires m * u >= 0, qq >= 1;
        assert(m * u / (2 * qq as int) >= 0) by (nonlinear_arith)
            requires m * u >= 0, qq >= 1;
    }
    let alpha: i128 = m * u / (2 * qq);
    let den: i128 = u + alpha;
    proof {
        assert(u * u / (den as int) <= u) by (nonlinear_arith)
            requires den >= u, u > 0;
        assert(u * u / (den as int) >= 0) by (nonlinear_arith)
            requires den >= u, u > 0;
    }
    let b0 = u * u / den;
    let twice_cos: i128 = 2 * (cs as i128) * u;
    let b1: i128 = if twice_cos <= 0 {
        (-twice_cos) / den
    } else {
        -(twice_cos / den)
    };
    proof {
        let t = if twice_cos >= 0 { twice_cos as int } else { -twice_cos };
        assert(t <= 2 * u * u) by (nonlinear_arith)
            requires t == 2 * cs * u || t == -(2 * cs * u), -u <= cs <= u, u > 0;
        assert(t / (den as int) <= 2 * u) by (nonlinear_arith)
            requires 0 <= t <= 2 * u * u, den >= u, u > 0;
        assert(t / (den as int) >= 0) by (nonlinear_arith)
            requires t >= 0, den > 0;
        assert(-2 * cs * u == -twice_cos);
    }
    let diff: i128 = (u - alpha) * u;
    let a2: i128 = if diff >= 0 {
        diff / den
    } else {
        -((-diff) / den)
    };
    proof {
        assert(alpha >= 0);
        assert(diff <= u * u) by (nonlinear_arith)
            requires diff == (u - alpha) * u, alpha >= 0, u > 0;
        assert(-diff <= den * u) by (nonlinear_arith)
            requires diff == (u - alpha) * u, den == u + alpha, alpha >= 0, u > 0;
        if diff >= 0 {
            assert((diff as int) / (den as int) <= u) by (nonlinear_arith)
                requires 0 <= diff <= u * u, den >= u, u > 0;
            assert((diff as int) / (den as int) >= 0) by (nonlinear_arith)
                requires diff >= 0, den > 0;
        } else {
            assert((-diff) / (den as int) <= u) by (nonlinear_arith)
                requires 0 <= -diff <= den * u, den > 0;
            assert((-diff) / (den as int) >= 0) by (nonlinear_arith)
                requires -diff >= 0, den > 0;
        }
    }
    (b0 as i64, b1 as i64, b0 as i64, b1 as i64, a2 as i64)
}

/// Clamps into `[-SAMPLE_MAX, SAMPLE_MAX]`.
pub open spec fn clamp_sample(x: int) -> int {
    if x < -SAMPLE_MAX { -SAMPLE_MAX as int } else if x > SAMPLE_MAX { SAMPLE_MAX as int } else { x }
}

impl NotchFilter {
    /// Samples in range and coefficients matching frequency, Q and rate.
    pub open spec fn wf(&self) -> bool {
        &&& -SAMPLE_MAX <= self.x1 <= SAMPLE_MAX
        &&& -SAMPLE_MAX <= self.x2 <= SAMPLE_MAX
        &&& -SAMPLE_MAX <= self.y1 <= SAMPLE_MAX
        &&& -SAMPLE_MAX <= self.y2 <= SAMPLE_MAX
        &&& self.coefficients_fresh()
    }

    pub open spec fn coefficients_fresh(&self) -> bool {
        let alpha = notch_alpha(self.frequency as int, self.q as int, self.sample_rate as int);
        let cs = notch_cos(self.frequency as int, self.sample_rate as int);
        let den = UNIT + alpha;
        &&& self.a0 == UNIT
        &&& self.b0 == UNIT * UNIT / den
        &&& self.b1 == div_tz(-2 * cs * UNIT, den)
        &&& self.b2 == self.b0
        &&& self.a1 == self.b1
        &&& self.a2 == div_tz((UNIT - alpha) * UNIT, den)
        &&& 0 <= self.b0 <= UNIT
        &&& -2 * UNIT <= self.b1 <= 2 * UNIT
        &&& -UNIT <= self.a2 <= UNIT
    }

    /// The direct-form-I output for input `x`, clamped to the sample range.
    pub open spec fn output_for(&self, x: int) -> int {
        clamp_sample(
            mul_q(self.b0 as int, x) + mul_q(self.b1 as int, self.x1 as int) + mul_q(
                self.b2 as int,
                self.x2 as int,
            ) - mul_q(self.a1 as int, self.y1 as int) - mul_q(self.a2 as int, self.y2 as int),
        )
    }

    fn calculate_coefficients(&mut self)
        ensures
            final(self).coefficients_fresh(),
            final(self).frequency == old(self).frequency,
            final(self).q == old(self).q,
            final(self).sample_rate == old(self).sample_rate,
            final(self).x1 == old(self).x1,
            final(self).x2 == old(self).x2,
            final(self).y1 == old(self).y1,
            final(self).y2 == old(self).y2,
    {
        let c = notch_coefficients(self.frequency, self.q, self.sample_rate);
        self.b0 = c.0;
        self.b1 = c.1;
        self.b2 = c.2;
        self.a1 = c.3;
        self.a2 = c.4;
        self.a0 = UNIT;
    }

    /// A notch at `frequency` (millihertz) with quality `q` (Q24).
    pub fn new(frequency: u32, q: i64, sample_rate: u32) -> (f: Self)
        ensures
            f.wf(),
            f.frequency == frequency,
            f.q == q,
            f.sample_rate == sample_rate,
            f.x1 == 0 && f.x2 == 0 && f.y1 == 0 && f.y2 == 0,
    {
        let mut filter = NotchFilter {
            frequency,
            q,
            sample_rate,
            x1: 0,
            x2: 0,
            y1: 0,
            y2: 0,
            a0: UNIT,
            a1: 0,
            a2: 0,
            b0: UNIT,
            b1: 0,
            b2: 0,
        };
        filter.calculate_coefficients();
        filter
    }

    /// Filters one sample and shifts the delay line.
    pub fn process(&mut self, input: i64) -> (r: i64)
        requires
            old(self).wf(),
            -SAMPLE_MAX <= input <= SAMPLE_MAX,
        ensures
            final(self).wf(),
            r == old(self).output_for(input as int),
            *final(self) == (NotchFilter {
                x1: input,
                x2: old(self).x1,
                y1: r,
                y2: old(self).y1,
                ..*old(self)
            }),
    {
        proof {
            let (m2, ms) = (33554432int, 1073741824int);
            assert(m2 * ms / (UNIT as int) == 2147483648);
            lemma_mul_q_magnitude(self.b0 as int, input as int, m2, ms);
            lemma_mul_q_magnitude(self.b1 as int, self.x1 as int, m2, ms);
            lemma_mul_q_magnitude(self.b2 as int, self.x2 as int, m2, ms);
            lemma_mul_q_magnitude(self.a1 as int, self.y1 as int, m2, ms);
            lemma_mul_q_magnitude(self.a2 as int, self.y2 as int, m2, ms);
        }
        let sum = mul_unit(self.b0, input) + mul_unit(self.b1, self.x1) + mul_unit(self.b2, self.x2)
            - mul_unit(self.a1, self.y1) - mul_unit(self.a2, self.y2);
        let output = if sum < -SAMPLE_MAX {
            -SAMPLE_MAX
        } else if sum > SAMPLE_MAX {
            SAMPLE_MAX
        } else {
            sum
        };
        self.x2 = self.x1;
        self.x1 = input;
        self.y2 = self.y1;
        self.y1 = output;
        output
    }

    pub fn set_frequency(&mut self, frequency: u32)
        requires
            old(self).wf(),
        ensures
            final(self).wf(),
            *final(self) == (NotchFilter {
                frequency,
                a0: final(self).a0,
                a1: final(self).a1,
                a2: final(self).a2,
                b0: final(self).b0,
                b1: final(self).b1,
                b2: final(self).b2,
                ..*old(self)
            }),
    {
        self.frequency = frequency;
        self.calculate_coefficients();
    }

    pub fn set_q(&mut self, q: i64)
        requires
            old(self).wf(),
        ensures
            final(self).wf(),
            *final(self) == (NotchFilter {
                q,
                a0: final(self).a0,
                a1: final(self).a1,
                a2: final(self).a2,
                b0: final(self).b0,
                b1: final(self).b1,
                b2: final(self).b2,
                ..*old(self)
            }),
    {
        self.q = q;
        self.calculate_coefficients();
    }

    pub fn set_sample_rate(&mut self, sample_rate: u32)
        requires
            old(self).wf(),
        ensures
            final(self).wf(),
            *final(self) == (NotchFilter {
                sample_rate,
                a0: final(self).a0,
                a1: final(self).a1,
                a2: final(self).a2,
                b0: final(self).b0,
                b1: final(self).b1,
                b2: final(self).b2,
                ..*old(self)
            }),
    {
        self.sample_rate = sample_rate;
        self.calculate_coefficients();
    }
}

} // verus!
