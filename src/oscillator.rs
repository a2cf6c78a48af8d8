//! The band-limited oscillator: phase accumulation with PolyBLEP correction
//! at the discontinuities of the square and sawtooth shapes.

use vstd::prelude::*;

use crate::{UNIT, PHASE_ONE};
use crate::fixed::{mul_q, mul_unit, lemma_mul_q_shrinks};
use crate::filters::{LowPassFilter, lowpass_step};
use crate::pitch::{transpose, transposed, MAX_SEMITONES};

verus! {

/// Half a cycle.
pub const HALF_CYCLE: u64 = 2147483648;

/// The closed set of waveform shapes.
#[derive(Clone, Copy, Debug, PartialEq, Eq, Structural)]
pub enum WaveType {
    Sine,
    Square,
    Triangle,
    Sawtooth,
}

impl WaveType {
    /// Display name of the shape.
    pub fn as_str(&self) -> (r: &'static str)
        ensures
            *self == WaveType::Sine ==> r@ == "Senoidal"@,
            *self == WaveType::Square ==> r@ == "Cuadrada"@,
            *self == WaveType::Triangle ==> r@ == "Triangular"@,
            *self == WaveType::Sawtooth ==> r@ == "Sierra"@,
    {
        match self {
            WaveType::Sine => "Senoidal",
            WaveType::Square => "Cuadrada",
            WaveType::Triangle => "Triangular",
            WaveType::Sawtooth => "Sierra",
        }
    }
}

/// One quarter cycle in Q30 units.
pub const QUARTER: u64 = 1073741824;

/// Product of two Q30 numbers, rounded down.
pub open spec fn q30_mul(a: int, b: int) -> int {
    a * b / (QUARTER as int)
}

/// `sin(π/2 · x)` for `x` in Q30 within `[0, 1]`, by the Taylor series to the
/// eleventh power (error below 4e-7); coefficients `(π/2)^k / k!` in Q30.
pub open spec fn quarter_sine_q30(x: int) -> int {
    let t2 = q30_mul(x, x);
    let p3 = q30_mul(x, t2);
    let p5 = q30_mul(p3, t2);
    let p7 = q30_mul(p5, t2);
    let p9 = q30_mul(p7, t2);
    let p11 = q30_mul(p9, t2);
    q30_mul(1686629713, x) - q30_mul(693598668, p3) + q30_mul(85569306, p5) - q30_mul(
        5026995,
        p7,
    ) + q30_mul(172272, p9) - q30_mul(3864, p11)
}

/// Sine of a phase (a fraction of `PHASE_ONE`) in Q24: the quarter-wave
/// series, mirrored into the other three quarters, rounded to Q24 and kept
/// within `[-UNIT, UNIT]`.
pub open spec fn sine_q(phase: int) -> int {
    let q = QUARTER as int;
    let quadrant = phase / q;
    let r = phase % q;
    let x = if quadrant % 2 == 0 { r } else { q - r };
    let s = quarter_sine_q30(x);
    let v = if s < 0 {
        0
    } else if (s + 32) / 64 > UNIT {
        UNIT as int
    } else {
        (s + 32) / 64
    };
    if quadrant < 2 { v } else { -v }
}

/// PolyBLEP correction at normalised distance `t` from a discontinuity, for
/// a phase increment `dt`: `2t'−t'²−1` just after it (`t' = t/dt`),
/// `t'²+2t'+1` just before it (`t' = (t−1)/dt`), else zero. Both polynomials
/// are written as squares so that every quantity stays non-negative.
pub open spec fn blep_q(t: int, dt: int) -> int {
    let u = UNIT as int;
    if dt <= 0 {
        0
    } else if t < dt {
        let x = u - t * u / dt;
        -(x * x / u)
    } else if t + dt > PHASE_ONE {
        let x = u - (PHASE_ONE - t) * u / dt;
        x * x / u
    } else {
        0
    }
}

/// Band-limited square: `±1 + BLEP(phase) − BLEP((phase + ½) mod 1)`.
pub open spec fn square_q(phase: int, dt: int) -> int {
    let naive = if phase < HALF_CYCLE { UNIT as int } else { -UNIT };
    naive + blep_q(phase, dt) - blep_q((phase + HALF_CYCLE) % (PHASE_ONE as int), dt)
}

/// Band-limited sawtooth: `(2·phase − 1) − BLEP(phase)`.
pub open spec fn saw_q(phase: int, dt: int) -> int {
    phase * UNIT / (HALF_CYCLE as int) - UNIT - blep_q(phase, dt)
}

/// Triangle: the integral of the square wave, rising from 0 to 1 over the
/// first quarter, falling to −1 over the middle half and rising back to 0.
pub open spec fn triangle_q(phase: int) -> int {
    let q = phase * 4 * UNIT / (PHASE_ONE as int);
    if q < UNIT {
        q
    } else if q < 3 * UNIT {
        2 * UNIT - q
    } else {
        q - 4 * UNIT
    }
}

/// The raw (unscaled) value of a shape at `phase` for increment `dt`.
pub open spec fn wave_q(kind: WaveType, phase: int, dt: int) -> int {
    match kind {
        WaveType::Sine => sine_q(phase),
        WaveType::Square => square_q(phase, dt),
        WaveType::Triangle => triangle_q(phase),
        WaveType::Sawtooth => saw_q(phase, dt),
    }
}

fn q30_product(a: u128, b: u128) -> (r: u128)
    requires
        a <= 2 * QUARTER,
        b <= QUARTER,
    ensures
        r == q30_mul(a as int, b as int),
        r <= a,
{
    proof {
        assert(a * b <= a * QUARTER) by (nonlinear_arith)
            requires b <= QUARTER;
        assert(a * b / (QUARTER as int) <= a) by (nonlinear_arith)
            requires a * b <= a * QUARTER, a >= 0;
    }
    a * b / (QUARTER as u128)
}

/// Sine of `phase` in Q24; see `sine_q`.
pub fn sine_value(phase: u64) -> (r: i64)
    requires
        phase < PHASE_ONE,
    ensures
        r == sine_q(phase as int),
        -UNIT <= r <= UNIT,
        phase < HALF_CYCLE ==> r >= 0,
        phase >= HALF_CYCLE ==> r <= 0,
{
    let quadrant = phase / QUARTER;
    let r = phase % QUARTER;
    let x: u128 = if quadrant % 2 == 0 { r as u128 } else { (QUARTER - r) as u128 };
    let t2 = q30_product(x, x);
    let p3 = q30_product(x, t2);
    let p5 = q30_product(p3, t2);
    let p7 = q30_product(p5, t2);
    let p9 = q30_product(p7, t2);
    let p11 = q30_product(p9, t2);
    let s: i128 = q30_product(1686629713, x) as i128 - q30_product(693598668, p3) as i128
        + q30_product(85569306, p5) as i128 - q30_product(5026995, p7) as i128
        + q30_product(172272, p9) as i128 - q30_product(3864, p11) as i128;
    let v: i64 = if s < 0 {
        0
    } else if (s + 32) / 64 > UNIT as i128 {
        UNIT
    } else {
        ((s + 32) / 64) as i64
    };
    if quadrant < 2 {
        v
    } else {
        -v
    }
}

/// The sine stays within `[-UNIT, UNIT]`.
pub proof fn lemma_sine_bounds(phase: int)
    requires
        0 <= phase < PHASE_ONE,
    ensures
        -UNIT <= sine_q(phase) <= UNIT,
{
}

/// PolyBLEP correction in Q24; see `blep_q`.
pub fn poly_blep(t: u64, dt: u64) -> (r: i64)
    requires
        t < PHASE_ONE,
        dt < PHASE_ONE,
    ensures
        r == blep_q(t as int, dt as int),
        -UNIT <= r <= UNIT,
        dt > 0 && t < dt ==> r <= 0,
        dt > 0 && t >= dt && t + dt > PHASE_ONE ==> r >= 0,
        dt == 0 || (t >= dt && t + dt <= PHASE_ONE) ==> r == 0,
{
    let u: u64 = UNIT as u64;
    if dt == 0 {
        0
    } else if t < dt {
        proof {
            assert(t * u / (dt as int) <= u) by (nonlinear_arith)
                requires t < dt, dt > 0, u > 0;
        }
        let x = u - t * u / dt;
        proof {
            assert(x * x <= u * u) by (nonlinear_arith)
                requires x <= u;
            assert(x * x / (u as int) <= u) by (nonlinear_arith)
                requires x * x <= u * u, u > 0;
        }
        -((x * x / u) as i64)
    } else if t + dt > PHASE_ONE {
        proof {
            assert((PHASE_ONE - t) * u / (dt as int) <= u) by (nonlinear_arith)
                requires PHASE_ONE - t < dt, dt > 0, u > 0;
        }
        let x = u - (PHASE_ONE - t) * u / dt;
        proof {
            assert(x * x <= u * u) by (nonlinear_arith)
                requires x <= u;
            assert(x * x / (u as int) <= u) by (nonlinear_arith)
                requires x * x <= u * u, u > 0;
        }
        (x * x / u) as i64
    } else {
        0
    }
}

/// Band-limited square in Q24; see `square_q`.
pub fn square_value(phase: u64, dt: u64) -> (r: i64)
    requires
        phase < PHASE_ONE,
        dt < PHASE_ONE,
    ensures
        r == square_q(phase as int, dt as int),
        -3 * UNIT <= r <= 3 * UNIT,
{
    let naive: i64 = if phase < HALF_CYCLE { UNIT } else { -UNIT };
    let shifted = (phase + HALF_CYCLE) % PHASE_ONE;
    naive + poly_blep(phase, dt) - poly_blep(shifted, dt)
}

/// Band-limited sawtooth in Q24; see `saw_q`.
pub fn saw_value(phase: u64, dt: u64) -> (r: i64)
    requires
        phase < PHASE_ONE,
        dt < PHASE_ONE,
    ensures
        r == saw_q(phase as int, dt as int),
        -2 * UNIT <= r <= 2 * UNIT,
        dt < HALF_CYCLE ==> -UNIT <= r <= UNIT,
{
    let u: u64 = UNIT as u64;
    proof {
        assert(phase * u / (HALF_CYCLE as int) <= 2 * u) by (nonlinear_arith)
            requires phase < 2 * HALF_CYCLE, u > 0;
        if phase < HALF_CYCLE {
            assert(phase * u / (HALF_CYCLE as int) <= u) by (nonlinear_arith)
                requires phase < HALF_CYCLE, u > 0;
        } else {
            assert(phase * u / (HALF_CYCLE as int) >= u) by (nonlinear_arith)
                requires phase >= HALF_CYCLE, u > 0;
        }
    }
    let ramp = (phase * u / HALF_CYCLE) as i64;
    ramp - UNIT - poly_blep(phase, dt)
}

/// Triangle in Q24; see `triangle_q`.
pub fn triangle_value(phase: u64) -> (r: i64)
    requires
        phase < PHASE_ONE,
    ensures
        r == triangle_q(phase as int),
        -UNIT <= r <= UNIT,
{
    let u: u64 = UNIT as u64;
    proof {
        assert(phase * 4 * u / (PHASE_ONE as int) < 4 * u) by (nonlinear_arith)
            requires phase < PHASE_ONE, u > 0;
    }
    let q = (phase * 4 * u / PHASE_ONE) as i64;
    if q < UNIT {
        q
    } else if q < 3 * UNIT {
        2 * UNIT - q
    } else {
        q - 4 * UNIT
    }
}

/// Raw value of `kind` at `phase`; see `wave_q`.
pub fn wave_value(kind: WaveType, phase: u64, dt: u64) -> (r: i64)
    requires
        phase < PHASE_ONE,
        dt < PHASE_ONE,
    ensures
        r == wave_q(kind, phase as int, dt as int),
        -3 * UNIT <= r <= 3 * UNIT,
{
    match kind {
        WaveType::Sine => sine_value(phase),
        WaveType::Square => square_value(phase, dt),
        WaveType::Triangle => triangle_value(phase),
        WaveType::Sawtooth => saw_value(phase, dt),
    }
}

/// Phase advance per sample for `freq` (millihertz) at `sample_rate` (hertz),
/// reduced to less than one cycle; zero when the sample rate is zero.
pub open spec fn phase_inc_q(freq: int, sample_rate: int) -> int {
    if sample_rate <= 0 {
        0
    } else {
        (freq * PHASE_ONE / (sample_rate * 1000)) % (PHASE_ONE as int)
    }
}

/// Phase advance per sample; see `phase_inc_q`.
pub fn phase_increment(freq: u64, sample_rate: u32) -> (r: u64)
    requires
        freq <= 0x200_0000_0000,
    ensures
        r == phase_inc_q(freq as int, sample_rate as int),
        r < PHASE_ONE,
{
    if sample_rate == 0 {
        0
    } else {
        proof {
            assert(freq * PHASE_ONE <= 0x200_0000_0000 * 0x1_0000_0000) by (nonlinear_arith)
                requires freq <= 0x200_0000_0000;
        }
        ((freq as u128) * (PHASE_ONE as u128) / ((sample_rate as u128) * 1000) % (PHASE_ONE as u128)) as u64
    }
}

/// The phase after one advance, wrapped by subtracting a cycle.
pub open spec fn wrap_q(phase: int, inc: int) -> int {
    if phase + inc >= PHASE_ONE { phase + inc - PHASE_ONE } else { phase + inc }
}

/// Gain applied above a quarter of the sample rate: falls linearly from 1 at
/// `sample_rate/4` to 0 at `sample_rate/2` and beyond.
pub open spec fn fade_gain_q(freq: int, sample_rate: int) -> int {
    let quarter = 250 * sample_rate;
    if freq <= quarter {
        UNIT as int
    } else if quarter == 0 {
        0
    } else {
        let drop = (freq - quarter) * UNIT / quarter;
        if drop >= UNIT { 0 } else { UNIT - drop }
    }
}

/// Cutoff the anti-alias filter aims at for `freq`: 1.5·freq above an eighth
/// of the sample rate, 2.5·freq below.
pub open spec fn aim_cutoff_q(freq: int, sample_rate: int) -> int {
    if freq > 125 * sample_rate { freq * 3 / 2 } else { freq * 5 / 2 }
}

/// One call of `get_sample` on `o` that returned `r` and left `n`, for
/// `base_frequency` (millihertz) at `sample_rate` (hertz).
pub open spec fn sample_step(
    o: Oscillator,
    n: Oscillator,
    r: int,
    base_frequency: int,
    sample_rate: int,
) -> bool {
    let freq = o.frequency_for(base_frequency);
    let sr = sample_rate;
    let inc = phase_inc_q(freq, sr);
    let raw = wave_q(o.wave_type, o.phase as int, inc);
    let aim = aim_cutoff_q(freq, sr);
    let drift = if aim >= o.prev_cutoff {
        aim - o.prev_cutoff
    } else {
        o.prev_cutoff - aim
    };
    &&& n.phase == wrap_q(o.phase as int, inc)
    &&& n.wave_type == o.wave_type
    &&& n.detune == o.detune
    &&& n.volume == o.volume
    &&& drift > 1000 ==> n.prev_cutoff == aim
        && n.filter.cutoff == (if aim < 450 * sr { aim } else { 450 * sr })
        && n.filter.sample_rate as int == sample_rate
    &&& drift <= 1000 ==> n.prev_cutoff == o.prev_cutoff
        && n.filter.cutoff == o.filter.cutoff
        && n.filter.sample_rate == o.filter.sample_rate
    &&& freq <= 250 * sr ==> r == mul_q(raw, o.volume as int)
        && n.filter.prev_output == o.filter.prev_output
    &&& freq > 250 * sr ==> n.filter.prev_output == lowpass_step(
        n.filter.alpha as int,
        o.filter.prev_output as int,
        raw,
    ) && r == mul_q(
        mul_q(n.filter.prev_output as int, fade_gain_q(freq, sr)),
        o.volume as int,
    )
    &&& sr > 0 && freq >= 500 * sr ==> r == 0
}

#[derive(Clone, Copy)]
pub struct Oscillator {
    pub wave_type: WaveType,
    /// Phase as a fraction of `PHASE_ONE`.
    pub phase: u64,
    /// Detune in semitones.
    pub detune: i32,
    /// Output volume in `[0, UNIT]`.
    pub volume: i64,
    /// Anti-alias smoothing for frequencies above a quarter of the sample rate.
    pub filter: LowPassFilter,
    /// Cutoff (millihertz) the filter was last tuned for.
    pub prev_cutoff: u64,
}

impl Oscillator {
    pub open spec fn wf(&self) -> bool {
        &&& self.phase < PHASE_ONE
        &&& -MAX_SEMITONES <= self.detune <= MAX_SEMITONES
        &&& 0 <= self.volume <= UNIT
        &&& self.filter.wf()
        &&& -3 * UNIT <= self.filter.prev_output <= 3 * UNIT
    }

    /// Effective frequency: the base frequency shifted by the detune.
    /// The state `new(wave_type, sample_rate)` returns.
    pub open spec fn is_fresh(&self, wave_type: WaveType, sample_rate: u32) -> bool {
        &&& self.wf()
        &&& self.wave_type == wave_type
        &&& self.phase == 0
        &&& self.detune == 0
        &&& self.volume == UNIT
        &&& self.prev_cutoff == 20_000_000
        &&& self.filter.cutoff == 20_000_000
        &&& self.filter.sample_rate == sample_rate
        &&& self.filter.prev_output == 0
    }

    pub open spec fn frequency_for(&self, base_frequency: int) -> int {
        transposed(base_frequency, self.detune as int)
    }

    /// An oscillator of the given shape at phase zero, full volume, no
    /// detune, its smoothing filter open at 20 kHz.
    pub fn new(wave_type: WaveType, sample_rate: u32) -> (o: Self)
        ensures
            o.wf(),
            o.wave_type == wave_type,
            o.phase == 0,
            o.detune == 0,
            o.volume == UNIT,
            o.prev_cutoff == 20_000_000,
            o.filter.cutoff == 20_000_000,
            o.filter.sample_rate == sample_rate,
            o.filter.prev_output == 0,
    {
        Oscillator {
            wave_type,
            phase: 0,
            detune: 0,
            volume: UNIT,
            filter: LowPassFilter::new(20_000_000, sample_rate),
            prev_cutoff: 20_000_000,
        }
    }

    /// Produces one sample for `base_frequency` (millihertz) at `sample_rate`
    /// (hertz) and advances the phase by one sample period.
    pub fn get_sample(&mut self, base_frequency: u32, sample_rate: u32) -> (r: i64)
        requires
            old(self).wf(),
        ensures
            final(self).wf(),
            sample_step(*old(self), *final(self), r as int, base_frequency as int, sample_rate as int),
            -3 * UNIT <= r <= 3 * UNIT,
    {
        let freq = transpose(base_frequency, self.detune);
        let sr = sample_rate as u64;
        let inc = phase_increment(freq, sample_rate);
        let aim: u64 = if freq > 125 * sr { freq * 3 / 2 } else { freq * 5 / 2 };
        let drift = if aim >= self.prev_cutoff { aim - self.prev_cutoff } else { self.prev_cutoff - aim };
        if drift > 1000 {
            let limit = 450 * sr;
            self.filter.set_cutoff(if aim < limit { aim } else { limit }, sample_rate);
            self.prev_cutoff = aim;
        }
        let raw = wave_value(self.wave_type, self.phase, inc);
        let next = self.phase + inc;
        self.phase = if next >= PHASE_ONE { next - PHASE_ONE } else { next };
        let quarter = 250 * sr;
        if freq <= quarter {
            proof {
                lemma_mul_q_shrinks(raw as int, self.volume as int);
            }
            mul_unit(raw, self.volume)
        } else {
            let filtered = self.filter.process(raw);
            let gain: i64 = if quarter == 0 {
                0
            } else {
                proof {
                    assert((freq - quarter) * UNIT <= 0x200_0000_0000 * UNIT) by (nonlinear_arith)
                        requires freq - quarter <= 0x200_0000_0000;
                }
                let drop = ((freq - quarter) as u128) * (UNIT as u128) / (quarter as u128);
                if drop >= UNIT as u128 { 0 } else { UNIT - drop as i64 }
            };
            proof {
                lemma_mul_q_shrinks(filtered as int, gain as int);
                lemma_mul_q_shrinks(mul_q(filtered as int, gain as int), self.volume as int);
                if freq >= 500 * sr && quarter > 0 {
                    let (d, q, u) = ((freq - quarter) as int, quarter as int, UNIT as int);
                    assert(d * u / q >= u) by (nonlinear_arith)
                        requires d >= q, q > 0, u > 0;
                }
            }
            mul_unit(mul_unit(filtered, gain), self.volume)
        }
    }
}

} // verus!
