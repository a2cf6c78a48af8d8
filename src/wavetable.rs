//! The wavetable oscillator: linear interpolation in a shared table holding
//! one sine cycle.

use vstd::prelude::*;

use std::sync::Arc;

use crate::PHASE_ONE;
use vstd::arithmetic::div_mod::{
    lemma_fundamental_div_mod, lemma_fundamental_div_mod_converse, lemma_mod_pos_bound,
    lemma_add_mod_noop, lemma_small_mod,
};
use crate::oscillator::{sine_q, sine_value, phase_inc_q, phase_increment, wrap_q};

verus! {

/// Entries in the table; a power of two.
pub const WAVETABLE_SIZE: usize = 4096;

/// Phase units per table entry (`PHASE_ONE / WAVETABLE_SIZE`).
pub const ENTRY_SPAN: u64 = 1048576;

/// Largest difference allowed between neighbouring entries:
/// `⌈2π·UNIT / WAVETABLE_SIZE⌉`, the most the sine itself moves per entry.
pub const MAX_ENTRY_STEP: i64 = 25736;

/// Neighbouring entries, the last and the first included, differ by at most
/// `MAX_ENTRY_STEP`.
pub open spec fn entries_smooth(values: Seq<i64>) -> bool {
    forall|i: int|
        0 <= i < WAVETABLE_SIZE ==> -MAX_ENTRY_STEP <= #[trigger] values[(i + 1) % (
        WAVETABLE_SIZE as int)] - values[i] <= MAX_ENTRY_STEP
}

/// The table's intended contents: `sine_q` at each entry's phase.
pub open spec fn sine_entries() -> Seq<i64> {
    Seq::new(WAVETABLE_SIZE as nat, |i: int| sine_q(i * ENTRY_SPAN) as i64)
}

/// One cycle of the sine, sampled at `WAVETABLE_SIZE` evenly spaced phases.
pub struct SineTable {
    pub values: Vec<i64>,
}

impl SineTable {
    pub open spec fn wf(&self) -> bool {
        &&& self.values@.len() == WAVETABLE_SIZE
        &&& forall|i: int|
            0 <= i < WAVETABLE_SIZE ==> #[trigger] self.values@[i] == sine_q(i * ENTRY_SPAN)
        &&& entries_smooth(self.values@)
    }

    /// Builds the table and checks that it is smooth; `None` when some pair
    /// of neighbouring entries differs by more than `MAX_ENTRY_STEP`. Build
    /// it once and share it.
    pub fn new() -> (t: Option<Self>)
        ensures
            t is Some ==> t->Some_0.wf(),
            t is None ==> !entries_smooth(sine_entries()),
    {
        let mut values: Vec<i64> = Vec::new();
        let mut i: usize = 0;
        while i < WAVETABLE_SIZE
            invariant
                i <= WAVETABLE_SIZE,
                values@.len() == i,
                forall|j: int| 0 <= j < i ==> #[trigger] values@[j] == sine_q(j * ENTRY_SPAN),
                forall|j: int| 0 <= j < i ==> -0x100_0000 <= #[trigger] values@[j] <= 0x100_0000,
            decreases WAVETABLE_SIZE - i,
        {
            values.push(sine_value(i as u64 * ENTRY_SPAN));
            i = i + 1;
        }
        let ghost full = sine_entries();
        proof {
            assert(values@ =~= full);
        }
        let mut k: usize = 0;
        while k < WAVETABLE_SIZE
            invariant
                k <= WAVETABLE_SIZE,
                values@ == full,
                full == sine_entries(),
                values@.len() == WAVETABLE_SIZE,
                forall|j: int| 0 <= j < WAVETABLE_SIZE ==> -0x100_0000 <= #[trigger] values@[j] <= 0x100_0000,
                forall|j: int|
                    0 <= j < k ==> -MAX_ENTRY_STEP <= #[trigger] values@[(j + 1) % (
                    WAVETABLE_SIZE as int)] - values@[j] <= MAX_ENTRY_STEP,
            decreases WAVETABLE_SIZE - k,
        {
            let d = values[(k + 1) % WAVETABLE_SIZE] - values[k];
            if d > MAX_ENTRY_STEP || d < -MAX_ENTRY_STEP {
                proof {
                    let ki = k as int;
                    assert(full[(ki + 1) % (WAVETABLE_SIZE as int)] - full[ki] == d);
                    assert(!(-MAX_ENTRY_STEP <= full[(ki + 1) % (WAVETABLE_SIZE as int)] - full[ki]
                        <= MAX_ENTRY_STEP));
                    assert(!entries_smooth(full)) by {
                        if entries_smooth(full) {
                            assert(0 <= ki < WAVETABLE_SIZE);
                            assert(-MAX_ENTRY_STEP <= full[(ki + 1) % (WAVETABLE_SIZE as int)]
                                - full[ki] <= MAX_ENTRY_STEP);
                        }
                    }
                }
                return None;
            }
            k = k + 1;
        }
        Some(SineTable { values })
    }
}

/// Linear interpolation from `y1` toward `y2` by `frac / ENTRY_SPAN`,
/// truncated toward `y1`.
pub open spec fn lerp_q(y1: int, y2: int, frac: int) -> int {
    if y2 >= y1 {
        y1 + frac * (y2 - y1) / (ENTRY_SPAN as int)
    } else {
        y1 - frac * (y1 - y2) / (ENTRY_SPAN as int)
    }
}

/// The interpolated value of `tab` at `phase`; see `lerp_q`.
pub open spec fn table_read(tab: Seq<i64>, phase: int) -> int {
    let idx = phase / (ENTRY_SPAN as int);
    let frac = phase % (ENTRY_SPAN as int);
    lerp_q(tab[idx] as int, tab[(idx + 1) % (WAVETABLE_SIZE as int)] as int, frac)
}

/// The same interpolation without rounding, scaled by `ENTRY_SPAN`.
pub open spec fn scaled_read(tab: Seq<i64>, phase: int) -> int {
    let idx = phase / (ENTRY_SPAN as int);
    let frac = phase % (ENTRY_SPAN as int);
    tab[idx] * ENTRY_SPAN + frac * (tab[(idx + 1) % (WAVETABLE_SIZE as int)] - tab[idx])
}

pub struct WavetableOscillator {
    pub wavetable: Arc<SineTable>,
    /// Phase as a fraction of `PHASE_ONE`: the table index in the high bits,
    /// the interpolation fraction in the low ones.
    pub phase: u64,
    pub phase_increment: u64,
}

impl WavetableOscillator {
    pub open spec fn wf(&self) -> bool {
        &&& self.wavetable.wf()
        &&& self.phase < PHASE_ONE
        &&& self.phase_increment < PHASE_ONE
    }

    /// The value read at the current phase.
    pub open spec fn current_value(&self) -> int {
        table_read(self.wavetable.values@, self.phase as int)
    }

    /// The oscillator after one sample.
    pub open spec fn advanced(self) -> WavetableOscillator {
        WavetableOscillator {
            phase: wrap_q(self.phase as int, self.phase_increment as int) as u64,
            ..self
        }
    }

    /// The oscillator retuned to `frequency` at `sample_rate`.
    pub open spec fn retuned(self, frequency: int, sample_rate: int) -> WavetableOscillator {
        WavetableOscillator {
            phase_increment: phase_inc_q(frequency, sample_rate) as u64,
            ..self
        }
    }

    /// An oscillator reading `wavetable` at `frequency` (millihertz) and
    /// `sample_rate` (hertz), from phase zero.
    pub fn new(wavetable: Arc<SineTable>, sample_rate: u32, frequency: u32) -> (o: Self)
        requires
            wavetable.wf(),
        ensures
            o.wf(),
            o.wavetable == wavetable,
            o.phase == 0,
            o.phase_increment == phase_inc_q(frequency as int, sample_rate as int),
    {
        let phase_increment = phase_increment(frequency as u64, sample_rate);
        WavetableOscillator { wavetable, phase: 0, phase_increment }
    }

    /// Changes the increment only: the phase carries on where it was.
    pub fn set_frequency(&mut self, frequency: u32, sample_rate: u32)
        requires
            old(self).wf(),
        ensures
            final(self).wf(),
            *final(self) == old(self).retuned(frequency as int, sample_rate as int),
    {
        self.phase_increment = phase_increment(frequency as u64, sample_rate);
    }

    /// Reads the interpolated value at the current phase, then advances.
    pub fn get_sample(&mut self) -> (r: i64)
        requires
            old(self).wf(),
        ensures
            final(self).wf(),
            r == old(self).current_value(),
            *final(self) == old(self).advanced(),
    {
        let idx = (self.phase / ENTRY_SPAN) as usize;
        let frac = self.phase % ENTRY_SPAN;
        proof {
            assert(idx < WAVETABLE_SIZE) by (nonlinear_arith)
                requires idx == self.phase / ENTRY_SPAN, self.phase < PHASE_ONE;
        }
        let y1 = self.wavetable.values[idx];
        let y2 = self.wavetable.values[(idx + 1) % WAVETABLE_SIZE];
        proof {
            let (a, b) = (y1 as int, y2 as int);
            let i2 = (idx as int + 1) % (WAVETABLE_SIZE as int);
            assert(idx as int * ENTRY_SPAN < PHASE_ONE && i2 * ENTRY_SPAN < PHASE_ONE) by (nonlinear_arith)
                requires 0 <= idx < WAVETABLE_SIZE, 0 <= i2 < WAVETABLE_SIZE;
            crate::oscillator::lemma_sine_bounds(idx as int * ENTRY_SPAN);
            crate::oscillator::lemma_sine_bounds(i2 * ENTRY_SPAN);
            assert(-0x100_0000 <= a <= 0x100_0000 && -0x100_0000 <= b <= 0x100_0000);
            if b >= a {
                assert(frac * (b - a) / (ENTRY_SPAN as int) <= b - a) by (nonlinear_arith)
                    requires 0 <= frac < ENTRY_SPAN, b >= a;
                assert(frac * (b - a) / (ENTRY_SPAN as int) >= 0) by (nonlinear_arith)
                    requires 0 <= frac, b >= a;
            } else {
                assert(frac * (a - b) / (ENTRY_SPAN as int) <= a - b) by (nonlinear_arith)
                    requires 0 <= frac < ENTRY_SPAN, a > b;
                assert(frac * (a - b) / (ENTRY_SPAN as int) >= 0) by (nonlinear_arith)
                    requires 0 <= frac, a > b;
            }
        }
        let f = frac as i64;
        let out = if y2 >= y1 {
            y1 + f * (y2 - y1) / (ENTRY_SPAN as i64)
        } else {
            y1 - f * (y1 - y2) / (ENTRY_SPAN as i64)
        };
        let next = self.phase + self.phase_increment;
        self.phase = if next >= PHASE_ONE { next - PHASE_ONE } else { next };
        out
    }
}

/// A frequency change is continuous: after a sample and a retune, the next
/// sample reads at exactly one old increment past the phase read before, so
/// the phase never jumps, whatever the new frequency.
pub proof fn lemma_retune_keeps_phase(o: WavetableOscillator, frequency: int, sample_rate: int)
    requires
        o.wf(),
    ensures
        o.advanced().retuned(frequency, sample_rate).phase == wrap_q(
            o.phase as int,
            o.phase_increment as int,
        ),
        o.advanced().retuned(frequency, sample_rate).wavetable == o.wavetable,
{
}

/// Moving the phase by one unit moves the exact interpolation by at most
/// `MAX_ENTRY_STEP` (scaled by `ENTRY_SPAN`), across entries and across the
/// end of the cycle alike.
pub proof fn lemma_scaled_step(tab: Seq<i64>, p: int)
    requires
        tab.len() == WAVETABLE_SIZE,
        entries_smooth(tab),
        0 <= p < PHASE_ONE,
    ensures
        -MAX_ENTRY_STEP <= scaled_read(tab, (p + 1) % (PHASE_ONE as int)) - scaled_read(tab, p)
            <= MAX_ENTRY_STEP,
{
    let sp = ENTRY_SPAN as int;
    let n = WAVETABLE_SIZE as int;
    let one = PHASE_ONE as int;
    lemma_fundamental_div_mod(p, sp);
    lemma_mod_pos_bound(p, sp);
    let j = p / sp;
    let fr = p % sp;
    assert(0 <= j < n) by (nonlinear_arith)
        requires p == sp * j + fr, 0 <= fr < sp, 0 <= p < one, one == sp * n, sp > 0;
    let y0 = tab[j] as int;
    let y1 = tab[(j + 1) % n] as int;
    assert(-MAX_ENTRY_STEP <= tab[(j + 1) % n] - tab[j] <= MAX_ENTRY_STEP);
    let q = p + 1;
    assert(sp * j + sp <= one) by (nonlinear_arith)
        requires j < n, one == sp * n, sp > 0;
    if fr + 1 < sp {
        lemma_fundamental_div_mod_converse(q, sp, j, fr + 1);
        assert(q < one);
        lemma_small_mod(q as nat, one as nat);
        assert(scaled_read(tab, q) - scaled_read(tab, p) == y1 - y0) by (nonlinear_arith)
            requires scaled_read(tab, q) == y0 * sp + (fr + 1) * (y1 - y0),
                scaled_read(tab, p) == y0 * sp + fr * (y1 - y0);
    } else if j + 1 < n {
        lemma_fundamental_div_mod_converse(q, sp, j + 1, 0);
        assert(sp * (j + 1) == sp * j + sp) by (nonlinear_arith);
        assert(sp * (j + 1) + sp <= one) by (nonlinear_arith)
            requires j + 1 < n, one == sp * n, sp > 0;
        assert(q < one);
        lemma_small_mod(q as nat, one as nat);
        lemma_small_mod((j + 1) as nat, n as nat);
        assert(scaled_read(tab, q) == tab[j + 1] * sp);
        assert(y1 == tab[j + 1]);
        assert(scaled_read(tab, q) - scaled_read(tab, p) == y1 - y0) by (nonlinear_arith)
            requires scaled_read(tab, q) == y1 * sp, scaled_read(tab, p) == y0 * sp + fr * (y1 - y0),
                fr == sp - 1;
    } else {
        assert(j == n - 1);
        assert(q == one);
        assert(q % one == 0);
        assert(0int / sp == 0 && 0int % sp == 0);
        assert(scaled_read(tab, 0) == tab[0] * sp);
        assert((j + 1) % n == 0);
        assert(scaled_read(tab, 0) - scaled_read(tab, p) == y1 - y0) by (nonlinear_arith)
            requires scaled_read(tab, 0) == y1 * sp, scaled_read(tab, p) == y0 * sp + fr * (y1 - y0),
                fr == sp - 1;
    }
}

/// Moving the phase by `d` units (wrapping at the end of the cycle) moves
/// the exact interpolation by at most `MAX_ENTRY_STEP · d`.
pub proof fn lemma_scaled_lipschitz(tab: Seq<i64>, p: int, d: nat)
    requires
        tab.len() == WAVETABLE_SIZE,
        entries_smooth(tab),
        0 <= p < PHASE_ONE,
    ensures
        -MAX_ENTRY_STEP * d <= scaled_read(tab, (p + d) % (PHASE_ONE as int)) - scaled_read(tab, p)
            <= MAX_ENTRY_STEP * d,
    decreases d,
{
    let one = PHASE_ONE as int;
    if d == 0 {
        lemma_small_mod(p as nat, one as nat);
    } else {
        lemma_scaled_lipschitz(tab, p, (d - 1) as nat);
        let x = p + d - 1;
        lemma_mod_pos_bound(x, one);
        let q = x % one;
        lemma_scaled_step(tab, q);
        lemma_add_mod_noop(x, 1, one);
        lemma_small_mod(1, one as nat);
        assert((q + 1) % one == (p + d) % one);
    }
}

/// The rounded read lies within one `ENTRY_SPAN` of the exact one.
pub proof fn lemma_read_close(tab: Seq<i64>, p: int)
    requires
        tab.len() == WAVETABLE_SIZE,
        0 <= p < PHASE_ONE,
    ensures
        scaled_read(tab, p) - ENTRY_SPAN < ENTRY_SPAN * table_read(tab, p) < scaled_read(tab, p)
            + ENTRY_SPAN,
{
    let sp = ENTRY_SPAN as int;
    let n = WAVETABLE_SIZE as int;
    lemma_fundamental_div_mod(p, sp);
    lemma_mod_pos_bound(p, sp);
    let j = p / sp;
    let fr = p % sp;
    let y0 = tab[j] as int;
    let y1 = tab[(j + 1) % n] as int;
    if y1 >= y0 {
        let x = fr * (y1 - y0);
        assert(x >= 0) by (nonlinear_arith)
            requires fr >= 0, y1 >= y0, x == fr * (y1 - y0);
        lemma_fundamental_div_mod(x, sp);
        lemma_mod_pos_bound(x, sp);
        assert(sp * table_read(tab, p) == sp * y0 + sp * (x / sp)) by (nonlinear_arith)
            requires table_read(tab, p) == y0 + x / sp;
    } else {
        let x = fr * (y0 - y1);
        assert(x >= 0) by (nonlinear_arith)
            requires fr >= 0, y0 > y1, x == fr * (y0 - y1);
        assert(fr * (y1 - y0) == -x) by (nonlinear_arith)
            requires x == fr * (y0 - y1);
        lemma_fundamental_div_mod(x, sp);
        lemma_mod_pos_bound(x, sp);
        assert(sp * table_read(tab, p) == sp * y0 - sp * (x / sp)) by (nonlinear_arith)
            requires table_read(tab, p) == y0 - x / sp;
    }
}

/// Retuning between two samples leaves no jump beyond one interpolation step:
/// the sample read after `set_frequency` differs from the one read before by
/// at most `MAX_ENTRY_STEP` per table entry the old increment spans (that is,
/// `2π·UNIT/WAVETABLE_SIZE` per entry, rounded up), plus two units of rounding.
pub proof fn lemma_retune_continuity(o: WavetableOscillator, frequency: int, sample_rate: int)
    requires
        o.wf(),
    ensures
        ({
            let y1 = o.current_value();
            let y2 = o.advanced().retuned(frequency, sample_rate).current_value();
            &&& ENTRY_SPAN * (y2 - y1) <= MAX_ENTRY_STEP * o.phase_increment + 2 * ENTRY_SPAN
            &&& ENTRY_SPAN * (y1 - y2) <= MAX_ENTRY_STEP * o.phase_increment + 2 * ENTRY_SPAN
        }),
{
    let tab = o.wavetable.values@;
    let p = o.phase as int;
    let inc = o.phase_increment as int;
    let one = PHASE_ONE as int;
    let p1 = wrap_q(p, inc);
    if p + inc >= one {
        lemma_fundamental_div_mod_converse(p + inc, one, 1, p + inc - one);
    } else {
        lemma_fundamental_div_mod_converse(p + inc, one, 0, p + inc);
    }
    assert(p1 == (p + inc) % one);
    assert(o.advanced().retuned(frequency, sample_rate).phase == p1);
    lemma_scaled_lipschitz(tab, p, inc as nat);
    lemma_read_close(tab, p);
    lemma_read_close(tab, p1);
}

} // verus!
