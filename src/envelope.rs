//! The ADSR envelope generator: a per-voice state machine that produces an
//! amplitude scalar one sample at a time.
//!
//! Each stage moves the level across its span in exactly as many samples as
//! its time constant asks for: the per-sample step is `span / n` in whole Q24
//! units, and the remainder `span % n` accumulates in `stage_frac` and adds
//! one unit whenever it reaches `n`.

use vstd::prelude::*;
use vstd::arithmetic::div_mod::{lemma_fundamental_div_mod, lemma_mod_pos_bound};

use crate::UNIT;

verus! {

/// The phase an envelope is in. `Idle` is both initial and terminal.
#[derive(Clone, Copy, Debug, PartialEq, Eq, Structural)]
pub enum EnvelopeState {
    Idle,
    Attack,
    Decay,
    Sustain,
    Release,
}

/// Number of samples a stage of `time_ms` milliseconds lasts at `sample_rate`,
/// never less than one (a zero time constant means "one sample").
pub open spec fn stage_samples(time_ms: u32, sample_rate: u32) -> int {
    let n = (time_ms as int * sample_rate as int) / 1000;
    if n < 1 { 1 } else { n }
}

/// The span the release covers: the sustain level, or the full range when the
/// sustain level is zero (so that a release from Attack or Decay still ends).
pub open spec fn release_span(sustain: int) -> int {
    if sustain > 0 { sustain } else { UNIT as int }
}

/// One unit more this sample when the remainder accumulator reaches `n`.
pub open spec fn dda_carry(frac: int, rem: int, n: int) -> int {
    if frac + rem >= n { 1 } else { 0 }
}

/// The remainder accumulator after this sample.
pub open spec fn dda_frac(frac: int, rem: int, n: int) -> int {
    if frac + rem >= n { frac + rem - n } else { frac + rem }
}

/// Clamps a fixed-point amplitude into `[0, UNIT]`.
pub open spec fn clamp_unit(x: i64) -> i64 {
    if x < 0 { 0 } else if x > UNIT { UNIT } else { x }
}

#[derive(Clone, Copy)]
pub struct Envelope {
    pub sample_rate: u32,
    pub state: EnvelopeState,
    /// Current level, within `[0, UNIT]`.
    pub current_level: i64,
    /// Attack time in milliseconds.
    pub attack_time: u32,
    /// Decay time in milliseconds.
    pub decay_time: u32,
    /// Sustain level, within `[0, UNIT]`.
    pub sustain_level: i64,
    /// Release time in milliseconds.
    pub release_time: u32,
    /// Velocity, within `[0, UNIT]`.
    pub velocity: i64,
    /// Samples each stage lasts.
    pub attack_samples: i64,
    pub decay_samples: i64,
    pub release_samples: i64,
    /// Whole Q24 units per sample of each stage, and the remainder that the
    /// stage accumulates in `stage_frac`.
    pub attack_increment: i64,
    pub attack_remainder: i64,
    pub decay_increment: i64,
    pub decay_remainder: i64,
    pub release_increment: i64,
    pub release_remainder: i64,
    /// Remainder accumulated in the current stage, below its sample count.
    pub stage_frac: i64,
}

impl Envelope {
    /// Levels are in range, the stage accumulator is below its stage's sample
    /// count, and every increment matches the current time constants, sustain
    /// level and sample rate.
    pub open spec fn wf(&self) -> bool {
        &&& 0 <= self.current_level <= UNIT
        &&& 0 <= self.sustain_level <= UNIT
        &&& 0 <= self.velocity <= UNIT
        &&& self.state == EnvelopeState::Idle ==> self.current_level == 0
        &&& 0 <= self.stage_frac
        &&& self.state == EnvelopeState::Attack ==> self.stage_frac < self.attack_samples
        &&& self.state == EnvelopeState::Decay ==> self.stage_frac < self.decay_samples
        &&& self.state == EnvelopeState::Release ==> self.stage_frac < self.release_samples
        &&& (self.state == EnvelopeState::Idle || self.state == EnvelopeState::Sustain)
            ==> self.stage_frac == 0
        &&& self.increments_fresh()
    }

    pub open spec fn increments_fresh(&self) -> bool {
        let u = UNIT as int;
        let d = u - self.sustain_level;
        let r = release_span(self.sustain_level as int);
        &&& self.attack_samples == stage_samples(self.attack_time, self.sample_rate)
        &&& self.decay_samples == stage_samples(self.decay_time, self.sample_rate)
        &&& self.release_samples == stage_samples(self.release_time, self.sample_rate)
        &&& self.attack_increment == u / (self.attack_samples as int)
        &&& self.attack_remainder == u % (self.attack_samples as int)
        &&& self.decay_increment == d / (self.decay_samples as int)
        &&& self.decay_remainder == d % (self.decay_samples as int)
        &&& self.release_increment == r / (self.release_samples as int)
        &&& self.release_remainder == r % (self.release_samples as int)
    }

    /// Same parameters and increments; only state, level and accumulator
    /// may differ.
    pub open spec fn same_shape(&self, o: Envelope) -> bool {
        self == Envelope {
            state: self.state,
            current_level: self.current_level,
            stage_frac: self.stage_frac,
            ..o
        }
    }

    /// The amplitude the envelope currently emits: level scaled by velocity.
    pub open spec fn output(&self) -> i64 {
        ((self.current_level * self.velocity) / (UNIT as int)) as i64
    }

    /// The envelope after a note-off: Release, from the current level, unless
    /// already Idle.
    pub open spec fn released(self) -> Envelope {
        if self.state == EnvelopeState::Idle {
            self
        } else {
            Envelope { state: EnvelopeState::Release, stage_frac: 0, ..self }
        }
    }

    /// The envelope after one sample period.
    pub open spec fn stepped(self) -> Envelope {
        let f = self.stage_frac as int;
        match self.state {
            EnvelopeState::Idle => self,
            EnvelopeState::Sustain => self,
            EnvelopeState::Attack => {
                let (rem, n) = (self.attack_remainder as int, self.attack_samples as int);
                let l = self.current_level + self.attack_increment + dda_carry(f, rem, n);
                if l >= UNIT {
                    Envelope {
                        current_level: UNIT,
                        state: EnvelopeState::Decay,
                        stage_frac: 0,
                        ..self
                    }
                } else {
                    Envelope { current_level: l as i64, stage_frac: dda_frac(f, rem, n) as i64, ..self }
                }
            },
            EnvelopeState::Decay => {
                let (rem, n) = (self.decay_remainder as int, self.decay_samples as int);
                let l = self.current_level - self.decay_increment - dda_carry(f, rem, n);
                if l <= self.sustain_level {
                    Envelope {
                        current_level: self.sustain_level,
                        state: EnvelopeState::Sustain,
                        stage_frac: 0,
                        ..self
                    }
                } else {
                    Envelope { current_level: l as i64, stage_frac: dda_frac(f, rem, n) as i64, ..self }
                }
            },
            EnvelopeState::Release => {
                let (rem, n) = (self.release_remainder as int, self.release_samples as int);
                let l = self.current_level - self.release_increment - dda_carry(f, rem, n);
                if l <= 0 {
                    Envelope { current_level: 0, state: EnvelopeState::Idle, stage_frac: 0, ..self }
                } else {
                    Envelope { current_level: l as i64, stage_frac: dda_frac(f, rem, n) as i64, ..self }
                }
            },
        }
    }

    /// The envelope after `n` sample periods.
    pub open spec fn stepped_n(self, n: nat) -> Envelope
        decreases n,
    {
        if n == 0 {
            self
        } else {
            self.stepped().stepped_n((n - 1) as nat)
        }
    }

    /// Number of samples a stage of `time_ms` lasts; see `stage_samples`.
    fn samples_for(time_ms: u32, sample_rate: u32) -> (n: i64)
        ensures
            n == stage_samples(time_ms, sample_rate),
            1 <= n <= 0x4000_0000_0000_0000,
    {
        proof {
            assert(time_ms as int * sample_rate as int <= 0xffff_ffff * 0xffff_ffff)
                by (nonlinear_arith)
                requires time_ms <= 0xffff_ffff, sample_rate <= 0xffff_ffff;
        }
        let n = (time_ms as u64) * (sample_rate as u64) / 1000;
        if n < 1 {
            1
        } else {
            n as i64
        }
    }

    fn recalculate_increments(&mut self)
        requires
            0 <= old(self).sustain_level <= UNIT,
        ensures
            *final(self) == (Envelope {
                attack_samples: final(self).attack_samples,
                decay_samples: final(self).decay_samples,
                release_samples: final(self).release_samples,
                attack_increment: final(self).attack_increment,
                attack_remainder: final(self).attack_remainder,
                decay_increment: final(self).decay_increment,
                decay_remainder: final(self).decay_remainder,
                release_increment: final(self).release_increment,
                release_remainder: final(self).release_remainder,
                ..*old(self)
            }),
            final(self).increments_fresh(),
            final(self).attack_samples >= 1,
            final(self).decay_samples >= 1,
            final(self).release_samples >= 1,
    {
        let an = Self::samples_for(self.attack_time, self.sample_rate);
        let dn = Self::samples_for(self.decay_time, self.sample_rate);
        let rn = Self::samples_for(self.release_time, self.sample_rate);
        let d = UNIT - self.sustain_level;
        let r = if self.sustain_level > 0 { self.sustain_level } else { UNIT };
        self.attack_samples = an;
        self.decay_samples = dn;
        self.release_samples = rn;
        self.attack_increment = UNIT / an;
        self.attack_remainder = UNIT % an;
        self.decay_increment = d / dn;
        self.decay_remainder = d % dn;
        self.release_increment = r / rn;
        self.release_remainder = r % rn;
    }

    /// A new idle envelope with the default shape: 10 ms attack, 100 ms
    /// decay, sustain at 0.7, 300 ms release, full velocity.
    pub fn new(sample_rate: u32) -> (e: Self)
        ensures
            e.wf(),
            e.state == EnvelopeState::Idle,
            e.current_level == 0,
            e.sample_rate == sample_rate,
            e.attack_time == 10,
            e.decay_time == 100,
            e.sustain_level == 11744051,
            e.release_time == 300,
            e.velocity == UNIT,
    {
        let mut e = Envelope {
            sample_rate,
            state: EnvelopeState::Idle,
            current_level: 0,
            attack_time: 10,
            decay_time: 100,
            sustain_level: 11744051,
            release_time: 300,
            velocity: UNIT,
            attack_samples: 1,
            decay_samples: 1,
            release_samples: 1,
            attack_increment: 0,
            attack_remainder: 0,
            decay_increment: 0,
            decay_remainder: 0,
            release_increment: 0,
            release_remainder: 0,
            stage_frac: 0,
        };
        e.recalculate_increments();
        e
    }

    /// Sets the four ADSR parameters (times in milliseconds); the sustain level
    /// is clamped into `[0, UNIT]`. Increments are recomputed and the current
    /// stage goes on from its level with the new steps.
    pub fn set_adsr(&mut self, attack: u32, decay: u32, sustain: i64, release: u32)
        requires
            old(self).wf(),
        ensures
            final(self).wf(),
            final(self).attack_time == attack,
            final(self).decay_time == decay,
            final(self).sustain_level == clamp_unit(sustain),
            final(self).release_time == release,
            final(self).state == old(self).state,
            final(self).current_level == old(self).current_level,
            final(self).velocity == old(self).velocity,
            final(self).sample_rate == old(self).sample_rate,
            final(self).stage_frac == 0,
    {
        self.attack_time = attack;
        self.decay_time = decay;
        self.release_time = release;
        self.sustain_level = if sustain < 0 {
            0
        } else if sustain > UNIT {
            UNIT
        } else {
            sustain
        };
        self.stage_frac = 0;
        self.recalculate_increments();
    }

    /// Sets the velocity, clamped into `[0, UNIT]`.
    pub fn set_velocity(&mut self, velocity: i64)
        requires
            old(self).wf(),
        ensures
            final(self).wf(),
            *final(self) == (Envelope { velocity: clamp_unit(velocity), ..*old(self) }),
    {
        self.velocity = if velocity < 0 {
            0
        } else if velocity > UNIT {
            UNIT
        } else {
            velocity
        };
    }

    /// Changes the sample rate; increments are recomputed for it.
    pub fn set_sample_rate(&mut self, sample_rate: u32)
        requires
            old(self).wf(),
        ensures
            final(self).wf(),
            final(self).sample_rate == sample_rate,
            final(self).state == old(self).state,
            final(self).current_level == old(self).current_level,
            final(self).attack_time == old(self).attack_time,
            final(self).decay_time == old(self).decay_time,
            final(self).sustain_level == old(self).sustain_level,
            final(self).release_time == old(self).release_time,
            final(self).velocity == old(self).velocity,
            final(self).stage_frac == 0,
    {
        self.sample_rate = sample_rate;
        self.stage_frac = 0;
        self.recalculate_increments();
    }

    /// Starts (or restarts) the envelope: Attack from silence.
    pub fn note_on(&mut self)
        requires
            old(self).wf(),
        ensures
            final(self).wf(),
            *final(self) == (Envelope {
                state: EnvelopeState::Attack,
                current_level: 0,
                stage_frac: 0,
                ..*old(self)
            }),
    {
        self.state = EnvelopeState::Attack;
        self.current_level = 0;
        self.stage_frac = 0;
    }

    /// Moves any active state to Release; does nothing when Idle.
    pub fn note_off(&mut self)
        requires
            old(self).wf(),
        ensures
            final(self).wf(),
            *final(self) == old(self).released(),
    {
        if self.state != EnvelopeState::Idle {
            self.state = EnvelopeState::Release;
            self.stage_frac = 0;
        }
    }

    /// Advances one sample period and returns the level scaled by velocity.
    ///
    /// The level never falls in Attack, moves toward the sustain level in
    /// Decay, never rises in Release, and is held in Sustain and Idle.
    pub fn next_sample(&mut self) -> (r: i64)
        requires
            old(self).wf(),
        ensures
            final(self).wf(),
            *final(self) == old(self).stepped(),
            r == final(self).output(),
            0 <= r <= UNIT,
            old(self).state == EnvelopeState::Attack ==> final(self).current_level
                >= old(self).current_level,
            old(self).state == EnvelopeState::Decay ==> final(self).current_level
                <= old(self).current_level || final(self).current_level
                == old(self).sustain_level,
            old(self).state == EnvelopeState::Decay && old(self).current_level
                >= old(self).sustain_level ==> old(self).sustain_level
                <= final(self).current_level <= old(self).current_level,
            old(self).state == EnvelopeState::Decay ==> (final(self).state
                == EnvelopeState::Decay || final(self).state == EnvelopeState::Sustain),
            final(self).state == EnvelopeState::Sustain ==> final(self).current_level
                == old(self).current_level || final(self).current_level
                == final(self).sustain_level,
            old(self).state == EnvelopeState::Sustain ==> final(self).current_level
                == old(self).current_level,
            old(self).state == EnvelopeState::Release ==> final(self).current_level
                <= old(self).current_level,
    {
        proof {
            lemma_increment_bounds(*self);
        }
        match self.state {
            EnvelopeState::Idle => {},
            EnvelopeState::Attack => {
                let f = self.stage_frac + self.attack_remainder;
                let (c, f2): (i64, i64) = if f >= self.attack_samples {
                    (1, f - self.attack_samples)
                } else {
                    (0, f)
                };
                let l = self.current_level + self.attack_increment + c;
                if l >= UNIT {
                    self.current_level = UNIT;
                    self.state = EnvelopeState::Decay;
                    self.stage_frac = 0;
                } else {
                    self.current_level = l;
                    self.stage_frac = f2;
                }
            },
            EnvelopeState::Decay => {
                let f = self.stage_frac + self.decay_remainder;
                let (c, f2): (i64, i64) = if f >= self.decay_samples {
                    (1, f - self.decay_samples)
                } else {
                    (0, f)
                };
                let l = self.current_level - self.decay_increment - c;
                if l <= self.sustain_level {
                    self.current_level = self.sustain_level;
                    self.state = EnvelopeState::Sustain;
                    self.stage_frac = 0;
                } else {
                    self.current_level = l;
                    self.stage_frac = f2;
                }
            },
            EnvelopeState::Sustain => {},
            EnvelopeState::Release => {
                let f = self.stage_frac + self.release_remainder;
                let (c, f2): (i64, i64) = if f >= self.release_samples {
                    (1, f - self.release_samples)
                } else {
                    (0, f)
                };
                let l = self.current_level - self.release_increment - c;
                if l <= 0 {
                    self.current_level = 0;
                    self.state = EnvelopeState::Idle;
                    self.stage_frac = 0;
                } else {
                    self.current_level = l;
                    self.stage_frac = f2;
                }
            },
        }
        proof {
            assert(0 <= self.current_level * self.velocity <= UNIT * UNIT) by (nonlinear_arith)
                requires 0 <= self.current_level <= UNIT, 0 <= self.velocity <= UNIT;
        }
        self.current_level * self.velocity / UNIT
    }

    /// True once the envelope has returned to Idle.
    pub fn is_finished(&self) -> (r: bool)
        ensures
            r == (self.state == EnvelopeState::Idle),
    {
        self.state == EnvelopeState::Idle
    }
}

/// `span = n·(span / n) + span % n`, with the remainder below `n`.
proof fn lemma_split(span: int, n: int)
    requires
        0 <= span,
        1 <= n,
    ensures
        span == n * (span / n) + span % n,
        0 <= span % n < n,
        0 <= span / n <= span,
{
    lemma_fundamental_div_mod(span, n);
    lemma_mod_pos_bound(span, n);
    assert(span / n <= span) by (nonlinear_arith)
        requires 0 <= span, n >= 1, span == n * (span / n) + span % n, 0 <= span % n;
    assert(span / n >= 0) by (nonlinear_arith)
        requires 0 <= span, n >= 1, span == n * (span / n) + span % n, span % n < n;
}

/// One remainder step: the carry is 0 or 1 and the accumulator stays below `n`.
proof fn lemma_dda(f: int, r: int, n: int)
    requires
        0 <= f < n,
        0 <= r < n,
    ensures
        dda_frac(f, r, n) == f + r - dda_carry(f, r, n) * n,
        0 <= dda_frac(f, r, n) < n,
        0 <= dda_carry(f, r, n) <= 1,
{
}

/// Stage sample counts are far below the `i64` range.
proof fn lemma_stage_samples_bound(time_ms: u32, sample_rate: u32)
    ensures
        1 <= stage_samples(time_ms, sample_rate) <= 0x4000_0000_0000_0000,
{
    assert(time_ms as int * sample_rate as int <= 0xffff_ffff * 0xffff_ffff) by (nonlinear_arith)
        requires time_ms <= 0xffff_ffff, sample_rate <= 0xffff_ffff;
}

/// Every increment lies between zero and its span; every remainder is below
/// its stage's sample count.
pub proof fn lemma_increment_bounds(e: Envelope)
    requires
        e.wf(),
    ensures
        0 <= e.attack_increment <= UNIT,
        0 <= e.attack_remainder < e.attack_samples,
        0 <= e.decay_increment <= UNIT - e.sustain_level,
        0 <= e.decay_remainder < e.decay_samples,
        0 <= e.release_increment <= release_span(e.sustain_level as int),
        0 <= e.release_remainder < e.release_samples,
        1 <= e.attack_samples <= 0x4000_0000_0000_0000,
        1 <= e.decay_samples <= 0x4000_0000_0000_0000,
        1 <= e.release_samples <= 0x4000_0000_0000_0000,
{
    lemma_stage_samples_bound(e.attack_time, e.sample_rate);
    lemma_stage_samples_bound(e.decay_time, e.sample_rate);
    lemma_stage_samples_bound(e.release_time, e.sample_rate);
    lemma_split(UNIT as int, e.attack_samples as int);
    lemma_split(UNIT - e.sustain_level, e.decay_samples as int);
    lemma_split(release_span(e.sustain_level as int), e.release_samples as int);
}

/// One sample period keeps an envelope well formed and its shape.
pub proof fn lemma_stepped_wf(e: Envelope)
    requires
        e.wf(),
    ensures
        e.stepped().wf(),
        e.stepped().same_shape(e),
{
    lemma_increment_bounds(e);
}

/// Stepping `k + 1` times is stepping `k` times and once more.
pub proof fn lemma_stepped_n_succ(e: Envelope, k: nat)
    ensures
        e.stepped_n(k + 1) == e.stepped_n(k).stepped(),
    decreases k,
{
    if k > 0 {
        lemma_stepped_n_succ(e.stepped(), (k - 1) as nat);
    } else {
        assert(e.stepped_n(1) == e.stepped().stepped_n(0));
    }
}

/// An idle envelope stays idle and silent.
pub proof fn lemma_idle_stays(e: Envelope, n: nat)
    requires
        e.state == EnvelopeState::Idle,
    ensures
        e.stepped_n(n) == e,
    decreases n,
{
    if n > 0 {
        lemma_idle_stays(e, (n - 1) as nat);
    }
}

/// Sustain holds its level for as long as no note-off arrives.
pub proof fn lemma_sustain_holds(e: Envelope, n: nat)
    requires
        e.state == EnvelopeState::Sustain,
    ensures
        e.stepped_n(n) == e,
    decreases n,
{
    if n > 0 {
        lemma_sustain_holds(e, (n - 1) as nat);
    }
}

/// Within an attack started from silence, after `k` samples with `k` below
/// the attack's sample count the envelope is still in Attack at level
/// `k·UNIT / attack_samples` (kept as `n·level + stage_frac == k·UNIT`).
pub proof fn lemma_attack_progress(e: Envelope, k: nat)
    requires
        e.wf(),
        e.state == EnvelopeState::Attack,
        e.current_level == 0,
        e.stage_frac == 0,
        k < e.attack_samples,
    ensures
        e.stepped_n(k).wf(),
        e.stepped_n(k).same_shape(e),
        e.stepped_n(k).state == EnvelopeState::Attack,
        e.attack_samples * e.stepped_n(k).current_level + e.stepped_n(k).stage_frac == k * UNIT,
    decreases k,
{
    if k > 0 {
        let j = (k - 1) as nat;
        lemma_attack_progress(e, j);
        lemma_stepped_n_succ(e, j);
        let p = e.stepped_n(j);
        lemma_stepped_wf(p);
        lemma_split(UNIT as int, e.attack_samples as int);
        let n = e.attack_samples as int;
        let (l, f) = (p.current_level as int, p.stage_frac as int);
        let (q, r) = (e.attack_increment as int, e.attack_remainder as int);
        lemma_dda(f, r, n);
        lemma_dda(f, r, n);
    let c = dda_carry(f, r, n);
        let l2 = l + q + c;
        let f2 = dda_frac(f, r, n);
        assert(n * l2 + f2 == k * UNIT) by (nonlinear_arith)
            requires n * l + f == j * UNIT, l2 == l + q + c, f2 == f + r - c * n,
                UNIT == n * q + r, k == j + 1;
        assert(l2 < UNIT) by (nonlinear_arith)
            requires n * l2 + f2 == k * UNIT, f2 >= 0, k < n, n >= 1;
    }
}

/// Attack lasts exactly `attack_samples` samples: it is still rising before
/// then, and at that sample it stands at full level and moves on to Decay.
pub proof fn lemma_attack_duration(e: Envelope)
    requires
        e.wf(),
        e.state == EnvelopeState::Attack,
        e.current_level == 0,
        e.stage_frac == 0,
    ensures
        forall|k: nat| k < e.attack_samples ==> #[trigger] e.stepped_n(k).state
            == EnvelopeState::Attack,
        e.stepped_n(e.attack_samples as nat).state == EnvelopeState::Decay,
        e.stepped_n(e.attack_samples as nat).current_level == UNIT,
{
    assert forall|k: nat| k < e.attack_samples implies #[trigger] e.stepped_n(k).state
        == EnvelopeState::Attack by {
        lemma_attack_progress(e, k);
    }
    lemma_increment_bounds(e);
    let j = (e.attack_samples - 1) as nat;
    lemma_attack_progress(e, j);
    lemma_stepped_n_succ(e, j);
    let p = e.stepped_n(j);
    lemma_split(UNIT as int, e.attack_samples as int);
    let n = e.attack_samples as int;
    let (l, f) = (p.current_level as int, p.stage_frac as int);
    let (q, r) = (e.attack_increment as int, e.attack_remainder as int);
    lemma_dda(f, r, n);
    let c = dda_carry(f, r, n);
    let l2 = l + q + c;
    let f2 = dda_frac(f, r, n);
    assert(n * l2 + f2 == n * UNIT) by (nonlinear_arith)
        requires n * l + f == j * UNIT, l2 == l + q + c, f2 == f + r - c * n,
            UNIT == n * q + r, n == j + 1;
    assert(l2 >= UNIT) by (nonlinear_arith)
        requires n * l2 + f2 == n * UNIT, f2 < n, n >= 1;
}

/// Within a decay started at full level, after `k` samples with `k` below the
/// decay's sample count the envelope is still in Decay, at
/// `UNIT − k·(UNIT − sustain) / decay_samples`.
pub proof fn lemma_decay_progress(e: Envelope, k: nat)
    requires
        e.wf(),
        e.state == EnvelopeState::Decay,
        e.current_level == UNIT,
        e.stage_frac == 0,
        e.sustain_level < UNIT,
        k < e.decay_samples,
    ensures
        e.stepped_n(k).wf(),
        e.stepped_n(k).same_shape(e),
        e.stepped_n(k).state == EnvelopeState::Decay,
        e.decay_samples * (UNIT - e.stepped_n(k).current_level) + e.stepped_n(k).stage_frac == k
            * (UNIT - e.sustain_level),
    decreases k,
{
    if k > 0 {
        let j = (k - 1) as nat;
        lemma_decay_progress(e, j);
        lemma_stepped_n_succ(e, j);
        let p = e.stepped_n(j);
        lemma_stepped_wf(p);
        let span = UNIT - e.sustain_level;
        lemma_split(span, e.decay_samples as int);
        let n = e.decay_samples as int;
        let (l, f) = (p.current_level as int, p.stage_frac as int);
        let (q, r) = (e.decay_increment as int, e.decay_remainder as int);
        lemma_dda(f, r, n);
        lemma_dda(f, r, n);
    let c = dda_carry(f, r, n);
        let l2 = l - q - c;
        let f2 = dda_frac(f, r, n);
        assert(n * (UNIT - l2) + f2 == k * span) by (nonlinear_arith)
            requires n * (UNIT - l) + f == j * span, l2 == l - q - c, f2 == f + r - c * n,
                span == n * q + r, k == j + 1;
        assert(UNIT - l2 < span) by (nonlinear_arith)
            requires n * (UNIT - l2) + f2 == k * span, f2 >= 0, k < n, n >= 1, span > 0;
    }
}

/// Decay from full level lasts exactly `decay_samples` samples and ends at
/// the sustain level, in Sustain.
pub proof fn lemma_decay_duration(e: Envelope)
    requires
        e.wf(),
        e.state == EnvelopeState::Decay,
        e.current_level == UNIT,
        e.stage_frac == 0,
        e.sustain_level < UNIT,
    ensures
        forall|k: nat| k < e.decay_samples ==> #[trigger] e.stepped_n(k).state
            == EnvelopeState::Decay,
        e.stepped_n(e.decay_samples as nat).state == EnvelopeState::Sustain,
        e.stepped_n(e.decay_samples as nat).current_level == e.sustain_level,
{
    assert forall|k: nat| k < e.decay_samples implies #[trigger] e.stepped_n(k).state
        == EnvelopeState::Decay by {
        lemma_decay_progress(e, k);
    }
    lemma_increment_bounds(e);
    let j = (e.decay_samples - 1) as nat;
    lemma_decay_progress(e, j);
    lemma_stepped_n_succ(e, j);
    let p = e.stepped_n(j);
    let span = UNIT - e.sustain_level;
    lemma_split(span, e.decay_samples as int);
    let n = e.decay_samples as int;
    let (l, f) = (p.current_level as int, p.stage_frac as int);
    let (q, r) = (e.decay_increment as int, e.decay_remainder as int);
    lemma_dda(f, r, n);
    let c = dda_carry(f, r, n);
    let l2 = l - q - c;
    let f2 = dda_frac(f, r, n);
    assert(n * (UNIT - l2) + f2 == n * span) by (nonlinear_arith)
        requires n * (UNIT - l) + f == j * span, l2 == l - q - c, f2 == f + r - c * n,
            span == n * q + r, n == j + 1;
    assert(UNIT - l2 >= span) by (nonlinear_arith)
        requires n * (UNIT - l2) + f2 == n * span, f2 < n, n >= 1;
}

/// Within a release from level `L` that began with an empty accumulator,
/// after `k` samples the level stands at `L − (k·span + f0) / n` for as long
/// as that stays above zero, `span` being `release_span(sustain)`.
pub proof fn lemma_release_progress(e: Envelope, k: nat)
    requires
        e.wf(),
        e.state == EnvelopeState::Release,
        k * release_span(e.sustain_level as int) + e.stage_frac < e.release_samples
            * e.current_level,
    ensures
        e.stepped_n(k).wf(),
        e.stepped_n(k).same_shape(e),
        e.stepped_n(k).state == EnvelopeState::Release,
        e.release_samples * (e.current_level - e.stepped_n(k).current_level)
            + e.stepped_n(k).stage_frac == k * release_span(e.sustain_level as int)
            + e.stage_frac,
    decreases k,
{
    let span = release_span(e.sustain_level as int);
    let n = e.release_samples as int;
    let big_l = e.current_level as int;
    lemma_increment_bounds(e);
    if k > 0 {
        let j = (k - 1) as nat;
        assert(j * span + e.stage_frac < n * big_l) by (nonlinear_arith)
            requires k * span + e.stage_frac < n * big_l, j == k - 1, span >= 0;
        lemma_release_progress(e, j);
        lemma_stepped_n_succ(e, j);
        let p = e.stepped_n(j);
        lemma_stepped_wf(p);
        lemma_split(span, n);
        let (l, f) = (p.current_level as int, p.stage_frac as int);
        let (q, r) = (e.release_increment as int, e.release_remainder as int);
        lemma_dda(f, r, n);
        lemma_dda(f, r, n);
    let c = dda_carry(f, r, n);
        let l2 = l - q - c;
        let f2 = dda_frac(f, r, n);
        let f0 = e.stage_frac as int;
        assert(n * (big_l - l2) + f2 == k * span + f0) by (nonlinear_arith)
            requires n * (big_l - l) + f == j * span + f0, l2 == l - q - c, f2 == f + r - c * n,
                span == n * q + r, k == j + 1;
        assert(l2 > 0) by (nonlinear_arith)
            requires n * (big_l - l2) + f2 == k * span + f0, f2 >= 0, k * span + f0 < n * big_l,
                n >= 1;
    } else {
        assert(n * (big_l - big_l) == 0 && 0 * span == 0) by (nonlinear_arith);
    }
}

/// Release always terminates: once `k·span + stage_frac` reaches
/// `release_samples · current_level` (and at least one sample has passed) the
/// envelope is Idle and silent, so it is finished.
pub proof fn lemma_release_reaches_idle(e: Envelope, k: nat)
    requires
        e.wf(),
        e.state == EnvelopeState::Release,
        k >= 1,
        k * release_span(e.sustain_level as int) + e.stage_frac >= e.release_samples
            * e.current_level,
    ensures
        e.stepped_n(k).state == EnvelopeState::Idle,
        e.stepped_n(k).current_level == 0,
    decreases k,
{
    let span = release_span(e.sustain_level as int);
    let n = e.release_samples as int;
    let big_l = e.current_level as int;
    let f0 = e.stage_frac as int;
    let j = (k - 1) as nat;
    lemma_increment_bounds(e);
    lemma_stepped_n_succ(e, j);
    if j * span + f0 < n * big_l {
        lemma_release_progress(e, j);
        let p = e.stepped_n(j);
        lemma_split(span, n);
        let (l, f) = (p.current_level as int, p.stage_frac as int);
        let (q, r) = (e.release_increment as int, e.release_remainder as int);
        lemma_dda(f, r, n);
        lemma_dda(f, r, n);
    let c = dda_carry(f, r, n);
        let l2 = l - q - c;
        let f2 = dda_frac(f, r, n);
        assert(n * (big_l - l2) + f2 == k * span + f0) by (nonlinear_arith)
            requires n * (big_l - l) + f == j * span + f0, l2 == l - q - c, f2 == f + r - c * n,
                span == n * q + r, k == j + 1;
        assert(l2 <= 0) by (nonlinear_arith)
            requires n * (big_l - l2) + f2 == k * span + f0, f2 < n, k * span + f0 >= n * big_l,
                n >= 1;
    } else if j >= 1 {
        lemma_release_reaches_idle(e, j);
    } else {
        assert(big_l == 0) by (nonlinear_arith)
            requires !(j * span + f0 < n * big_l), j == 0, f0 < n, big_l >= 0, n >= 1;
    }
}

/// A release from the sustain level lasts exactly `release_samples` samples.
pub proof fn lemma_release_duration(e: Envelope)
    requires
        e.wf(),
        e.state == EnvelopeState::Release,
        e.current_level == e.sustain_level,
        e.sustain_level > 0,
        e.stage_frac == 0,
    ensures
        forall|k: nat| k < e.release_samples ==> #[trigger] e.stepped_n(k).state
            == EnvelopeState::Release,
        e.stepped_n(e.release_samples as nat).state == EnvelopeState::Idle,
{
    let n = e.release_samples as int;
    let s = e.sustain_level as int;
    lemma_increment_bounds(e);
    assert forall|k: nat| k < e.release_samples implies #[trigger] e.stepped_n(k).state
        == EnvelopeState::Release by {
        assert(k * s < n * s) by (nonlinear_arith)
            requires k < n, s > 0;
        lemma_release_progress(e, k);
    }
    lemma_release_reaches_idle(e, e.release_samples as nat);
}

} // verus!
