//! The voice pool and the mixing engine.
//!
//! The pool holds one slot per MIDI note number; a note-on for a sounding
//! note replaces its voice. The mixer sums every voice per frame, soft-clips
//! the sum, writes it to every channel and prunes finished voices once per
//! buffer.

use vstd::prelude::*;

use crate::UNIT;
use crate::envelope::{Envelope, EnvelopeState, clamp_unit};
use crate::fixed::{mul_q, mul_unit, lemma_mul_q_shrinks};
use crate::note::{Note, voice_step};
use crate::oscillator::WaveType;
use vstd::arithmetic::div_mod::lemma_fundamental_div_mod_converse;

verus! {

/// Soft clip by the Padé form of tanh, `x(27 + x²) / (27 + 9x²)`, which meets
/// ±1 at ±3; beyond that the output holds just inside ±1.
pub open spec fn soft_clip_q(x: int) -> int {
    let u = UNIT as int;
    if x >= 3 * u {
        u - 1
    } else if x <= -3 * u {
        -(u - 1)
    } else if x >= 0 {
        pade_q(x)
    } else {
        -pade_q(-x)
    }
}

/// The Padé tanh form on a non-negative magnitude.
pub open spec fn pade_q(m: int) -> int {
    let u = UNIT as int;
    m * (27 * u * u + m * m) / (27 * u * u + 9 * m * m)
}

proof fn lemma_pade_below_one(x: int)
    requires
        0 <= x < 3 * UNIT,
    ensures
        0 <= pade_q(x) < UNIT,
        pade_q(x) <= x,
{
    let u = UNIT as int;
    let n = x * (27 * u * u + x * x);
    let d = 27 * u * u + 9 * x * x;
    let e = 3 * u - x;
    assert(e * e * e > 0) by (nonlinear_arith)
        requires e > 0;
    assert(u * d - n == e * e * e) by (nonlinear_arith)
        requires e == 3 * u - x, n == x * (27 * u * u + x * x), d == 27 * u * u + 9 * x * x;
    assert(n / d < u) by (nonlinear_arith)
        requires n < u * d, d > 0;
    assert(n >= 0 && d > 0) by (nonlinear_arith)
        requires x >= 0, u > 0, n == x * (27 * u * u + x * x), d == 27 * u * u + 9 * x * x;
    assert(n <= x * d) by (nonlinear_arith)
        requires x >= 0, n == x * (27 * u * u + x * x), d == 27 * u * u + 9 * x * x;
    assert(n / d <= x) by (nonlinear_arith)
        requires n <= x * d, d > 0;
    assert(n / d >= 0) by (nonlinear_arith)
        requires n >= 0, d > 0;
}

/// Soft clip of a Q24 sample; the result is strictly within (−1, 1).
pub fn soft_clip(x: i64) -> (r: i64)
    ensures
        r == soft_clip_q(x as int),
        -UNIT < r < UNIT,
{
    if x >= 3 * UNIT {
        UNIT - 1
    } else if x <= -3 * UNIT {
        -(UNIT - 1)
    } else {
        let m: i128 = if x >= 0 { x as i128 } else { -(x as i128) };
        let u: i128 = UNIT as i128;
        proof {
            lemma_pade_below_one(m as int);
            assert(m * m <= 9 * u * u) by (nonlinear_arith)
                requires 0 <= m < 3 * u, u > 0;
            assert(m * (27 * u * u + m * m) <= 3 * u * (36 * u * u)) by (nonlinear_arith)
                requires 0 <= m < 3 * u, u > 0, m * m <= 9 * u * u;
            assert(9 * (m * m) <= 81 * u * u);
        }
        let uu: i128 = u * u;
        let mm: i128 = m * m;
        proof {
            assert(27 * uu == 27 * u * u && 9 * mm == 9 * m * m) by (nonlinear_arith)
                requires uu == u * u, mm == m * m;
        }
        let y = (m * (27 * uu + mm) / (27 * uu + 9 * mm)) as i64;
        if x >= 0 {
            y
        } else {
            -y
        }
    }
}

/// Within (−1, 1) the soft clip never amplifies, so clipping a clipped
/// sample again moves it toward zero and never past it.
pub proof fn lemma_soft_clip_contracts(x: int)
    requires
        -UNIT < x < UNIT,
    ensures
        x >= 0 ==> 0 <= soft_clip_q(x) <= x,
        x < 0 ==> x <= soft_clip_q(x) <= 0,
        -UNIT < soft_clip_q(x) < UNIT,
{
    if x >= 0 {
        lemma_pade_below_one(x);
    } else {
        lemma_pade_below_one(-x);
    }
}

/// Number of note identities, one slot each.
pub const POOL_SIZE: usize = 128;

/// What a note-on needs besides the note, its velocity and its frequency.
#[derive(Clone, Copy)]
pub struct VoiceConfig {
    /// Sample rate in hertz.
    pub sample_rate: u32,
    /// Shape of both oscillators.
    pub wave_type: WaveType,
    /// Attack time in milliseconds.
    pub attack: u32,
    /// Decay time in milliseconds.
    pub decay: u32,
    /// Sustain level in Q24; clamped into `[0, UNIT]`.
    pub sustain: i64,
    /// Release time in milliseconds.
    pub release: u32,
}

/// `v` is the voice a note-on with these arguments starts: fresh oscillators
/// and an envelope at the start of its Attack, nothing kept from before.
pub open spec fn started_voice(v: Note, velocity: i64, frequency: u32, config: VoiceConfig) -> bool {
    &&& v.wf()
    &&& v.frequency == frequency
    &&& v.sample_rate == config.sample_rate
    &&& v.osc1.is_fresh(config.wave_type, config.sample_rate)
    &&& v.osc2.is_fresh(config.wave_type, config.sample_rate)
    &&& v.envelope.state == EnvelopeState::Attack
    &&& v.envelope.current_level == 0
    &&& v.envelope.sample_rate == config.sample_rate
    &&& v.envelope.attack_time == config.attack
    &&& v.envelope.decay_time == config.decay
    &&& v.envelope.sustain_level == clamp_unit(config.sustain)
    &&& v.envelope.release_time == config.release
    &&& v.envelope.velocity == clamp_unit(velocity)
}

/// One voice's share of a mixed frame: its envelope steps, then its
/// oscillators, and the product is scaled by the master volume.
pub open spec fn frame_step(o: Note, n: Note, c: int, master: int) -> bool {
    let mid = Note { envelope: o.envelope.stepped(), ..o };
    exists|s: int|
        voice_step(mid, n, s) && c == mul_q(mul_q(s, mid.envelope.output() as int), master)
}

/// A slot's share of a mixed frame: nothing from an empty slot.
pub open spec fn slot_step(o: Option<Note>, n: Option<Note>, c: int, master: int) -> bool {
    match o {
        None => n is None && c == 0,
        Some(ov) => n is Some && frame_step(ov, n->Some_0, c, master),
    }
}

/// One call of `mix_frame` took the slots from `o` to `n` and returned `r`:
/// each slot contributed its share, and the sum was soft-clipped.
pub open spec fn frame_mixed(o: Seq<Option<Note>>, n: Seq<Option<Note>>, r: int, master: int) -> bool {
    &&& n.len() == o.len()
    &&& exists|c: Seq<int>|
        c.len() == o.len() && r == soft_clip_q(seq_sum(c)) && (forall|i: int|
            0 <= i < o.len() ==> #[trigger] slot_step(o[i], n[i], c[i], master))
}

/// The slots with every finished voice removed.
pub open spec fn pruned(voices: Seq<Option<Note>>) -> Seq<Option<Note>> {
    Seq::new(
        voices.len(),
        |i: int|
            if voices[i] is Some && voices[i]->Some_0.finished() {
                None
            } else {
                voices[i]
            },
    )
}

/// Mixing `mono.len()` frames took the slots from `o` to `n`: a chain of
/// single frames, each giving the matching sample, then one pruning.
pub open spec fn buffer_mixed(
    o: Seq<Option<Note>>,
    n: Seq<Option<Note>>,
    mono: Seq<i64>,
    master: int,
) -> bool {
    exists|states: Seq<Seq<Option<Note>>>|
        states.len() == mono.len() + 1 && states[0] == o && n == pruned(states[mono.len() as int])
            && (forall|f: int|
            0 <= f < mono.len() ==> frame_mixed(states[f], states[f + 1], #[trigger] mono[f] as int, master))
}

pub open spec fn seq_sum(s: Seq<int>) -> int
    decreases s.len(),
{
    if s.len() == 0 {
        0
    } else {
        seq_sum(s.drop_last()) + s.last()
    }
}

/// The slots after a note-off for `note_id`: its voice, if any, releases.
pub open spec fn after_note_off(voices: Seq<Option<Note>>, note_id: int) -> Seq<Option<Note>> {
    if 0 <= note_id < voices.len() && voices[note_id] is Some {
        let v = voices[note_id]->Some_0;
        voices.update(note_id, Some(Note { envelope: v.envelope.released(), ..v }))
    } else {
        voices
    }
}

pub open spec fn all_empty(voices: Seq<Option<Note>>) -> bool {
    forall|i: int| 0 <= i < voices.len() ==> #[trigger] voices[i] is None
}

pub struct VoicePool {
    /// Slot `i` holds the voice of note `i`, if it sounds.
    pub voices: Vec<Option<Note>>,
}

impl VoicePool {
    pub open spec fn wf(&self) -> bool {
        &&& self.voices@.len() == POOL_SIZE
        &&& forall|i: int|
            0 <= i < POOL_SIZE && #[trigger] self.voices@[i] is Some ==> self.voices@[i]->Some_0.wf()
    }

    /// An empty pool.
    pub fn new() -> (p: Self)
        ensures
            p.wf(),
            all_empty(p.voices@),
    {
        let mut voices: Vec<Option<Note>> = Vec::new();
        let mut i: usize = 0;
        while i < POOL_SIZE
            invariant
                i <= POOL_SIZE,
                voices@.len() == i,
                all_empty(voices@),
            decreases POOL_SIZE - i,
        {
            voices.push(None);
            i = i + 1;
        }
        VoicePool { voices }
    }

    /// Starts a voice for `note_id`, replacing any voice that note had.
    pub fn note_on(&mut self, note_id: u8, velocity: i64, frequency: u32, config: &VoiceConfig)
        requires
            old(self).wf(),
            note_id < POOL_SIZE,
        ensures
            final(self).wf(),
            final(self).voices@.len() == POOL_SIZE,
            final(self).voices@[note_id as int] is Some,
            started_voice(final(self).voices@[note_id as int]->Some_0, velocity, frequency, *config),
            forall|i: int|
                0 <= i < POOL_SIZE && i != note_id ==> #[trigger] final(self).voices@[i]
                    == old(self).voices@[i],
    {
        let mut envelope = Envelope::new(config.sample_rate);
        envelope.set_adsr(config.attack, config.decay, config.sustain, config.release);
        envelope.set_velocity(velocity);
        envelope.note_on();
        let voice = Note::new(frequency, envelope, config.sample_rate, config.wave_type, config.wave_type);
        self.voices.set(note_id as usize, Some(voice));
    }

    /// Releases the voice of `note_id`; does nothing when it has none.
    pub fn note_off(&mut self, note_id: u8)
        requires
            old(self).wf(),
        ensures
            final(self).wf(),
            final(self).voices@ == after_note_off(old(self).voices@, note_id as int),
    {
        if (note_id as usize) < POOL_SIZE {
            let slot = self.voices[note_id as usize];
            if let Some(v) = slot {
                let mut v = v;
                v.envelope.note_off();
                self.voices.set(note_id as usize, Some(v));
            }
        }
    }

    /// Removes every voice whose envelope has finished.
    pub fn retain_active(&mut self)
        requires
            old(self).wf(),
        ensures
            final(self).wf(),
            final(self).voices@ == pruned(old(self).voices@),
    {
        let ghost before = self.voices@;
        let mut i: usize = 0;
        while i < POOL_SIZE
            invariant
                i <= POOL_SIZE,
                self.wf(),
                forall|j: int| i <= j < POOL_SIZE ==> #[trigger] self.voices@[j] == before[j],
                forall|j: int|
                    0 <= j < i ==> #[trigger] self.voices@[j] == (if before[j] is Some
                        && before[j]->Some_0.finished() {
                        None
                    } else {
                        before[j]
                    }),
            decreases POOL_SIZE - i,
        {
            let slot = self.voices[i];
            if let Some(v) = slot {
                if v.envelope.is_finished() {
                    self.voices.set(i, None);
                }
            }
            i = i + 1;
        }
        proof {
            assert(self.voices@ =~= pruned(before));
        }
    }

    /// Moves every voice to `sample_rate`, its envelope included; voices
    /// already there are left alone.
    pub fn set_sample_rate(&mut self, sample_rate: u32)
        requires
            old(self).wf(),
        ensures
            final(self).wf(),
            forall|i: int|
                0 <= i < POOL_SIZE ==> (#[trigger] final(self).voices@[i] is Some <==> old(
                    self,
                ).voices@[i] is Some),
            forall|i: int|
                0 <= i < POOL_SIZE && old(self).voices@[i] is Some && old(self).voices@[i]->Some_0.sample_rate
                    == sample_rate && old(self).voices@[i]->Some_0.envelope.sample_rate == sample_rate
                    ==> #[trigger] final(self).voices@[i] == old(self).voices@[i],
            forall|i: int|
                0 <= i < POOL_SIZE && #[trigger] old(self).voices@[i] is Some ==> ({
                    let (o, n) = (old(self).voices@[i]->Some_0, final(self).voices@[i]->Some_0);
                    &&& n.sample_rate == sample_rate
                    &&& n.envelope.sample_rate == sample_rate
                    &&& n.frequency == o.frequency
                    &&& n.osc1 == o.osc1
                    &&& n.osc2 == o.osc2
                    &&& n.envelope.state == o.envelope.state
                    &&& n.envelope.current_level == o.envelope.current_level
                    &&& n.envelope.attack_time == o.envelope.attack_time
                    &&& n.envelope.decay_time == o.envelope.decay_time
                    &&& n.envelope.sustain_level == o.envelope.sustain_level
                    &&& n.envelope.release_time == o.envelope.release_time
                    &&& n.envelope.velocity == o.envelope.velocity
                }),
    {
        let ghost before = self.voices@;
        let mut i: usize = 0;
        while i < POOL_SIZE
            invariant
                i <= POOL_SIZE,
                self.wf(),
                before == old(self).voices@,
                forall|j: int| i <= j < POOL_SIZE ==> #[trigger] self.voices@[j] == before[j],
                forall|j: int|
                    0 <= j < i ==> (#[trigger] self.voices@[j] is Some <==> before[j] is Some),
                forall|j: int|
                    0 <= j < i && before[j] is Some && before[j]->Some_0.sample_rate == sample_rate
                        && before[j]->Some_0.envelope.sample_rate == sample_rate
                        ==> #[trigger] self.voices@[j] == before[j],
                forall|j: int|
                    0 <= j < i && #[trigger] before[j] is Some ==> ({
                        let (o, n) = (before[j]->Some_0, self.voices@[j]->Some_0);
                        &&& n.sample_rate == sample_rate
                        &&& n.envelope.sample_rate == sample_rate
                        &&& n.frequency == o.frequency
                        &&& n.osc1 == o.osc1
                        &&& n.osc2 == o.osc2
                        &&& n.envelope.state == o.envelope.state
                        &&& n.envelope.current_level == o.envelope.current_level
                        &&& n.envelope.attack_time == o.envelope.attack_time
                        &&& n.envelope.decay_time == o.envelope.decay_time
                        &&& n.envelope.sustain_level == o.envelope.sustain_level
                        &&& n.envelope.release_time == o.envelope.release_time
                        &&& n.envelope.velocity == o.envelope.velocity
                    }),
            decreases POOL_SIZE - i,
        {
            let slot = self.voices[i];
            if let Some(v) = slot {
                if v.sample_rate != sample_rate || v.envelope.sample_rate != sample_rate {
                    let mut v = v;
                    v.set_sample_rate(sample_rate);
                    self.voices.set(i, Some(v));
                }
            }
            i = i + 1;
        }
    }

    /// Mixes one frame: every voice steps its envelope and oscillators once;
    /// the contributions are summed and soft-clipped.
    pub fn mix_frame(&mut self, master_volume: i64) -> (r: i64)
        requires
            old(self).wf(),
            0 <= master_volume <= UNIT,
        ensures
            final(self).wf(),
            frame_mixed(old(self).voices@, final(self).voices@, r as int, master_volume as int),
            -UNIT < r < UNIT,
            all_empty(old(self).voices@) ==> r == 0 && final(self).voices@ == old(self).voices@,
    {
        let ghost before = self.voices@;
        let ghost mut contribs: Seq<int> = Seq::empty();
        let mut acc: i64 = 0;
        let mut i: usize = 0;
        while i < POOL_SIZE
            invariant
                i <= POOL_SIZE,
                self.wf(),
                before.len() == POOL_SIZE,
                0 <= master_volume <= UNIT,
                contribs.len() == i,
                acc == seq_sum(contribs),
                -50331648 * i <= acc <= 50331648 * i,
                forall|j: int| i <= j < POOL_SIZE ==> #[trigger] self.voices@[j] == before[j],
                forall|j: int|
                    0 <= j < i ==> #[trigger] slot_step(
                        before[j],
                        self.voices@[j],
                        contribs[j],
                        master_volume as int,
                    ),
                all_empty(before) ==> acc == 0,
                before == old(self).voices@,
            decreases POOL_SIZE - i,
        {
            let slot = self.voices[i];
            let ghost c: int;
            match slot {
                Some(v0) => {
                    let mut v = v0;
                    let e = v.envelope.next_sample();
                    let ghost mid = v;
                    let s = v.get_sample();
                    proof {
                        lemma_mul_q_shrinks(s as int, e as int);
                        lemma_mul_q_shrinks(mul_q(s as int, e as int), master_volume as int);
                    }
                    let contribution = mul_unit(mul_unit(s, e), master_volume);
                    assert(-3 * UNIT <= contribution <= 3 * UNIT);
                    self.voices.set(i, Some(v));
                    acc = acc + contribution;
                    proof {
                        assert(mid == Note { envelope: v0.envelope.stepped(), ..v0 });
                        assert(voice_step(mid, v, s as int));
                        assert(frame_step(v0, v, contribution as int, master_volume as int));
                        c = contribution as int;
                    }
                },
                None => {
                    proof {
                        c = 0;
                    }
                },
            }
            proof {
                let old_contribs = contribs;
                contribs = contribs.push(c);
                assert(contribs.drop_last() == old_contribs);
                assert(slot_step(before[i as int], self.voices@[i as int], contribs[i as int], master_volume as int));
                if all_empty(before) {
                    assert(before[i as int] is None);
                }
            }
            i = i + 1;
        }
        proof {
            if all_empty(before) {
                assert forall|j: int| 0 <= j < POOL_SIZE implies self.voices@[j] == before[j] by {
                    assert(slot_step(before[j], self.voices@[j], contribs[j], master_volume as int));
                    assert(before[j] is None);
                }
                assert(self.voices@ =~= before);
            }
            assert(contribs.len() == POOL_SIZE && (forall|j: int|
                0 <= j < POOL_SIZE ==> #[trigger] slot_step(
                    before[j],
                    self.voices@[j],
                    contribs[j],
                    master_volume as int,
                )));
        }
        soft_clip(acc)
    }

    /// Mixes `frames` frames in order, then prunes finished voices once.
    /// Returns one soft-clipped sample per frame.
    pub fn mix_buffer(&mut self, frames: usize, master_volume: i64) -> (mono: Vec<i64>)
        requires
            old(self).wf(),
            0 <= master_volume <= UNIT,
        ensures
            final(self).wf(),
            mono@.len() == frames,
            buffer_mixed(old(self).voices@, final(self).voices@, mono@, master_volume as int),
            forall|f: int| 0 <= f < frames ==> -UNIT < #[trigger] mono@[f] < UNIT,
            forall|i: int|
                0 <= i < POOL_SIZE && #[trigger] final(self).voices@[i] is Some ==> old(
                    self,
                ).voices@[i] is Some && !final(self).voices@[i]->Some_0.finished(),
            all_empty(old(self).voices@) ==> final(self).voices@ == old(self).voices@ && forall|
                f: int,
            |
                0 <= f < frames ==> #[trigger] mono@[f] == 0,
    {
        let ghost before = self.voices@;
        let ghost mut states: Seq<Seq<Option<Note>>> = seq![before];
        let mut mono: Vec<i64> = Vec::new();
        let mut f: usize = 0;
        while f < frames
            invariant
                f <= frames,
                self.wf(),
                before == old(self).voices@,
                0 <= master_volume <= UNIT,
                mono@.len() == f,
                states.len() == f + 1,
                states[0] == before,
                states[f as int] == self.voices@,
                forall|g: int|
                    0 <= g < f ==> frame_mixed(
                        states[g],
                        states[g + 1],
                        #[trigger] mono@[g] as int,
                        master_volume as int,
                    ),
                forall|g: int| 0 <= g < f ==> -UNIT < #[trigger] mono@[g] < UNIT,
                forall|i: int|
                    0 <= i < POOL_SIZE && #[trigger] self.voices@[i] is Some ==> before[i] is Some,
                all_empty(before) ==> self.voices@ == before && forall|g: int|
                    0 <= g < f ==> #[trigger] mono@[g] == 0,
            decreases frames - f,
        {
            let ghost prev = self.voices@;
            let v = self.mix_frame(master_volume);
            proof {
                let c = choose|c: Seq<int>|
                    c.len() == prev.len() && v == soft_clip_q(seq_sum(c)) && (forall|i: int|
                        0 <= i < prev.len() ==> #[trigger] slot_step(
                            prev[i],
                            self.voices@[i],
                            c[i],
                            master_volume as int,
                        ));
                assert forall|i: int|
                    0 <= i < POOL_SIZE && #[trigger] self.voices@[i] is Some implies before[i] is Some by {
                    assert(slot_step(prev[i], self.voices@[i], c[i], master_volume as int));
                }
                states = states.push(self.voices@);
            }
            let ghost mono_before = mono@;
            mono.push(v);
            proof {
                assert forall|g: int|
                    0 <= g < f + 1 implies frame_mixed(
                        states[g],
                        states[g + 1],
                        #[trigger] mono@[g] as int,
                        master_volume as int,
                    ) by {
                    if g < f {
                        assert(mono@[g] == mono_before[g]);
                    }
                }
            }
            f = f + 1;
        }
        let ghost mixed = self.voices@;
        self.retain_active();
        proof {
            assert forall|i: int|
                0 <= i < POOL_SIZE && #[trigger] self.voices@[i] is Some implies before[i] is Some
                    && !self.voices@[i]->Some_0.finished() by {
                assert(mixed[i] is Some);
            }
            if all_empty(before) {
                assert forall|i: int| 0 <= i < POOL_SIZE implies self.voices@[i] == before[i] by {
                    assert(mixed[i] is None);
                }
                assert(self.voices@ =~= before);
            }
        }
        mono
    }
}

impl VoicePool {
    /// Renders one interleaved output buffer: as many whole frames as `out`
    /// holds are mixed (see `mix_buffer`) and each is written to every
    /// channel; the rest of `out` is kept.
    pub fn process(&mut self, out: &mut Vec<i64>, channels: usize, master_volume: i64)
        requires
            old(self).wf(),
            0 <= master_volume <= UNIT,
        ensures
            final(self).wf(),
            final(out)@.len() == old(out)@.len(),
            channels == 0 ==> final(out)@ == old(out)@ && final(self).voices@ == old(self).voices@,
            channels > 0 ==> ({
                let frames = (old(out)@.len() as int) / (channels as int);
                &&& exists|mono: Seq<i64>|
                    mono.len() == frames && buffer_mixed(
                        old(self).voices@,
                        final(self).voices@,
                        mono,
                        master_volume as int,
                    ) && forall|k: int|
                        0 <= k < frames * channels ==> #[trigger] final(out)@[k] == mono[k
                            / (channels as int)]
                &&& forall|k: int|
                    0 <= k < frames * channels ==> -UNIT < #[trigger] final(out)@[k] < UNIT
                &&& forall|k: int|
                    frames * channels <= k < old(out)@.len() ==> #[trigger] final(out)@[k]
                        == old(out)@[k]
                &&& all_empty(old(self).voices@) ==> final(self).voices@ == old(self).voices@
                    && forall|k: int| 0 <= k < frames * channels ==> #[trigger] final(out)@[k] == 0
            }),
    {
        if channels == 0 {
            return;
        }
        let frames = out.len() / channels;
        let mono = self.mix_buffer(frames, master_volume);
        write_interleaved(out, &mono, channels);
        proof {
            let fr = frames as int;
            let ch = channels as int;
            let len = old(out)@.len() as int;
            assert(fr * ch <= len) by (nonlinear_arith)
                requires fr == len / ch, ch > 0;
            assert forall|k: int| 0 <= k < fr * ch implies 0 <= #[trigger] (k / ch) < fr by {
                assert(0 <= k / ch < fr) by (nonlinear_arith)
                    requires 0 <= k < fr * ch, ch > 0;
            }
            assert forall|k: int| 0 <= k < fr * ch implies -UNIT < #[trigger] out@[k] < UNIT by {
                assert(0 <= k / ch < fr);
                assert(-UNIT < mono@[k / ch] < UNIT);
            }
            if all_empty(old(self).voices@) {
                assert forall|k: int| 0 <= k < fr * ch implies #[trigger] out@[k] == 0 by {
                    assert(0 <= k / ch < fr);
                    assert(mono@[k / ch] == 0);
                }
            }
        }
    }
}

/// Writes each mono frame to every channel of the interleaved buffer `out`,
/// as many whole frames as both buffers hold; the rest of `out` is kept.
pub fn write_interleaved(out: &mut Vec<i64>, mono: &Vec<i64>, channels: usize)
    ensures
        final(out)@.len() == old(out)@.len(),
        ({
            let n = if channels == 0 {
                0
            } else if mono@.len() < (old(out)@.len() as int) / (channels as int) {
                mono@.len() as int
            } else {
                (old(out)@.len() as int) / (channels as int)
            };
            &&& forall|k: int|
                0 <= k < n * channels ==> #[trigger] final(out)@[k] == mono@[k / (channels as int)]
            &&& forall|k: int|
                n * channels <= k < old(out)@.len() ==> #[trigger] final(out)@[k] == old(out)@[k]
        }),
{
    if channels == 0 {
        return;
    }
    let len = out.len();
    let avail = len / channels;
    let frames = if mono.len() < avail { mono.len() } else { avail };
    proof {
        assert(frames * channels <= len) by (nonlinear_arith)
            requires frames <= avail, avail == len / channels, channels > 0;
    }
    let ghost start = out@;
    let mut f: usize = 0;
    while f < frames
        invariant
            f <= frames,
            channels > 0,
            frames <= mono@.len(),
            frames * channels <= len,
            out@.len() == len,
            start.len() == len,
            forall|k: int| 0 <= k < f * channels ==> #[trigger] out@[k] == mono@[k / (channels as int)],
            forall|k: int| f * channels <= k < len ==> #[trigger] out@[k] == start[k],
        decreases frames - f,
    {
        proof {
            assert((f + 1) * channels <= frames * channels) by (nonlinear_arith)
                requires f + 1 <= frames, channels > 0;
            assert((f + 1) * channels == f * channels + channels) by (nonlinear_arith);
        }
        let base = f * channels;
        let v = mono[f];
        let mut c: usize = 0;
        while c < channels
            invariant
                c <= channels,
                channels > 0,
                base == f * channels,
                base + channels <= len,
                f < frames,
                frames <= mono@.len(),
                v == mono@[f as int],
                out@.len() == len,
                forall|k: int| 0 <= k < base ==> #[trigger] out@[k] == mono@[k / (channels as int)],
                forall|k: int| base <= k < base + c ==> #[trigger] out@[k] == v,
                forall|k: int| base + c <= k < len ==> #[trigger] out@[k] == start[k],
            decreases channels - c,
        {
            out.set(base + c, v);
            c = c + 1;
        }
        proof {
            assert forall|k: int| 0 <= k < (f + 1) * channels implies #[trigger] out@[k] == mono@[k
                / (channels as int)] by {
                if k >= base {
                    lemma_fundamental_div_mod_converse(k, channels as int, f as int, k - base);
                }
            }
        }
        f = f + 1;
    }
}

} // verus!
