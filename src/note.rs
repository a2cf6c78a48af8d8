//! A voice: one sounding note, made of two oscillators and an envelope.

use vstd::prelude::*;

use crate::UNIT;
use crate::envelope::{Envelope, EnvelopeState};
use crate::fixed::{mul_q, mul_unit, lemma_mul_q_shrinks};
use crate::oscillator::{Oscillator, WaveType, sample_step};

verus! {

/// One call of `Note::get_sample` on `o` that returned `r` and left `n`:
/// both oscillators step at the voice's frequency and are averaged.
pub open spec fn voice_step(o: Note, n: Note, r: int) -> bool {
    &&& n.frequency == o.frequency
    &&& n.sample_rate == o.sample_rate
    &&& n.envelope == o.envelope
    &&& exists|s1: int, s2: int|
        sample_step(o.osc1, n.osc1, s1, o.frequency as int, o.sample_rate as int)
            && sample_step(o.osc2, n.osc2, s2, o.frequency as int, o.sample_rate as int)
            && r == mul_q(s1 + s2, UNIT / 2)
}

#[derive(Clone, Copy)]
pub struct Note {
    /// Frequency in millihertz.
    pub frequency: u32,
    /// Sample rate in hertz.
    pub sample_rate: u32,
    pub envelope: Envelope,
    pub osc1: Oscillator,
    pub osc2: Oscillator,
}

impl Note {
    pub open spec fn wf(&self) -> bool {
        &&& self.envelope.wf()
        &&& self.osc1.wf()
        &&& self.osc2.wf()
    }

    /// A voice at `frequency` owning `envelope` and two fresh oscillators.
    pub fn new(
        frequency: u32,
        envelope: Envelope,
        sample_rate: u32,
        wave_type1: WaveType,
        wave_type2: WaveType,
    ) -> (n: Self)
        requires
            envelope.wf(),
        ensures
            n.wf(),
            n.frequency == frequency,
            n.sample_rate == sample_rate,
            n.envelope == envelope,
            n.osc1.is_fresh(wave_type1, sample_rate),
            n.osc2.is_fresh(wave_type2, sample_rate),
    {
        Note {
            frequency,
            sample_rate,
            envelope,
            osc1: Oscillator::new(wave_type1, sample_rate),
            osc2: Oscillator::new(wave_type2, sample_rate),
        }
    }

    /// The average of both oscillators at the voice's frequency; each
    /// oscillator advances by one sample. The envelope is left alone.
    pub fn get_sample(&mut self) -> (r: i64)
        requires
            old(self).wf(),
        ensures
            final(self).wf(),
            voice_step(*old(self), *final(self), r as int),
            -3 * UNIT <= r <= 3 * UNIT,
    {
        let s1 = self.osc1.get_sample(self.frequency, self.sample_rate);
        let s2 = self.osc2.get_sample(self.frequency, self.sample_rate);
        proof {
            lemma_mul_q_shrinks(s1 + s2, UNIT / 2);
            assert(-6 * UNIT <= mul_q(s1 + s2, UNIT / 2) <= 6 * UNIT);
            let p = s1 + s2;
            let u = UNIT as int;
            if p >= 0 {
                assert(p * (u / 2) / u <= 3 * u) by (nonlinear_arith)
                    requires 0 <= p <= 6 * u, u == 16777216;
            } else {
                assert((-p) * (u / 2) / u <= 3 * u) by (nonlinear_arith)
                    requires 0 <= -p <= 6 * u, u == 16777216;
                assert(-(p * (u / 2)) == (-p) * (u / 2)) by (nonlinear_arith);
            }
        }
        mul_unit(s1 + s2, UNIT / 2)
    }

    /// Retunes the voice; the oscillators pick the new frequency up on their
    /// next sample, keeping their phase.
    pub fn update_frequency(&mut self, new_frequency: u32)
        ensures
            *final(self) == (Note { frequency: new_frequency, ..*old(self) }),
    {
        self.frequency = new_frequency;
    }

    /// Moves the voice to another sample rate; the envelope recomputes its
    /// increments for it.
    pub fn set_sample_rate(&mut self, sample_rate: u32)
        requires
            old(self).wf(),
        ensures
            final(self).wf(),
            final(self).sample_rate == sample_rate,
            final(self).envelope.sample_rate == sample_rate,
            final(self).envelope.state == old(self).envelope.state,
            final(self).envelope.current_level == old(self).envelope.current_level,
            final(self).envelope.attack_time == old(self).envelope.attack_time,
            final(self).envelope.decay_time == old(self).envelope.decay_time,
            final(self).envelope.sustain_level == old(self).envelope.sustain_level,
            final(self).envelope.release_time == old(self).envelope.release_time,
            final(self).envelope.velocity == old(self).envelope.velocity,
            final(self).frequency == old(self).frequency,
            final(self).osc1 == old(self).osc1,
            final(self).osc2 == old(self).osc2,
    {
        self.sample_rate = sample_rate;
        self.envelope.set_sample_rate(sample_rate);
    }

    /// True once the voice's envelope has finished its release.
    pub open spec fn finished(&self) -> bool {
        self.envelope.state == EnvelopeState::Idle
    }
}

} // verus!
