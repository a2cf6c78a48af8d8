//! The event translator: MIDI channel messages become voice-pool changes.

use vstd::prelude::*;

use crate::UNIT;
use crate::pitch::{transpose, transposed, semitone_ratio, lemma2_to_pow};
use crate::pool::{VoicePool, VoiceConfig, POOL_SIZE, started_voice, after_note_off};
use vstd::arithmetic::power2::{pow2, lemma_pow2_strictly_increases};

verus! {

/// Frequency of MIDI note `note` in millihertz: `440 Hz · 2^((note − 69)/12)`.
pub open spec fn note_freq(note: int) -> int {
    transposed(440000, note - 69)
}

/// A MIDI velocity (0–127) as a Q24 level in `[0, UNIT]`.
pub open spec fn velocity_q(v: int) -> int {
    v * UNIT / 127
}

/// Frequency of a MIDI note in millihertz.
pub fn midi_note_to_freq(note: u8) -> (r: u32)
    requires
        note <= 127,
    ensures
        r == note_freq(note as int),
{
    let f = transpose(440000, note as i32 - 69);
    proof {
        let s = note as int - 69 + 96;
        let oct = (s / 12) as nat;
        assert(oct <= 12);
        lemma2_to_pow(12);
        lemma2_to_pow(24);
        if oct < 12 {
            lemma_pow2_strictly_increases(oct, 12);
        }
        let r = semitone_ratio(s % 12);
        assert(r <= 123715);
        assert(440000 * r * pow2(oct) <= 440000 * 123715 * 4096) by (nonlinear_arith)
            requires 0 <= r <= 123715, pow2(oct) <= 4096;
        assert(440000 * r * pow2(oct) / pow2(24) as int <= 440000 * 123715 * 4096 / 16777216)
            by (nonlinear_arith)
            requires 440000 * r * pow2(oct) <= 440000 * 123715 * 4096, pow2(24) == 16777216;
    }
    f as u32
}

/// A MIDI velocity as a Q24 level.
pub fn velocity_from_midi(v: u8) -> (r: i64)
    requires
        v <= 127,
    ensures
        r == velocity_q(v as int),
        0 <= r <= UNIT,
{
    (v as i64) * UNIT / 127
}

/// Applies one MIDI message to the pool. Note-on (status `0x9n`) with a
/// non-zero velocity starts a voice for the note; note-on with velocity zero
/// and note-off (`0x8n`) release it. Anything else, messages shorter than
/// three bytes, and data bytes above 127 are ignored.
pub fn handle_midi_message(msg: &[u8], pool: &mut VoicePool, config: &VoiceConfig)
    requires
        old(pool).wf(),
    ensures
        final(pool).wf(),
        ({
            let valid = msg@.len() >= 3 && msg@[1] <= 127 && msg@[2] <= 127;
            let status = if msg@.len() >= 1 { msg@[0] / 16 } else { 0 };
            let starts = valid && status == 9 && msg@[2] > 0;
            let stops = valid && (status == 8 || (status == 9 && msg@[2] == 0));
            &&& starts ==> final(pool).voices@[msg@[1] as int] is Some
                && started_voice(
                    final(pool).voices@[msg@[1] as int]->Some_0,
                    velocity_q(msg@[2] as int) as i64,
                    note_freq(msg@[1] as int) as u32,
                    *config,
                ) && forall|i: int|
                    0 <= i < POOL_SIZE && i != msg@[1] ==> #[trigger] final(pool).voices@[i]
                        == old(pool).voices@[i]
            &&& stops ==> final(pool).voices@ == after_note_off(old(pool).voices@, msg@[1] as int)
            &&& !starts && !stops ==> final(pool).voices@ == old(pool).voices@
        }),
{
    if msg.len() < 3 || msg[1] > 127 || msg[2] > 127 {
        return;
    }
    let status = msg[0] / 16;
    let note = msg[1];
    if status == 9 && msg[2] > 0 {
        let velocity = velocity_from_midi(msg[2]);
        let freq = midi_note_to_freq(note);
        pool.note_on(note, velocity, freq, config);
    } else if status == 8 || status == 9 {
        pool.note_off(note);
    }
}

} // verus!
