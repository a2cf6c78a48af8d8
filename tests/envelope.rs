use rust_synth::envelope::{Envelope, EnvelopeState};
use rust_synth::UNIT;

fn standard_envelope() -> Envelope {
    let mut e = Envelope::new(44100);
    e.set_adsr(10, 100, (0.7 * UNIT as f64) as i64, 300);
    e.set_velocity(UNIT);
    e
}

#[test]
fn new_envelope_is_idle_and_silent() {
    let mut e = Envelope::new(48000);
    assert!(e.is_finished());
    assert_eq!(e.next_sample(), 0);
    assert_eq!(e.state, EnvelopeState::Idle);
}

#[test]
fn attack_reaches_full_level_after_attack_time() {
    let mut e = standard_envelope();
    e.note_on();
    let n = (0.01f64 * 44100.0).ceil() as usize;
    for _ in 0..n {
        e.next_sample();
    }
    let level = e.current_level as f64 / UNIT as f64;
    assert!((level - 1.0).abs() < 1e-3, "level {}", level);
}

#[test]
fn release_from_sustain_ends_within_bound() {
    let mut e = standard_envelope();
    e.note_on();
    for _ in 0..20000 {
        e.next_sample();
    }
    assert_eq!(e.state, EnvelopeState::Sustain);
    assert_eq!(e.current_level, (0.7 * UNIT as f64) as i64);
    e.note_off();
    assert_eq!(e.state, EnvelopeState::Release);
    let bound = (0.3f64 * 44100.0 / 0.7).ceil() as usize;
    let mut taken = 0usize;
    while !e.is_finished() {
        e.next_sample();
        taken += 1;
        assert!(taken <= bound);
    }
    assert_eq!(e.current_level, 0);
}

#[test]
fn lifecycle_levels_are_monotone_per_stage() {
    let mut e = standard_envelope();
    e.note_on();
    let mut prev = e.current_level;
    let mut seen_decay = false;
    for _ in 0..10000 {
        let state = e.state;
        e.next_sample();
        match state {
            EnvelopeState::Attack => assert!(e.current_level >= prev),
            EnvelopeState::Decay => {
                seen_decay = true;
                assert!(e.current_level <= prev)
            }
            EnvelopeState::Sustain => assert_eq!(e.current_level, prev),
            _ => {}
        }
        prev = e.current_level;
    }
    assert!(seen_decay);
    assert_eq!(e.state, EnvelopeState::Sustain);
    e.note_off();
    let mut steps = 0;
    while !e.is_finished() {
        e.next_sample();
        assert!(e.current_level <= prev);
        prev = e.current_level;
        steps += 1;
        assert!(steps < 100000);
    }
}

#[test]
fn output_scales_with_velocity() {
    let mut e = standard_envelope();
    e.set_velocity(UNIT / 2);
    e.note_on();
    for _ in 0..441 {
        e.next_sample();
    }
    assert_eq!(e.current_level, UNIT);
    // first decay step: level drops a little, output is half of it
    let out = e.next_sample();
    assert_eq!(out, e.current_level * (UNIT / 2) / UNIT);
}

#[test]
fn note_off_on_idle_is_noop() {
    let mut e = Envelope::new(44100);
    e.note_off();
    assert_eq!(e.state, EnvelopeState::Idle);
}

#[test]
fn zero_times_do_not_stall() {
    let mut e = Envelope::new(44100);
    e.set_adsr(0, 0, UNIT / 2, 0);
    e.note_on();
    e.next_sample();
    assert_eq!(e.current_level, UNIT);
    e.next_sample();
    assert_eq!(e.current_level, UNIT / 2);
    assert_eq!(e.state, EnvelopeState::Sustain);
    e.note_off();
    e.next_sample();
    assert!(e.is_finished());
}

#[test]
fn sustain_is_clamped() {
    let mut e = Envelope::new(44100);
    e.set_adsr(10, 10, 2 * UNIT, 10);
    assert_eq!(e.sustain_level, UNIT);
    e.set_adsr(10, 10, -5, 10);
    assert_eq!(e.sustain_level, 0);
}

#[test]
fn retrigger_restarts_from_silence() {
    let mut e = standard_envelope();
    e.note_on();
    for _ in 0..200 {
        e.next_sample();
    }
    assert!(e.current_level > 0);
    e.note_on();
    assert_eq!(e.current_level, 0);
    assert_eq!(e.state, EnvelopeState::Attack);
}

#[test]
fn stage_lengths_match_time_constants() {
    let mut e = Envelope::new(44100);
    e.set_adsr(1000, 500, UNIT / 4, 2000);
    e.note_on();
    let mut n = 0usize;
    while e.state == EnvelopeState::Attack {
        e.next_sample();
        n += 1;
    }
    assert_eq!(n, 44100);
    assert_eq!(e.current_level, UNIT);
    n = 0;
    while e.state == EnvelopeState::Decay {
        e.next_sample();
        n += 1;
    }
    assert_eq!(n, 22050);
    assert_eq!(e.current_level, UNIT / 4);
    e.note_off();
    n = 0;
    while e.state == EnvelopeState::Release {
        e.next_sample();
        n += 1;
    }
    assert_eq!(n, 88200);
    assert!(e.is_finished());
}

#[test]
fn very_long_attack_keeps_its_length() {
    let mut e = Envelope::new(48000);
    e.set_adsr(400_000, 10, UNIT / 2, 10);
    e.note_on();
    let mut n = 0u64;
    while e.state == EnvelopeState::Attack {
        e.next_sample();
        n += 1;
    }
    assert_eq!(n, 400 * 48000);
}

#[test]
fn release_from_attack_with_zero_sustain_ends() {
    let mut e = Envelope::new(44100);
    e.set_adsr(100, 100, 0, 50);
    e.note_on();
    for _ in 0..2000 {
        e.next_sample();
    }
    e.note_off();
    let mut n = 0;
    while !e.is_finished() {
        e.next_sample();
        n += 1;
    }
    assert!(n <= 2205, "{}", n);
}
