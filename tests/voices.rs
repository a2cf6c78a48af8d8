use std::sync::Arc;

use rust_synth::envelope::{Envelope, EnvelopeState};
use rust_synth::midi::{handle_midi_message, midi_note_to_freq, velocity_from_midi};
use rust_synth::note::Note;
use rust_synth::oscillator::WaveType;
use rust_synth::pool::{soft_clip, write_interleaved, VoiceConfig, VoicePool, POOL_SIZE};
use rust_synth::wavetable::{SineTable, WavetableOscillator, MAX_ENTRY_STEP, WAVETABLE_SIZE};
use rust_synth::{PHASE_ONE, UNIT};

fn config() -> VoiceConfig {
    VoiceConfig {
        sample_rate: 44100,
        wave_type: WaveType::Sine,
        attack: 10,
        decay: 100,
        sustain: UNIT * 7 / 10,
        release: 300,
    }
}

fn to_f(x: i64) -> f64 {
    x as f64 / UNIT as f64
}

#[test]
fn soft_clip_stays_inside_unit_range() {
    for x in [i64::MIN, -100 * UNIT, -3 * UNIT, -UNIT, -1, 0, 1, UNIT / 2, UNIT, 3 * UNIT - 1, i64::MAX] {
        let y = soft_clip(x);
        assert!(-UNIT < y && y < UNIT, "{} -> {}", x, y);
    }
    assert_eq!(soft_clip(0), 0);
    assert_eq!(soft_clip(3 * UNIT), UNIT - 1);
}

#[test]
fn soft_clip_tracks_tanh() {
    for i in -40..=40 {
        let x = i as f64 / 10.0;
        let y = to_f(soft_clip((x * UNIT as f64) as i64));
        assert!((y - x.tanh()).abs() < 0.03, "{} -> {} vs {}", x, y, x.tanh());
    }
}

#[test]
fn soft_clip_twice_is_close_to_once() {
    for i in -99..=99 {
        let x = (i as f64 / 100.0 * UNIT as f64) as i64;
        let once = soft_clip(x);
        let twice = soft_clip(once);
        assert!((to_f(twice) - to_f(once)).abs() < 0.15, "{}", i);
        assert!(twice.abs() <= once.abs());
    }
}

#[test]
fn note_on_replaces_existing_voice() {
    let mut pool = VoicePool::new();
    pool.note_on(60, UNIT, 261_626, &config());
    for _ in 0..500 {
        pool.mix_frame(UNIT);
    }
    let before = pool.voices[60].unwrap();
    assert!(before.envelope.current_level > 0);
    pool.note_on(60, UNIT / 2, 300_000, &config());
    let after = pool.voices[60].unwrap();
    assert_eq!(after.envelope.state, EnvelopeState::Attack);
    assert_eq!(after.envelope.current_level, 0);
    assert_eq!(after.envelope.velocity, UNIT / 2);
    assert_eq!(after.frequency, 300_000);
    assert_eq!(after.osc1.phase, 0);
}

#[test]
fn note_off_on_missing_note_is_noop() {
    let mut pool = VoicePool::new();
    pool.note_on(10, UNIT, 440_000, &config());
    pool.note_off(11);
    pool.note_off(200);
    assert!(pool.voices[11].is_none());
    assert_eq!(pool.voices[10].unwrap().envelope.state, EnvelopeState::Attack);
    pool.note_off(10);
    assert_eq!(pool.voices[10].unwrap().envelope.state, EnvelopeState::Release);
}

#[test]
fn empty_pool_mixes_silence() {
    let mut pool = VoicePool::new();
    let mono = pool.mix_buffer(256, UNIT);
    assert_eq!(mono.len(), 256);
    assert!(mono.iter().all(|&s| s == 0));
    let mut out = vec![7i64; 512];
    write_interleaved(&mut out, &mono, 2);
    assert!(out.iter().all(|&s| s == 0));
}

#[test]
fn finished_voices_are_pruned() {
    let mut pool = VoicePool::new();
    let mut c = config();
    c.attack = 0;
    c.decay = 0;
    c.release = 0;
    pool.note_on(5, UNIT, 440_000, &c);
    pool.note_off(5);
    let mono = pool.mix_buffer(4, UNIT);
    assert_eq!(mono.len(), 4);
    assert!(pool.voices[5].is_none());
    assert_eq!(pool.voices.len(), POOL_SIZE);
}

#[test]
fn mixed_voice_is_bounded_and_audible() {
    let mut pool = VoicePool::new();
    pool.note_on(69, UNIT, 440_000, &config());
    pool.note_on(72, UNIT, 523_251, &config());
    let mono = pool.mix_buffer(4410, UNIT * 15 / 100);
    assert!(mono.iter().all(|&s| -UNIT < s && s < UNIT));
    assert!(mono.iter().any(|&s| s.abs() > UNIT / 20));
    assert!(pool.voices[69].is_some() && pool.voices[72].is_some());
}

#[test]
fn interleaving_copies_each_frame_to_every_channel() {
    let mono = vec![1i64, 2, 3];
    let mut out = vec![9i64; 7];
    write_interleaved(&mut out, &mono, 2);
    assert_eq!(out, vec![1, 1, 2, 2, 3, 3, 9]);
    let mut short = vec![0i64; 4];
    write_interleaved(&mut short, &mono, 3);
    assert_eq!(short, vec![1, 1, 1, 0]);
    let mut none = vec![5i64; 2];
    write_interleaved(&mut none, &mono, 0);
    assert_eq!(none, vec![5, 5]);
}

#[test]
fn voice_averages_its_oscillators() {
    let env = Envelope::new(44100);
    let mut v = Note::new(1_000_000, env, 44100, WaveType::Square, WaveType::Triangle);
    v.get_sample();
    // square at +1, triangle at phase 1/44.1 of a cycle
    let s = v.get_sample();
    let tri = 4.0 * 1000.0 / 44100.0;
    assert!((to_f(s) - (1.0 + tri) / 2.0).abs() < 1e-3, "{}", to_f(s));
    v.update_frequency(2_000_000);
    assert_eq!(v.frequency, 2_000_000);
    v.set_sample_rate(48000);
    assert_eq!(v.envelope.sample_rate, 48000);
}

#[test]
fn midi_frequencies() {
    assert_eq!(midi_note_to_freq(69), 440_000);
    assert_eq!(midi_note_to_freq(81), 880_000);
    assert_eq!(midi_note_to_freq(57), 220_000);
    let c4 = midi_note_to_freq(60) as f64 / 1000.0;
    assert!((c4 - 261.626).abs() < 0.05, "{}", c4);
    let top = midi_note_to_freq(127) as f64 / 1000.0;
    assert!((top - 12543.85).abs() < 2.0, "{}", top);
    assert_eq!(velocity_from_midi(127), UNIT);
    assert_eq!(velocity_from_midi(0), 0);
}

#[test]
fn midi_messages_drive_the_pool() {
    let mut pool = VoicePool::new();
    handle_midi_message(&[0x90, 69, 100], &mut pool, &config());
    let v = pool.voices[69].unwrap();
    assert_eq!(v.frequency, 440_000);
    assert_eq!(v.envelope.velocity, 100 * UNIT / 127);
    handle_midi_message(&[0x80, 69, 0], &mut pool, &config());
    assert_eq!(pool.voices[69].unwrap().envelope.state, EnvelopeState::Release);
    handle_midi_message(&[0x91, 70, 90], &mut pool, &config());
    handle_midi_message(&[0x91, 70, 0], &mut pool, &config());
    assert_eq!(pool.voices[70].unwrap().envelope.state, EnvelopeState::Release);
    handle_midi_message(&[0x90, 71], &mut pool, &config());
    handle_midi_message(&[0xB0, 71, 5], &mut pool, &config());
    handle_midi_message(&[0x90, 200, 5], &mut pool, &config());
    assert!(pool.voices[71].is_none());
}

#[test]
fn sine_table_holds_one_cycle() {
    let t = SineTable::new().expect("the sine table is smooth");
    assert_eq!(t.values.len(), WAVETABLE_SIZE);
    assert_eq!(t.values[0], 0);
    assert!((t.values[WAVETABLE_SIZE / 4] - UNIT).abs() <= 1);
    assert!((t.values[3 * WAVETABLE_SIZE / 4] + UNIT).abs() <= 1);
    for i in 0..WAVETABLE_SIZE {
        let d = t.values[(i + 1) % WAVETABLE_SIZE] - t.values[i];
        assert!(d.abs() <= MAX_ENTRY_STEP);
    }
}

#[test]
fn wavetable_follows_sine() {
    let table = Arc::new(SineTable::new().unwrap());
    let mut o = WavetableOscillator::new(table.clone(), 44100, 1_000_000);
    for i in 0..441 {
        let expected = (2.0 * std::f64::consts::PI * 1000.0 * i as f64 / 44100.0).sin();
        let got = to_f(o.get_sample());
        assert!((got - expected).abs() < 0.01, "{}: {} vs {}", i, got, expected);
    }
}

#[test]
fn wavetable_retune_keeps_phase() {
    let table = Arc::new(SineTable::new().unwrap());
    let mut o = WavetableOscillator::new(table, 44100, 440_000);
    for _ in 0..37 {
        o.get_sample();
    }
    let before = o.get_sample();
    let phase = o.phase;
    o.set_frequency(880_000, 44100);
    assert_eq!(o.phase, phase);
    let after = o.get_sample();
    let step = 2.0 * std::f64::consts::PI * 440.0 / 44100.0;
    assert!((to_f(after) - to_f(before)).abs() <= step + 1e-5);
    assert!(o.phase_increment > 0 && o.phase_increment < PHASE_ONE);
}

#[test]
fn wavetable_slow_start_is_not_steeper_than_sine() {
    let table = Arc::new(SineTable::new().unwrap());
    let mut o = WavetableOscillator::new(table, 4096, 10_000);
    let y1 = o.get_sample();
    o.set_frequency(20_000, 4096);
    let y2 = o.get_sample();
    let bound = 2.0 * std::f64::consts::PI * 10.0 / 4096.0 + 1e-5;
    assert!((to_f(y2) - to_f(y1)).abs() <= bound, "{}", to_f(y2) - to_f(y1));
}

#[test]
fn process_writes_every_channel() {
    let mut pool = VoicePool::new();
    let mut out = vec![3i64; 9];
    pool.process(&mut out, 2, UNIT);
    assert_eq!(out, vec![0, 0, 0, 0, 0, 0, 0, 0, 3]);
    pool.note_on(69, UNIT, 440_000, &config());
    let mut out = vec![0i64; 2000];
    pool.process(&mut out, 2, UNIT);
    for f in 0..1000 {
        assert_eq!(out[2 * f], out[2 * f + 1]);
        assert!(-UNIT < out[2 * f] && out[2 * f] < UNIT);
    }
    assert!(out.iter().any(|&s| s != 0));
}

#[test]
fn pool_moves_voices_to_new_rate() {
    let mut pool = VoicePool::new();
    pool.note_on(60, UNIT, 261_626, &config());
    pool.set_sample_rate(48000);
    let v = pool.voices[60].unwrap();
    assert_eq!(v.sample_rate, 48000);
    assert_eq!(v.envelope.sample_rate, 48000);
    assert_eq!(v.envelope.attack_samples, 480);
    assert!(pool.voices[61].is_none());
}
