use rust_synth::filters::{LowPassFilter, NotchFilter};
use rust_synth::oscillator::{
    poly_blep, saw_value, sine_value, square_value, triangle_value, wave_value, Oscillator,
    WaveType, HALF_CYCLE,
};
use rust_synth::pitch::transpose;
use rust_synth::{PHASE_ONE, UNIT};

fn to_f(x: i64) -> f64 {
    x as f64 / UNIT as f64
}

#[test]
fn phase_returns_after_one_period() {
    let mut o = Oscillator::new(WaveType::Sine, 44100);
    let start = o.phase;
    for _ in 0..(44100 / 440) {
        o.get_sample(440_000, 44100);
    }
    let d = (o.phase as i64 - start as i64).rem_euclid(PHASE_ONE as i64);
    let dist = d.min(PHASE_ONE as i64 - d) as f64 / PHASE_ONE as f64;
    assert!(dist < 0.01, "phase drift {}", dist);
}

#[test]
fn sine_shape_values() {
    assert_eq!(sine_value(0), 0);
    assert!((sine_value(PHASE_ONE / 4) - UNIT).abs() <= 1);
    assert!((sine_value(3 * (PHASE_ONE / 4)) + UNIT).abs() <= 1);
    let s = to_f(sine_value(PHASE_ONE / 12));
    assert!((s - 0.5).abs() < 1e-6, "{}", s);
    for i in 0..4096u64 {
        let p = i * (PHASE_ONE / 4096) + 12345;
        let exact = (2.0 * std::f64::consts::PI * p as f64 / PHASE_ONE as f64).sin();
        assert!((to_f(sine_value(p)) - exact).abs() < 2e-7, "{}", i);
    }
}

#[test]
fn triangle_is_continuous() {
    assert_eq!(triangle_value(0), 0);
    assert_eq!(triangle_value(PHASE_ONE / 4), UNIT);
    assert_eq!(triangle_value(HALF_CYCLE), 0);
    assert_eq!(triangle_value(3 * (PHASE_ONE / 4)), -UNIT);
    let mut prev = triangle_value(0);
    for i in 1..1024u64 {
        let v = triangle_value(i * (PHASE_ONE / 1024));
        assert!((v - prev).abs() <= UNIT / 64 + 1);
        prev = v;
    }
}

#[test]
fn poly_blep_polynomials() {
    let dt = PHASE_ONE / 10;
    assert_eq!(poly_blep(0, dt), -UNIT);
    // halfway into the correction window: 2t−t²−1 = −1/4 up to rounding
    assert!((poly_blep(dt / 2, dt) + UNIT / 4).abs() <= 2);
    assert_eq!(poly_blep(PHASE_ONE / 2, dt), 0);
    assert!((poly_blep(PHASE_ONE - dt / 2, dt) - UNIT / 4).abs() <= 2);
    assert_eq!(poly_blep(5, 0), 0);
}

#[test]
fn naive_shapes_without_increment() {
    assert_eq!(square_value(PHASE_ONE / 8, 0), UNIT);
    assert_eq!(square_value(5 * (PHASE_ONE / 8), 0), -UNIT);
    assert_eq!(saw_value(0, 0), -UNIT);
    assert_eq!(saw_value(HALF_CYCLE, 0), 0);
}

#[test]
fn corrected_saw_stays_in_unit_range() {
    let dt = PHASE_ONE / 3;
    for i in 0..1000u64 {
        let v = saw_value(i * (PHASE_ONE / 1000), dt);
        assert!(-UNIT <= v && v <= UNIT, "{}", i);
    }
}

fn high_band_energy(samples: &[f64]) -> f64 {
    let n = samples.len();
    let mut total = 0.0;
    for k in (n / 4 + 1)..=(n / 2) {
        let (mut re, mut im) = (0.0f64, 0.0f64);
        for (i, x) in samples.iter().enumerate() {
            let a = 2.0 * std::f64::consts::PI * (k * i) as f64 / n as f64;
            re += x * a.cos();
            im -= x * a.sin();
        }
        total += re * re + im * im;
    }
    total
}

fn band_energies(kind: WaveType, freq_mhz: u64, sr: u64) -> (f64, f64) {
    let inc = freq_mhz * PHASE_ONE / (sr * 1000);
    let mut phase = 0u64;
    let (mut corrected, mut naive) = (Vec::new(), Vec::new());
    for _ in 0..1024 {
        corrected.push(to_f(wave_value(kind, phase, inc)));
        naive.push(to_f(wave_value(kind, phase, 0)));
        phase = (phase + inc) % PHASE_ONE;
    }
    (high_band_energy(&corrected), high_band_energy(&naive))
}

#[test]
fn polyblep_lowers_high_band_energy() {
    for kind in [WaveType::Square, WaveType::Sawtooth] {
        let (c, n) = band_energies(kind, 12_000_000, 44100);
        assert!(c < n, "{:?}: corrected {} naive {}", kind, c, n);
    }
}

#[test]
fn silent_at_and_above_nyquist() {
    for kind in [WaveType::Sine, WaveType::Square, WaveType::Triangle, WaveType::Sawtooth] {
        let mut o = Oscillator::new(kind, 44100);
        for _ in 0..64 {
            assert_eq!(o.get_sample(22_050_000, 44100), 0);
            assert_eq!(o.get_sample(40_000_000, 44100), 0);
        }
    }
}

#[test]
fn quiet_frequencies_are_unfiltered() {
    let mut o = Oscillator::new(WaveType::Square, 44100);
    // the first sample sits on the rising edge, where the correction cancels it
    assert_eq!(o.get_sample(1_000_000, 44100), 0);
    assert_eq!(o.get_sample(1_000_000, 44100), UNIT);
}

#[test]
fn fades_between_quarter_and_half_rate() {
    let mut o = Oscillator::new(WaveType::Sine, 48000);
    let mut peak = 0i64;
    for _ in 0..2000 {
        peak = peak.max(o.get_sample(18_000_000, 48000).abs());
    }
    // halfway from 12 kHz to 24 kHz: gain one half
    assert!(peak <= UNIT / 2 + 1, "{}", to_f(peak));
}

#[test]
fn detune_shifts_frequency() {
    let mut o = Oscillator::new(WaveType::Sawtooth, 44100);
    o.detune = 12;
    let mut p = Oscillator::new(WaveType::Sawtooth, 44100);
    o.get_sample(220_000, 44100);
    p.get_sample(440_000, 44100);
    assert_eq!(o.phase, p.phase);
}

#[test]
fn transpose_octaves_are_exact() {
    assert_eq!(transpose(440_000, 0), 440_000);
    assert_eq!(transpose(440_000, 12), 880_000);
    assert_eq!(transpose(440_000, -12), 220_000);
    let fifth = transpose(440_000, 7) as f64 / 440_000.0;
    assert!((fifth - 2f64.powf(7.0 / 12.0)).abs() < 1e-4);
}

#[test]
fn wave_names() {
    assert_eq!(WaveType::Sine.as_str(), "Senoidal");
    assert_eq!(WaveType::Square.as_str(), "Cuadrada");
    assert_eq!(WaveType::Triangle.as_str(), "Triangular");
    assert_eq!(WaveType::Sawtooth.as_str(), "Sierra");
}

#[test]
fn lowpass_converges_to_input() {
    let mut f = LowPassFilter::new(1_000_000, 44100);
    let expected = 2.0 * std::f64::consts::PI * 1000.0 / (2.0 * std::f64::consts::PI * 1000.0 + 44100.0);
    assert!((to_f(f.alpha) - expected).abs() < 1e-3);
    let mut y = 0;
    for _ in 0..2000 {
        y = f.process(UNIT);
    }
    assert!(UNIT - y < UNIT / 100);
    f.set_cutoff(100_000, 44100);
    assert!(f.alpha < UNIT / 50);
    f.set_sample_rate(8000);
    assert!(f.alpha > UNIT / 20);
    let tiny = LowPassFilter::new(1, 192000);
    assert_eq!(tiny.alpha, 1);
}

#[test]
fn notch_passes_dc_and_rejects_centre() {
    let mut n = NotchFilter::new(1_000_000, UNIT * 7 / 10, 48000);
    assert_eq!(n.a0, UNIT);
    let mut y = 0;
    for _ in 0..5000 {
        y = n.process(UNIT / 2);
    }
    assert!((y - UNIT / 2).abs() < UNIT / 50, "{}", to_f(y));

    let mut n = NotchFilter::new(1_000_000, UNIT * 7 / 10, 48000);
    let mut peak = 0.0f64;
    for i in 0..9600 {
        let x = (2.0 * std::f64::consts::PI * 1000.0 * i as f64 / 48000.0).sin();
        let y = to_f(n.process((x * UNIT as f64 / 2.0) as i64));
        if i > 4800 {
            peak = peak.max(y.abs());
        }
    }
    assert!(peak < 0.1, "{}", peak);
}

#[test]
fn notch_recomputes_on_changes() {
    let mut n = NotchFilter::new(1_000_000, UNIT, 48000);
    let b1 = n.b1;
    n.set_frequency(4_000_000);
    assert_ne!(n.b1, b1);
    let a2 = n.a2;
    n.set_q(10 * UNIT);
    assert_ne!(n.a2, a2);
    let b0 = n.b0;
    n.set_sample_rate(96000);
    assert_ne!(n.b0, b0);
}
