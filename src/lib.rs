//! A polyphonic synthesis core in fixed-point arithmetic.
//!
//! Every amplitude (samples, envelope levels, velocity, volume) is a signed
//! fixed-point number with `UNIT` standing for 1.0. Phases are unsigned
//! fractions of one cycle with `PHASE_ONE` standing for a whole cycle.
//! Frequencies are given in millihertz and sample rates in hertz.

use vstd::prelude::*;

pub mod envelope;
pub mod fixed;
pub mod pitch;
pub mod filters;
pub mod oscillator;
pub mod note;
pub mod pool;
pub mod wavetable;
pub mod midi;

verus! {

/// The fixed-point value of 1.0 for amplitudes (Q24).
pub const UNIT: i64 = 16777216;

/// One full oscillator cycle as a fixed-point phase (Q32).
pub const PHASE_ONE: u64 = 4294967296;

} // verus!
