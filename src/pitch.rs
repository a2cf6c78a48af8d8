//! Pitch arithmetic: equal-tempered transposition.
//!
//! Frequencies are in millihertz.

use vstd::prelude::*;
use vstd::arithmetic::power2::{pow2, lemma_pow2_unfold, lemma_pow2_strictly_increases};

verus! {

/// Widest transposition, in semitones, either way (eight octaves).
pub const MAX_SEMITONES: i32 = 96;

/// `2^(k/12)` in Q16, rounded to nearest, for the twelve semitones of an octave.
pub open spec fn semitone_ratio(k: int) -> int {
    if k == 0 { 65536 }
    else if k == 1 { 69433 }
    else if k == 2 { 73562 }
    else if k == 3 { 77936 }
    else if k == 4 { 82570 }
    else if k == 5 { 87480 }
    else if k == 6 { 92682 }
    else if k == 7 { 98193 }
    else if k == 8 { 104032 }
    else if k == 9 { 110218 }
    else if k == 10 { 116772 }
    else { 123715 }
}

/// `freq · 2^(semitones/12)`, rounded down: the octave part is exact and the
/// remaining semitones go through `semitone_ratio`.
pub open spec fn transposed(freq: int, semitones: int) -> int {
    let s = semitones + MAX_SEMITONES;
    freq * semitone_ratio(s % 12) * pow2((s / 12) as nat) as int / pow2(24) as int
}

fn ratio_of(k: u32) -> (r: u64)
    requires
        k < 12,
    ensures
        r == semitone_ratio(k as int),
        65536 <= r <= 123715,
{
    match k {
        0 => 65536,
        1 => 69433,
        2 => 73562,
        3 => 77936,
        4 => 82570,
        5 => 87480,
        6 => 92682,
        7 => 98193,
        8 => 104032,
        9 => 110218,
        10 => 116772,
        _ => 123715,
    }
}

/// Shifts `freq` by `semitones` in equal temperament.
pub fn transpose(freq: u32, semitones: i32) -> (r: u64)
    requires
        -MAX_SEMITONES <= semitones <= MAX_SEMITONES,
    ensures
        r == transposed(freq as int, semitones as int),
        r <= 0x200_0000_0000,
{
    let s: u32 = (semitones + MAX_SEMITONES) as u32;
    let octaves: u32 = s / 12;
    let base: u128 = (freq as u128) * (ratio_of(s % 12) as u128);
    let mut acc: u128 = base;
    let mut i: u32 = 0;
    proof {
        lemma2_to_pow(0);
        assert(base <= 0xffff_ffff * 123715) by (nonlinear_arith)
            requires base == freq as int * semitone_ratio((s % 12) as int),
                freq <= 0xffff_ffff, semitone_ratio((s % 12) as int) <= 123715;
    }
    while i < octaves
        invariant
            octaves <= 16,
            i <= octaves,
            base <= 0xffff_ffff * 123715,
            acc == base * pow2(i as nat),
        decreases octaves - i,
    {
        proof {
            lemma_pow2_unfold((i + 1) as nat);
            lemma_pow2_strictly_increases(i as nat, 16);
            lemma2_to_pow(16);
            assert(base * pow2(i as nat) <= 0xffff_ffff * 123715 * 65536) by (nonlinear_arith)
                requires base <= 0xffff_ffff * 123715, pow2(i as nat) <= 65536;
            assert(base * pow2((i + 1) as nat) == 2 * (base * pow2(i as nat))) by (nonlinear_arith)
                requires pow2((i + 1) as nat) == 2 * pow2(i as nat);
        }
        acc = acc * 2;
        i = i + 1;
    }
    proof {
        lemma2_to_pow(24);
        if i < 16 {
            lemma_pow2_strictly_increases(i as nat, 16);
        }
        lemma2_to_pow(16);
        assert(acc <= 0xffff_ffff * 123715 * 65536) by (nonlinear_arith)
            requires acc == base * pow2(i as nat), base <= 0xffff_ffff * 123715,
                pow2(i as nat) <= 65536;
    }
    proof {
        assert(acc / 16777216 <= 0x200_0000_0000) by (nonlinear_arith)
            requires acc <= 0xffff_ffff * 123715 * 65536;
    }
    (acc / 16777216) as u64
}

/// Small powers of two, as literals.
pub proof fn lemma2_to_pow(e: nat)
    ensures
        e == 0 ==> pow2(e) == 1,
        e == 12 ==> pow2(e) == 4096,
        e == 16 ==> pow2(e) == 65536,
        e == 24 ==> pow2(e) == 16777216,
{
    vstd::arithmetic::power2::lemma2_to64();
}

} // verus!
