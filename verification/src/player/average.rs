//! The equal-tempered tuner.
//!
//! Twelve-tone equal temperament around the 440 Hz concert A. The twelve
//! semitone frequencies of the lowest octave are fixed millihertz constants
//! (each the nearest millihertz to the real, irrational value, and exact for
//! the As); every higher octave doubles them exactly.

use vstd::prelude::*;
use crate::player::tuner::Tuner;

verus! {

/// Two to the power `i`.
pub open spec fn pow2(i: int) -> int
    decreases i,
{
    if i <= 0 {
        1
    } else {
        2 * pow2(i - 1)
    }
}

/// The millihertz value of note `r` of the lowest octave, `0 <= r < 12`;
/// note 9 is the lowest A, exactly 440 Hz five octaves down.
pub open spec fn base_millihz(r: int) -> u32 {
    if r == 0 {
        8176
    } else if r == 1 {
        8662
    } else if r == 2 {
        9177
    } else if r == 3 {
        9723
    } else if r == 4 {
        10301
    } else if r == 5 {
        10913
    } else if r == 6 {
        11562
    } else if r == 7 {
        12250
    } else if r == 8 {
        12978
    } else if r == 9 {
        13750
    } else if r == 10 {
        14568
    } else {
        15434
    }
}

/// The equal-tempered frequency of a note number, in millihertz.
pub open spec fn et_millihz(code: int) -> int {
    base_millihz(code % 12) * pow2(code / 12)
}

/// The equal-tempered tuner.
pub struct Average;

impl Average {
    pub fn new() -> (r: Self) {
        Average
    }
}

impl Tuner for Average {
    open spec fn freq_spec(&self, code: u8) -> u32 {
        et_millihz(code as int) as u32
    }

    fn freq(&self, code: u8) -> (r: u32)
        ensures
            r == self.freq_spec(code),
            1 <= r,
    {
        let rem: u8 = code % 12;
        let oct: u8 = code / 12;
        let base: u32 = if rem == 0 {
            8176
        } else if rem == 1 {
            8662
        } else if rem == 2 {
            9177
        } else if rem == 3 {
            9723
        } else if rem == 4 {
            10301
        } else if rem == 5 {
            10913
        } else if rem == 6 {
            11562
        } else if rem == 7 {
            12250
        } else if rem == 8 {
            12978
        } else if rem == 9 {
            13750
        } else if rem == 10 {
            14568
        } else {
            15434
        };
        let mut f: u32 = base;
        let mut k: u8 = 0;
        proof {
            assert(pow2(10) == 1024) by {
                reveal_with_fuel(pow2, 11);
            }
            assert(base * pow2(10) < 0x1_0000_0000) by (nonlinear_arith)
                requires
                    1 <= base <= 15434,
                    pow2(10) == 1024,
            ;
            lemma_pow2_mono(0, oct as int, base as int);
        }
        while k < oct
            invariant
                k <= oct,
                oct <= 10,
                base == base_millihz(code as int % 12),
                8176 <= base <= 15434,
                f == base * pow2(k as int),
                f <= base * pow2(oct as int),
                base * pow2(10) < 0x1_0000_0000,
            decreases oct - k,
        {
            proof {
                lemma_pow2_step_bound(k as int, oct as int, base as int);
            }
            f = f * 2;
            k = k + 1;
        }
        proof {
            lemma_pow2_positive(oct as int);
            lemma_pow2_mono(oct as int, 10, base as int);
            assert(1 <= base * pow2(oct as int)) by (nonlinear_arith)
                requires
                    1 <= base,
                    1 <= pow2(oct as int),
            ;
        }
        f
    }
}

/// The 440 Hz concert A: note 69 maps to 440 000 millihertz.
pub proof fn lemma_concert_a()
    ensures
        et_millihz(69) == 440000,
{
    assert(pow2(5) == 32) by {
        reveal_with_fuel(pow2, 6);
    }
}

/// Each octave doubles the frequency exactly.
pub proof fn lemma_octave_doubles(code: int)
    requires
        0 <= code,
        code + 12 < 128,
    ensures
        et_millihz(code + 12) == 2 * et_millihz(code),
{
    assert((code + 12) % 12 == code % 12);
    assert((code + 12) / 12 == code / 12 + 1);
    lemma_pow2_positive(code / 12);
}

/// Powers of two are positive, and doubling steps stay in 32 bits below the
/// highest octave.
proof fn lemma_pow2_positive(i: int)
    ensures
        1 <= pow2(i),
    decreases (if i <= 0 { 0int } else { i }),
{
    if i > 0 {
        lemma_pow2_positive(i - 1);
    }
}

/// One doubling step keeps the running frequency within its octave bound.
proof fn lemma_pow2_step_bound(k: int, oct: int, base: int)
    requires
        0 <= k < oct <= 10,
        1 <= base <= 15434,
    ensures
        base * pow2(k + 1) <= base * pow2(oct),
        base * pow2(oct) <= base * pow2(10),
        2 * (base * pow2(k)) == base * pow2(k + 1),
        base * pow2(10) < 0x1_0000_0000,
    decreases oct - k,
{
    lemma_pow2_mono(k + 1, oct, base);
    lemma_pow2_mono(oct, 10, base);
    assert(pow2(10) == 1024) by {
        reveal_with_fuel(pow2, 11);
    }
    lemma_pow2_positive(k);
    assert(base * pow2(k + 1) == 2 * (base * pow2(k))) by (nonlinear_arith)
        requires
            pow2(k + 1) == 2 * pow2(k),
    ;
    assert(base * pow2(10) <= 15434 * 1024) by (nonlinear_arith)
        requires
            1 <= base <= 15434,
            pow2(10) == 1024,
    ;
}

/// Multiplying by a fixed positive base preserves the order of powers.
proof fn lemma_pow2_mono(a: int, b: int, base: int)
    requires
        0 <= a <= b,
        1 <= base,
    ensures
        base * pow2(a) <= base * pow2(b),
    decreases b - a,
{
    if a < b {
        lemma_pow2_mono(a, b - 1, base);
        lemma_pow2_positive(b - 1);
        assert(base * pow2(b - 1) <= base * pow2(b)) by (nonlinear_arith)
            requires
                1 <= base,
                1 <= pow2(b - 1),
                pow2(b) == 2 * pow2(b - 1),
        ;
    }
}

} // verus!
