//! Per-sample synthesis in fixed point.
//!
//! Every sounding note contributes one sine partial. The oscillator phase
//! is computed exactly as a rational number of turns and quantized to
//! 2^-32 of a turn; the sine itself comes from an outside fixed-point
//! oscillator. A contribution is the sine value, an i32, times the note's
//! velocity; contributions add in 64 bits. Downstream consumers divide by
//! `127 * 2^31` to get the nominal [-1, 1] range.

use vstd::prelude::*;
use vstd::arithmetic::div_mod::lemma_div_is_ordered;
use vstd::arithmetic::div_mod::lemma_div_pos_is_pos;
use vstd::arithmetic::div_mod::lemma_multiply_divide_lt;

verus! {

/// Ticks per quarter note never exceed this: the container format stores
/// them in fifteen bits.
pub const TPN_MAX: u32 = 0x8000;

/// A mixer never sees more simultaneous voices than this: at most 128
/// notes on each of at most 65535 tracks.
pub const VOICES_MAX: u64 = 0x80_0000;

/// A currently sounding note, flattened for the mixer.
#[derive(Clone, Copy, Debug, PartialEq, Eq, Structural)]
pub struct Voice {
    /// The note's frequency in millihertz, from the tuner.
    pub freq_millihz: u32,
    /// The tick at which the note started.
    pub start_at: u64,
    /// The note's current velocity, `0..=127`.
    pub velocity: u8,
}

impl Voice {
    /// The voice's numbers are in range and its onset is no later than
    /// sample `s` of a stream at `sr` samples per second and `tpn` ticks
    /// per quarter note.
    pub open spec fn playable(self, s: int, sr: int, tpn: int) -> bool {
        &&& 1 <= self.freq_millihz
        &&& self.velocity <= 127
        &&& self.start_at * sr <= s * tpn
    }
}

/// The sine component that `idsp::cossin` returns for a phase measured in
/// units of 2^-32 of a turn.
pub uninterp spec fn sine_wave(phase: u32) -> i32;

/// Relies on `idsp::cossin`: its 32-bit phase argument spans one full
/// turn (so reinterpreting the unsigned phase as signed leaves the angle
/// unchanged modulo a turn), and it returns the cosine and sine of that
/// angle scaled to the i32 range, depending on the phase alone.
#[verifier::external_body]
fn sine_bits(phase: u32) -> (r: i32)
    ensures
        r == sine_wave(phase),
{
    idsp::cossin(phase as i32).1
}

/// The oscillator phase of a note at output sample `s`, in units of 2^-32
/// of a turn.
///
/// The note started at the exact stream position `start_at * sr / tpn`
/// (not necessarily an integer), so by sample `s` it has run for
/// `(s * tpn - start_at * sr) / (tpn * sr)` seconds, and its phase is that
/// time multiplied by `freq / 1000` turns per second, reduced modulo one
/// turn.
pub open spec fn phase_spec(freq: int, start_at: int, s: int, sr: int, tpn: int) -> int {
    let n = freq * (s * tpn - start_at * sr);
    let d = 1000 * tpn * sr;
    ((n % d) * 0x1_0000_0000) / d
}

/// Computes the exact quantized phase of `phase_spec`.
fn phase_at(freq: u32, start_at: u64, s: u64, sr: u32, tpn: u32) -> (r: u32)
    requires
        1 <= sr,
        1 <= tpn <= TPN_MAX,
        start_at * sr <= s * tpn,
    ensures
        r == phase_spec(freq as int, start_at as int, s as int, sr as int, tpn as int),
{
    proof {
        lemma_phase_products_fit(freq as int, start_at as int, s as int, sr as int, tpn as int);
    }
    let ticks_run: u128 = (s as u128) * (tpn as u128) - (start_at as u128) * (sr as u128);
    let n: u128 = (freq as u128) * ticks_run;
    let d: u128 = 1000 * (tpn as u128) * (sr as u128);
    let rem: u128 = n % d;
    let scaled: u128 = rem * 0x1_0000_0000;
    let q: u128 = scaled / d;
    proof {
        lemma_div_pos_is_pos(scaled as int, d as int);
        assert((scaled as int) < (d as int) * 0x1_0000_0000) by (nonlinear_arith)
            requires
                0 <= (rem as int) < (d as int),
                scaled == (rem as int) * 0x1_0000_0000,
        ;
        lemma_multiply_divide_lt(scaled as int, d as int, 0x1_0000_0000);
    }
    q as u32
}

/// The products in the phase computation fit in 128 bits.
proof fn lemma_phase_products_fit(freq: int, start_at: int, s: int, sr: int, tpn: int)
    requires
        0 <= freq <= u32::MAX,
        0 <= start_at <= u64::MAX,
        0 <= s <= u64::MAX,
        1 <= sr <= u32::MAX,
        1 <= tpn <= TPN_MAX,
        start_at * sr <= s * tpn,
    ensures
        0 <= s * tpn <= 0x8000_0000_0000_0000_0000,
        0 <= start_at * sr <= u128::MAX,
        0 <= freq * (s * tpn - start_at * sr) <= u128::MAX,
        0 < 1000 * tpn * sr <= 0x4_0000_0000_0000_0000,
        (freq * (s * tpn - start_at * sr)) % (1000 * tpn * sr) * 0x1_0000_0000 <= u128::MAX,
{
    assert(0 <= s * tpn <= 0x8000_0000_0000_0000_0000) by (nonlinear_arith)
        requires
            0 <= s <= u64::MAX,
            0 <= tpn <= 0x8000,
    ;
    assert(0 <= start_at * sr <= u128::MAX) by (nonlinear_arith)
        requires
            0 <= start_at <= u64::MAX,
            0 <= sr <= u32::MAX,
    ;
    assert(0 <= freq * (s * tpn - start_at * sr) && freq * (s * tpn - start_at * sr) <= u128::MAX)
        by (nonlinear_arith)
        requires
            0 <= freq <= u32::MAX,
            0 <= s * tpn - start_at * sr <= 0x8000_0000_0000_0000_0000,
    ;
    assert(0 < 1000 * tpn * sr <= 0x4_0000_0000_0000_0000) by (nonlinear_arith)
        requires
            1 <= tpn <= 0x8000,
            1 <= sr <= u32::MAX,
    ;
    let n = freq * (s * tpn - start_at * sr);
    let d = 1000 * tpn * sr;
    assert(0 <= n % d < d);
    assert(n % d * 0x1_0000_0000 <= u128::MAX) by (nonlinear_arith)
        requires
            0 <= n % d < 0x4_0000_0000_0000_0000,
    ;
}

/// What one voice adds to output sample `s`: its sine value times its
/// velocity.
pub open spec fn voice_term(v: Voice, s: int, sr: int, tpn: int) -> int {
    sine_wave(phase_spec(v.freq_millihz as int, v.start_at as int, s, sr, tpn) as u32)
        * v.velocity
}

/// The mixed value of output sample `s`: the sum of every voice's term,
/// in the order given.
pub open spec fn mix_spec(voices: Seq<Voice>, s: int, sr: int, tpn: int) -> int
    decreases voices.len(),
{
    if voices.len() == 0 {
        0
    } else {
        mix_spec(voices.drop_last(), s, sr, tpn) + voice_term(voices.last(), s, sr, tpn)
    }
}

/// Every voice term is small: a sine value times a velocity of at most 127.
pub proof fn lemma_voice_term_bound(v: Voice, s: int, sr: int, tpn: int)
    requires
        v.velocity <= 127,
    ensures
        -0x40_0000_0000 < voice_term(v, s, sr, tpn) < 0x40_0000_0000,
{
    let w = sine_wave(phase_spec(v.freq_millihz as int, v.start_at as int, s, sr, tpn) as u32);
    assert(i32::MIN <= w <= i32::MAX);
    assert(-0x40_0000_0000 < w * v.velocity < 0x40_0000_0000) by (nonlinear_arith)
        requires
            -0x8000_0000 <= w <= 0x7FFF_FFFF,
            0 <= v.velocity <= 127,
    ;
}

/// Mixes every voice's contribution to output sample `s`.
pub fn mix(voices: &Vec<Voice>, s: u64, sr: u32, tpn: u32) -> (out: i64)
    requires
        1 <= sr,
        1 <= tpn <= TPN_MAX,
        voices@.len() <= VOICES_MAX,
        forall|i: int|
            0 <= i < voices@.len() ==> (#[trigger] voices@[i]).playable(
                s as int,
                sr as int,
                tpn as int,
            ),
    ensures
        out == mix_spec(voices@, s as int, sr as int, tpn as int),
{
    let mut acc: i64 = 0;
    for i in 0..voices.len()
        invariant
            1 <= sr,
            1 <= tpn <= TPN_MAX,
            voices@.len() <= VOICES_MAX,
            forall|j: int|
                0 <= j < voices@.len() ==> (#[trigger] voices@[j]).playable(
                    s as int,
                    sr as int,
                    tpn as int,
                ),
            acc == mix_spec(voices@.take(i as int), s as int, sr as int, tpn as int),
            -0x40_0000_0000 * (i as int) <= acc <= 0x40_0000_0000 * (i as int),
    {
        let v = voices[i];
        proof {
            assert(voices@[i as int].playable(s as int, sr as int, tpn as int));
        }
        let phase = phase_at(v.freq_millihz, v.start_at, s, sr, tpn);
        let w = sine_bits(phase);
        proof {
            assert(-0x40_0000_0000 < (w as int) * (v.velocity as int) < 0x40_0000_0000)
                by (nonlinear_arith)
                requires
                    -0x8000_0000 <= w as int <= 0x7FFF_FFFF,
                    0 <= v.velocity as int <= 127,
            ;
            assert(-0x40_0000_0000 * ((i + 1) as int) <= -0x40_0000_0000 * (i as int)
                - 0x40_0000_0000);
            assert(0x40_0000_0000 * (i as int) + 0x40_0000_0000 <= 0x40_0000_0000 * ((i
                + 1) as int));
        }
        let term: i64 = (w as i64) * (v.velocity as i64);
        proof {
            lemma_voice_term_bound(v, s as int, sr as int, tpn as int);
            assert(voices@.take(i + 1).drop_last() =~= voices@.take(i as int));
            assert(voices@.take(i + 1).last() == voices@[i as int]);
        }
        acc = acc + term;
    }
    proof {
        assert(voices@.take(voices@.len() as int) =~= voices@);
    }
    acc
}

/// Removing one voice removes exactly its term from the mix.
proof fn lemma_mix_remove(voices: Seq<Voice>, j: int, s: int, sr: int, tpn: int)
    requires
        0 <= j < voices.len(),
    ensures
        mix_spec(voices.remove(j), s, sr, tpn) == mix_spec(voices, s, sr, tpn) - voice_term(
            voices[j],
            s,
            sr,
            tpn,
        ),
    decreases voices.len(),
{
    if j == voices.len() - 1 {
        assert(voices.remove(j) =~= voices.drop_last());
    } else {
        lemma_mix_remove(voices.drop_last(), j, s, sr, tpn);
        assert(voices.remove(j).drop_last() =~= voices.drop_last().remove(j));
        assert(voices.remove(j).last() == voices.last());
    }
}

/// Mixing does not depend on the order of the voices: two gatherings of
/// the same multiset of voices mix to the same sample.
pub proof fn lemma_mix_permutation(v1: Seq<Voice>, v2: Seq<Voice>, s: int, sr: int, tpn: int)
    requires
        v1.to_multiset() == v2.to_multiset(),
    ensures
        mix_spec(v1, s, sr, tpn) == mix_spec(v2, s, sr, tpn),
    decreases v1.len(),
{
    v1.to_multiset_ensures();
    v2.to_multiset_ensures();
    if v1.len() == 0 {
        assert(v2.len() == 0);
    } else {
        let x = v1.last();
        let d1 = v1.drop_last();
        assert(v1 =~= d1.push(x));
        assert(v1.to_multiset().count(x) > 0);
        assert(v2.to_multiset().count(x) > 0);
        assert(v2.contains(x));
        let j = choose|j: int| 0 <= j < v2.len() && v2[j] == x;
        lemma_mix_remove(v2, j, s, sr, tpn);
        lemma_mix_remove(v1, v1.len() - 1, s, sr, tpn);
        assert(v1.remove(v1.len() - 1) =~= d1);
        vstd::seq_lib::to_multiset_remove(v1, v1.len() - 1);
        vstd::seq_lib::to_multiset_remove(v2, j);
        lemma_mix_permutation(d1, v2.remove(j), s, sr, tpn);
    }
}

/// Mixing a concatenation adds the two mixes: what two groups of voices
/// contribute together is the sum of what each contributes alone.
pub proof fn lemma_mix_concat(a: Seq<Voice>, b: Seq<Voice>, s: int, sr: int, tpn: int)
    ensures
        mix_spec(a + b, s, sr, tpn) == mix_spec(a, s, sr, tpn) + mix_spec(b, s, sr, tpn),
    decreases b.len(),
{
    if b.len() == 0 {
        assert(a + b =~= a);
    } else {
        assert((a + b).drop_last() =~= a + b.drop_last());
        assert((a + b).last() == b.last());
        lemma_mix_concat(a, b.drop_last(), s, sr, tpn);
    }
}

} // verus!
