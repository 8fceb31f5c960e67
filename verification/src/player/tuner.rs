//! The pitch-mapping capability: a note number becomes a frequency.

use vstd::prelude::*;

verus! {

/// Maps a MIDI note number to a frequency in millihertz.
///
/// A tuner is stateless configuration: the same note number always maps to
/// the same positive frequency, which `freq_spec` names in contracts.
pub trait Tuner {
    /// The frequency, in millihertz, this tuner assigns to `code`.
    spec fn freq_spec(&self, code: u8) -> u32;

    fn freq(&self, code: u8) -> (r: u32)
        requires
            code <= 127,
        ensures
            r == self.freq_spec(code),
            1 <= r,
    ;
}

} // verus!
