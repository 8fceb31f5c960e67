//! A multi-track MIDI sequencing and sample-synthesis engine.
//!
//! The engine walks several independently timed MIDI tracks in tick order,
//! tracks the set of currently sounding notes per track, and mixes one sine
//! partial per active note into a monaural fixed-point sample stream.

pub mod display;
pub mod midi;
pub mod player;
pub mod ratio;
pub mod tune;

use vstd::prelude::*;

verus! {

/// Number of distinct MIDI note numbers (and velocity values).
pub const NOTE_RANGE: usize = 128;

} // verus!
