//! The parsed MIDI document, as the sequencing engine sees it.
//!
//! A document is an ordered list of tracks; a track is an ordered list of
//! delta-timed events. The engine never touches raw bytes: the container
//! format is decoded by an outside collaborator, which hands over plain
//! values shaped like these types.

use vstd::prelude::*;

verus! {

/// The largest value a MIDI data byte can carry (note numbers, velocities).
pub const DATA_MAX: u8 = 127;

/// The largest delta-tick a track event can declare (a 28-bit quantity in
/// the container format).
pub const DELTA_MAX: u32 = 0x0FFF_FFFF;

/// The largest number of events a single track may hold here; a machine
/// limit, far beyond any real file.
pub const TRACK_EVENTS_MAX: u64 = 0x1_0000_0000;

/// The largest number of tracks; the container format stores the track
/// count in sixteen bits.
pub const TRACKS_MAX: usize = 0xFFFF;

/// What a track event does.
#[derive(Clone, Copy, Debug, PartialEq, Eq, Structural)]
pub enum Payload {
    /// Starts (or restarts) a note at a velocity.
    NoteOn { key: u8, velocity: u8 },
    /// Releases a note; the release velocity does not affect synthesis.
    NoteOff { key: u8, velocity: u8 },
    /// Changes the velocity of a note already sounding.
    Aftertouch { key: u8, velocity: u8 },
    /// A meta event (track name, tempo, lyric, ...): observability only,
    /// no effect on synthesis.
    Meta,
    /// Anything else (controllers, program changes, pitch bend, system
    /// messages): no effect on synthesis.
    Other,
}

/// One track event: a delta-tick since the previous event, and what it does.
#[derive(Clone, Copy, Debug, PartialEq, Eq, Structural)]
pub struct Event {
    pub delta: u32,
    pub payload: Payload,
}

/// How the document maps ticks to time.
#[derive(Clone, Copy, Debug, PartialEq, Eq, Structural)]
pub enum Timing {
    /// Ticks per quarter note; the only timing the engine supports.
    Metrical(u16),
    /// Frames-per-second timing; rejected before any synthesis.
    Timecode,
}

/// A parsed MIDI document: a timing declaration and the tracks.
pub struct Document {
    pub timing: Timing,
    pub tracks: Vec<Vec<Event>>,
}

impl Event {
    /// The event's numbers fit the container format's fields.
    pub open spec fn wf(self) -> bool {
        &&& self.delta <= DELTA_MAX
        &&& match self.payload {
            Payload::NoteOn { key, velocity } => key <= DATA_MAX && velocity <= DATA_MAX,
            Payload::NoteOff { key, velocity } => key <= DATA_MAX && velocity <= DATA_MAX,
            Payload::Aftertouch { key, velocity } => key <= DATA_MAX && velocity <= DATA_MAX,
            Payload::Meta => true,
            Payload::Other => true,
        }
    }
}

/// Every event is well formed and the track is not absurdly long.
pub open spec fn track_wf(events: Seq<Event>) -> bool {
    &&& events.len() <= TRACK_EVENTS_MAX
    &&& forall|i: int| 0 <= i < events.len() ==> (#[trigger] events[i]).wf()
}

impl Document {
    /// Every track is well formed, the track count fits sixteen bits, and
    /// a metrical resolution fits fifteen.
    pub open spec fn wf(self) -> bool {
        &&& self.tracks@.len() <= TRACKS_MAX
        &&& forall|i: int| 0 <= i < self.tracks@.len() ==> track_wf((#[trigger] self.tracks@[i])@)
        &&& match self.timing {
            Timing::Metrical(t) => t <= 0x7FFF,
            Timing::Timecode => true,
        }
    }

    /// The tracks as plain sequences of events.
    pub open spec fn events_view(self) -> Seq<Seq<Event>> {
        Seq::new(self.tracks@.len(), |i: int| self.tracks@[i]@)
    }
}

} // verus!
