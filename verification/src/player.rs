//! The multi-track sequencing and sample-synthesis engine.
//!
//! A `Player` walks every track of a parsed document one tick at a time.
//! Each `TrackPlayer` owns its track's cursor and note table and consumes
//! at most one due event per tick; after all tracks have advanced, the
//! notes sounding across all tracks are mixed into the tick's span of
//! output samples, which a `Sink` accumulates. The model module states
//! all of this as functions of the document alone, and every step here is
//! proved against that model.

use vstd::prelude::*;
use vstd::arithmetic::div_mod::lemma_div_is_ordered;
use vstd::arithmetic::div_mod::lemma_fundamental_div_mod;
use vstd::arithmetic::div_mod::lemma_fundamental_div_mod_converse;
use vstd::arithmetic::mul::lemma_mul_inequality;

use crate::midi::Document;
use crate::midi::Event;
use crate::midi::Payload;
use crate::midi::Timing;
use crate::midi::track_wf;
use crate::player::model::SLOTS;
use crate::player::model::apply_event;
use crate::player::model::ceil_div;
use crate::player::model::consume_tick;
use crate::player::model::count_consumed;
use crate::player::model::due_tick;
use crate::player::model::empty_table;
use crate::player::model::entries_upto;
use crate::player::model::payload_warning;
use crate::player::model::prefix_ticks;
use crate::player::model::table_after;
use crate::player::model::voices_upto;
use crate::player::model::warnings_after;
use crate::player::synth::TPN_MAX;
use crate::player::synth::Voice;
use crate::player::synth::mix;
use crate::player::synth::mix_spec;
use crate::player::tuner::Tuner;

pub mod average;
pub mod model;
pub mod synth;
pub mod tuner;

verus! {

/// The output sample rate, in samples per second.
pub const SAMPLE_RATE: u32 = 44100;

/// A note that is currently sounding: when it started, and how loud.
#[derive(Clone, Copy, Debug, PartialEq, Eq, Structural)]
pub struct NoteState {
    /// The tick at which the note was started.
    pub start_at: u64,
    /// The note's current velocity, `0..=127`.
    pub velocity: u8,
}

/// The recoverable anomalies playback logs and survives.
#[derive(Clone, Copy, Debug, PartialEq, Eq, Structural)]
pub enum WarningKind {
    /// A release for a note that was not sounding.
    MissingNoteOff,
    /// A velocity change for a note that was not sounding.
    OrphanAftertouch,
}

/// One logged anomaly: what happened, to which note, at what velocity.
#[derive(Clone, Copy, Debug, PartialEq, Eq, Structural)]
pub struct Warning {
    pub kind: WarningKind,
    pub key: u8,
    pub velocity: u8,
}

/// Why playback refused a document before producing any samples.
#[derive(Clone, Copy, Debug, PartialEq, Eq, Structural)]
pub enum PlayError {
    /// The document declares frames-per-second timing, which the engine
    /// does not support.
    UnsupportedTiming,
    /// The document declares zero ticks per quarter note.
    ZeroResolution,
}

/// A finished render: the mixed sample stream and, per track, the
/// anomalies met along the way.
pub struct Rendering {
    /// The mixed samples; divide by `127 * 2^31` for the nominal
    /// `[-1, 1]` range.
    pub samples: Vec<i64>,
    /// For each track, in order, the warnings its events raised.
    pub warnings: Vec<Vec<Warning>>,
}

/// The notes currently sounding on one track, one slot per note number.
pub struct NoteTable {
    slots: Vec<Option<NoteState>>,
}

impl View for NoteTable {
    type V = Seq<Option<NoteState>>;

    closed spec fn view(&self) -> Seq<Option<NoteState>> {
        self.slots@
    }
}

impl NoteTable {
    /// One slot per note number, and every sounding note in range.
    pub open spec fn wf(self) -> bool {
        &&& self@.len() == SLOTS
        &&& forall|k: int|
            0 <= k < SLOTS && self@[k] is Some ==> (#[trigger] self@[k])->Some_0.velocity <= 127
    }

    pub fn new() -> (r: NoteTable)
        ensures
            r.wf(),
            r@ == empty_table(),
    {
        let mut slots: Vec<Option<NoteState>> = Vec::new();
        for k in 0..SLOTS
            invariant
                slots@.len() == k,
                forall|i: int| 0 <= i < k ==> slots@[i] is None,
        {
            slots.push(None);
        }
        proof {
            assert(slots@ =~= empty_table());
        }
        NoteTable { slots }
    }

    /// Starts (or restarts) the note in slot `key`.
    pub fn set_on(&mut self, key: u8, st: NoteState)
        requires
            old(self).wf(),
            key < 128,
            st.velocity <= 127,
        ensures
            final(self).wf(),
            final(self)@ == old(self)@.update(key as int, Some(st)),
    {
        self.slots.set(key as usize, Some(st));
    }

    /// Silences the note in slot `key`, reporting what was sounding there.
    pub fn remove(&mut self, key: u8) -> (had: Option<NoteState>)
        requires
            old(self).wf(),
            key < 128,
        ensures
            final(self).wf(),
            final(self)@ == old(self)@.update(key as int, None),
            had == old(self)@[key as int],
    {
        let had = self.slots[key as usize];
        self.slots.set(key as usize, None);
        had
    }

    /// What is sounding in slot `key`.
    pub fn get(&self, key: u8) -> (r: Option<NoteState>)
        requires
            self.wf(),
            key < 128,
        ensures
            r == self@[key as int],
    {
        self.slots[key as usize]
    }
}

/// One track's playback state: the event cursor and the sounding notes.
pub struct TrackPlayer {
    track: Vec<Event>,
    current_idx: usize,
    next_event_tick: u64,
    current_notes: NoteTable,
}

impl TrackPlayer {
    /// The track this player walks.
    pub closed spec fn track_events(self) -> Seq<Event> {
        self.track@
    }

    /// How many events have been consumed.
    pub closed spec fn idx_spec(self) -> int {
        self.current_idx as int
    }

    /// The tick at which the next unconsumed event becomes due.
    pub closed spec fn next_tick_spec(self) -> int {
        self.next_event_tick as int
    }

    /// The notes currently sounding.
    pub closed spec fn notes_view(self) -> Seq<Option<NoteState>> {
        self.current_notes@
    }

    /// All events consumed.
    pub open spec fn done_spec(self) -> bool {
        self.idx_spec() >= self.track_events().len()
    }

    /// The cursor is inside the track, and `next_event_tick` is the due
    /// tick of the next unconsumed event (or of the end, once finished).
    pub open spec fn wf(self) -> bool {
        &&& track_wf(self.track_events())
        &&& self.notes_view().len() == SLOTS
        &&& forall|k: int|
            0 <= k < SLOTS && self.notes_view()[k] is Some ==> (
            #[trigger] self.notes_view()[k])->Some_0.velocity <= 127
        &&& self.idx_spec() <= self.track_events().len()
        &&& self.next_tick_spec() == prefix_ticks(
            self.track_events(),
            if self.idx_spec() + 1 <= self.track_events().len() {
                self.idx_spec() + 1
            } else {
                self.track_events().len() as int
            },
        )
    }

    /// A fresh player at the start of its track, with nothing sounding.
    pub fn new(track: Vec<Event>) -> (r: TrackPlayer)
        requires
            track_wf(track@),
        ensures
            r.wf(),
            r.track_events() == track@,
            r.idx_spec() == 0,
            r.notes_view() == empty_table(),
    {
        let next: u64 = if track.len() > 0 {
            track[0].delta as u64
        } else {
            0
        };
        proof {
            assert(prefix_ticks(track@, 0) == 0);
        }
        TrackPlayer { track, current_idx: 0, next_event_tick: next, current_notes: NoteTable::new() }
    }

    /// All events consumed?
    pub fn done(&self) -> (r: bool)
        ensures
            r == self.done_spec(),
    {
        self.current_idx >= self.track.len()
    }

    /// Consumes at most one event: the next one, if it is due at
    /// `ticks`. Returns the warning the event raised, if any.
    pub fn advance(&mut self, ticks: u64) -> (w: Option<Warning>)
        requires
            old(self).wf(),
        ensures
            final(self).wf(),
            final(self).track_events() == old(self).track_events(),
            // consumption is monotonic
            old(self).idx_spec() <= final(self).idx_spec(),
            old(self).next_tick_spec() <= final(self).next_tick_spec(),
            old(self).done_spec() ==> final(self).done_spec(),
            // exactly one of two outcomes
            (old(self).done_spec() || (ticks as int) < old(self).next_tick_spec()) ==> *final(self)
                == *old(self) && w is None,
            (!old(self).done_spec() && (ticks as int) >= old(self).next_tick_spec()) ==> {
                &&& final(self).idx_spec() == old(self).idx_spec() + 1
                &&& final(self).notes_view() == apply_event(
                    old(self).notes_view(),
                    old(self).track_events()[old(self).idx_spec()].payload,
                    ticks as int,
                )
                &&& w == payload_warning(
                    old(self).notes_view(),
                    old(self).track_events()[old(self).idx_spec()].payload,
                )
            },
    {
        if self.current_idx >= self.track.len() {
            return None;
        }
        if ticks < self.next_event_tick {
            return None;
        }
        let ghost tr = self.track@;
        let ghost idx0 = self.current_idx as int;
        let e = self.track[self.current_idx];
        self.current_idx = self.current_idx + 1;
        if self.current_idx < self.track.len() {
            proof {
                crate::player::model::lemma_prefix_ticks_bound(tr, idx0 + 2);
                crate::player::model::lemma_prefix_ticks_nonneg(tr, idx0 + 1);
            }
            self.next_event_tick = self.next_event_tick + (self.track[self.current_idx].delta
                as u64);
        }
        match e.payload {
            Payload::NoteOn { key, velocity } => {
                self.current_notes.set_on(key, NoteState { start_at: ticks, velocity });
                None
            },
            Payload::NoteOff { key, velocity } => {
                let had = self.current_notes.remove(key);
                if had.is_none() {
                    Some(Warning { kind: WarningKind::MissingNoteOff, key, velocity })
                } else {
                    None
                }
            },
            Payload::Aftertouch { key, velocity } => {
                match self.current_notes.get(key) {
                    Some(st) => {
                        self.current_notes.set_on(
                            key,
                            NoteState { start_at: st.start_at, velocity },
                        );
                        None
                    },
                    None => Some(Warning { kind: WarningKind::OrphanAftertouch, key, velocity }),
                }
            },
            Payload::Meta => None,
            Payload::Other => None,
        }
    }

    /// A read-only snapshot of the notes sounding at this tick, keyed by
    /// note number, in note-number order.
    pub fn active_notes(&self) -> (r: Vec<(u8, NoteState)>)
        requires
            self.wf(),
        ensures
            r@ == entries_upto(self.notes_view(), SLOTS as int),
    {
        let mut out: Vec<(u8, NoteState)> = Vec::new();
        for k in 0..SLOTS
            invariant
                self.wf(),
                out@ =~= entries_upto(self.notes_view(), k as int),
        {
            match self.current_notes.get(k as u8) {
                Some(st) => {
                    out.push((k as u8, st));
                },
                None => {},
            }
            proof {
                assert(out@ =~= entries_upto(self.notes_view(), k + 1));
            }
        }
        out
    }

    /// Appends one voice per sounding note, in note-number order.
    ///
    /// Every note began no later than `bound`, so every appended voice
    /// did too.
    fn append_voices<T: Tuner>(
        &self,
        tuner: &T,
        out: &mut Vec<Voice>,
        Ghost(bound): Ghost<int>,
    )
        requires
            self.wf(),
            forall|k: int|
                0 <= k < SLOTS && self.notes_view()[k] is Some ==> (
                #[trigger] self.notes_view()[k])->Some_0.start_at <= bound,
        ensures
            final(out)@ == old(out)@ + voices_upto(self.notes_view(), *tuner, SLOTS as int),
            forall|m: int|
                old(out)@.len() <= m < final(out)@.len() ==> (1 <= (
                #[trigger] final(out)@[m]).freq_millihz && final(out)@[m].velocity <= 127
                    && final(out)@[m].start_at <= bound),
    {
        let ghost base = out@;
        for k in 0..SLOTS
            invariant
                self.wf(),
                forall|kk: int|
                    0 <= kk < SLOTS && self.notes_view()[kk] is Some ==> (
                    #[trigger] self.notes_view()[kk])->Some_0.start_at <= bound,
                out@ =~= base + voices_upto(self.notes_view(), *tuner, k as int),
                forall|m: int|
                    base.len() <= m < out@.len() ==> 1 <= (#[trigger] out@[m]).freq_millihz
                        && out@[m].velocity <= 127 && out@[m].start_at <= bound,
        {
            match self.current_notes.get(k as u8) {
                Some(st) => {
                    let f = tuner.freq(k as u8);
                    out.push(Voice { freq_millihz: f, start_at: st.start_at, velocity: st.velocity });
                },
                None => {},
            }
            proof {
                assert(out@ =~= base + voices_upto(self.notes_view(), *tuner, k + 1));
            }
        }
    }
}

/// The accumulating sample sink.
///
/// The sink owns the growing sample stream and converts tick-granularity
/// timing into the sample-rate timeline. The boundary of tick `t` sits at
/// the exact rational position `t * sample_rate / ticks_per_note`; the
/// sink compares integer cross-products instead of accumulating a rounded
/// step, so the boundary never drifts from the exact value.
pub struct Sink {
    samples: Vec<i64>,
    sample_rate: u32,
    ticks_per_note: u32,
    ticks_done: u64,
}

impl Sink {
    /// The samples emitted so far.
    pub closed spec fn samples_view(self) -> Seq<i64> {
        self.samples@
    }

    /// Samples per second.
    pub closed spec fn rate_spec(self) -> int {
        self.sample_rate as int
    }

    /// Ticks per quarter note.
    pub closed spec fn tpn_spec(self) -> int {
        self.ticks_per_note as int
    }

    /// How many ticks have been emitted.
    pub closed spec fn ticks_spec(self) -> int {
        self.ticks_done as int
    }

    /// The stream holds exactly the samples of every finished tick: its
    /// length is `ticks_done * sample_rate / ticks_per_note`, rounded up.
    pub open spec fn wf(self) -> bool {
        &&& 1 <= self.rate_spec() <= u32::MAX
        &&& 1 <= self.tpn_spec() <= TPN_MAX
        &&& 0 <= self.ticks_spec() <= 0x4000_0000_0000_0000
        &&& self.samples_view().len() == ceil_div(
            self.ticks_spec() * self.rate_spec(),
            self.tpn_spec(),
        )
    }

    pub fn new(sample_rate: u32, ticks_per_note: u32) -> (r: Sink)
        requires
            1 <= sample_rate,
            1 <= ticks_per_note <= TPN_MAX,
        ensures
            r.wf(),
            r.rate_spec() == sample_rate,
            r.tpn_spec() == ticks_per_note,
            r.ticks_spec() == 0,
            r.samples_view() == Seq::<i64>::empty(),
    {
        proof {
            lemma_ceil_div_bounds(0, ticks_per_note as int);
            assert(ceil_div(0, ticks_per_note as int) == 0) by (nonlinear_arith)
                requires
                    1 <= ticks_per_note,
                    0 <= ceil_div(0, ticks_per_note as int),
                    (ceil_div(0, ticks_per_note as int) - 1) * ticks_per_note < 0,
            ;
        }
        Sink { samples: Vec::new(), sample_rate, ticks_per_note, ticks_done: 0 }
    }

    /// Emits one tick's span of samples: every sample index strictly
    /// before the next tick boundary receives the mix of `voices`, and
    /// the tick counter advances by one.
    pub fn put(&mut self, voices: &Vec<Voice>)
        requires
            old(self).wf(),
            old(self).ticks_spec() < 0x4000_0000_0000_0000,
            voices@.len() <= crate::player::synth::VOICES_MAX,
            forall|i: int|
                0 <= i < voices@.len() ==> (1 <= (#[trigger] voices@[i]).freq_millihz
                    && voices@[i].velocity <= 127 && voices@[i].start_at <= old(self).ticks_spec()),
            ceil_div((old(self).ticks_spec() + 1) * old(self).rate_spec(), old(self).tpn_spec())
                <= usize::MAX,
        ensures
            final(self).wf(),
            final(self).rate_spec() == old(self).rate_spec(),
            final(self).tpn_spec() == old(self).tpn_spec(),
            final(self).ticks_spec() == old(self).ticks_spec() + 1,
            old(self).samples_view().len() <= final(self).samples_view().len(),
            forall|s: int|
                0 <= s < old(self).samples_view().len() ==> #[trigger] final(self).samples_view()[s]
                    == old(self).samples_view()[s],
            forall|s: int|
                old(self).samples_view().len() <= s < final(self).samples_view().len() ==> ((
                #[trigger] final(self).samples_view()[s]) == mix_spec(
                    voices@,
                    s,
                    old(self).rate_spec(),
                    old(self).tpn_spec(),
                ) && old(self).ticks_spec() * old(self).rate_spec() <= s * old(self).tpn_spec()
                    < (old(self).ticks_spec() + 1) * old(self).rate_spec()),
    {
        let ghost r = self.rate_spec();
        let ghost b = self.tpn_spec();
        let ghost td = self.ticks_spec();
        let ghost old_samples = self.samples@;
        let ghost old_len = self.samples@.len() as int;
        let ghost target = ceil_div((td + 1) * r, b);
        proof {
            assert((td + 1) * r == td * r + r) by (nonlinear_arith);
            lemma_ceil_div_bounds(td * r, b);
            lemma_ceil_div_bounds((td + 1) * r, b);
            lemma_ceil_div_mono(td * r, (td + 1) * r, b);
            crate::ratio::lemma_mul_u64_fits_u128(self.ticks_done as int + 1, r);
        }
        let bound: u128 = (self.ticks_done as u128 + 1) * (self.sample_rate as u128);
        loop
            invariant_except_break
                self.rate_spec() == r,
                self.tpn_spec() == b,
                self.ticks_spec() == td,
                1 <= r <= u32::MAX,
                1 <= b <= TPN_MAX,
                0 <= td < 0x4000_0000_0000_0000,
                bound == (td + 1) * r,
                target == ceil_div((td + 1) * r, b),
                target <= usize::MAX,
                target * b >= (td + 1) * r,
                voices@.len() <= crate::player::synth::VOICES_MAX,
                forall|i: int|
                    0 <= i < voices@.len() ==> (1 <= (#[trigger] voices@[i]).freq_millihz
                        && voices@[i].velocity <= 127 && voices@[i].start_at <= td),
                old_len == old_samples.len(),
                old_len * b >= td * r,
                old_len <= self.samples@.len() <= target,
                (self.samples@.len() - 1) * b < (td + 1) * r,
                forall|s: int| 0 <= s < old_len ==> #[trigger] self.samples@[s] == old_samples[s],
                forall|s: int|
                    old_len <= s < self.samples@.len() ==> (#[trigger] self.samples@[s]
                        == mix_spec(voices@, s, r, b) && td * r <= s * b < (td + 1) * r),
            ensures
                self.rate_spec() == r,
                self.tpn_spec() == b,
                self.ticks_spec() == td,
                self.samples@.len() == target,
                old_len <= self.samples@.len(),
                forall|s: int| 0 <= s < old_len ==> #[trigger] self.samples@[s] == old_samples[s],
                forall|s: int|
                    old_len <= s < self.samples@.len() ==> (#[trigger] self.samples@[s]
                        == mix_spec(voices@, s, r, b) && td * r <= s * b < (td + 1) * r),
            decreases target - self.samples@.len(),
        {
            proof {
                crate::ratio::lemma_mul_u64_fits_u128(self.samples@.len() as int, b);
            }
            let cur: u128 = (self.samples.len() as u128) * (self.ticks_per_note as u128);
            if !(cur < bound) {
                proof {
                    lemma_ceil_div_unique((td + 1) * r, b, self.samples@.len() as int);
                }
                break;
            }
            let s: u64 = self.samples.len() as u64;
            proof {
                assert forall|i: int| 0 <= i < voices@.len() implies (#[trigger] voices@[i]).playable(
                    s as int,
                    r,
                    b,
                ) by {
                    lemma_mul_inequality(voices@[i].start_at as int, td, r);
                    lemma_mul_inequality(old_len, s as int, b);
                }
                assert((s as int) * b < (td + 1) * r);
                assert(td * r <= (s as int) * b) by {
                    lemma_mul_inequality(old_len, s as int, b);
                }
                assert(self.samples@.len() + 1 <= target) by {
                    assert((self.samples@.len() as int) * b < target * b ==> self.samples@.len()
                        < target) by (nonlinear_arith)
                        requires
                            1 <= b,
                    ;
                }
            }
            let ghost view0 = self.samples@;
            let val = mix(voices, s, self.sample_rate, self.ticks_per_note);
            self.samples.push(val);
            proof {
                assert forall|ss: int| old_len <= ss < self.samples@.len() implies (
                #[trigger] self.samples@[ss] == mix_spec(voices@, ss, r, b) && td * r <= ss * b
                    < (td + 1) * r) by {
                    if ss < view0.len() {
                        assert(self.samples@[ss] == view0[ss]);
                    } else {
                        assert(ss == s as int);
                        assert(self.samples@[ss] == val);
                    }
                }
            }
        }
        self.ticks_done = self.ticks_done + 1;
    }

    /// Hands the finished stream over; the sink is consumed.
    pub fn finalize(self) -> (r: Vec<i64>)
        ensures
            r@ == self.samples_view(),
    {
        self.samples
    }
}

/// The engine's cursor discipline before the tracks advance at tick `t`:
/// every event of earlier ticks is consumed, nothing of tick `t` is yet.
spec fn cursor_before(p: TrackPlayer, tr: Seq<Event>, t: int) -> bool {
    &&& p.wf()
    &&& p.track_events() == tr
    &&& p.notes_view() == table_after(tr, p.idx_spec())
    &&& forall|j: int| 0 <= j < p.idx_spec() ==> #[trigger] consume_tick(tr, j) < t
    &&& (p.idx_spec() < tr.len() ==> consume_tick(tr, p.idx_spec()) >= t)
}

/// After the tracks advance at tick `t`: everything due by `t` consumed.
spec fn cursor_after(p: TrackPlayer, tr: Seq<Event>, t: int) -> bool {
    &&& p.wf()
    &&& p.track_events() == tr
    &&& p.notes_view() == table_after(tr, p.idx_spec())
    &&& forall|j: int| 0 <= j < p.idx_spec() ==> #[trigger] consume_tick(tr, j) <= t
    &&& (p.idx_spec() < tr.len() ==> consume_tick(tr, p.idx_spec()) > t)
}

/// Every track has been walked to its end.
fn all_done(players: &Vec<TrackPlayer>) -> (r: bool)
    ensures
        r == (forall|i: int| 0 <= i < players@.len() ==> (#[trigger] players@[i]).done_spec()),
{
    for i in 0..players.len()
        invariant
            forall|j: int| 0 <= j < i ==> (#[trigger] players@[j]).done_spec(),
    {
        if !players[i].done() {
            return false;
        }
    }
    true
}

/// The whole render fits in memory: a machine limit on the documents the
/// player accepts.
pub open spec fn render_fits(doc: Document) -> bool {
    match doc.timing {
        Timing::Metrical(t) => 1 <= t ==> crate::player::model::total_samples(
            doc.events_view(),
            SAMPLE_RATE as int,
            t as int,
        ) <= usize::MAX,
        Timing::Timecode => true,
    }
}

/// The sequencer: walks every track of a document in tick order and mixes
/// one tick's span of samples at a time.
pub struct Player<T: Tuner> {
    tuner: T,
}

impl<T: Tuner> Player<T> {
    /// The tuner this player renders with.
    pub closed spec fn tuner_spec(self) -> T {
        self.tuner
    }

    pub fn new(tuner: T) -> (r: Player<T>)
        ensures
            r.tuner_spec() == tuner,
    {
        Player { tuner }
    }

    /// Renders the whole document to a sample stream.
    ///
    /// Fails, before producing any samples, on a document with
    /// frames-per-second timing or a zero tick resolution; otherwise the
    /// result holds exactly the samples and the warnings that the model
    /// functions assign to the document.
    pub fn play(&self, doc: &Document) -> (r: Result<Rendering, PlayError>)
        requires
            doc.wf(),
            render_fits(*doc),
        ensures
            ({
                let tracks = doc.events_view();
                match r {
                    Ok(rend) => match doc.timing {
                        Timing::Metrical(t) => {
                            &&& 1 <= t
                            &&& rend.samples@.len() == crate::player::model::total_samples(
                                tracks,
                                SAMPLE_RATE as int,
                                t as int,
                            )
                            &&& forall|s: int|
                                0 <= s < rend.samples@.len() ==> #[trigger] rend.samples@[s]
                                    == crate::player::model::rendered_sample(
                                    tracks,
                                    self.tuner_spec(),
                                    s,
                                    SAMPLE_RATE as int,
                                    t as int,
                                )
                            &&& rend.warnings@.len() == tracks.len()
                            &&& forall|i: int|
                                0 <= i < tracks.len() ==> (#[trigger] rend.warnings@[i])@
                                    == warnings_after(tracks[i], tracks[i].len() as int)
                        },
                        Timing::Timecode => false,
                    },
                    Err(e) => match doc.timing {
                        Timing::Metrical(t) => t == 0 && e == PlayError::ZeroResolution,
                        Timing::Timecode => e == PlayError::UnsupportedTiming,
                    },
                }
            }),
    {
        let tpn16: u16 = match doc.timing {
            Timing::Metrical(t) => t,
            Timing::Timecode => {
                return Err(PlayError::UnsupportedTiming);
            },
        };
        if tpn16 == 0 {
            return Err(PlayError::ZeroResolution);
        }
        let tpn: u32 = tpn16 as u32;
        let ghost tracks = doc.events_view();
        let n: usize = doc.tracks.len();

        let mut players: Vec<TrackPlayer> = Vec::new();
        let mut warnings: Vec<Vec<Warning>> = Vec::new();
        for i in 0..n
            invariant
                doc.wf(),
                tracks == doc.events_view(),
                n == tracks.len(),
                players@.len() == i,
                warnings@.len() == i,
                forall|k: int|
                    0 <= k < i ==> ((#[trigger] players@[k]).wf() && players@[k].track_events()
                        == tracks[k] && players@[k].idx_spec() == 0 && players@[k].notes_view()
                        == empty_table()),
                forall|k: int| 0 <= k < i ==> (#[trigger] warnings@[k])@ == Seq::<Warning>::empty(),
        {
            let src_len: usize = doc.tracks[i].len();
            let mut evs: Vec<Event> = Vec::new();
            for k in 0..src_len
                invariant
                    doc.wf(),
                    i < doc.tracks@.len(),
                    src_len == doc.tracks@[i as int]@.len(),
                    evs@ =~= doc.tracks@[i as int]@.take(k as int),
            {
                let e = doc.tracks[i][k];
                evs.push(e);
                proof {
                    assert(evs@ =~= doc.tracks@[i as int]@.take(k + 1));
                }
            }
            proof {
                assert(evs@ =~= doc.tracks@[i as int]@);
                assert(tracks[i as int] == doc.tracks@[i as int]@);
            }
            players.push(TrackPlayer::new(evs));
            warnings.push(Vec::new());
        }

        let mut sink = Sink::new(SAMPLE_RATE, tpn);
        let mut tick: u64 = 0;
        let ghost total = crate::player::model::total_ticks(tracks);
        proof {
            crate::player::model::lemma_last_consume_lb(tracks, tracks.len() as int);
            crate::player::model::lemma_last_consume_bound(tracks, tracks.len() as int);
        }
        while !all_done(&players)
            invariant
                doc.wf(),
                tracks == doc.events_view(),
                n == tracks.len(),
                players@.len() == n,
                warnings@.len() == n,
                1 <= tpn <= TPN_MAX,
                tpn == tpn16 as u32,
                sink.wf(),
                sink.rate_spec() == SAMPLE_RATE as int,
                sink.tpn_spec() == tpn as int,
                sink.ticks_spec() == tick as int,
                total == crate::player::model::total_ticks(tracks),
                crate::player::model::total_samples(tracks, SAMPLE_RATE as int, tpn as int)
                    <= usize::MAX,
                0 <= tick as int <= total < 0x2000_0000_0000_0001,
                forall|i: int|
                    0 <= i < n ==> cursor_before(#[trigger] players@[i], tracks[i], tick as int),
                forall|i: int|
                    0 <= i < n ==> (#[trigger] warnings@[i])@ == warnings_after(
                        tracks[i],
                        players@[i].idx_spec(),
                    ),
                forall|s: int|
                    0 <= s < sink.samples_view().len() ==> #[trigger] sink.samples_view()[s]
                        == crate::player::model::rendered_sample(
                        tracks,
                        self.tuner_spec(),
                        s,
                        SAMPLE_RATE as int,
                        tpn as int,
                    ),
            decreases total - tick,
        {
            proof {
                let iw = choose|iw: int| 0 <= iw < n && !(#[trigger] players@[iw]).done_spec();
                assert(consume_tick(tracks[iw], players@[iw].idx_spec()) >= tick as int);
                crate::player::model::lemma_consume_tick_increasing(
                    tracks[iw],
                    players@[iw].idx_spec(),
                    tracks[iw].len() - 1,
                );
                crate::player::model::lemma_last_consume_ge(
                    tracks,
                    tracks.len() as int,
                    iw,
                    players@[iw].idx_spec(),
                );
                assert(tick as int <= total - 1);
            }
            // phase one: every track consumes what is due at this tick
            for i in 0..n
                invariant
                    n == tracks.len(),
                    players@.len() == n,
                    warnings@.len() == n,
                    forall|k: int|
                        0 <= k < i ==> cursor_after(#[trigger] players@[k], tracks[k], tick as int),
                    forall|k: int|
                        i <= k < n ==> cursor_before(
                            #[trigger] players@[k],
                            tracks[k],
                            tick as int,
                        ),
                    forall|k: int|
                        0 <= k < n ==> (#[trigger] warnings@[k])@ == warnings_after(
                            tracks[k],
                            players@[k].idx_spec(),
                        ),
            {
                let ghost p0 = players@[i as int];
                let ghost tr = tracks[i as int];
                let w = players[i].advance(tick);
                proof {
                    let p1 = players@[i as int];
                    if !p0.done_spec() && (tick as int) >= p0.next_tick_spec() {
                        assert(p0.next_tick_spec() == due_tick(tr, p0.idx_spec()));
                        if p0.idx_spec() > 0 {
                            assert(consume_tick(tr, p0.idx_spec() - 1) < tick as int);
                        }
                        assert(consume_tick(tr, p0.idx_spec()) == tick as int);
                        assert(p1.notes_view() == table_after(tr, p1.idx_spec()));
                        if p1.idx_spec() < tr.len() {
                            crate::player::model::lemma_consume_tick_increasing(
                                tr,
                                p0.idx_spec(),
                                p1.idx_spec(),
                            );
                        }
                        assert(cursor_after(p1, tr, tick as int));
                    } else {
                        if !p0.done_spec() {
                            crate::player::model::lemma_consume_tick_ge_due(tr, p0.idx_spec());
                        }
                        assert(cursor_after(p1, tr, tick as int));
                    }
                }
                match w {
                    Some(wa) => {
                        warnings[i].push(wa);
                    },
                    None => {},
                }
                proof {
                    let p1 = players@[i as int];
                    if !p0.done_spec() && (tick as int) >= p0.next_tick_spec() {
                        assert(warnings@[i as int]@ =~= warnings_after(tr, p1.idx_spec()));
                    } else {
                        assert(warnings@[i as int]@ =~= warnings_after(tr, p1.idx_spec()));
                    }
                }
            }
            // phase two: gather every sounding note across all tracks
            let mut voices: Vec<Voice> = Vec::new();
            for i in 0..n
                invariant
                    n == tracks.len(),
                    players@.len() == n,
                    0 <= tick as int <= 0x2000_0000_0000_0000,
                    forall|k: int|
                        0 <= k < n ==> cursor_after(#[trigger] players@[k], tracks[k], tick as int),
                    voices@ == crate::player::model::voices_across(
                        tracks,
                        self.tuner_spec(),
                        tick as int,
                        i as int,
                    ),
                    voices@.len() <= 128 * i,
                    forall|m: int|
                        0 <= m < voices@.len() ==> (1 <= (#[trigger] voices@[m]).freq_millihz
                            && voices@[m].velocity <= 127 && voices@[m].start_at <= tick),
            {
                proof {
                    let p = players@[i as int];
                    let tr = tracks[i as int];
                    crate::player::model::lemma_table_onsets(tr, p.idx_spec(), tick as int);
                }
                let ghost voices_pre = voices@;
                players[i].append_voices(&self.tuner, &mut voices, Ghost(tick as int));
                proof {
                    let p = players@[i as int];
                    let tr = tracks[i as int];
                    crate::player::model::lemma_cursor_count(tr, p.idx_spec(), tick as int);
                    crate::player::model::lemma_voices_upto_len(
                        p.notes_view(),
                        self.tuner_spec(),
                        SLOTS as int,
                    );
                    assert(voices@ == crate::player::model::voices_across(
                        tracks,
                        self.tuner_spec(),
                        tick as int,
                        i + 1,
                    ));
                }
            }
            // phase three: emit this tick's span of samples
            let ghost pre_len = sink.samples_view().len() as int;
            proof {
                lemma_mul_inequality(tick as int + 1, total, SAMPLE_RATE as int);
                lemma_ceil_div_mono(
                    (tick as int + 1) * (SAMPLE_RATE as int),
                    total * (SAMPLE_RATE as int),
                    tpn as int,
                );
            }
            sink.put(&voices);
            proof {
                let r = SAMPLE_RATE as int;
                let b = tpn as int;
                assert((tick as int + 1) * r == tick as int * r + r) by (nonlinear_arith);
                assert forall|s: int|
                    0 <= s < sink.samples_view().len() implies #[trigger] sink.samples_view()[s]
                        == crate::player::model::rendered_sample(
                        tracks,
                        self.tuner_spec(),
                        s,
                        r,
                        b,
                    ) by {
                    if s >= pre_len {
                        assert(sink.samples_view()[s] == mix_spec(voices@, s, r, b));
                        assert(tick as int * r <= s * b);
                        assert(s * b < (tick as int + 1) * r);
                        lemma_fundamental_div_mod_converse(
                            s * b,
                            r,
                            tick as int,
                            s * b - tick as int * r,
                        );
                        assert(crate::player::model::tick_of_sample(s, r, b) == tick as int);
                    }
                }
            }
            tick = tick + 1;
        }
        proof {
            assert forall|i: int, j: int|
                0 <= i < tracks.len() && 0 <= j < tracks[i].len() implies #[trigger] consume_tick(
                tracks[i],
                j,
            ) < tick as int by {
                assert(players@[i].done_spec());
                assert(cursor_before(players@[i], tracks[i], tick as int));
            }
            crate::player::model::lemma_last_consume_lt(tracks, tracks.len() as int, tick as int);
            assert(tick as int == total);
        }
        let samples = sink.finalize();
        Ok(Rendering { samples, warnings })
    }
}

/// The tick-to-sample accumulator does not drift.
///
/// After any number of ticks, a well-formed sink holds exactly
/// `ceil(ticks * sample_rate / ticks_per_note)` samples (see `Sink::wf`);
/// this says that count, scaled back to the tick timeline, brackets the
/// exact rational boundary to within one sample span — the cumulative
/// count follows `ticks * sample_rate / ticks_per_note` itself, not a
/// per-tick rounding of `sample_rate / ticks_per_note`.
pub proof fn lemma_accumulator_no_drift(ticks: int, sr: int, tpn: int)
    requires
        0 <= ticks,
        1 <= sr,
        1 <= tpn,
    ensures
        0 <= ceil_div(ticks * sr, tpn),
        ceil_div(ticks * sr, tpn) * tpn >= ticks * sr,
        (ceil_div(ticks * sr, tpn) - 1) * tpn < ticks * sr,
{
    assert(0 <= ticks * sr) by (nonlinear_arith)
        requires
            0 <= ticks,
            0 <= sr,
    ;
    lemma_ceil_div_bounds(ticks * sr, tpn);
}

/// For `b >= 1` and `x >= 0`, the rounded-up quotient is the unique value
/// whose multiples of `b` straddle `x`.
proof fn lemma_ceil_div_bounds(x: int, b: int)
    requires
        1 <= b,
        0 <= x,
    ensures
        0 <= ceil_div(x, b),
        ceil_div(x, b) * b >= x,
        (ceil_div(x, b) - 1) * b < x,
{
    lemma_fundamental_div_mod(x + b - 1, b);
    let q = (x + b - 1) / b;
    let rr = (x + b - 1) % b;
    assert(x + b - 1 == b * q + rr);
    assert(q * b == b * q) by (nonlinear_arith);
    assert((q - 1) * b == q * b - b) by (nonlinear_arith);
    assert(0 <= q) by (nonlinear_arith)
        requires
            q * b >= 0,
            b >= 1,
    ;
}

/// The straddling value is unique.
proof fn lemma_ceil_div_unique(x: int, b: int, a: int)
    requires
        1 <= b,
        0 <= x,
        0 <= a,
        a * b >= x,
        (a - 1) * b < x,
    ensures
        a == ceil_div(x, b),
{
    lemma_ceil_div_bounds(x, b);
    let q = ceil_div(x, b);
    if a > q {
        assert((a - 1) * b >= q * b) by (nonlinear_arith)
            requires
                a - 1 >= q,
                b >= 1,
        ;
    } else if a < q {
        assert((q - 1) * b >= a * b) by (nonlinear_arith)
            requires
                q - 1 >= a,
                b >= 1,
        ;
    }
}

/// Rounding up preserves order.
proof fn lemma_ceil_div_mono(x1: int, x2: int, b: int)
    requires
        1 <= b,
        x1 <= x2,
    ensures
        ceil_div(x1, b) <= ceil_div(x2, b),
{
    lemma_div_is_ordered(x1 + b - 1, x2 + b - 1, b);
}

} // verus!
