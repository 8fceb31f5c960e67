//! The mathematical model of the sequencing engine.
//!
//! Everything the engine does is stated here as functions of the document
//! alone: when each event is consumed, which notes sound after any prefix
//! of a track, which warnings a track raises, and what every output sample
//! is. The executable engine in the parent module is proved against these
//! functions.

use vstd::prelude::*;
use vstd::multiset::Multiset;
use crate::midi::Event;
use crate::midi::Payload;
use crate::player::NoteState;
use crate::player::Warning;
use crate::player::WarningKind;
use crate::player::synth::Voice;
use crate::player::synth::mix_spec;
use crate::player::tuner::Tuner;

verus! {

/// Number of note slots: one per MIDI note number.
pub const SLOTS: usize = 128;

/// The deltas of the first `n` events of a track, accumulated.
pub open spec fn prefix_ticks(tr: Seq<Event>, n: int) -> int
    decreases n,
{
    if n <= 0 {
        0
    } else {
        prefix_ticks(tr, n - 1) + tr[n - 1].delta
    }
}

/// The tick at which event `j` becomes due: its own delta and every
/// earlier delta, accumulated.
pub open spec fn due_tick(tr: Seq<Event>, j: int) -> int {
    prefix_ticks(tr, j + 1)
}

/// The tick at which the engine consumes event `j`.
///
/// An event is consumed at its due tick, except that the engine consumes
/// at most one event of a track per tick, so an event whose predecessor
/// was consumed late waits one further tick.
pub open spec fn consume_tick(tr: Seq<Event>, j: int) -> int
    decreases j,
    when j >= 0
{
    if j <= 0 {
        due_tick(tr, 0)
    } else if due_tick(tr, j) >= consume_tick(tr, j - 1) + 1 {
        due_tick(tr, j)
    } else {
        consume_tick(tr, j - 1) + 1
    }
}

/// The table with no note sounding.
pub open spec fn empty_table() -> Seq<Option<NoteState>> {
    Seq::new(SLOTS as nat, |i: int| None)
}

/// What one event does to a note table when consumed at `tick`.
pub open spec fn apply_event(
    m: Seq<Option<NoteState>>,
    p: Payload,
    tick: int,
) -> Seq<Option<NoteState>> {
    match p {
        Payload::NoteOn { key, velocity } => m.update(
            key as int,
            Some(NoteState { start_at: tick as u64, velocity }),
        ),
        Payload::NoteOff { key, velocity } => m.update(key as int, None),
        Payload::Aftertouch { key, velocity } => if m[key as int] is Some {
            m.update(
                key as int,
                Some(NoteState { start_at: m[key as int]->Some_0.start_at, velocity }),
            )
        } else {
            m
        },
        Payload::Meta => m,
        Payload::Other => m,
    }
}

/// The note table after the first `n` events of a track are consumed.
pub open spec fn table_after(tr: Seq<Event>, n: int) -> Seq<Option<NoteState>>
    decreases n,
    when n >= 0
{
    if n <= 0 {
        empty_table()
    } else {
        apply_event(table_after(tr, n - 1), tr[n - 1].payload, consume_tick(tr, n - 1))
    }
}

/// The warning a payload raises against a note table, if any: a release
/// or a velocity change for a note that is not sounding.
pub open spec fn payload_warning(m: Seq<Option<NoteState>>, p: Payload) -> Option<Warning> {
    match p {
        Payload::NoteOff { key, velocity } => if m[key as int] is None {
            Some(Warning { kind: WarningKind::MissingNoteOff, key, velocity })
        } else {
            None
        },
        Payload::Aftertouch { key, velocity } => if m[key as int] is None {
            Some(Warning { kind: WarningKind::OrphanAftertouch, key, velocity })
        } else {
            None
        },
        _ => None,
    }
}

/// The warning event `j` raises when consumed, if any.
pub open spec fn event_warning(tr: Seq<Event>, j: int) -> Option<Warning> {
    payload_warning(table_after(tr, j), tr[j].payload)
}

/// The warnings the first `n` events of a track raise, in order.
pub open spec fn warnings_after(tr: Seq<Event>, n: int) -> Seq<Warning>
    decreases n,
    when n >= 0
{
    if n <= 0 {
        Seq::empty()
    } else {
        warnings_after(tr, n - 1) + match event_warning(tr, n - 1) {
            Some(w) => seq![w],
            None => Seq::empty(),
        }
    }
}

/// The voice of slot `k`, if a note is sounding there.
pub open spec fn slot_voice<T: Tuner>(
    m: Seq<Option<NoteState>>,
    tuner: T,
    k: int,
) -> Seq<Voice> {
    match m[k] {
        Some(st) => seq![
            Voice {
                freq_millihz: tuner.freq_spec(k as u8),
                start_at: st.start_at,
                velocity: st.velocity,
            },
        ],
        None => Seq::empty(),
    }
}

/// The voices of the first `k` slots of a note table, in slot order.
pub open spec fn voices_upto<T: Tuner>(
    m: Seq<Option<NoteState>>,
    tuner: T,
    k: int,
) -> Seq<Voice>
    decreases k,
    when k >= 0
{
    if k <= 0 {
        Seq::empty()
    } else {
        voices_upto(m, tuner, k - 1) + slot_voice(m, tuner, k - 1)
    }
}

/// The sounding notes among the first `k` slots, keyed by note number,
/// in slot order.
pub open spec fn entries_upto(m: Seq<Option<NoteState>>, k: int) -> Seq<(u8, NoteState)>
    decreases k,
    when k >= 0
{
    if k <= 0 {
        Seq::empty()
    } else {
        entries_upto(m, k - 1) + match m[k - 1] {
            Some(st) => seq![((k - 1) as u8, st)],
            None => Seq::empty(),
        }
    }
}

/// How many of the first `n` events are consumed at or before tick `t`.
pub open spec fn count_consumed(tr: Seq<Event>, n: int, t: int) -> int
    decreases n,
    when n >= 0
{
    if n <= 0 {
        0
    } else {
        count_consumed(tr, n - 1, t) + if consume_tick(tr, n - 1) <= t {
            1int
        } else {
            0int
        }
    }
}

/// The voices of every track in the first `i` tracks, at tick `t`, in
/// track order and slot order.
pub open spec fn voices_across<T: Tuner>(
    tracks: Seq<Seq<Event>>,
    tuner: T,
    t: int,
    i: int,
) -> Seq<Voice>
    decreases i,
    when i >= 0
{
    if i <= 0 {
        Seq::empty()
    } else {
        voices_across(tracks, tuner, t, i - 1) + voices_upto(
            table_after(tracks[i - 1], count_consumed(tracks[i - 1], tracks[i - 1].len() as int, t)),
            tuner,
            SLOTS as int,
        )
    }
}

/// The last tick at which any of the first `i` tracks consumes an event,
/// or -1 if none of them has events.
pub open spec fn last_consume(tracks: Seq<Seq<Event>>, i: int) -> int
    decreases i,
    when i >= 0
{
    if i <= 0 {
        -1
    } else {
        let prev = last_consume(tracks, i - 1);
        let own = if tracks[i - 1].len() == 0 {
            -1
        } else {
            consume_tick(tracks[i - 1], tracks[i - 1].len() - 1)
        };
        if own >= prev {
            own
        } else {
            prev
        }
    }
}

/// How many ticks the engine runs: through the last consumption.
pub open spec fn total_ticks(tracks: Seq<Seq<Event>>) -> int {
    last_consume(tracks, tracks.len() as int) + 1
}

/// `a / b` rounded up.
pub open spec fn ceil_div(a: int, b: int) -> int {
    (a + b - 1) / b
}

/// The tick whose span sample `s` falls in.
pub open spec fn tick_of_sample(s: int, sr: int, tpn: int) -> int {
    s * tpn / sr
}

/// How many samples the engine emits for a whole run.
pub open spec fn total_samples(tracks: Seq<Seq<Event>>, sr: int, tpn: int) -> int {
    ceil_div(total_ticks(tracks) * sr, tpn)
}

/// Output sample `s`: the mix, over all tracks, of every note sounding
/// during the tick that `s` falls in.
pub open spec fn rendered_sample<T: Tuner>(
    tracks: Seq<Seq<Event>>,
    tuner: T,
    s: int,
    sr: int,
    tpn: int,
) -> int {
    mix_spec(
        voices_across(tracks, tuner, tick_of_sample(s, sr, tpn), tracks.len() as int),
        s,
        sr,
        tpn,
    )
}

/// The voices one track contributes at tick `t`.
pub open spec fn track_voices<T: Tuner>(tr: Seq<Event>, tuner: T, t: int) -> Seq<Voice> {
    voices_upto(table_after(tr, count_consumed(tr, tr.len() as int, t)), tuner, SLOTS as int)
}

/// The voices the first `i` tracks contribute at tick `t`, taken as a
/// multiset: what the mixer sums, with the gathering order forgotten.
spec fn gathered_voices<T: Tuner>(
    tracks: Seq<Seq<Event>>,
    tuner: T,
    t: int,
    i: int,
) -> Multiset<Voice>
    decreases i,
    when i >= 0
{
    if i <= 0 {
        Multiset::empty()
    } else {
        gathered_voices(tracks, tuner, t, i - 1).add(
            track_voices(tracks[i - 1], tuner, t).to_multiset(),
        )
    }
}

/// The gathered voices are exactly the multiset of the gathering.
proof fn lemma_across_gathered<T: Tuner>(tracks: Seq<Seq<Event>>, tuner: T, t: int, i: int)
    requires
        0 <= i,
    ensures
        voices_across(tracks, tuner, t, i).to_multiset() == gathered_voices(tracks, tuner, t, i),
    decreases i,
{
    broadcast use vstd::multiset::group_multiset_axioms;

    if i <= 0 {
        let e = voices_across(tracks, tuner, t, 0);
        e.to_multiset_ensures();
        assert forall|v: Voice| true implies #[trigger] e.to_multiset().count(v) == 0 by {
            assert(!e.contains(v));
        }
        assert(e.to_multiset() =~= Multiset::<Voice>::empty());
    } else {
        lemma_across_gathered(tracks, tuner, t, i - 1);
        assert(voices_across(tracks, tuner, t, i) == voices_across(tracks, tuner, t, i - 1)
            + track_voices(tracks[i - 1], tuner, t));
        vstd::seq_lib::lemma_multiset_commutative(
            voices_across(tracks, tuner, t, i - 1),
            track_voices(tracks[i - 1], tuner, t),
        );
    }
}

/// The gathered multiset depends only on the tracks actually gathered.
proof fn lemma_gathered_prefix<T: Tuner>(
    a: Seq<Seq<Event>>,
    b: Seq<Seq<Event>>,
    tuner: T,
    t: int,
    i: int,
)
    requires
        0 <= i,
        forall|k: int| 0 <= k < i ==> a[k] == b[k],
    ensures
        gathered_voices(a, tuner, t, i) == gathered_voices(b, tuner, t, i),
    decreases i,
{
    if i > 0 {
        lemma_gathered_prefix(a, b, tuner, t, i - 1);
    }
}

/// Taking one track out takes exactly its voices out of the gathering.
proof fn lemma_gathered_remove<T: Tuner>(tracks: Seq<Seq<Event>>, tuner: T, t: int, j: int)
    requires
        0 <= j < tracks.len(),
    ensures
        gathered_voices(tracks, tuner, t, tracks.len() as int) == gathered_voices(
            tracks.remove(j),
            tuner,
            t,
            tracks.len() - 1,
        ).add(track_voices(tracks[j], tuner, t).to_multiset()),
    decreases tracks.len(),
{
    broadcast use vstd::multiset::group_multiset_axioms;

    let n = tracks.len() as int;
    if j == n - 1 {
        lemma_gathered_prefix(tracks.remove(j), tracks, tuner, t, n - 1);
    } else {
        let shorter = tracks.drop_last();
        lemma_gathered_remove(shorter, tuner, t, j);
        lemma_gathered_prefix(tracks, shorter, tuner, t, n - 1);
        lemma_gathered_prefix(tracks.remove(j), shorter.remove(j), tuner, t, n - 2);
        assert(tracks.remove(j)[n - 2] == tracks[n - 1]);
        assert(gathered_voices(tracks, tuner, t, n) =~= gathered_voices(
            tracks.remove(j),
            tuner,
            t,
            n - 1,
        ).add(track_voices(tracks[j], tuner, t).to_multiset()));
    }
}

/// Gatherings of the same tracks hold the same voices, whatever the
/// track order.
proof fn lemma_gathered_permutation<T: Tuner>(
    t1: Seq<Seq<Event>>,
    t2: Seq<Seq<Event>>,
    tuner: T,
    t: int,
)
    requires
        t1.to_multiset() == t2.to_multiset(),
    ensures
        gathered_voices(t1, tuner, t, t1.len() as int) == gathered_voices(
            t2,
            tuner,
            t,
            t2.len() as int,
        ),
    decreases t1.len(),
{
    t1.to_multiset_ensures();
    t2.to_multiset_ensures();
    if t1.len() == 0 {
        assert(t2.len() == 0);
    } else {
        let n = t1.len() as int;
        let x = t1.last();
        assert(t1.contains(x));
        assert(t2.to_multiset().count(x) > 0);
        assert(t2.contains(x));
        let j = choose|j: int| 0 <= j < t2.len() && t2[j] == x;
        lemma_gathered_remove(t1, tuner, t, n - 1);
        lemma_gathered_remove(t2, tuner, t, j);
        vstd::seq_lib::to_multiset_remove(t1, n - 1);
        vstd::seq_lib::to_multiset_remove(t2, j);
        lemma_gathered_permutation(t1.remove(n - 1), t2.remove(j), tuner, t);
    }
}

/// Mixing is commutative and associative: processing the tracks of a
/// document in any order gives bit-identical output. Two documents whose
/// track lists hold the same tracks, in any order, render every sample
/// equal.
pub proof fn lemma_track_order_immaterial<T: Tuner>(
    t1: Seq<Seq<Event>>,
    t2: Seq<Seq<Event>>,
    tuner: T,
    s: int,
    sr: int,
    tpn: int,
)
    requires
        t1.to_multiset() == t2.to_multiset(),
    ensures
        rendered_sample(t1, tuner, s, sr, tpn) == rendered_sample(t2, tuner, s, sr, tpn),
{
    let t = tick_of_sample(s, sr, tpn);
    lemma_across_gathered(t1, tuner, t, t1.len() as int);
    lemma_across_gathered(t2, tuner, t, t2.len() as int);
    lemma_gathered_permutation(t1, t2, tuner, t);
    crate::player::synth::lemma_mix_permutation(
        voices_across(t1, tuner, t, t1.len() as int),
        voices_across(t2, tuner, t, t2.len() as int),
        s,
        sr,
        tpn,
    );
}

/// Consumption ticks strictly increase along a track.
pub proof fn lemma_consume_tick_increasing(tr: Seq<Event>, j1: int, j2: int)
    requires
        0 <= j1 <= j2,
    ensures
        consume_tick(tr, j1) <= consume_tick(tr, j2) - (j2 - j1),
    decreases j2 - j1,
{
    if j1 < j2 {
        lemma_consume_tick_increasing(tr, j1, j2 - 1);
    }
}

/// Every event's consumption tick is at least its due tick.
pub proof fn lemma_consume_tick_ge_due(tr: Seq<Event>, j: int)
    requires
        0 <= j,
    ensures
        consume_tick(tr, j) >= due_tick(tr, j),
{
}

/// Accumulated deltas never decrease.
pub proof fn lemma_prefix_ticks_mono(tr: Seq<Event>, n1: int, n2: int)
    requires
        n1 <= n2,
    ensures
        prefix_ticks(tr, n1) <= prefix_ticks(tr, n2),
    decreases n2 - n1,
{
    if n1 < n2 {
        lemma_prefix_ticks_mono(tr, n1, n2 - 1);
    }
}

/// Accumulated deltas are bounded by the count of events times the
/// largest delta.
pub proof fn lemma_prefix_ticks_bound(tr: Seq<Event>, n: int)
    requires
        0 <= n,
        forall|i: int| 0 <= i < tr.len() ==> (#[trigger] tr[i]).delta <= crate::midi::DELTA_MAX,
        n <= tr.len(),
    ensures
        0 <= prefix_ticks(tr, n) <= n * (crate::midi::DELTA_MAX as int),
    decreases n,
{
    if n > 0 {
        lemma_prefix_ticks_bound(tr, n - 1);
        assert((n - 1) * (crate::midi::DELTA_MAX as int) + (crate::midi::DELTA_MAX as int) == n * (
        crate::midi::DELTA_MAX as int)) by (nonlinear_arith);
    }
}

/// Consumption ticks are bounded: an event waits at most one tick for
/// each of its predecessors beyond its due tick.
pub proof fn lemma_consume_tick_bound(tr: Seq<Event>, j: int)
    requires
        0 <= j < tr.len(),
        forall|i: int| 0 <= i < tr.len() ==> (#[trigger] tr[i]).delta <= crate::midi::DELTA_MAX,
    ensures
        consume_tick(tr, j) <= prefix_ticks(tr, tr.len() as int) + j,
        0 <= consume_tick(tr, j),
    decreases j,
{
    lemma_prefix_ticks_mono(tr, j + 1, tr.len() as int);
    lemma_prefix_ticks_bound(tr, j + 1);
    if j > 0 {
        lemma_consume_tick_bound(tr, j - 1);
    }
}

/// Accumulated deltas are never negative.
pub proof fn lemma_prefix_ticks_nonneg(tr: Seq<Event>, n: int)
    ensures
        0 <= prefix_ticks(tr, n),
    decreases (if n <= 0 { 0int } else { n }),
{
    if n > 0 {
        lemma_prefix_ticks_nonneg(tr, n - 1);
    }
}

/// Consumption ticks are never negative.
pub proof fn lemma_consume_tick_nonneg(tr: Seq<Event>, j: int)
    requires
        0 <= j,
    ensures
        0 <= consume_tick(tr, j),
{
    lemma_prefix_ticks_nonneg(tr, j + 1);
}

/// A well-formed track keeps its note table well shaped: 128 slots, every
/// sounding note with a velocity of at most 127.
pub proof fn lemma_table_shape(tr: Seq<Event>, n: int)
    requires
        0 <= n <= tr.len(),
        forall|i: int| 0 <= i < tr.len() ==> (#[trigger] tr[i]).wf(),
    ensures
        table_after(tr, n).len() == SLOTS,
        forall|k: int|
            0 <= k < SLOTS && table_after(tr, n)[k] is Some ==> (#[trigger] table_after(tr, n)[k])->Some_0.velocity <= 127,
    decreases n,
{
    if n > 0 {
        lemma_table_shape(tr, n - 1);
        assert(tr[n - 1].wf());
    }
}

/// Every note sounding after `n` events started at one of their
/// consumption ticks, so no later than any bound on those.
pub proof fn lemma_table_onsets(tr: Seq<Event>, n: int, b: int)
    requires
        0 <= n <= tr.len(),
        forall|i: int| 0 <= i < tr.len() ==> (#[trigger] tr[i]).wf(),
        forall|j: int| 0 <= j < n ==> #[trigger] consume_tick(tr, j) <= b,
        b <= u64::MAX,
    ensures
        forall|k: int|
            0 <= k < table_after(tr, n).len() && table_after(tr, n)[k] is Some ==> (
            #[trigger] table_after(tr, n)[k])->Some_0.start_at <= b,
    decreases n,
{
    if n > 0 {
        lemma_table_onsets(tr, n - 1, b);
        lemma_consume_tick_nonneg(tr, n - 1);
        lemma_table_shape(tr, n - 1);
        assert(consume_tick(tr, n - 1) <= b);
        assert(tr[n - 1].wf());
        let m0 = table_after(tr, n - 1);
        let m1 = table_after(tr, n);
        assert forall|k: int| 0 <= k < m1.len() && m1[k] is Some implies (#[trigger] m1[k])->Some_0.start_at
            <= b by {
            if 0 <= k < m0.len() && m0[k] is Some {
                assert(m0[k]->Some_0.start_at <= b);
            }
        }
    }
}

/// A table's voices are at most one per slot.
pub proof fn lemma_voices_upto_len<T: Tuner>(m: Seq<Option<NoteState>>, tuner: T, k: int)
    requires
        0 <= k,
    ensures
        voices_upto(m, tuner, k).len() <= k,
    decreases k,
{
    if k > 0 {
        lemma_voices_upto_len(m, tuner, k - 1);
    }
}

/// No event of any of the first `n` tracks is consumed after
/// `last_consume` of those tracks.
pub proof fn lemma_last_consume_ge(tracks: Seq<Seq<Event>>, n: int, i: int, j: int)
    requires
        0 <= i < n,
        0 <= j < tracks[i].len(),
    ensures
        consume_tick(tracks[i], j) <= last_consume(tracks, n),
    decreases n,
{
    if i == n - 1 {
        lemma_consume_tick_increasing(tracks[i], j, tracks[i].len() - 1);
    } else {
        lemma_last_consume_ge(tracks, n - 1, i, j);
    }
}

/// Counting consumed events: if the first `idx` events are consumed by
/// tick `t` and the rest are not, the count is `idx`.
pub proof fn lemma_count_consumed_split(tr: Seq<Event>, n: int, t: int, idx: int)
    requires
        0 <= idx <= n,
        forall|j: int| 0 <= j < idx ==> consume_tick(tr, j) <= t,
        forall|j: int| idx <= j < n ==> consume_tick(tr, j) > t,
    ensures
        count_consumed(tr, n, t) == idx,
    decreases n,
{
    if n > 0 {
        if idx == n {
            lemma_count_consumed_split(tr, n - 1, t, idx - 1);
        } else {
            lemma_count_consumed_split(tr, n - 1, t, idx);
        }
    }
}

/// A cursor that has consumed exactly the events due by tick `t` sits at
/// the consumed count for `t`.
pub proof fn lemma_cursor_count(tr: Seq<Event>, idx: int, t: int)
    requires
        0 <= idx <= tr.len(),
        forall|j: int| 0 <= j < idx ==> #[trigger] consume_tick(tr, j) <= t,
        idx < tr.len() ==> consume_tick(tr, idx) > t,
    ensures
        count_consumed(tr, tr.len() as int, t) == idx,
{
    assert forall|j: int| idx <= j < tr.len() implies #[trigger] consume_tick(tr, j) > t by {
        lemma_consume_tick_increasing(tr, idx, j);
    }
    lemma_count_consumed_split(tr, tr.len() as int, t, idx);
}

/// The last consumption over any prefix of the tracks is at least -1.
pub proof fn lemma_last_consume_lb(tracks: Seq<Seq<Event>>, n: int)
    requires
        0 <= n,
    ensures
        -1 <= last_consume(tracks, n),
    decreases n,
{
    if n > 0 {
        lemma_last_consume_lb(tracks, n - 1);
        if tracks[n - 1].len() > 0 {
            lemma_consume_tick_nonneg(tracks[n - 1], tracks[n - 1].len() - 1);
        }
    }
}

/// Once every track's events are consumed before tick `t`, the last
/// consumption lies before `t`.
pub proof fn lemma_last_consume_lt(tracks: Seq<Seq<Event>>, n: int, t: int)
    requires
        0 <= n,
        0 <= t,
        forall|i: int, j: int|
            0 <= i < n && 0 <= j < tracks[i].len() ==> #[trigger] consume_tick(tracks[i], j) < t,
    ensures
        last_consume(tracks, n) < t,
    decreases n,
{
    if n > 0 {
        lemma_last_consume_lt(tracks, n - 1, t);
    }
}

/// What the consumed count means: the consumed events are exactly a
/// prefix, every one of them due by `t`, the next one not.
pub proof fn lemma_count_consumed_inverse(tr: Seq<Event>, n: int, t: int)
    requires
        0 <= n <= tr.len(),
    ensures
        0 <= count_consumed(tr, n, t) <= n,
        forall|m: int|
            0 <= m < count_consumed(tr, n, t) ==> #[trigger] consume_tick(tr, m) <= t,
        count_consumed(tr, n, t) < n ==> consume_tick(tr, count_consumed(tr, n, t)) > t,
    decreases n,
{
    if n > 0 {
        lemma_count_consumed_inverse(tr, n - 1, t);
        let c1 = count_consumed(tr, n - 1, t);
        if consume_tick(tr, n - 1) <= t {
            // every earlier event is due even earlier, so the whole
            // prefix of length n is consumed
            assert forall|m: int| 0 <= m < n implies #[trigger] consume_tick(tr, m) <= t by {
                lemma_consume_tick_increasing(tr, m, n - 1);
            }
            if c1 < n - 1 {
                assert(consume_tick(tr, c1) > t);
                assert(consume_tick(tr, c1) <= t);
            }
        }
    }
}

/// A note started by a Note-On that the very next event releases is in
/// the table exactly while that one event pair is mid-flight: after the
/// Note-On is consumed and before the Note-Off is.
pub proof fn lemma_note_window(tr: Seq<Event>, j: int, n: int)
    requires
        0 <= j,
        j + 1 < tr.len(),
        forall|i: int| 0 <= i < tr.len() ==> (#[trigger] tr[i]).wf(),
        tr.len() <= crate::midi::TRACK_EVENTS_MAX,
        tr[j].payload matches Payload::NoteOn { .. },
        tr[j + 1].payload matches Payload::NoteOff { .. },
        tr[j + 1].payload->NoteOff_key == tr[j].payload->NoteOn_key,
        0 <= n <= tr.len(),
    ensures
        ({
            let k = tr[j].payload->NoteOn_key as int;
            let m = table_after(tr, n);
            (m[k] is Some && m[k]->Some_0.start_at == consume_tick(tr, j)) <==> n == j + 1
        }),
    decreases n,
{
    let k = tr[j].payload->NoteOn_key as int;
    lemma_table_shape(tr, n);
    lemma_consume_tick_bound(tr, j);
    lemma_prefix_ticks_bound(tr, tr.len() as int);
    lemma_consume_tick_nonneg(tr, j);
    if n == 0 {
    } else {
        lemma_note_window(tr, j, n - 1);
        lemma_table_shape(tr, n - 1);
        let m0 = table_after(tr, n - 1);
        let m1 = table_after(tr, n);
        lemma_consume_tick_bound(tr, n - 1);
        lemma_consume_tick_nonneg(tr, n - 1);
        if n - 1 == j {
            // the Note-On itself: it inserts this very instance
        } else if n - 1 == j + 1 {
            // the Note-Off: it removes the instance
        } else {
            // any other event leaves no note with this onset in slot k:
            // a Note-On elsewhere in the track is consumed at a
            // different tick
            if n - 1 > j {
                lemma_consume_tick_increasing(tr, j, n - 1);
            } else {
                lemma_consume_tick_increasing(tr, n - 1, j);
            }
            assert(consume_tick(tr, n - 1) != consume_tick(tr, j));
        }
    }
}

/// A note started by a Note-On whose very next event releases it
/// contributes to no sample outside its own span: every sample at whose
/// tick the note still sounds lies at or after the note's onset boundary
/// and strictly before its release boundary.
pub proof fn lemma_note_window_samples(tr: Seq<Event>, j: int, s: int, sr: int, tpn: int)
    requires
        0 <= j,
        j + 1 < tr.len(),
        forall|i: int| 0 <= i < tr.len() ==> (#[trigger] tr[i]).wf(),
        tr.len() <= crate::midi::TRACK_EVENTS_MAX,
        tr[j].payload matches Payload::NoteOn { .. },
        tr[j + 1].payload matches Payload::NoteOff { .. },
        tr[j + 1].payload->NoteOff_key == tr[j].payload->NoteOn_key,
        1 <= sr,
        1 <= tpn,
        0 <= s,
        ({
            let k = tr[j].payload->NoteOn_key as int;
            let m = table_after(
                tr,
                count_consumed(tr, tr.len() as int, tick_of_sample(s, sr, tpn)),
            );
            m[k] is Some && m[k]->Some_0.start_at == consume_tick(tr, j)
        }),
    ensures
        consume_tick(tr, j) * sr <= s * tpn,
        s * tpn < consume_tick(tr, j + 1) * sr,
{
    let t = tick_of_sample(s, sr, tpn);
    assert(0 <= s * tpn) by (nonlinear_arith)
        requires
            0 <= s,
            0 <= tpn,
    ;
    vstd::arithmetic::div_mod::lemma_fundamental_div_mod(s * tpn, sr);
    assert(0 <= (s * tpn) % sr < sr);
    let cnt = count_consumed(tr, tr.len() as int, t);
    lemma_count_consumed_inverse(tr, tr.len() as int, t);
    lemma_note_window(tr, j, cnt);
    assert(cnt == j + 1);
    assert(consume_tick(tr, j) <= t);
    assert(consume_tick(tr, j + 1) > t);
    vstd::arithmetic::mul::lemma_mul_inequality(consume_tick(tr, j), t, sr);
    vstd::arithmetic::mul::lemma_mul_inequality(t + 1, consume_tick(tr, j + 1), sr);
    assert((t + 1) * sr == t * sr + sr) by (nonlinear_arith);
}

/// Well-formed tracks settle early: the last consumption stays far below
/// the 64-bit range.
pub proof fn lemma_last_consume_bound(tracks: Seq<Seq<Event>>, n: int)
    requires
        0 <= n <= tracks.len(),
        forall|i: int| 0 <= i < tracks.len() ==> crate::midi::track_wf(#[trigger] tracks[i]),
    ensures
        last_consume(tracks, n) < 0x2000_0000_0000_0000,
    decreases n,
{
    if n > 0 {
        lemma_last_consume_bound(tracks, n - 1);
        let tr = tracks[n - 1];
        if tr.len() > 0 {
            lemma_consume_tick_bound(tr, tr.len() - 1);
            lemma_prefix_ticks_bound(tr, tr.len() as int);
        }
    }
}

} // verus!
