use tune::midi::{Document, Event, Payload, Timing};
use tune::player::average::Average;
use tune::player::{PlayError, Player, Rendering, WarningKind, SAMPLE_RATE};

fn on(delta: u32, key: u8, velocity: u8) -> Event {
    Event { delta, payload: Payload::NoteOn { key, velocity } }
}

fn off(delta: u32, key: u8, velocity: u8) -> Event {
    Event { delta, payload: Payload::NoteOff { key, velocity } }
}

fn metrical(tracks: Vec<Vec<Event>>) -> Document {
    Document { timing: Timing::Metrical(480), tracks }
}

fn render(tracks: Vec<Vec<Event>>) -> Rendering {
    let player = Player::new(Average::new());
    player.play(&metrical(tracks)).expect("playback should succeed")
}

/// Full scale of one voice at velocity 127: the sine amplitude times 127.
const FULL_SCALE: f64 = 127.0 * 2147483648.0;

#[test]
fn single_note_renders_one_second_of_concert_a() {
    let r = render(vec![vec![on(0, 69, 127), off(480, 69, 0)]]);
    // 480 ticks of note at 44100/480 samples per tick, then the span of
    // the tick that consumed the note-off
    assert_eq!(r.samples.len(), 44192);
    assert!(r.warnings.iter().all(|w| w.is_empty()));
    for s in 0..44100usize {
        let got = r.samples[s] as f64 / FULL_SCALE;
        let t = s as f64 / SAMPLE_RATE as f64;
        let want = (2.0 * std::f64::consts::PI * 440.0 * t).sin();
        assert!(
            (got - want).abs() < 1e-3,
            "sample {} is {} but a 440 Hz sine gives {}",
            s,
            got,
            want
        );
    }
    for s in 44100..r.samples.len() {
        assert_eq!(r.samples[s], 0, "sample {} after the release", s);
    }
}

#[test]
fn missing_note_off_warns_and_playback_completes() {
    let r = render(vec![vec![off(0, 60, 64)]]);
    assert_eq!(r.warnings.len(), 1);
    assert_eq!(r.warnings[0].len(), 1);
    let w = r.warnings[0][0];
    assert_eq!(w.kind, WarningKind::MissingNoteOff);
    assert_eq!(w.key, 60);
    assert_eq!(w.velocity, 64);
    // one tick of silence
    assert_eq!(r.samples.len(), 92);
    assert!(r.samples.iter().all(|&v| v == 0));
}

#[test]
fn orphan_aftertouch_warns_and_playback_completes() {
    let r = render(vec![vec![Event {
        delta: 0,
        payload: Payload::Aftertouch { key: 70, velocity: 99 },
    }]]);
    assert_eq!(r.warnings[0].len(), 1);
    assert_eq!(r.warnings[0][0].kind, WarningKind::OrphanAftertouch);
    assert_eq!(r.warnings[0][0].key, 70);
    assert_eq!(r.warnings[0][0].velocity, 99);
}

#[test]
fn aftertouch_on_sounding_note_does_not_warn() {
    let r = render(vec![vec![
        on(0, 70, 100),
        Event { delta: 0, payload: Payload::Aftertouch { key: 70, velocity: 20 } },
        off(4, 70, 0),
    ]]);
    assert!(r.warnings[0].is_empty());
}

#[test]
fn two_tracks_mix_additively_with_exact_velocity_ratio() {
    let loud = vec![on(0, 69, 127), off(480, 69, 0)];
    let soft = vec![on(0, 69, 64), off(480, 69, 0)];
    let both = render(vec![loud.clone(), soft.clone()]);
    let a = render(vec![loud]);
    let b = render(vec![soft]);
    assert_eq!(both.samples.len(), a.samples.len());
    assert_eq!(both.samples.len(), b.samples.len());
    for s in 0..both.samples.len() {
        // linear additive mixing, exactly
        assert_eq!(both.samples[s], a.samples[s] + b.samples[s], "sample {}", s);
        // the two contributions keep the exact 127:64 velocity ratio
        assert_eq!(a.samples[s] * 64, b.samples[s] * 127, "sample {}", s);
    }
}

#[test]
fn track_order_does_not_change_the_mix() {
    let one = vec![on(0, 60, 90), off(240, 60, 0)];
    let two = vec![on(0, 72, 40), off(480, 72, 0)];
    let ab = render(vec![one.clone(), two.clone()]);
    let ba = render(vec![two, one]);
    assert_eq!(ab.samples, ba.samples);
}

#[test]
fn timecode_document_is_rejected_before_any_samples() {
    let player = Player::new(Average::new());
    let doc = Document { timing: Timing::Timecode, tracks: vec![vec![on(0, 69, 127)]] };
    assert!(matches!(player.play(&doc), Err(PlayError::UnsupportedTiming)));
}

#[test]
fn zero_resolution_is_rejected() {
    let player = Player::new(Average::new());
    let doc = Document { timing: Timing::Metrical(0), tracks: vec![] };
    assert!(matches!(player.play(&doc), Err(PlayError::ZeroResolution)));
}

#[test]
fn empty_document_renders_nothing() {
    let r = render(vec![]);
    assert_eq!(r.samples.len(), 0);
    assert_eq!(r.warnings.len(), 0);
}

#[test]
fn tick_to_sample_accumulation_does_not_drift() {
    // 44100 / 480 = 91.875 samples per tick: six ticks make 551.25,
    // which must round up to 552, not fall to 6 * 91 = 546
    let r = render(vec![vec![Event { delta: 5, payload: Payload::Meta }]]);
    assert_eq!(r.samples.len(), 552);
    assert!(r.samples.iter().all(|&v| v == 0));
}

#[test]
fn note_contributes_nothing_before_its_onset() {
    // one quarter note of silence, then the note
    let r = render(vec![vec![on(480, 69, 127), off(480, 69, 0)]]);
    for s in 0..44100usize {
        assert_eq!(r.samples[s], 0, "sample {} before the onset", s);
    }
    assert!((44100..88200).any(|s| r.samples[s] != 0));
}

#[test]
fn highest_resolution_renders_short_spans() {
    // 32767 ticks per quarter note: a one-tick document spans
    // ceil(44100 / 32767) = 2 samples
    let player = Player::new(Average::new());
    let doc = Document {
        timing: Timing::Metrical(0x7FFF),
        tracks: vec![vec![Event { delta: 0, payload: Payload::Meta }]],
    };
    let r = player.play(&doc).expect("playback should succeed");
    assert_eq!(r.samples.len(), 2);
}

#[test]
fn an_empty_track_does_not_cut_the_document_short() {
    let with_empty = render(vec![vec![], vec![on(0, 69, 127), off(480, 69, 0)]]);
    let alone = render(vec![vec![on(0, 69, 127), off(480, 69, 0)]]);
    assert_eq!(with_empty.samples, alone.samples);
    assert_eq!(with_empty.warnings.len(), 2);
}

#[test]
fn meta_and_other_events_have_no_audio_effect() {
    let plain = render(vec![vec![on(0, 69, 127), off(480, 69, 0)]]);
    let busy = render(vec![vec![
        on(0, 69, 127),
        Event { delta: 0, payload: Payload::Meta },
        Event { delta: 0, payload: Payload::Other },
        off(480, 69, 0),
    ]]);
    // the extra events take a tick each to consume but touch no state,
    // and the release still falls on tick 480
    assert_eq!(plain.samples, busy.samples);
}
