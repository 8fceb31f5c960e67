use tune::display::{self, DisplayError};
use tune::midi::{Document, Event, Payload, Timing};
use tune::player::average::Average;
use tune::player::{Player, TrackPlayer};
use tune::ratio::Ratio;

fn assert_values(got: &[Ratio], want: &[(u64, u64)]) {
    assert_eq!(got.len(), want.len());
    for (i, (g, w)) in got.iter().zip(want.iter()).enumerate() {
        assert_eq!(
            (g.num as u128) * (w.1 as u128),
            (w.0 as u128) * (g.den as u128),
            "entry {}: {}/{} is not {}/{}",
            i,
            g.num,
            g.den,
            w.0,
            w.1
        );
    }
}

#[test]
fn display_japan_is_the_sorted_pentatonic() {
    let v = display::run("japan").unwrap();
    assert_values(&v, &[(1, 1), (9, 8), (81, 64), (3, 2), (27, 16)]);
}

#[test]
fn display_just_keeps_the_table_order() {
    let v = display::run("just").unwrap();
    assert_values(&v, &[(1, 1), (9, 8), (5, 4), (4, 3), (3, 2), (5, 3), (15, 8)]);
}

#[test]
fn display_lydian_takes_the_first_seven_fifths_sorted() {
    let v = display::run("lydian").unwrap();
    assert_values(
        &v,
        &[(1, 1), (9, 8), (81, 64), (729, 512), (3, 2), (27, 16), (243, 128)],
    );
}

#[test]
fn display_pythagoras_lowers_rebases_and_folds() {
    let v = display::run("pythagoras").unwrap();
    assert_values(
        &v,
        &[(1, 1), (9, 8), (81, 64), (4, 3), (3, 2), (27, 16), (243, 128)],
    );
}

#[test]
fn display_rejects_an_unknown_name() {
    assert!(matches!(display::run("meantone"), Err(DisplayError::UnknownName)));
    assert!(matches!(display::run(""), Err(DisplayError::UnknownName)));
    // the playback-only tuning has no display table
    assert!(matches!(display::run("average"), Err(DisplayError::UnknownName)));
}

#[test]
fn display_average_is_a_placeholder() {
    assert!(tune::display::average::run().is_ok());
}

#[test]
fn track_player_consumes_one_due_event_per_tick() {
    let events = vec![
        Event { delta: 0, payload: Payload::NoteOn { key: 69, velocity: 127 } },
        Event { delta: 0, payload: Payload::NoteOn { key: 69, velocity: 64 } },
        Event { delta: 3, payload: Payload::NoteOff { key: 69, velocity: 0 } },
    ];
    let mut tp = TrackPlayer::new(events);
    assert!(!tp.done());

    assert!(tp.advance(0).is_none());
    let notes = tp.active_notes();
    assert_eq!(notes.len(), 1);
    assert_eq!(notes[0].0, 69);
    assert_eq!(notes[0].1.start_at, 0);
    assert_eq!(notes[0].1.velocity, 127);

    // a duplicate note-on overwrites instead of stacking
    assert!(tp.advance(1).is_none());
    let notes = tp.active_notes();
    assert_eq!(notes.len(), 1);
    assert_eq!(notes[0].1.start_at, 1);
    assert_eq!(notes[0].1.velocity, 64);

    // nothing is due before tick 3
    assert!(tp.advance(2).is_none());
    assert_eq!(tp.active_notes().len(), 1);
    assert!(!tp.done());

    assert!(tp.advance(3).is_none());
    assert_eq!(tp.active_notes().len(), 0);
    assert!(tp.done());

    // once finished, advancing stays a no-op
    assert!(tp.advance(4).is_none());
    assert!(tp.done());
}

#[test]
fn note_on_at_velocity_zero_is_a_silent_note() {
    let player = Player::new(Average::new());
    let doc = Document {
        timing: Timing::Metrical(480),
        tracks: vec![vec![
            Event { delta: 0, payload: Payload::NoteOn { key: 69, velocity: 0 } },
            Event { delta: 480, payload: Payload::NoteOff { key: 69, velocity: 0 } },
        ]],
    };
    let r = player.play(&doc).unwrap();
    assert_eq!(r.samples.len(), 44192);
    assert!(r.samples.iter().all(|&v| v == 0));
    assert!(r.warnings[0].is_empty());
}
