use tune::player::average::Average;
use tune::player::tuner::Tuner as PitchTuner;
use tune::ratio::{sort_ratios, Ratio};
use tune::tune::average::Average as AverageTable;
use tune::tune::japan::Japan;
use tune::tune::just::Just;
use tune::tune::lydian::Lydian;
use tune::tune::pythagoras::Pythagoras;
use tune::tune::{Tune, Tuner};

fn assert_table(got: &[Ratio], want: &[(u64, u64)]) {
    assert_eq!(got.len(), want.len());
    for (i, (g, w)) in got.iter().zip(want.iter()).enumerate() {
        assert_eq!((g.num, g.den), *w, "entry {}", i);
    }
}

fn assert_values(got: &[Ratio], want: &[(u64, u64)]) {
    assert_eq!(got.len(), want.len());
    for (i, (g, w)) in got.iter().zip(want.iter()).enumerate() {
        // equal as rational values; the parts need not be reduced
        assert_eq!(
            (g.num as u128) * (w.1 as u128),
            (w.0 as u128) * (g.den as u128),
            "entry {}: {}/{} is not {}/{}",
            i,
            g.num,
            g.den,
            w.0,
            w.1
        );
    }
}

#[test]
fn just_table_holds_the_classical_factors() {
    assert_table(
        &Just::generate(),
        &[(1, 1), (9, 8), (5, 4), (4, 3), (3, 2), (5, 3), (15, 8)],
    );
}

#[test]
fn japan_table_folds_powers_of_three_into_the_octave() {
    assert_table(&Japan::generate(), &[(1, 1), (3, 2), (9, 8), (27, 16), (81, 64)]);
}

#[test]
fn pythagoras_table_rebases_to_the_lowest_power() {
    assert_values(
        &Pythagoras::generate(),
        &[(27, 16), (81, 64), (243, 128), (729, 512), (9, 8), (3, 2), (1, 1)],
    );
}

#[test]
fn lydian_walk_stops_after_twelve_fifths() {
    assert_table(
        &Lydian::generate(),
        &[
            (1, 1),
            (3, 2),
            (9, 8),
            (27, 16),
            (81, 64),
            (243, 128),
            (729, 512),
            (2187, 2048),
            (6561, 4096),
            (19683, 16384),
            (59049, 32768),
            (177147, 131072),
            (531441, 262144),
        ],
    );
}

#[test]
fn average_table_approximates_equal_semitones() {
    let t = AverageTable::generate();
    assert_eq!(t.len(), 12);
    assert_eq!((t[0].num, t[0].den), (1000000, 1000000));
    assert_eq!((t[7].num, t[7].den), (1498307, 1000000));
    for i in 0..12 {
        let f = t[i].num as f64 / t[i].den as f64;
        let want = 2f64.powf(i as f64 / 12.0);
        assert!((f - want).abs() < 1e-6, "entry {}: {} vs {}", i, f, want);
    }
}

#[test]
fn tuner_orders_the_table_and_keeps_one_based_positions() {
    let pairs = Tuner::<Japan>::new().tune();
    let want: Vec<(usize, (u64, u64))> =
        vec![(1, (1, 1)), (3, (9, 8)), (5, (81, 64)), (2, (3, 2)), (4, (27, 16))];
    assert_eq!(pairs.len(), want.len());
    for (i, ((idx, r), (widx, w))) in pairs.iter().zip(want.iter()).enumerate() {
        assert_eq!(idx, widx, "entry {}", i);
        assert_eq!((r.num, r.den), *w, "entry {}", i);
    }
}

#[test]
fn equal_temperament_hits_concert_pitch_exactly() {
    let avg = Average::new();
    assert_eq!(avg.freq(69), 440000);
    assert_eq!(avg.freq(57), 220000);
    assert_eq!(avg.freq(81), 880000);
    assert_eq!(avg.freq(9), 13750);
    assert_eq!(avg.freq(0), 8176);
    assert_eq!(avg.freq(127), 12544000);
}

#[test]
fn equal_temperament_doubles_every_octave() {
    let avg = Average::new();
    for code in 0..116u8 {
        assert_eq!(avg.freq(code + 12), 2 * avg.freq(code), "code {}", code);
    }
}

#[test]
fn ratio_comparisons_cross_multiply() {
    let a = Ratio::new(3, 2);
    let b = Ratio::new(243, 128);
    assert!(a.lt(&b));
    assert!(a.le(&b));
    assert!(!b.le(&a));
    let c = Ratio::new(6, 4);
    assert!(a.le(&c) && c.le(&a));
    assert!(!a.lt(&c));
}

#[test]
fn sorting_ratios_orders_by_value() {
    let v = vec![
        Ratio::new(9, 8),
        Ratio::new(1, 1),
        Ratio::new(2, 1),
        Ratio::new(3, 2),
        Ratio::new(4, 3),
    ];
    let s = sort_ratios(&v);
    assert_values(&s, &[(1, 1), (9, 8), (4, 3), (3, 2), (2, 1)]);
}
