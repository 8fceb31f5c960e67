//! Twelve-tone equal temperament.
//!
//! The equal-tempered semitone factors are irrational, so this table holds
//! their nearest-millionth rational approximations: entry `i` approximates
//! the twelfth root of two raised to the power `i`.

use vstd::prelude::*;
use crate::ratio::Ratio;
use crate::tune::Tune;

verus! {

pub struct Average;

/// Nearest-millionth approximations of the twelve equal-tempered factors.
pub open spec fn average_table() -> Seq<Ratio> {
    seq![
        Ratio { num: 1000000, den: 1000000 },
        Ratio { num: 1059463, den: 1000000 },
        Ratio { num: 1122462, den: 1000000 },
        Ratio { num: 1189207, den: 1000000 },
        Ratio { num: 1259921, den: 1000000 },
        Ratio { num: 1334840, den: 1000000 },
        Ratio { num: 1414214, den: 1000000 },
        Ratio { num: 1498307, den: 1000000 },
        Ratio { num: 1587401, den: 1000000 },
        Ratio { num: 1681793, den: 1000000 },
        Ratio { num: 1781797, den: 1000000 },
        Ratio { num: 1887749, den: 1000000 },
    ]
}

impl Tune for Average {
    open spec fn table() -> Seq<Ratio> {
        average_table()
    }

    fn generate() -> (r: Vec<Ratio>)
        ensures
            r@ == Self::table(),
            forall|i: int| 0 <= i < r@.len() ==> (#[trigger] r@[i]).wf(),
    {
        let mut sounds: Vec<Ratio> = Vec::new();
        sounds.push(Ratio::new(1000000, 1000000));
        sounds.push(Ratio::new(1059463, 1000000));
        sounds.push(Ratio::new(1122462, 1000000));
        sounds.push(Ratio::new(1189207, 1000000));
        sounds.push(Ratio::new(1259921, 1000000));
        sounds.push(Ratio::new(1334840, 1000000));
        sounds.push(Ratio::new(1414214, 1000000));
        sounds.push(Ratio::new(1498307, 1000000));
        sounds.push(Ratio::new(1587401, 1000000));
        sounds.push(Ratio::new(1681793, 1000000));
        sounds.push(Ratio::new(1781797, 1000000));
        sounds.push(Ratio::new(1887749, 1000000));
        proof {
            assert(sounds@ =~= average_table());
        }
        sounds
    }
}

} // verus!
