//! Just intonation: the seven degrees of the major scale as small-integer
//! frequency ratios.

use vstd::prelude::*;
use crate::ratio::Ratio;
use crate::tune::Tune;

verus! {

pub struct Just;

/// The classical just-intonation factors of the major scale.
pub open spec fn just_table() -> Seq<Ratio> {
    seq![
        Ratio { num: 1, den: 1 },
        Ratio { num: 9, den: 8 },
        Ratio { num: 5, den: 4 },
        Ratio { num: 4, den: 3 },
        Ratio { num: 3, den: 2 },
        Ratio { num: 5, den: 3 },
        Ratio { num: 15, den: 8 },
    ]
}

impl Tune for Just {
    open spec fn table() -> Seq<Ratio> {
        just_table()
    }

    fn generate() -> (r: Vec<Ratio>)
        ensures
            r@ == Self::table(),
            forall|i: int| 0 <= i < r@.len() ==> (#[trigger] r@[i]).wf(),
    {
        let mut sounds: Vec<Ratio> = Vec::new();
        sounds.push(Ratio::new(1, 1));
        sounds.push(Ratio::new(9, 8));
        sounds.push(Ratio::new(5, 4));
        sounds.push(Ratio::new(4, 3));
        sounds.push(Ratio::new(3, 2));
        sounds.push(Ratio::new(5, 3));
        sounds.push(Ratio::new(15, 8));
        proof {
            assert(sounds@ =~= just_table());
        }
        sounds
    }
}

} // verus!
