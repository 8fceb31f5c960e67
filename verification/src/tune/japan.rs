//! A pentatonic table built from the first five powers of three, each folded
//! down by octaves until it is at most two.

use vstd::prelude::*;
use crate::ratio::Ratio;
use crate::ratio::reduce_above_two;
use crate::ratio::reduced_den_above_two;
use crate::tune::Tune;
use crate::tune::pow3;

verus! {

pub struct Japan;

/// The `i`-th power of three folded into the range (1, 2] by halving.
pub open spec fn japan_entry(i: int) -> Ratio {
    Ratio {
        num: pow3(i) as u64,
        den: reduced_den_above_two(pow3(i), 1) as u64,
    }
}

pub open spec fn japan_table() -> Seq<Ratio> {
    Seq::new(5, |i: int| japan_entry(i))
}

impl Tune for Japan {
    open spec fn table() -> Seq<Ratio> {
        japan_table()
    }

    fn generate() -> (r: Vec<Ratio>)
        ensures
            r@ == Self::table(),
            forall|i: int| 0 <= i < r@.len() ==> (#[trigger] r@[i]).wf(),
    {
        let mut sounds: Vec<Ratio> = Vec::new();
        let mut num: u64 = 1;
        for i in 0..5u64
            invariant
                num == pow3(i as int),
                1 <= num <= 243,
                sounds@.len() == i,
                forall|j: int| 0 <= j < i ==> sounds@[j] == japan_entry(j),
                forall|j: int| 0 <= j < i ==> (#[trigger] sounds@[j]).wf(),
        {
            proof {
                crate::tune::lemma_pow3_small();
            }
            let folded = reduce_above_two(Ratio { num, den: 1 });
            sounds.push(folded);
            num = num * 3;
        }
        proof {
            assert(sounds@ =~= japan_table());
        }
        sounds
    }
}

} // verus!
