//! The just-intonation table, already in ascending order.

use vstd::prelude::*;
use crate::ratio::Ratio;
use crate::tune::Tune;
use crate::tune::just::Just;
use crate::tune::just::just_table;

verus! {

pub fn run() -> (r: Vec<Ratio>)
    ensures
        r@ == just_table(),
        forall|i: int| 0 <= i < r@.len() ==> (#[trigger] r@[i]).wf(),
{
    Just::generate()
}

} // verus!
