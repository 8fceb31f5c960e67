//! The pentatonic table, ordered for presentation.

use vstd::prelude::*;
use crate::ratio::Ratio;
use crate::ratio::sort_ratios;
use crate::ratio::sort_spec;
use crate::ratio::sorted;
use crate::tune::Tune;
use crate::tune::japan::Japan;
use crate::tune::japan::japan_table;

verus! {

/// The pentatonic table, sorted ascending.
pub open spec fn japan_display_table() -> Seq<Ratio> {
    sort_spec(japan_table())
}

pub fn run() -> (r: Vec<Ratio>)
    ensures
        r@ == japan_display_table(),
        sorted(r@),
        forall|i: int| 0 <= i < r@.len() ==> (#[trigger] r@[i]).wf(),
{
    let sounds = Japan::generate();
    sort_ratios(&sounds)
}

} // verus!
