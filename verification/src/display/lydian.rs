//! The first seven steps of the fifths walk, ordered for presentation.

use vstd::prelude::*;
use crate::ratio::Ratio;
use crate::ratio::sort_ratios;
use crate::ratio::sort_spec;
use crate::ratio::sorted;
use crate::tune::Tune;
use crate::tune::lydian::Lydian;
use crate::tune::lydian::lydian_table;

verus! {

/// The first seven entries of the walk (or all of them, were the walk
/// ever shorter).
pub open spec fn lydian_display_base() -> Seq<Ratio> {
    if lydian_table().len() <= 7 {
        lydian_table()
    } else {
        lydian_table().take(7)
    }
}

/// Those entries, sorted ascending.
pub open spec fn lydian_display_table() -> Seq<Ratio> {
    sort_spec(lydian_display_base())
}

pub fn run() -> (r: Vec<Ratio>)
    ensures
        r@ == lydian_display_table(),
        sorted(r@),
        forall|i: int| 0 <= i < r@.len() ==> (#[trigger] r@[i]).wf(),
{
    let walk = Lydian::generate();
    let lim: usize = if walk.len() <= 7 {
        walk.len()
    } else {
        7
    };
    let mut firsts: Vec<Ratio> = Vec::new();
    for k in 0..lim
        invariant
            walk@ == lydian_table(),
            lim <= walk@.len(),
            lim as int == lydian_display_base().len(),
            firsts@ =~= lydian_display_base().take(k as int),
            forall|i: int| 0 <= i < walk@.len() ==> (#[trigger] walk@[i]).wf(),
    {
        firsts.push(walk[k]);
        proof {
            assert(firsts@ =~= lydian_display_base().take(k + 1));
        }
    }
    proof {
        assert(firsts@ =~= lydian_display_base());
    }
    sort_ratios(&firsts)
}

} // verus!
