//! The Pythagorean table rearranged for presentation.
//!
//! The seven powers of the fifth are sorted; the upper three are lowered
//! by two octaves (the presentation treats them as the scale's lower
//! degrees); the list is sorted again, rebased to its new lowest entry,
//! folded into the octave, and sorted once more.

use vstd::prelude::*;
use crate::ratio::Ratio;
use crate::ratio::lemma_multiset_transfer;
use crate::ratio::sort_ratios;
use crate::ratio::sort_spec;
use crate::ratio::sorted;
use crate::tune::Tune;
use crate::tune::lydian::den_folded_below_two;
use crate::tune::pythagoras::Pythagoras;
use crate::tune::pythagoras::lemma_pythagoras_table_bounds;
use crate::tune::pythagoras::pythagoras_table;

verus! {

/// The numerator after doubling until the value reaches one.
pub open spec fn num_raised_to(num: int, den: int) -> int
    decreases 2 * den - num,
    when 1 <= num && 1 <= den
{
    if num < den {
        num_raised_to(2 * num, den)
    } else {
        num
    }
}

/// One value folded into the octave `[1, 2)`: doubled up to one, then
/// halved below two.
pub open spec fn octave_unit(num: int, den: int) -> Ratio {
    let n = num_raised_to(num, den);
    Ratio { num: n as u64, den: den_folded_below_two(n, den) as u64 }
}

/// The presentation pipeline, stage by stage.
pub open spec fn pythagoras_display_table() -> Seq<Ratio> {
    let s1 = sort_spec(pythagoras_table());
    let adj = Seq::new(
        7,
        |i: int|
            if i >= 4 {
                Ratio { num: s1[i].num, den: (s1[i].den * 4) as u64 }
            } else {
                s1[i]
            },
    );
    let s3 = sort_spec(adj);
    let low = s3[0];
    let folded = Seq::new(
        7,
        |i: int| octave_unit((s3[i].num * low.den) as int, (s3[i].den * low.num) as int),
    );
    sort_spec(folded)
}

pub fn run() -> (r: Vec<Ratio>)
    ensures
        r@ == pythagoras_display_table(),
        sorted(r@),
        r@.len() == 7,
        forall|i: int| 0 <= i < r@.len() ==> (#[trigger] r@[i]).wf(),
{
    let base = Pythagoras::generate();
    proof {
        lemma_pythagoras_table_bounds();
    }
    let s1 = sort_ratios(&base);
    let ghost adj_spec = Seq::new(
        7,
        |i: int|
            if i >= 4 {
                Ratio { num: s1@[i].num, den: (s1@[i].den * 4) as u64 }
            } else {
                s1@[i]
            },
    );
    proof {
        lemma_multiset_transfer(
            s1@,
            base@,
            |x: Ratio| x.wf() && x.num <= 729 && x.den <= 729,
        );
    }
    // lower the upper three degrees by two octaves
    let mut adjusted: Vec<Ratio> = Vec::new();
    for i in 0..7usize
        invariant
            s1@.len() == 7,
            adj_spec.len() == 7,
            forall|k: int|
                0 <= k < 7 ==> ((#[trigger] s1@[k]).wf() && s1@[k].num <= 729 && s1@[k].den
                    <= 729),
            forall|k: int|
                0 <= k < 7 ==> #[trigger] adj_spec[k] == (if k >= 4 {
                    Ratio { num: s1@[k].num, den: (s1@[k].den * 4) as u64 }
                } else {
                    s1@[k]
                }),
            adjusted@.len() == i,
            forall|k: int| 0 <= k < i ==> #[trigger] adjusted@[k] == adj_spec[k],
            forall|k: int|
                0 <= k < i ==> ((#[trigger] adjusted@[k]).wf() && adjusted@[k].num <= 729
                    && adjusted@[k].den <= 2916),
    {
        let e = s1[i];
        if i >= 4 {
            adjusted.push(Ratio { num: e.num, den: e.den * 4 });
        } else {
            adjusted.push(e);
        }
    }
    proof {
        assert(adjusted@ =~= adj_spec);
    }
    let s3 = sort_ratios(&adjusted);
    proof {
        lemma_multiset_transfer(
            s3@,
            adjusted@,
            |x: Ratio| x.wf() && x.num <= 729 && x.den <= 2916,
        );
    }
    // rebase to the lowest degree and fold into the octave
    let lowest = s3[0];
    let ghost folded_spec = Seq::new(
        7,
        |i: int| octave_unit((s3@[i].num * lowest.den) as int, (s3@[i].den * lowest.num) as int),
    );
    let mut folded: Vec<Ratio> = Vec::new();
    for i in 0..7usize
        invariant
            s3@.len() == 7,
            folded_spec.len() == 7,
            forall|k: int|
                0 <= k < 7 ==> ((#[trigger] s3@[k]).wf() && s3@[k].num <= 729 && s3@[k].den
                    <= 2916),
            lowest == s3@[0],
            forall|k: int|
                0 <= k < 7 ==> #[trigger] folded_spec[k] == octave_unit(
                    (s3@[k].num * lowest.den) as int,
                    (s3@[k].den * lowest.num) as int,
                ),
            folded@.len() == i,
            forall|k: int| 0 <= k < i ==> #[trigger] folded@[k] == folded_spec[k],
            forall|k: int| 0 <= k < i ==> (#[trigger] folded@[k]).wf(),
    {
        let e = s3[i];
        proof {
            assert(1 <= (e.num as int) * (lowest.den as int) <= 2125764 && 1 <= (e.den as int) * (
            lowest.num as int) <= 2125764) by (nonlinear_arith)
                requires
                    1 <= e.num <= 729,
                    1 <= e.den <= 2916,
                    1 <= lowest.num <= 729,
                    1 <= lowest.den <= 2916,
            ;
        }
        let mut num: u64 = e.num * lowest.den;
        let den: u64 = e.den * lowest.num;
        let ghost num0 = num as int;
        while num < den
            invariant
                1 <= num <= 4251528,
                1 <= den <= 2125764,
                num_raised_to(num as int, den as int) == num_raised_to(num0, den as int),
            decreases 2 * den - num,
        {
            num = num * 2;
        }
        let mut d: u64 = den;
        while num >= 2 * d
            invariant
                1 <= d <= num,
                num <= 4251528,
                den_folded_below_two(num as int, d as int) == den_folded_below_two(
                    num as int,
                    den as int,
                ),
            decreases num - d,
        {
            d = d * 2;
        }
        folded.push(Ratio { num, den: d });
        proof {
            assert(folded@.last() == folded_spec[i as int]);
        }
    }
    proof {
        assert(folded@ =~= folded_spec);
    }
    sort_ratios(&folded)
}

} // verus!
