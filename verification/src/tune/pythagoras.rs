//! The Pythagorean scale: seven powers of the pure fifth, rebased to the
//! lowest of them and folded into the range (1, 2] by halving.

use vstd::prelude::*;
use crate::ratio::Ratio;
use crate::ratio::reduce_above_two;
use crate::ratio::reduced_den_above_two;
use crate::tune::Tune;

verus! {

pub struct Pythagoras;

/// Powers 0, 1, 2, 3, -1, -2, -3 of three halves, in that order.
pub open spec fn pythagoras_inits() -> Seq<Ratio> {
    seq![
        Ratio { num: 1, den: 1 },
        Ratio { num: 3, den: 2 },
        Ratio { num: 9, den: 4 },
        Ratio { num: 27, den: 8 },
        Ratio { num: 2, den: 3 },
        Ratio { num: 4, den: 9 },
        Ratio { num: 8, den: 27 },
    ]
}

/// The least ratio among `s[i..]`.
pub open spec fn min_from(s: Seq<Ratio>, i: int) -> Ratio
    decreases s.len() - i,
    when 0 <= i < s.len()
{
    if i + 1 >= s.len() {
        s[i]
    } else if s[i].spec_le(min_from(s, i + 1)) {
        s[i]
    } else {
        min_from(s, i + 1)
    }
}

/// `a / b`, as a fraction of products.
pub open spec fn div_ratio(a: Ratio, b: Ratio) -> Ratio {
    Ratio { num: (a.num * b.den) as u64, den: (a.den * b.num) as u64 }
}

/// Entry `i`: the `i`-th power rebased to the least one, folded below two.
pub open spec fn pythagoras_entry(i: int) -> Ratio {
    let q = div_ratio(pythagoras_inits()[i], min_from(pythagoras_inits(), 0));
    Ratio { num: q.num, den: reduced_den_above_two(q.num as int, q.den as int) as u64 }
}

pub open spec fn pythagoras_table() -> Seq<Ratio> {
    Seq::new(7, |i: int| pythagoras_entry(i))
}

impl Tune for Pythagoras {
    open spec fn table() -> Seq<Ratio> {
        pythagoras_table()
    }

    fn generate() -> (r: Vec<Ratio>)
        ensures
            r@ == Self::table(),
            forall|i: int| 0 <= i < r@.len() ==> (#[trigger] r@[i]).wf(),
    {
        let mut inits: Vec<Ratio> = Vec::new();
        inits.push(Ratio::new(1, 1));
        inits.push(Ratio::new(3, 2));
        inits.push(Ratio::new(9, 4));
        inits.push(Ratio::new(27, 8));
        inits.push(Ratio::new(2, 3));
        inits.push(Ratio::new(4, 9));
        inits.push(Ratio::new(8, 27));
        proof {
            assert(inits@ =~= pythagoras_inits());
        }
        let mut base = inits[6];
        let mut idx: usize = 6;
        while idx > 0
            invariant
                idx < 7,
                inits@ == pythagoras_inits(),
                base == min_from(inits@, idx as int),
            decreases idx,
        {
            idx = idx - 1;
            if inits[idx].le(&base) {
                base = inits[idx];
            }
        }
        let mut sounds: Vec<Ratio> = Vec::new();
        for i in 0..7usize
            invariant
                inits@ == pythagoras_inits(),
                base == min_from(inits@, 0),
                sounds@.len() == i,
                forall|j: int| 0 <= j < i ==> sounds@[j] == pythagoras_entry(j),
                forall|j: int| 0 <= j < i ==> (#[trigger] sounds@[j]).wf(),
        {
            proof {
                lemma_inits_bounds();
                lemma_min_from_bounds(inits@, 0);
                assert((inits@[i as int].num as int) * (base.den as int) <= 729 && 1 <= (
                inits@[i as int].num as int) * (base.den as int)) by (nonlinear_arith)
                    requires
                        1 <= inits@[i as int].num as int <= 27,
                        1 <= base.den as int <= 27,
                ;
                assert((inits@[i as int].den as int) * (base.num as int) <= 729 && 1 <= (
                inits@[i as int].den as int) * (base.num as int)) by (nonlinear_arith)
                    requires
                        1 <= inits@[i as int].den as int <= 27,
                        1 <= base.num as int <= 27,
                ;
            }
            let q = Ratio { num: inits[i].num * base.den, den: inits[i].den * base.num };
            let folded = reduce_above_two(q);
            sounds.push(folded);
        }
        proof {
            assert(sounds@ =~= pythagoras_table());
        }
        sounds
    }
}

/// Every entry of the finished table keeps small parts.
pub proof fn lemma_pythagoras_table_bounds()
    ensures
        pythagoras_table().len() == 7,
        forall|i: int|
            0 <= i < 7 ==> ((#[trigger] pythagoras_table()[i]).wf() && pythagoras_table()[i].num
                <= 729 && pythagoras_table()[i].den <= 729),
{
    lemma_inits_bounds();
    lemma_min_from_bounds(pythagoras_inits(), 0);
    assert forall|i: int|
        0 <= i < 7 implies ((#[trigger] pythagoras_table()[i]).wf() && pythagoras_table()[i].num
        <= 729 && pythagoras_table()[i].den <= 729) by {
        let a = pythagoras_inits()[i];
        let m = min_from(pythagoras_inits(), 0);
        assert(1 <= a.num * m.den <= 729 && 1 <= a.den * m.num <= 729) by (nonlinear_arith)
            requires
                1 <= a.num <= 27,
                1 <= a.den <= 27,
                1 <= m.num <= 27,
                1 <= m.den <= 27,
        ;
        let q = div_ratio(a, m);
        crate::ratio::lemma_reduced_den_above_two_bounds(q.num as int, q.den as int);
    }
}

/// Every initial power has small parts.
proof fn lemma_inits_bounds()
    ensures
        forall|j: int|
            0 <= j < 7 ==> 1 <= (#[trigger] pythagoras_inits()[j]).num <= 27 && 1
                <= pythagoras_inits()[j].den <= 27,
{
    assert forall|j: int|
        0 <= j < 7 implies 1 <= (#[trigger] pythagoras_inits()[j]).num <= 27 && 1
        <= pythagoras_inits()[j].den <= 27 by {
        if j == 0 {
        } else if j == 1 {
        } else if j == 2 {
        } else if j == 3 {
        } else if j == 4 {
        } else if j == 5 {
        } else {
            assert(j == 6);
        }
    }
}

/// The minimum of the initial powers is itself one of them, so its parts
/// stay within their small bounds.
proof fn lemma_min_from_bounds(s: Seq<Ratio>, i: int)
    requires
        0 <= i < s.len(),
        forall|j: int| 0 <= j < s.len() ==> 1 <= (#[trigger] s[j]).num <= 27 && 1 <= s[j].den <= 27,
    ensures
        1 <= min_from(s, i).num <= 27,
        1 <= min_from(s, i).den <= 27,
    decreases s.len() - i,
{
    if i + 1 < s.len() {
        lemma_min_from_bounds(s, i + 1);
    }
}

} // verus!
