//! Tuning systems as tables of exact frequency ratios.
//!
//! A tuning system is a finite table of ratios relative to a base pitch.
//! `Tuner` pairs each table entry with its 1-based position and orders the
//! pairs by ascending ratio.

use vstd::prelude::*;
use crate::ratio::Ratio;
use crate::ratio::lemma_le_total;

pub mod average;
pub mod japan;
pub mod just;
pub mod lydian;
pub mod pythagoras;

verus! {

/// Three to the power `i`.
pub open spec fn pow3(i: int) -> int
    decreases i,
{
    if i <= 0 {
        1
    } else {
        3 * pow3(i - 1)
    }
}

/// The first few powers of three, by unfolding.
pub proof fn lemma_pow3_small()
    ensures
        pow3(0) == 1,
        pow3(1) == 3,
        pow3(2) == 9,
        pow3(3) == 27,
        pow3(4) == 81,
        pow3(5) == 243,
{
    reveal_with_fuel(pow3, 6);
}

/// A tuning system: a fixed table of frequency ratios.
pub trait Tune {
    /// The table this tuning system denotes.
    spec fn table() -> Seq<Ratio>;

    fn generate() -> (r: Vec<Ratio>)
        ensures
            r@ == Self::table(),
            forall|i: int| 0 <= i < r@.len() ==> (#[trigger] r@[i]).wf(),
    ;
}

/// The table entries paired with their 1-based positions, in table order.
pub open spec fn indexed(s: Seq<Ratio>) -> Seq<(usize, Ratio)> {
    Seq::new(s.len(), |i: int| ((i + 1) as usize, s[i]))
}

/// Ascending order on position/ratio pairs, by the ratio.
pub open spec fn sorted_pairs(s: Seq<(usize, Ratio)>) -> bool {
    forall|i: int| 0 <= i && i + 1 < s.len() ==> #[trigger] s[i].1.spec_le(s[i + 1].1)
}

/// Where a pair lands in the sorted pair sequence: after every run of
/// trailing pairs whose ratio is above its own, so pairs with equal
/// ratios keep their first-come order.
pub open spec fn insert_pair_spec(s: Seq<(usize, Ratio)>, x: (usize, Ratio)) -> Seq<(usize, Ratio)>
    decreases s.len(),
{
    if s.len() == 0 {
        seq![x]
    } else if s.last().1.spec_le(x.1) {
        s.push(x)
    } else {
        insert_pair_spec(s.drop_last(), x).push(s.last())
    }
}

/// The sorted arrangement of position/ratio pairs: each inserted in turn.
pub open spec fn sort_pairs_spec(s: Seq<(usize, Ratio)>) -> Seq<(usize, Ratio)>
    decreases s.len(),
{
    if s.len() == 0 {
        Seq::empty()
    } else {
        insert_pair_spec(sort_pairs_spec(s.drop_last()), s.last())
    }
}

/// Inserting at the first position (from the right) whose predecessor is
/// at most the new pair's ratio is exactly what `insert_pair_spec`
/// denotes.
proof fn lemma_insert_pair_spec_at(s: Seq<(usize, Ratio)>, x: (usize, Ratio), pos: int)
    requires
        0 <= pos <= s.len(),
        forall|i: int| pos <= i < s.len() ==> !(#[trigger] s[i]).1.spec_le(x.1),
        pos > 0 ==> s[pos - 1].1.spec_le(x.1),
    ensures
        insert_pair_spec(s, x) == s.insert(pos, x),
    decreases s.len(),
{
    if s.len() == 0 {
        assert(insert_pair_spec(s, x) =~= s.insert(0, x));
    } else if pos == s.len() {
        assert(s.last().1.spec_le(x.1));
        assert(insert_pair_spec(s, x) =~= s.insert(pos, x));
    } else {
        assert(!s[s.len() - 1].1.spec_le(x.1));
        lemma_insert_pair_spec_at(s.drop_last(), x, pos);
        assert(insert_pair_spec(s, x) =~= s.insert(pos, x));
    }
}

/// Presents a tuning system as a table ordered by ascending ratio.
pub struct Tuner<T: Tune> {
    _marker: core::marker::PhantomData<T>,
}

impl<T: Tune> Tuner<T> {
    pub fn new() -> (r: Self) {
        Tuner { _marker: core::marker::PhantomData }
    }

    /// Pairs every table entry with its 1-based position and sorts the
    /// pairs by ascending ratio; pairs with equal ratios keep table order.
    pub fn tune(&self) -> (r: Vec<(usize, Ratio)>)
        ensures
            r@ == sort_pairs_spec(indexed(T::table())),
            r@.len() == T::table().len(),
            sorted_pairs(r@),
            r@.to_multiset() == indexed(T::table()).to_multiset(),
    {
        let sounds = T::generate();
        let mut pairs: Vec<(usize, Ratio)> = Vec::new();
        proof {
            assert(pairs@ =~= indexed(T::table()).take(0));
        }
        for idx in 0..sounds.len()
            invariant
                sounds@ == T::table(),
                forall|i: int| 0 <= i < sounds@.len() ==> (#[trigger] sounds@[i]).wf(),
                pairs@ =~= indexed(T::table()).take(idx as int),
        {
            pairs.push((idx + 1, sounds[idx]));
            proof {
                assert(pairs@ =~= indexed(T::table()).take(idx + 1));
            }
        }
        proof {
            assert(indexed(T::table()).take(T::table().len() as int) =~= indexed(T::table()));
        }
        let sorted = sort_pairs(&pairs);
        sorted
    }
}

/// Sorts position/ratio pairs ascending by ratio (insertion sort).
fn sort_pairs(v: &Vec<(usize, Ratio)>) -> (r: Vec<(usize, Ratio)>)
    requires
        forall|i: int| 0 <= i < v@.len() ==> (#[trigger] v@[i]).1.wf(),
    ensures
        r@ == sort_pairs_spec(v@),
        r@.to_multiset() == v@.to_multiset(),
        sorted_pairs(r@),
        r@.len() == v@.len(),
{
    let mut out: Vec<(usize, Ratio)> = Vec::new();
    proof {
        assert(out@ =~= v@.take(0));
        assert(out@ =~= sort_pairs_spec(v@.take(0)));
    }
    for idx in 0..v.len()
        invariant
            out@.len() == idx,
            sorted_pairs(out@),
            out@ == sort_pairs_spec(v@.take(idx as int)),
            out@.to_multiset() == v@.take(idx as int).to_multiset(),
            forall|i: int| 0 <= i < out@.len() ==> (#[trigger] out@[i]).1.wf(),
            forall|i: int| 0 <= i < v@.len() ==> (#[trigger] v@[i]).1.wf(),
    {
        let x = v[idx];
        insert_pair_sorted(&mut out, x);
        proof {
            assert(v@.take(idx + 1) =~= v@.take(idx as int).push(v@[idx as int]));
            assert(v@.take(idx + 1).drop_last() =~= v@.take(idx as int));
            v@.take(idx as int).to_multiset_ensures();
        }
    }
    proof {
        assert(v@.take(v@.len() as int) =~= v@);
    }
    out
}

/// Inserts `x` into the pair vector sorted by ratio, keeping it sorted.
#[verifier::rlimit(50)]
fn insert_pair_sorted(v: &mut Vec<(usize, Ratio)>, x: (usize, Ratio))
    requires
        sorted_pairs(old(v)@),
        x.1.wf(),
        forall|i: int| 0 <= i < old(v)@.len() ==> (#[trigger] old(v)@[i]).1.wf(),
    ensures
        final(v)@ == insert_pair_spec(old(v)@, x),
        final(v)@.len() == old(v)@.len() + 1,
        sorted_pairs(final(v)@),
        final(v)@.to_multiset() == old(v)@.to_multiset().insert(x),
        forall|i: int| 0 <= i < final(v)@.len() ==> (#[trigger] final(v)@[i]).1.wf(),
{
    let ghost orig = v@;
    let mut pos: usize = v.len();
    while pos > 0 && !v[pos - 1].1.le(&x.1)
        invariant
            pos <= v@.len(),
            v@ == orig,
            forall|i: int| pos <= i < v@.len() ==> !(#[trigger] v@[i]).1.spec_le(x.1),
        decreases pos,
    {
        pos = pos - 1;
    }
    v.insert(pos, x);
    proof {
        assert(v@ == insert_pair_spec(orig, x)) by {
            lemma_insert_pair_spec_at(orig, x, pos as int);
        }
        assert(sorted_pairs(v@)) by {
            orig.insert_ensures(pos as int, x);
            assert forall|i: int| 0 <= i && i + 1 < v@.len() implies #[trigger] v@[i].1.spec_le(
                v@[i + 1].1,
            ) by {
                if i + 1 < pos {
                    assert(orig[i].1.spec_le(orig[i + 1].1));
                } else if i + 1 == pos {
                    assert(v@[i] == orig[i] && v@[i + 1] == x);
                    assert(orig[pos - 1].1.spec_le(x.1));
                } else if i == pos {
                    assert(v@[i] == x && v@[i + 1] == orig[i]);
                    lemma_le_total(x.1, orig[i].1);
                } else {
                    assert(v@[i] == orig[i - 1] && v@[i + 1] == orig[i]);
                }
            }
        }
        assert(v@.to_multiset() == orig.to_multiset().insert(x)) by {
            vstd::seq_lib::to_multiset_insert(orig, pos as int, x);
        }
        assert forall|i: int| 0 <= i < v@.len() implies (#[trigger] v@[i]).1.wf() by {
            orig.insert_ensures(pos as int, x);
        }
    }
}

} // verus!
