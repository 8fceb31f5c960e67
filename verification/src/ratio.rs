//! Exact positive rational numbers.
//!
//! Tuning systems are built from frequency ratios such as 3/2 or 81/64.
//! Keeping them as integer fractions keeps every comparison and every
//! reduction step exact.

use vstd::prelude::*;

verus! {

/// A positive rational number `num / den`.
#[derive(Clone, Copy, Debug, PartialEq, Eq, Structural)]
pub struct Ratio {
    pub num: u64,
    pub den: u64,
}

impl Ratio {
    /// Both parts are positive, so the value is a well-defined positive rational.
    pub open spec fn wf(self) -> bool {
        1 <= self.num && 1 <= self.den
    }

    /// `self <= other` as rationals, by cross multiplication.
    pub open spec fn spec_le(self, other: Ratio) -> bool {
        self.num * other.den <= other.num * self.den
    }

    /// `self < other` as rationals.
    pub open spec fn spec_lt(self, other: Ratio) -> bool {
        self.num * other.den < other.num * self.den
    }

    pub fn new(num: u64, den: u64) -> (r: Ratio)
        requires
            1 <= num,
            1 <= den,
        ensures
            r == (Ratio { num, den }),
            r.wf(),
    {
        Ratio { num, den }
    }

    pub fn le(&self, other: &Ratio) -> (r: bool)
        ensures
            r == self.spec_le(*other),
    {
        proof {
            lemma_mul_u64_fits_u128(self.num as int, other.den as int);
            lemma_mul_u64_fits_u128(other.num as int, self.den as int);
        }
        let a: u128 = (self.num as u128) * (other.den as u128);
        let b: u128 = (other.num as u128) * (self.den as u128);
        a <= b
    }

    pub fn lt(&self, other: &Ratio) -> (r: bool)
        ensures
            r == self.spec_lt(*other),
    {
        proof {
            lemma_mul_u64_fits_u128(self.num as int, other.den as int);
            lemma_mul_u64_fits_u128(other.num as int, self.den as int);
        }
        let a: u128 = (self.num as u128) * (other.den as u128);
        let b: u128 = (other.num as u128) * (self.den as u128);
        a < b
    }
}

/// The product of two 64-bit values fits in 128 bits.
pub proof fn lemma_mul_u64_fits_u128(a: int, b: int)
    requires
        0 <= a <= u64::MAX,
        0 <= b <= u64::MAX,
    ensures
        0 <= a * b <= u128::MAX,
{
    assert(a * b <= u64::MAX * u64::MAX && 0 <= a * b) by (nonlinear_arith)
        requires
            0 <= a <= u64::MAX,
            0 <= b <= u64::MAX,
    ;
}

/// The denominator that `num / den` reaches when halved while its value
/// exceeds two.
pub open spec fn reduced_den_above_two(num: int, den: int) -> int
    decreases num - den,
    when 1 <= den
{
    if num > 2 * den {
        reduced_den_above_two(num, 2 * den)
    } else {
        den
    }
}

/// Halves the ratio until its value is at most two, keeping the numerator.
pub fn reduce_above_two(r: Ratio) -> (out: Ratio)
    requires
        r.wf(),
    ensures
        out.num == r.num,
        out.den == reduced_den_above_two(r.num as int, r.den as int),
        out.wf(),
        out.num <= 2 * out.den,
        out.den <= r.num + r.den,
        r.num <= 2 * r.den ==> out == r,
{
    let mut den: u64 = r.den;
    while (r.num as u128) > 2 * (den as u128)
        invariant
            1 <= den,
            den <= r.num + r.den,
            reduced_den_above_two(r.num as int, den as int) == reduced_den_above_two(
                r.num as int,
                r.den as int,
            ),
        decreases r.num - den,
    {
        den = den * 2;
    }
    Ratio { num: r.num, den }
}

/// Where the halving fold lands: at or above where it started, and never
/// above the larger of the two parts.
pub proof fn lemma_reduced_den_above_two_bounds(num: int, den: int)
    requires
        1 <= den,
    ensures
        den <= reduced_den_above_two(num, den),
        num > 2 * den ==> reduced_den_above_two(num, den) <= num,
        num <= 2 * den ==> reduced_den_above_two(num, den) == den,
    decreases num - den,
{
    if num > 2 * den {
        lemma_reduced_den_above_two_bounds(num, 2 * den);
    }
}

/// A property of every element survives any reordering: if two sequences
/// hold the same multiset of ratios, what holds of all of one holds of
/// all of the other.
pub proof fn lemma_multiset_transfer(s1: Seq<Ratio>, s2: Seq<Ratio>, p: spec_fn(Ratio) -> bool)
    requires
        s1.to_multiset() == s2.to_multiset(),
        forall|j: int| 0 <= j < s2.len() ==> p(#[trigger] s2[j]),
    ensures
        forall|i: int| 0 <= i < s1.len() ==> p(#[trigger] s1[i]),
{
    assert forall|i: int| 0 <= i < s1.len() implies p(#[trigger] s1[i]) by {
        s1.to_multiset_ensures();
        s2.to_multiset_ensures();
        assert(s1.contains(s1[i]));
        assert(s2.to_multiset().count(s1[i]) > 0);
        assert(s2.contains(s1[i]));
        let j = choose|j: int| 0 <= j < s2.len() && s2[j] == s1[i];
        assert(p(s2[j]));
    }
}

/// The rational order is total.
pub proof fn lemma_le_total(a: Ratio, b: Ratio)
    ensures
        a.spec_le(b) || b.spec_le(a),
{
}

/// Ascending order, stated over adjacent elements.
pub open spec fn sorted(s: Seq<Ratio>) -> bool {
    forall|i: int| 0 <= i && i + 1 < s.len() ==> #[trigger] s[i].spec_le(s[i + 1])
}

/// Where `x` lands in the sorted sequence `s`: after every run of
/// trailing elements above `x`, so equal values keep their first-come
/// order.
pub open spec fn insert_sorted_spec(s: Seq<Ratio>, x: Ratio) -> Seq<Ratio>
    decreases s.len(),
{
    if s.len() == 0 {
        seq![x]
    } else if s.last().spec_le(x) {
        s.push(x)
    } else {
        insert_sorted_spec(s.drop_last(), x).push(s.last())
    }
}

/// The sorted arrangement of `s`: each element inserted in turn.
pub open spec fn sort_spec(s: Seq<Ratio>) -> Seq<Ratio>
    decreases s.len(),
{
    if s.len() == 0 {
        Seq::empty()
    } else {
        insert_sorted_spec(sort_spec(s.drop_last()), s.last())
    }
}

/// The insertion position the sorted-insert reaches: inserting at the
/// first position (from the right) whose predecessor is at most `x` is
/// exactly what `insert_sorted_spec` denotes.
proof fn lemma_insert_sorted_spec_at(s: Seq<Ratio>, x: Ratio, pos: int)
    requires
        0 <= pos <= s.len(),
        forall|i: int| pos <= i < s.len() ==> !(#[trigger] s[i]).spec_le(x),
        pos > 0 ==> s[pos - 1].spec_le(x),
    ensures
        insert_sorted_spec(s, x) == s.insert(pos, x),
    decreases s.len(),
{
    if s.len() == 0 {
        assert(insert_sorted_spec(s, x) =~= s.insert(0, x));
    } else if pos == s.len() {
        assert(s.last().spec_le(x));
        assert(insert_sorted_spec(s, x) =~= s.insert(pos, x));
    } else {
        assert(!s[s.len() - 1].spec_le(x));
        lemma_insert_sorted_spec_at(s.drop_last(), x, pos);
        assert(insert_sorted_spec(s, x) =~= s.insert(pos, x));
    }
}

/// Sorts the ratios ascending by value (insertion sort).
///
/// The result is a permutation of the input; equal values may appear in any
/// of their original positions, as with the unstable sorts of std.
pub fn sort_ratios(v: &Vec<Ratio>) -> (r: Vec<Ratio>)
    requires
        forall|i: int| 0 <= i < v@.len() ==> (#[trigger] v@[i]).wf(),
    ensures
        r@ == sort_spec(v@),
        r@.to_multiset() == v@.to_multiset(),
        sorted(r@),
        r@.len() == v@.len(),
        forall|i: int| 0 <= i < r@.len() ==> (#[trigger] r@[i]).wf(),
    decreases v@.len(),
{
    let mut out: Vec<Ratio> = Vec::new();
    proof {
        assert(out@ =~= v@.take(0));
        assert(out@ =~= sort_spec(v@.take(0)));
    }
    for idx in 0..v.len()
        invariant
            out@.len() == idx,
            sorted(out@),
            out@ == sort_spec(v@.take(idx as int)),
            out@.to_multiset() == v@.take(idx as int).to_multiset(),
            forall|i: int| 0 <= i < out@.len() ==> (#[trigger] out@[i]).wf(),
            forall|i: int| 0 <= i < v@.len() ==> (#[trigger] v@[i]).wf(),
    {
        let x = v[idx];
        insert_sorted(&mut out, x);
        proof {
            assert(v@.take(idx + 1) =~= v@.take(idx as int).push(v@[idx as int]));
            assert(v@.take(idx + 1).drop_last() =~= v@.take(idx as int));
            v@.take(idx as int).to_multiset_ensures();
        }
    }
    proof {
        assert(v@.take(v@.len() as int) =~= v@);
    }
    out
}

/// Inserts `x` into the sorted vector `v`, keeping it sorted.
#[verifier::rlimit(50)]
fn insert_sorted(v: &mut Vec<Ratio>, x: Ratio)
    requires
        sorted(old(v)@),
        x.wf(),
        forall|i: int| 0 <= i < old(v)@.len() ==> (#[trigger] old(v)@[i]).wf(),
    ensures
        final(v)@ == insert_sorted_spec(old(v)@, x),
        final(v)@.len() == old(v)@.len() + 1,
        sorted(final(v)@),
        final(v)@.to_multiset() == old(v)@.to_multiset().insert(x),
        forall|i: int| 0 <= i < final(v)@.len() ==> (#[trigger] final(v)@[i]).wf(),
{
    let ghost orig = v@;
    let mut pos: usize = v.len();
    while pos > 0 && !v[pos - 1].le(&x)
        invariant
            pos <= v@.len(),
            v@ == orig,
            forall|i: int| pos <= i < v@.len() ==> !(#[trigger] v@[i]).spec_le(x),
        decreases pos,
    {
        pos = pos - 1;
    }
    v.insert(pos, x);
    proof {
        assert(v@ == insert_sorted_spec(orig, x)) by {
            lemma_insert_sorted_spec_at(orig, x, pos as int);
        }
        assert(sorted(v@)) by {
            orig.insert_ensures(pos as int, x);
            assert forall|i: int| 0 <= i && i + 1 < v@.len() implies #[trigger] v@[i].spec_le(
                v@[i + 1],
            ) by {
                if i + 1 < pos {
                    assert(orig[i].spec_le(orig[i + 1]));
                } else if i + 1 == pos {
                    assert(v@[i] == orig[i] && v@[i + 1] == x);
                    assert(orig[pos - 1].spec_le(x));
                } else if i == pos {
                    assert(v@[i] == x && v@[i + 1] == orig[i]);
                    lemma_le_total(x, orig[i]);
                } else {
                    assert(v@[i] == orig[i - 1] && v@[i + 1] == orig[i]);
                }
            }
        }
        assert(v@.to_multiset() == orig.to_multiset().insert(x)) by {
            vstd::seq_lib::to_multiset_insert(orig, pos as int, x);
        }
        assert forall|i: int| 0 <= i < v@.len() implies (#[trigger] v@[i]).wf() by {
            orig.insert_ensures(pos as int, x);
        }
    }
}

} // verus!
