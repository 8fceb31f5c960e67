//! A scale built by walking the circle of pure fifths, folding each step
//! down by octaves, until the walk comes back within a tenth of the octave.
//!
//! The walk stops after twelve fifths, well inside the explicit step bound
//! the generator carries so that its termination is immediate; the tests
//! pin the thirteen entries it emits.

use vstd::prelude::*;
use crate::ratio::Ratio;
use crate::tune::Tune;
use crate::tune::pow3;

verus! {

pub struct Lydian;

/// The walk stops once the value is within one tenth of two.
pub open spec fn far_from_two(f: Ratio) -> bool {
    if f.num >= 2 * f.den {
        10 * (f.num - 2 * f.den) > f.den
    } else {
        10 * (2 * f.den - f.num) > f.den
    }
}

/// The denominator reached by halving while the value is at least two.
pub open spec fn den_folded_below_two(num: int, den: int) -> int
    decreases num - den,
    when 1 <= den
{
    if num >= 2 * den {
        den_folded_below_two(num, 2 * den)
    } else {
        den
    }
}

/// The denominator reached by halving while the value is at least 21/10.
pub open spec fn den_folded_below_tolerance(num: int, den: int) -> int
    decreases num - den,
    when 1 <= den <= num
{
    if 10 * num >= 21 * den {
        den_folded_below_tolerance(num, 2 * den)
    } else {
        den
    }
}

/// One fifth up: three halves of `f`.
pub open spec fn fifth_up(f: Ratio) -> Ratio {
    Ratio { num: (3 * f.num) as u64, den: (2 * f.den) as u64 }
}

/// The sequence the walk emits, starting at `f` with `fuel` steps left.
pub open spec fn lydian_walk(f: Ratio, fuel: nat) -> Seq<Ratio>
    decreases fuel,
{
    if !far_from_two(f) || fuel == 0 {
        seq![f]
    } else {
        let folded = Ratio { num: f.num, den: den_folded_below_two(f.num as int, f.den as int) as u64 };
        let raised = fifth_up(folded);
        let next = Ratio {
            num: raised.num,
            den: den_folded_below_tolerance(raised.num as int, raised.den as int) as u64,
        };
        seq![folded] + lydian_walk(next, (fuel - 1) as nat)
    }
}

/// The number of fifths the walk is allowed; it stops well before this.
pub open spec fn walk_bound() -> nat {
    32
}

pub open spec fn lydian_table() -> Seq<Ratio> {
    lydian_walk(Ratio { num: 1, den: 1 }, walk_bound())
}

impl Tune for Lydian {
    open spec fn table() -> Seq<Ratio> {
        lydian_table()
    }

    fn generate() -> (r: Vec<Ratio>)
        ensures
            r@ == Self::table(),
            forall|i: int| 0 <= i < r@.len() ==> (#[trigger] r@[i]).wf(),
    {
        let mut sounds: Vec<Ratio> = Vec::new();
        let mut f = Ratio::new(1, 1);
        let mut fuel: u64 = 32;
        proof {
            lemma_pow3_bound(0);
        }
        while is_far_from_two(&f) && fuel > 0
            invariant
                f.wf(),
                f.den <= f.num,
                fuel <= 32,
                f.num == pow3((32 - fuel) as int),
                f.num <= pow3(32),
                pow3(32) <= 0x10_0000_0000_0000,
                sounds@ + lydian_walk(f, fuel as nat) =~= lydian_table(),
                forall|i: int| 0 <= i < sounds@.len() ==> (#[trigger] sounds@[i]).wf(),
            decreases fuel,
        {
            let ghost f_at_entry = f;
            let ghost fuel_at_entry = fuel;
            let ghost emitted = sounds@;
            // fold below two, keeping the numerator
            while f.num >= 2 * f.den
                invariant
                    f.wf(),
                    f.den <= f.num,
                    f.num <= 0x10_0000_0000_0000,
                    f.num == f_at_entry.num,
                    den_folded_below_two(f.num as int, f.den as int) == den_folded_below_two(
                        f_at_entry.num as int,
                        f_at_entry.den as int,
                    ),
                decreases f.num - f.den,
            {
                f = Ratio { num: f.num, den: f.den * 2 };
            }
            sounds.push(f);
            // a fifth up
            proof {
                lemma_pow3_bound((32 - fuel) as int);
                lemma_pow3_bound((32 - fuel + 1) as int);
            }
            f = Ratio { num: 3 * f.num, den: 2 * f.den };
            // fold below the tolerance band
            while 10 * f.num >= 21 * f.den
                invariant
                    f.wf(),
                    f.den <= f.num,
                    f.num == 3 * f_at_entry.num,
                    f.num <= 0x30_0000_0000_0000,
                    den_folded_below_tolerance(f.num as int, f.den as int)
                        == den_folded_below_tolerance(
                        (3 * f_at_entry.num) as int,
                        (2 * den_folded_below_two(f_at_entry.num as int, f_at_entry.den as int)) as int,
                    ),
                decreases f.num - f.den,
            {
                f = Ratio { num: f.num, den: f.den * 2 };
            }
            fuel = fuel - 1;
            proof {
                assert(lydian_walk(f_at_entry, fuel_at_entry as nat) =~= seq![
                    Ratio {
                        num: f_at_entry.num,
                        den: den_folded_below_two(
                            f_at_entry.num as int,
                            f_at_entry.den as int,
                        ) as u64,
                    },
                ] + lydian_walk(f, fuel as nat));
                assert(sounds@ + lydian_walk(f, fuel as nat) =~= emitted + lydian_walk(
                    f_at_entry,
                    fuel_at_entry as nat,
                ));
            }
        }
        sounds.push(f);
        proof {
            assert(lydian_walk(f, fuel as nat) =~= seq![f]);
            assert(sounds@ =~= lydian_table());
        }
        sounds
    }
}

/// Far-from-two test on the running value.
fn is_far_from_two(f: &Ratio) -> (r: bool)
    requires
        f.wf(),
        f.den <= f.num,
        f.num <= 0x30_0000_0000_0000,
    ensures
        r == far_from_two(*f),
{
    if f.num >= 2 * f.den {
        10 * (f.num - 2 * f.den) > f.den
    } else {
        10 * (2 * f.den - f.num) > f.den
    }
}

/// Powers of three stay below their value at the step bound.
proof fn lemma_pow3_bound(i: int)
    requires
        i <= 32,
    ensures
        1 <= pow3(i),
        pow3(i) <= pow3(32),
        pow3(32) <= 0x10_0000_0000_0000,
    decreases 32 - i,
{
    lemma_pow3_nonneg(i);
    if i < 32 {
        lemma_pow3_bound(i + 1);
    } else {
        assert(pow3(32) <= 0x10_0000_0000_0000) by {
            reveal_with_fuel(pow3, 33);
        }
    }
}

/// Powers of three are at least one.
proof fn lemma_pow3_nonneg(i: int)
    ensures
        1 <= pow3(i),
    decreases (if i <= 0 { 0int } else { i }),
{
    if i > 0 {
        lemma_pow3_nonneg(i - 1);
    }
}

} // verus!
