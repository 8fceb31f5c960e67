//! Computing tuning tables for presentation.
//!
//! Each submodule prepares one tuning system's table in the form it is
//! shown and rendered: rebased where the system calls for it, and ordered
//! by ascending ratio. The dispatcher selects a system by name.

use vstd::prelude::*;
use crate::ratio::Ratio;

pub mod average;
pub mod japan;
pub mod just;
pub mod lydian;
pub mod pythagoras;

verus! {

/// Why a table could not be produced.
#[derive(Clone, Copy, Debug, PartialEq, Eq, Structural)]
pub enum DisplayError {
    /// The name matches no tuning system.
    UnknownName,
}

/// Character-for-character string equality.
fn str_matches(a: &str, b: &str) -> (r: bool)
    ensures
        r == (a@ == b@),
{
    let n = a.unicode_len();
    if n != b.unicode_len() {
        return false;
    }
    for i in 0..n
        invariant
            n == a@.len(),
            n == b@.len(),
            forall|j: int| 0 <= j < i ==> a@[j] == b@[j],
    {
        if a.get_char(i) != b.get_char(i) {
            return false;
        }
    }
    proof {
        assert(a@ =~= b@);
    }
    true
}

/// Produces the named tuning system's presentation table, ordered by
/// ascending ratio; an unknown name is rejected.
pub fn run(tune_name: &str) -> (r: Result<Vec<Ratio>, DisplayError>)
    ensures
        match r {
            Ok(v) => (tune_name@ == "pythagoras"@ && v@ == pythagoras::pythagoras_display_table())
                || (tune_name@ == "lydian"@ && v@ == lydian::lydian_display_table()) || (tune_name@
                == "just"@ && v@ == crate::tune::just::just_table()) || (tune_name@ == "japan"@
                && v@ == japan::japan_display_table()),
            Err(e) => {
                &&& e == DisplayError::UnknownName
                &&& tune_name@ != "pythagoras"@
                &&& tune_name@ != "lydian"@
                &&& tune_name@ != "just"@
                &&& tune_name@ != "japan"@
            },
        },
{
    if str_matches(tune_name, "pythagoras") {
        Ok(pythagoras::run())
    } else if str_matches(tune_name, "lydian") {
        Ok(lydian::run())
    } else if str_matches(tune_name, "just") {
        Ok(just::run())
    } else if str_matches(tune_name, "japan") {
        Ok(japan::run())
    } else {
        Err(DisplayError::UnknownName)
    }
}

} // verus!
