//! The equal-tempered table has no presentation of its own yet.

use vstd::prelude::*;
use crate::display::DisplayError;

verus! {

pub fn run() -> (r: Result<(), DisplayError>)
    ensures
        r == Ok::<(), DisplayError>(()),
{
    Ok(())
}

} // verus!
