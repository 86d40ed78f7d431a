//! Identity of the terrain library.

use vstd::prelude::*;

verus! {

/// Version of the terrain library.
pub fn version() -> (v: &'static str)
    ensures
        v@ == "0"@,
{
    "0"
}

} // verus!
