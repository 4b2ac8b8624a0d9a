//! Small numeric helpers around the codec.

use vstd::prelude::*;

verus! {

/// Round a duration in nanoseconds down to a whole multiple of `resolution`
/// nanoseconds, as a timestamp is rounded before it is stored with coarser
/// precision.
pub fn time_round(nanos: u64, resolution: u64) -> (r: u64)
    requires
        resolution > 0,
    ensures
        r == nanos - (nanos % resolution),
{
    proof {
        assert(nanos % resolution <= nanos) by (nonlinear_arith)
            requires resolution > 0;
    }
    nanos - nanos % resolution
}

} // verus!
