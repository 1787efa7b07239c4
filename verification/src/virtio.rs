//! The feature bits of a virtio device.

use vstd::prelude::*;

verus! {

/// Whether the feature bit `fbit` is set in the features `feature`.
pub fn virtio_has_feature(feature: u64, fbit: u32) -> (r: bool)
    requires
        fbit < 64,
    ensures
        r == (feature & (1u64 << fbit) != 0),
{
    feature & (1u64 << fbit) != 0
}

} // verus!
