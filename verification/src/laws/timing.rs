//! How the clock rates of a runtime bound a delivery.

use vstd::prelude::*;

use crate::model::LinkTiming;

verus! {

/// Establishing a link takes at most as long as the whole delivery may, which has the
/// keepalive time on top; a destination counts as one hop away at least, and one that
/// is farther away is given no less time.
pub proof fn delivery_time_covers_establishment(timing: LinkTiming, hops: u8, farther: u8)
    requires
        hops <= farther,
    ensures
        timing.establishment(hops) + timing.keepalive == timing.delivery(hops),
        timing.establishment(0) == timing.establishment(1) == timing.establishment_per_hop,
        timing.establishment(hops) <= timing.establishment(farther),
        timing.delivery(hops) <= timing.delivery(farther),
{
    let per_hop = timing.establishment_per_hop as int;
    let near: int = if hops < 1 {
        1
    } else {
        hops as int
    };
    let far: int = if farther < 1 {
        1
    } else {
        farther as int
    };
    assert(per_hop * near <= per_hop * far) by (nonlinear_arith)
        requires
            0 <= per_hop,
            near <= far,
    ;
}

} // verus!
