//! Encoding of a (priority tier, virtual time) pair into one order-preserving
//! integer key: lower keys are served first.

use vstd::prelude::*;

verus! {

/// The global maximum of virtual time is `u64::MAX / 16`; when the virtual
/// times of all groups exceed half of that value they are reset, so that they
/// never grow into the four bits that hold the tier.
pub const RESET_VT_THRESHOLD: u64 = (u64::MAX >> 4) / 2;

/// The priority key for tier `group_priority` (in `[1, 16]`) and virtual time
/// `vt`: the tier is mapped to four bits, negated so that higher tiers give
/// smaller keys, and placed above the virtual time.
pub open spec fn spec_concat_priority_vt(group_priority: u32, vt: u64) -> u64
    recommends
        1 <= group_priority <= 16,
{
    vt | ((!((group_priority - 1) as u64)) << 60u64)
}

/// Combine a priority tier and a virtual time into one comparable key.
///
/// The resulting order is descending by tier first (a higher tier gives a
/// smaller key), then ascending by virtual time, as long as the virtual time
/// stays below `RESET_VT_THRESHOLD`. A tier outside `[1, 16]` is a logic bug
/// in configuration handling, not a runtime condition, and is ruled out here.
pub fn concat_priority_vt(group_priority: u32, vt: u64) -> (r: u64)
    requires
        1 <= group_priority <= 16,
    ensures
        r == spec_concat_priority_vt(group_priority, vt),
{
    vt | (!((group_priority - 1) as u64) << 60u64)
}

/// A higher tier always gives a strictly smaller key than a lower tier,
/// whatever the virtual times, as long as both stay below the reset threshold.
pub proof fn lemma_tier_dominance(p1: u32, p2: u32, vt1: u64, vt2: u64)
    requires
        1 <= p2 < p1 <= 16,
        vt1 < RESET_VT_THRESHOLD,
        vt2 < RESET_VT_THRESHOLD,
    ensures
        spec_concat_priority_vt(p1, vt1) < spec_concat_priority_vt(p2, vt2),
{
    assert((vt1 | ((!((p1 - 1) as u64)) << 60u64)) < (vt2 | ((!((p2 - 1) as u64)) << 60u64)))
        by (bit_vector)
        requires
            1 <= p2 < p1 <= 16,
            vt1 < (u64::MAX >> 4) / 2,
            vt2 < (u64::MAX >> 4) / 2,
    ;
}

/// Within one tier, keys are ordered exactly as the virtual times, as long as
/// both stay below the reset threshold.
pub proof fn lemma_same_tier_vt_order(p: u32, vt1: u64, vt2: u64)
    requires
        1 <= p <= 16,
        vt1 < RESET_VT_THRESHOLD,
        vt2 < RESET_VT_THRESHOLD,
    ensures
        spec_concat_priority_vt(p, vt1) < spec_concat_priority_vt(p, vt2) <==> vt1 < vt2,
        spec_concat_priority_vt(p, vt1) == spec_concat_priority_vt(p, vt2) <==> vt1 == vt2,
{
    assert(((vt1 | ((!((p - 1) as u64)) << 60u64)) < (vt2 | ((!((p - 1) as u64)) << 60u64))
        <==> vt1 < vt2) && ((vt1 | ((!((p - 1) as u64)) << 60u64)) == (vt2 | ((!((p - 1) as u64))
        << 60u64)) <==> vt1 == vt2)) by (bit_vector)
        requires
            1 <= p <= 16,
            vt1 < (u64::MAX >> 4) / 2,
            vt2 < (u64::MAX >> 4) / 2,
    ;
}

} // verus!
