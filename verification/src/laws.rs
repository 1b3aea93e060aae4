//! The fairness guarantees of the scheduler, stated and proved once, over
//! the same spec functions the operation contracts use.

use vstd::prelude::*;
use vstd::arithmetic::div_mod::lemma_fundamental_div_mod;
use vstd::wrapping::u64_specs;

use crate::controller::{
    lemma_calculate_factor_bounds, lemma_min_max_vt_bounds, spec_calculate_factor,
    spec_effective_quota, spec_max_vt, spec_min_vt, spec_new_max_quota, spec_rebalance_effect,
    spec_upsert_effect, ResourceController,
};
use crate::names::spec_default_name;
use crate::priority::RESET_VT_THRESHOLD;
use crate::tracker::MAX_RU_QUOTA;

verus! {

/// Fairness by quota: under one baseline, a group with half the quota of
/// another gets (up to integer rounding) twice its weight, so identical
/// consumption — which advances virtual time by the consumed units times the
/// weight — drives its virtual time twice as fast: after each group consumes
/// `t` units from a fresh start, the half-quota group's virtual time `t * wb`
/// lies within `t` of twice the full-quota group's `t * wa`.
pub proof fn lemma_fairness_by_quota(max_quota: u64, qb: u64, t: u64)
    requires
        1 <= qb,
        2 * qb <= max_quota,
        max_quota <= MAX_RU_QUOTA,
        t * spec_calculate_factor(max_quota, qb) <= u64::MAX,
    ensures
        ({
            let wa = spec_calculate_factor(max_quota, (2 * qb) as u64);
            let wb = spec_calculate_factor(max_quota, qb);
            &&& 2 * wa - 1 <= wb <= 2 * wa + 1
            &&& u64_specs::wrapping_mul(t, wa) == t * wa
            &&& u64_specs::wrapping_mul(t, wb) == t * wb
            &&& 2 * (t * wa) - t <= t * wb <= 2 * (t * wa) + t
        }),
{
    let qa: u64 = (2 * qb) as u64;
    lemma_calculate_factor_bounds(max_quota, qa);
    lemma_calculate_factor_bounds(max_quota, qb);
    let m: int = if max_quota * 10 < MAX_RU_QUOTA {
        max_quota * 10
    } else {
        MAX_RU_QUOTA as int
    };
    assert(qb <= m) by (nonlinear_arith)
        requires
            1 <= qb,
            2 * qb <= max_quota,
            m == if max_quota * 10 < MAX_RU_QUOTA {
                max_quota * 10
            } else {
                MAX_RU_QUOTA as int
            },
            max_quota <= MAX_RU_QUOTA,
    ;
    let wa = spec_calculate_factor(max_quota, qa);
    let wb = spec_calculate_factor(max_quota, qb);
    let e: int = qb as int / 2;
    assert(wa == (m + qa / 2) / (qa as int));
    assert(wb == (m + e) / (qb as int));
    assert(qa / 2 == qb);
    lemma_fundamental_div_mod(m + qb, 2 * qb);
    lemma_fundamental_div_mod(m + e, qb as int);
    let k: int = (m + qb) / (2 * qb);
    let w: int = (m + e) / (qb as int);
    let r1: int = (m + qb) % (2 * qb);
    let r2: int = (m + e) % (qb as int);
    assert(2 * k - 1 <= w <= 2 * k + 1) by (nonlinear_arith)
        requires
            m + qb == 2 * qb * k + r1,
            0 <= r1 < 2 * qb,
            m + e == qb * w + r2,
            0 <= r2 < qb,
            e == qb as int / 2,
            qb == 2 * e || qb == 2 * e + 1,
            1 <= qb,
            qb <= m,
    ;
    assert(wa == k && wb == w);
    // the products do not wrap: wa <= wb + 1 <= ..., and t * wb fits
    assert(t * wa <= t * wb + t && t * wb <= 2 * (t * wa) + t && 2 * (t * wa) - t <= t * wb)
        by (nonlinear_arith)
        requires
            2 * wa - 1 <= wb <= 2 * wa + 1,
            1 <= wa,
            0 <= t,
    ;
    assert(t * wa <= u64::MAX) by (nonlinear_arith)
        requires
            t * wb <= u64::MAX,
            wa <= wb,
            0 <= t,
    ;
    assert(wa <= wb) by (nonlinear_arith)
        requires
            2 * wa - 1 <= wb,
            1 <= wa,
    ;
}

/// Default fallback: a lookup for an unknown group lands on the very entry a
/// lookup for "default" lands on, so `get_priority` and `consume`, whose
/// contracts are functions of the looked-up entry, treat an unknown name and
/// "default" interchangeably.
pub proof fn lemma_default_fallback(c: ResourceController, name: Seq<u8>)
    requires
        c.wf(),
        !c.contains_group(name),
    ensures
        c.spec_lookup_index(name) == c.spec_lookup_index(spec_default_name()),
{
}

/// Overwriting a group's configuration preserves its history: after an
/// upsert of an existing name — whether or not the quota changed — the
/// group's accrued virtual time is exactly what it was.
pub proof fn lemma_upsert_preserves_history(
    pre: ResourceController,
    post: ResourceController,
    name: Seq<u8>,
    ru_quota: u64,
    group_priority: u32,
)
    requires
        spec_upsert_effect(pre, post, name, ru_quota, group_priority),
        pre.contains_group(name),
    ensures
        post.groups()[pre.spec_group_index(name)].1.virtual_time
            == pre.groups()[pre.spec_group_index(name)].1.virtual_time,
{
}

/// Re-weighting on a new largest quota: when an upsert raises the weighting
/// baseline, every previously existing group's weight is recomputed against
/// the new baseline while its accrued virtual time is untouched.
pub proof fn lemma_reweight_on_new_max(
    pre: ResourceController,
    post: ResourceController,
    name: Seq<u8>,
    ru_quota: u64,
    group_priority: u32,
)
    requires
        spec_upsert_effect(pre, post, name, ru_quota, group_priority),
        spec_new_max_quota(pre.max_ru_quota, name, spec_effective_quota(ru_quota))
            == spec_effective_quota(ru_quota),
    ensures
        forall|i: int|
            0 <= i < pre.groups().len() && (!pre.contains_group(name) || i
                != pre.spec_group_index(name)) ==> {
                &&& (#[trigger] post.groups()[i]).1.weight == spec_calculate_factor(
                    spec_effective_quota(ru_quota),
                    pre.groups()[i].1.ru_quota,
                )
                &&& post.groups()[i].1.virtual_time == pre.groups()[i].1.virtual_time
            },
{
}

/// New group seeding: a group unknown to the controller starts at the
/// current seed `last_min_vt` — the fairness frontier recorded by the last
/// rebalance — not at zero.
pub proof fn lemma_new_group_seeding(
    pre: ResourceController,
    post: ResourceController,
    name: Seq<u8>,
    ru_quota: u64,
    group_priority: u32,
)
    requires
        spec_upsert_effect(pre, post, name, ru_quota, group_priority),
        !pre.contains_group(name),
    ensures
        post.groups().last().1.virtual_time == pre.last_min_vt,
{
}

/// Overflow safety: once every group's virtual time has passed
/// `RESET_VT_THRESHOLD` (and none has reached twice the threshold), one
/// rebalance lowers each by exactly the threshold, bringing all of them back
/// below it.
pub proof fn lemma_overflow_reset(pre: ResourceController, post: ResourceController)
    requires
        pre.wf(),
        spec_rebalance_effect(pre, post),
        spec_min_vt(pre.groups()) > RESET_VT_THRESHOLD,
        spec_max_vt(pre.groups()) < 2 * RESET_VT_THRESHOLD,
    ensures
        post.groups().len() == pre.groups().len(),
        forall|i: int|
            0 <= i < pre.groups().len() ==> (#[trigger] post.groups()[i]).1.virtual_time
                == pre.groups()[i].1.virtual_time - RESET_VT_THRESHOLD,
        forall|i: int|
            0 <= i < post.groups().len() ==> (#[trigger] post.groups()[i]).1.virtual_time
                < RESET_VT_THRESHOLD,
{
    lemma_min_max_vt_bounds(pre.groups());
    assert(pre.groups().len() >= 1);
    assert(spec_max_vt(pre.groups()) >= spec_min_vt(pre.groups()));
}

} // verus!
