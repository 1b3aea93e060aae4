//! Per-group fairness state: the quota-derived weight and the virtual-time
//! counter that accumulates weighted consumption.

use vstd::prelude::*;
use vstd::wrapping::u64_specs;

use crate::priority::{concat_priority_vt, spec_concat_priority_vt};

verus! {

/// The largest RU quota that can be configured (the largest signed 32-bit
/// value); anything above is clamped to it.
pub const MAX_RU_QUOTA: u64 = 0x7fff_ffff;

/// A read task costs at least this many microseconds; the estimate charged at
/// admission time is this value times the group's weight.
pub const DEFAULT_PRIORITY_PER_READ_TASK: u64 = 50;

/// A consumption report: either CPU time, in microseconds, or an I/O byte
/// count.
pub enum ResourceConsumeType {
    CpuTime(u64),
    IoBytes(u64),
}

/// The number of units a consumption report is worth, before weighting.
pub open spec fn spec_consume_units(resource: ResourceConsumeType) -> u64 {
    match resource {
        ResourceConsumeType::CpuTime(micros) => micros,
        ResourceConsumeType::IoBytes(bytes) => bytes,
    }
}

/// The extra bias added for a task's coarse urgency level (0 is most urgent):
/// less urgent levels are pushed later by a larger factor.
pub open spec fn spec_task_extra_factor(level: int) -> u64 {
    if level == 0 {
        0
    } else if level == 1 {
        20
    } else {
        100
    }
}

fn task_extra_factor(level: usize) -> (r: u64)
    requires
        level < 3,
    ensures
        r == spec_task_extra_factor(level as int),
{
    if level == 0 {
        0
    } else if level == 1 {
        20
    } else {
        100
    }
}

/// Fairness state of one resource group within one controller.
pub struct GroupPriorityTracker {
    /// The configured RU quota of this group, clamped to `[0, MAX_RU_QUOTA]`.
    pub ru_quota: u64,
    /// The coarse priority tier, in `[1, 16]`; higher dominates.
    pub group_priority: u32,
    /// The quota-derived multiplier: virtual time advances by `weight` per
    /// consumed unit, so small-quota groups are de-prioritized sooner.
    pub weight: u64,
    /// Cumulative weighted consumption; lower means served sooner.
    pub virtual_time: u64,
    /// The constant charged to virtual time on each priority query, non-zero
    /// only under a read controller, where real cost is unknown at admission.
    pub vt_delta_for_get: u64,
}

impl GroupPriorityTracker {
    /// Well-formedness: the tier fits the four-bit encoding and the weight is
    /// a valid factor.
    pub open spec fn wf(self) -> bool {
        &&& 1 <= self.group_priority <= 16
        &&& 1 <= self.weight <= MAX_RU_QUOTA
    }

    /// The virtual time after one priority query: the read estimate is charged
    /// first, with wraparound.
    pub open spec fn spec_vt_after_get(self) -> u64 {
        if self.vt_delta_for_get > 0 {
            u64_specs::wrapping_add(self.virtual_time, self.vt_delta_for_get)
        } else {
            self.virtual_time
        }
    }

    /// The key returned by one priority query at urgency `level`.
    pub open spec fn spec_get_priority(self, level: int) -> u64 {
        spec_concat_priority_vt(
            self.group_priority,
            u64_specs::wrapping_add(
                self.spec_vt_after_get(),
                (spec_task_extra_factor(level) * 1000 * self.weight) as u64,
            ),
        )
    }

    /// One admission event: charge the read estimate (if any) to virtual time
    /// and return the priority key for the post-charge value plus the urgency
    /// bias. Not idempotent by design.
    pub fn get_priority(&mut self, level: usize) -> (r: u64)
        requires
            level < 3,
            old(self).wf(),
        ensures
            final(self).wf(),
            r == old(self).spec_get_priority(level as int),
            final(self).virtual_time == old(self).spec_vt_after_get(),
            final(self).ru_quota == old(self).ru_quota,
            final(self).group_priority == old(self).group_priority,
            final(self).weight == old(self).weight,
            final(self).vt_delta_for_get == old(self).vt_delta_for_get,
    {
        let factor = task_extra_factor(level);
        assert(factor * 1000 * self.weight <= 100000 * MAX_RU_QUOTA) by (nonlinear_arith)
            requires
                factor <= 100,
                self.weight <= MAX_RU_QUOTA,
        ;
        let task_extra_priority: u64 = factor * 1000 * self.weight;
        let vt = (if self.vt_delta_for_get > 0 {
            self.virtual_time = self.virtual_time.wrapping_add(self.vt_delta_for_get);
            self.virtual_time
        } else {
            self.virtual_time
        }).wrapping_add(task_extra_priority);
        concat_priority_vt(self.group_priority, vt)
    }

    /// The current virtual time.
    pub fn current_vt(&self) -> (vt: u64)
        ensures
            vt == self.virtual_time,
    {
        self.virtual_time
    }

    /// Advance virtual time by `vt_delta`, with wraparound.
    pub fn increase_vt(&mut self, vt_delta: u64)
        ensures
            final(self).virtual_time == u64_specs::wrapping_add(old(self).virtual_time, vt_delta),
            final(self).ru_quota == old(self).ru_quota,
            final(self).group_priority == old(self).group_priority,
            final(self).weight == old(self).weight,
            final(self).vt_delta_for_get == old(self).vt_delta_for_get,
    {
        self.virtual_time = self.virtual_time.wrapping_add(vt_delta);
    }

    /// Lower virtual time by `vt_delta`, with wraparound; used only by the
    /// overflow-avoiding reset.
    pub fn decrease_vt(&mut self, vt_delta: u64)
        ensures
            final(self).virtual_time == u64_specs::wrapping_sub(old(self).virtual_time, vt_delta),
            final(self).ru_quota == old(self).ru_quota,
            final(self).group_priority == old(self).group_priority,
            final(self).weight == old(self).weight,
            final(self).vt_delta_for_get == old(self).vt_delta_for_get,
    {
        self.virtual_time = self.virtual_time.wrapping_sub(vt_delta);
    }

    /// Account one consumption report: virtual time advances by the reported
    /// units times this group's weight.
    pub fn consume(&mut self, resource: ResourceConsumeType)
        ensures
            final(self).virtual_time == u64_specs::wrapping_add(
                old(self).virtual_time,
                u64_specs::wrapping_mul(spec_consume_units(resource), old(self).weight),
            ),
            final(self).ru_quota == old(self).ru_quota,
            final(self).group_priority == old(self).group_priority,
            final(self).weight == old(self).weight,
            final(self).vt_delta_for_get == old(self).vt_delta_for_get,
    {
        let units = match resource {
            ResourceConsumeType::CpuTime(micros) => micros,
            ResourceConsumeType::IoBytes(bytes) => bytes,
        };
        let vt_delta = units.wrapping_mul(self.weight);
        self.increase_vt(vt_delta);
    }
}

} // verus!
