//! One controller per resource dimension: owns the per-group fairness state,
//! derives weights from quotas, answers priority queries, accounts
//! consumption, and periodically rebalances virtual time.

use vstd::prelude::*;

use crate::names::{bytes_eq, default_group_name, is_default_name, spec_default_name};
use crate::priority::RESET_VT_THRESHOLD;
use crate::tracker::{
    GroupPriorityTracker, ResourceConsumeType, spec_consume_units, DEFAULT_PRIORITY_PER_READ_TASK,
    MAX_RU_QUOTA,
};

verus! {

/// The baseline for weight computation before any group with a larger quota
/// is seen.
pub const DEFAULT_MAX_RU_QUOTA: u64 = 10_000;

/// The tier a group gets when its configuration says 0 ("unset").
pub const MEDIUM_PRIORITY: u32 = 8;

/// The coarse urgency class a caller attaches to one task admission.
#[derive(Clone, Copy, PartialEq, Eq, Debug)]
pub enum CommandPri {
    Low,
    Normal,
    High,
}

/// The sub-queue level an urgency class maps to: more urgent is lower.
pub open spec fn spec_level(pri: CommandPri) -> int {
    match pri {
        CommandPri::Low => 2,
        CommandPri::Normal => 1,
        CommandPri::High => 0,
    }
}

/// The weight a quota gets under a weighting baseline `max_quota`: roughly
/// `max_quota * 10 / quota`, rounded to nearest, so that weight is inversely
/// proportional to quota. A quota of 0 ("unweighted") or above the baseline
/// gets weight 1.
pub open spec fn spec_calculate_factor(max_quota: u64, quota: u64) -> u64 {
    if quota == 0 || quota > max_quota {
        1
    } else {
        let m: int = if max_quota * 10 < MAX_RU_QUOTA {
            max_quota * 10
        } else {
            MAX_RU_QUOTA as int
        };
        ((m + quota / 2) / (quota as int)) as u64
    }
}

/// The weight of every quota lies in `[1, MAX_RU_QUOTA]` whenever the
/// baseline does.
pub proof fn lemma_calculate_factor_bounds(max_quota: u64, quota: u64)
    requires
        1 <= max_quota <= MAX_RU_QUOTA,
    ensures
        1 <= spec_calculate_factor(max_quota, quota) <= MAX_RU_QUOTA,
{
    if quota == 0 || quota > max_quota {
    } else {
        let m: int = if max_quota * 10 < MAX_RU_QUOTA {
            max_quota * 10
        } else {
            MAX_RU_QUOTA as int
        };
        assert(quota <= m && m <= MAX_RU_QUOTA) by (nonlinear_arith)
            requires
                1 <= quota <= max_quota <= MAX_RU_QUOTA,
                m == if max_quota * 10 < MAX_RU_QUOTA {
                    max_quota * 10
                } else {
                    MAX_RU_QUOTA as int
                },
        ;
        assert(1 <= (m + quota / 2) / (quota as int) <= MAX_RU_QUOTA) by (nonlinear_arith)
            requires
                1 <= quota <= m <= MAX_RU_QUOTA,
        ;
    }
}

/// Compute the weight of a group with RU quota `quota` under the weighting
/// baseline `max_quota`.
pub fn calculate_factor(max_quota: u64, quota: u64) -> (r: u64)
    requires
        1 <= max_quota <= MAX_RU_QUOTA,
    ensures
        r == spec_calculate_factor(max_quota, quota),
        1 <= r <= MAX_RU_QUOTA,
{
    proof {
        lemma_calculate_factor_bounds(max_quota, quota);
    }
    if quota == 0 || quota > max_quota {
        1
    } else {
        // times 10 so that integer weights keep enough accuracy
        let m: u64 = if max_quota <= MAX_RU_QUOTA / 10 {
            max_quota * 10
        } else {
            MAX_RU_QUOTA
        };
        assert(m == spec_calculate_factor_m(max_quota)) by {
            lemma_factor_m_cases(max_quota);
        }
        (m + quota / 2) / quota
    }
}

/// The capped `max_quota * 10` numerator used by the weight formula.
pub open spec fn spec_calculate_factor_m(max_quota: u64) -> int {
    if max_quota * 10 < MAX_RU_QUOTA {
        max_quota * 10
    } else {
        MAX_RU_QUOTA as int
    }
}

proof fn lemma_factor_m_cases(max_quota: u64)
    requires
        1 <= max_quota <= MAX_RU_QUOTA,
    ensures
        max_quota <= MAX_RU_QUOTA / 10 ==> spec_calculate_factor_m(max_quota) == max_quota * 10,
        max_quota > MAX_RU_QUOTA / 10 ==> spec_calculate_factor_m(max_quota) == MAX_RU_QUOTA as int,
{
    assert((max_quota <= MAX_RU_QUOTA / 10 ==> max_quota * 10 < MAX_RU_QUOTA) && (max_quota
        > MAX_RU_QUOTA / 10 ==> max_quota * 10 >= MAX_RU_QUOTA)) by (nonlinear_arith)
        requires
            1 <= max_quota,
    ;
}

/// The fairness brain for one resource dimension ("read" or "write") of the
/// worker pool: a map from group name to its tracker, plus the weighting
/// baseline and the seed for newly added groups.
pub struct ResourceController {
    /// The name of the pool this controller was derived for; not read by the
    /// scheduling logic.
    pub name: Vec<u8>,
    /// Fixed at creation: a read controller charges an estimated cost on
    /// every priority query, because real read cost is unknown at admission.
    pub is_read: bool,
    /// The largest quota seen so far (never lowered by removals), the
    /// normalization basis of every weight; the default group sitting exactly
    /// at `MAX_RU_QUOTA` is carved out so the "unlimited" sentinel does not
    /// flatten every other weight to 1.
    pub max_ru_quota: u64,
    /// The per-group fairness state, keyed by group name; names are unique
    /// and the default group is always present.
    pub resource_consumptions: Vec<(Vec<u8>, GroupPriorityTracker)>,
    /// The virtual time newly created groups are seeded with, so a late
    /// arrival starts at the current fairness frontier rather than at zero.
    pub last_min_vt: u64,
    /// Whether any group beside the bare default exists.
    pub customized: bool,
}

impl ResourceController {
    /// The per-group entries, as a sequence of (name, tracker) pairs.
    pub open spec fn groups(self) -> Seq<(Vec<u8>, GroupPriorityTracker)> {
        self.resource_consumptions@
    }

    /// Whether a group of this name exists.
    pub open spec fn contains_group(self, name: Seq<u8>) -> bool {
        exists|i: int| 0 <= i < self.groups().len() && self.groups()[i].0@ == name
    }

    /// The index of the group of this name (meaningful only when it exists;
    /// names are unique under `base_inv`).
    pub open spec fn spec_group_index(self, name: Seq<u8>) -> int {
        choose|i: int| 0 <= i < self.groups().len() && self.groups()[i].0@ == name
    }

    /// The index a lookup lands on: the named group if present, else the
    /// default group — an unknown name never fails.
    pub open spec fn spec_lookup_index(self, name: Seq<u8>) -> int {
        if self.contains_group(name) {
            self.spec_group_index(name)
        } else {
            self.spec_group_index(spec_default_name())
        }
    }

    /// No two entries carry the same name.
    pub open spec fn names_unique(self) -> bool {
        forall|i: int, j: int|
            0 <= i < j < self.groups().len() ==> self.groups()[i].0@ != self.groups()[j].0@
    }

    /// The structural invariant: unique names, a baseline in range, and every
    /// tracker well formed with a clamped quota.
    pub open spec fn base_inv(self) -> bool {
        &&& self.names_unique()
        &&& 1 <= self.max_ru_quota <= MAX_RU_QUOTA
        &&& forall|i: int|
            0 <= i < self.groups().len() ==> (#[trigger] self.groups()[i]).1.wf()
        &&& forall|i: int|
            0 <= i < self.groups().len() ==> (#[trigger] self.groups()[i]).1.ru_quota
                <= MAX_RU_QUOTA
    }

    /// Every weight agrees with the current baseline; broken only in the
    /// middle of a baseline raise, and restored by the full reweighting pass.
    pub open spec fn weights_consistent(self) -> bool {
        forall|i: int|
            0 <= i < self.groups().len() ==> (#[trigger] self.groups()[i]).1.weight
                == spec_calculate_factor(self.max_ru_quota, self.groups()[i].1.ru_quota)
    }

    /// Full well-formedness: the invariant, consistent weights, and the
    /// ever-present default group.
    pub open spec fn wf(self) -> bool {
        &&& self.base_inv()
        &&& self.weights_consistent()
        &&& self.contains_group(spec_default_name())
    }

    /// Whether anything beside the bare default group is configured.
    pub open spec fn spec_customized(self) -> bool {
        !(self.groups().len() == 1 && self.groups()[0].0@ == spec_default_name())
    }

    /// Find the entry of this exact name, if any.
    fn find_group(&self, name: &[u8]) -> (r: Option<usize>)
        ensures
            match r {
                Some(i) => i < self.groups().len() && self.groups()[i as int].0@ == name@,
                None => !self.contains_group(name@),
            },
    {
        let n = self.resource_consumptions.len();
        let mut i: usize = 0;
        while i < n
            invariant
                n == self.groups().len(),
                i <= n,
                forall|j: int| 0 <= j < i ==> self.groups()[j].0@ != name@,
            decreases n - i,
        {
            if bytes_eq(self.resource_consumptions[i].0.as_slice(), name) {
                return Some(i);
            }
            i = i + 1;
        }
        None
    }

    /// The index the named group sits at, falling back to the default group
    /// for an unknown name.
    fn lookup_index(&self, name: &[u8]) -> (i: usize)
        requires
            self.base_inv(),
            self.contains_group(spec_default_name()),
        ensures
            i == self.spec_lookup_index(name@),
            i < self.groups().len(),
            self.groups()[i as int].0@ == if self.contains_group(name@) {
                name@
            } else {
                spec_default_name()
            },
    {
        let found = self.find_group(name);
        match found {
            Some(i) => {
                proof {
                    let j = self.spec_group_index(name@);
                    assert(0 <= j < self.groups().len() && self.groups()[j].0@ == name@);
                    assert(i == j);
                }
                i
            },
            None => {
                let d = default_group_name();
                let found_default = self.find_group(d.as_slice());
                match found_default {
                    Some(i) => {
                        proof {
                            let j = self.spec_group_index(spec_default_name());
                            assert(0 <= j < self.groups().len() && self.groups()[j].0@
                                == spec_default_name());
                            assert(i == j);
                        }
                        i
                    },
                    None => {
                        // the default group is always present
                        proof {
                            assert(false);
                        }
                        0
                    },
                }
            },
        }
    }

    /// Whether any group beside the bare default is configured.
    pub fn is_customized(&self) -> (r: bool)
        ensures
            r == self.customized,
    {
        self.customized
    }

    /// Recompute the flag after a structural change.
    fn check_customized(&mut self)
        ensures
            final(self).customized == old(self).spec_customized(),
            final(self).name == old(self).name,
            final(self).is_read == old(self).is_read,
            final(self).max_ru_quota == old(self).max_ru_quota,
            final(self).resource_consumptions == old(self).resource_consumptions,
            final(self).last_min_vt == old(self).last_min_vt,
    {
        if self.resource_consumptions.len() == 1 {
            if is_default_name(self.resource_consumptions[0].0.as_slice()) {
                self.customized = false;
                return ;
            }
        }
        self.customized = true;
    }
}

/// `groups` with every weight recomputed against the baseline `new_max`;
/// everything else, the accrued virtual times included, is kept.
pub open spec fn spec_reweight(
    groups: Seq<(Vec<u8>, GroupPriorityTracker)>,
    new_max: u64,
) -> Seq<(Vec<u8>, GroupPriorityTracker)> {
    groups.map_values(
        |e: (Vec<u8>, GroupPriorityTracker)|
            (
                e.0,
                GroupPriorityTracker {
                    weight: spec_calculate_factor(new_max, e.1.ru_quota),
                    ..e.1
                },
            ),
    )
}

/// A configured quota, clamped to `[0, MAX_RU_QUOTA]`.
pub open spec fn spec_effective_quota(ru_quota: u64) -> u64 {
    if ru_quota > MAX_RU_QUOTA {
        MAX_RU_QUOTA
    } else {
        ru_quota
    }
}

/// A configured tier, with 0 mapped to the medium default.
pub open spec fn spec_effective_priority(group_priority: u32) -> u32 {
    if group_priority == 0 {
        MEDIUM_PRIORITY
    } else {
        group_priority
    }
}

/// The weighting baseline after a group of (clamped) quota `quota` named
/// `name` is upserted: raised to `quota` when that exceeds the old baseline,
/// except for the default group sitting exactly at `MAX_RU_QUOTA`, whose
/// "unlimited" sentinel must not flatten every other weight.
pub open spec fn spec_new_max_quota(old_max: u64, name: Seq<u8>, quota: u64) -> u64 {
    if quota > old_max && (name != spec_default_name() || quota < MAX_RU_QUOTA) {
        quota
    } else {
        old_max
    }
}

impl ResourceController {
    /// The tracker an upsert of these (clamped, defaulted) values installs:
    /// an existing group keeps its accrued virtual time, a new group starts
    /// at the seed.
    pub open spec fn spec_upserted_tracker(
        self,
        name: Seq<u8>,
        quota: u64,
        priority: u32,
        new_max: u64,
    ) -> GroupPriorityTracker {
        GroupPriorityTracker {
            ru_quota: quota,
            group_priority: priority,
            weight: spec_calculate_factor(new_max, quota),
            virtual_time: if self.contains_group(name) {
                self.groups()[self.spec_group_index(name)].1.virtual_time
            } else {
                self.last_min_vt
            },
            vt_delta_for_get: if self.is_read {
                (DEFAULT_PRIORITY_PER_READ_TASK * spec_calculate_factor(new_max, quota)) as u64
            } else {
                0
            },
        }
    }

    /// The group sequence after an upsert: all weights against the new
    /// baseline, and the upserted entry overwritten in place or appended.
    pub open spec fn spec_upserted_groups(
        self,
        name: Vec<u8>,
        ru_quota: u64,
        group_priority: u32,
    ) -> Seq<(Vec<u8>, GroupPriorityTracker)> {
        let q = spec_effective_quota(ru_quota);
        let p = spec_effective_priority(group_priority);
        let new_max = spec_new_max_quota(self.max_ru_quota, name@, q);
        let tracker = self.spec_upserted_tracker(name@, q, p, new_max);
        let base = spec_reweight(self.groups(), new_max);
        if self.contains_group(name@) {
            base.update(self.spec_group_index(name@), (name, tracker))
        } else {
            base.push((name, tracker))
        }
    }

    /// Recompute every group's weight against the current baseline. Only the
    /// weights change; quotas, tiers, read estimates and accrued virtual
    /// times are kept.
    fn adjust_all_resource_group_factors(&mut self, max_ru_quota: u64)
        requires
            old(self).base_inv(),
            max_ru_quota == old(self).max_ru_quota,
        ensures
            final(self).base_inv(),
            final(self).weights_consistent(),
            final(self).groups() == spec_reweight(old(self).groups(), max_ru_quota),
            final(self).name == old(self).name,
            final(self).is_read == old(self).is_read,
            final(self).max_ru_quota == old(self).max_ru_quota,
            final(self).last_min_vt == old(self).last_min_vt,
            final(self).customized == old(self).customized,
    {
        let ghost g0 = self.groups();
        let n = self.resource_consumptions.len();
        let mut i: usize = 0;
        while i < n
            invariant
                n == self.groups().len(),
                n == g0.len(),
                i <= n,
                1 <= self.max_ru_quota <= MAX_RU_QUOTA,
                self.max_ru_quota == max_ru_quota,
                forall|k: int|
                    0 <= k < i ==> (#[trigger] self.groups()[k]) == spec_reweight(
                        g0,
                        max_ru_quota,
                    )[k],
                forall|k: int| i <= k < n ==> (#[trigger] self.groups()[k]) == g0[k],
                self.name == old(self).name,
                self.is_read == old(self).is_read,
                self.last_min_vt == old(self).last_min_vt,
                self.customized == old(self).customized,
            decreases n - i,
        {
            let q = self.resource_consumptions[i].1.ru_quota;
            let w = calculate_factor(max_ru_quota, q);
            let e = &mut self.resource_consumptions[i];
            e.1.weight = w;
            i = i + 1;
        }
        proof {
            assert(self.groups() =~= spec_reweight(g0, max_ru_quota));
            assert forall|i: int| 0 <= i < self.groups().len() implies (#[trigger] self.groups()[i]).1.wf() by {
                assert(g0[i].1.wf());
                lemma_calculate_factor_bounds(max_ru_quota, g0[i].1.ru_quota);
            }
        }
    }

    /// Insert a group, or overwrite its configuration.
    ///
    /// The quota is clamped to `[0, MAX_RU_QUOTA]` and a tier of 0 becomes
    /// the medium default. When the clamped quota exceeds the current
    /// baseline — except for the default group's `MAX_RU_QUOTA` sentinel —
    /// the baseline is raised and every existing group's weight recomputed. A
    /// new group's virtual time starts at the seed `last_min_vt`; an existing
    /// group keeps its accrued virtual time, so overwriting a configuration
    /// never resets a group's history.
    #[verifier::rlimit(50)]
    pub fn add_resource_group(&mut self, name: Vec<u8>, ru_quota: u64, group_priority: u32)
        requires
            old(self).base_inv(),
            old(self).weights_consistent(),
            group_priority <= 16,
        ensures
            final(self).base_inv(),
            final(self).weights_consistent(),
            final(self).name == old(self).name,
            final(self).is_read == old(self).is_read,
            final(self).last_min_vt == old(self).last_min_vt,
            final(self).max_ru_quota == spec_new_max_quota(
                old(self).max_ru_quota,
                name@,
                spec_effective_quota(ru_quota),
            ),
            final(self).groups() == old(self).spec_upserted_groups(name, ru_quota, group_priority),
            final(self).customized == final(self).spec_customized(),
            forall|n: Seq<u8>|
                final(self).contains_group(n) <==> (old(self).contains_group(n) || n == name@),
            spec_upsert_effect(*old(self), *final(self), name@, ru_quota, group_priority),
    {
        let ghost oldc = *old(self);
        let group_priority = if group_priority == 0 {
            MEDIUM_PRIORITY
        } else {
            group_priority
        };
        let ru_quota = if ru_quota > MAX_RU_QUOTA {
            MAX_RU_QUOTA
        } else {
            ru_quota
        };
        let is_def = is_default_name(name.as_slice());
        if ru_quota > self.max_ru_quota && (!is_def || ru_quota < MAX_RU_QUOTA) {
            self.max_ru_quota = ru_quota;
            self.adjust_all_resource_group_factors(ru_quota);
        } else {
            proof {
                assert(self.groups() =~= spec_reweight(oldc.groups(), self.max_ru_quota));
            }
        }
        assert(self.max_ru_quota == spec_new_max_quota(
            oldc.max_ru_quota,
            name@,
            spec_effective_quota(ru_quota),
        ));
        assert(self.groups() == spec_reweight(oldc.groups(), self.max_ru_quota));
        let weight = calculate_factor(self.max_ru_quota, ru_quota);
        let vt_delta_for_get = if self.is_read {
            DEFAULT_PRIORITY_PER_READ_TASK * weight
        } else {
            0
        };
        let found = self.find_group(name.as_slice());
        proof {
            // membership and indices agree between the old and the
            // reweighted sequence, whose names match pointwise
            assert forall|n: Seq<u8>| oldc.contains_group(n) implies self.contains_group(n) by {
                let j = choose|j: int|
                    0 <= j < oldc.groups().len() && oldc.groups()[j].0@ == n;
                assert(self.groups()[j].0@ == n);
            }
            assert forall|n: Seq<u8>| self.contains_group(n) implies oldc.contains_group(n) by {
                let j = choose|j: int|
                    0 <= j < self.groups().len() && self.groups()[j].0@ == n;
                assert(oldc.groups()[j].0@ == n);
            }
        }
        let virtual_time = match found {
            Some(i) => self.resource_consumptions[i].1.virtual_time,
            None => self.last_min_vt,
        };
        let group = GroupPriorityTracker {
            ru_quota,
            group_priority,
            weight,
            virtual_time,
            vt_delta_for_get,
        };
        proof {
            assert(group == oldc.spec_upserted_tracker(
                name@,
                spec_effective_quota(ru_quota),
                group_priority,
                self.max_ru_quota,
            ));
        }
        match found {
            Some(i) => {
                proof {
                    let j = oldc.spec_group_index(name@);
                    assert(oldc.groups()[j].0@ == name@);
                    assert(self.groups()[j].0@ == name@);
                    assert(i == j);
                }
                self.resource_consumptions[i] = (name, group);
            },
            None => {
                self.resource_consumptions.push((name, group));
            },
        }
        self.check_customized();
        proof {
            assert(self.groups() == oldc.spec_upserted_groups(name, ru_quota, group_priority));
            assert forall|i: int| 0 <= i < self.groups().len() implies (#[trigger] self.groups()[i]).1.wf() && self.groups()[i].1.ru_quota <= MAX_RU_QUOTA by {
                lemma_calculate_factor_bounds(self.max_ru_quota, self.groups()[i].1.ru_quota);
            }
            assert forall|n: Seq<u8>|
                self.contains_group(n) <==> (oldc.contains_group(n) || n == name@) by {
                if oldc.contains_group(n) {
                    let j = choose|j: int|
                        0 <= j < oldc.groups().len() && oldc.groups()[j].0@ == n;
                    assert(self.groups()[j].0@ == n);
                }
                if n == name@ {
                    if oldc.contains_group(name@) {
                        assert(self.groups()[oldc.spec_group_index(name@)].0@ == n);
                    } else {
                        assert(self.groups()[self.groups().len() - 1].0@ == n);
                    }
                }
                if self.contains_group(n) {
                    let j = choose|j: int|
                        0 <= j < self.groups().len() && self.groups()[j].0@ == n;
                    if !oldc.contains_group(name@) && j == self.groups().len() - 1 {
                    } else {
                        assert(oldc.groups()[j].0@ == n || n == name@);
                    }
                }
            }
        }
    }

    /// A fresh controller for one pool: it starts with the default group
    /// alone, unweighted at the medium tier, and the initial baseline.
    pub fn new(name: Vec<u8>, is_read: bool) -> (c: ResourceController)
        ensures
            c.wf(),
            c.name == name,
            c.is_read == is_read,
            c.max_ru_quota == DEFAULT_MAX_RU_QUOTA,
            c.last_min_vt == 0,
            !c.customized,
            c.groups().len() == 1,
            c.groups()[0].0@ == spec_default_name(),
            c.groups()[0].1 == (GroupPriorityTracker {
                ru_quota: 0,
                group_priority: MEDIUM_PRIORITY,
                weight: 1,
                virtual_time: 0,
                vt_delta_for_get: if is_read {
                    DEFAULT_PRIORITY_PER_READ_TASK as u64
                } else {
                    0
                },
            }),
            spec_fresh_controller(c, name@, is_read),
    {
        let mut controller = ResourceController {
            name,
            is_read,
            max_ru_quota: DEFAULT_MAX_RU_QUOTA,
            resource_consumptions: Vec::new(),
            last_min_vt: 0,
            customized: false,
        };
        controller.add_resource_group(default_group_name(), 0, MEDIUM_PRIORITY);
        controller
    }
}

impl ResourceController {
    /// Remove a group. The default group is never deleted: removing it means
    /// resetting it to its built-in configuration (quota 0, medium tier), its
    /// accrued virtual time included.
    pub fn remove_resource_group(&mut self, name: &[u8])
        requires
            old(self).wf(),
        ensures
            final(self).wf(),
            final(self).name == old(self).name,
            final(self).is_read == old(self).is_read,
            final(self).max_ru_quota == old(self).max_ru_quota,
            final(self).last_min_vt == old(self).last_min_vt,
            final(self).customized == final(self).spec_customized(),
            name@ == spec_default_name() ==> ({
                let j = old(self).spec_group_index(spec_default_name());
                &&& final(self).groups().len() == old(self).groups().len()
                &&& final(self).groups()[j].0@ == spec_default_name()
                &&& final(self).groups()[j].1 == (GroupPriorityTracker {
                    ru_quota: 0,
                    group_priority: MEDIUM_PRIORITY,
                    weight: 1,
                    virtual_time: old(self).groups()[j].1.virtual_time,
                    vt_delta_for_get: if old(self).is_read {
                        DEFAULT_PRIORITY_PER_READ_TASK as u64
                    } else {
                        0
                    },
                })
                &&& forall|i: int|
                    0 <= i < old(self).groups().len() && i != j ==> final(self).groups()[i]
                        == old(self).groups()[i]
            }),
            name@ != spec_default_name() ==> final(self).groups() == if old(
                self,
            ).contains_group(name@) {
                old(self).groups().remove(old(self).spec_group_index(name@))
            } else {
                old(self).groups()
            },
            forall|n: Seq<u8>|
                final(self).contains_group(n) <==> (old(self).contains_group(n) && (n != name@
                    || n == spec_default_name())),
            spec_remove_effect(*old(self), *final(self), name@),
    {
        let ghost oldc = *old(self);
        if is_default_name(name) {
            let d = default_group_name();
            self.add_resource_group(d, 0, MEDIUM_PRIORITY);
            proof {
                assert(spec_new_max_quota(oldc.max_ru_quota, spec_default_name(), 0)
                    == oldc.max_ru_quota);
            }
            return ;
        }
        let found = self.find_group(name);
        match found {
            Some(i) => {
                proof {
                    let j = oldc.spec_group_index(name@);
                    assert(oldc.groups()[j].0@ == name@);
                    assert(i == j);
                }
                self.resource_consumptions.remove(i);
                proof {
                    let g1 = self.groups();
                    let g0 = oldc.groups();
                    let j = i as int;
                    assert forall|n: Seq<u8>|
                        self.contains_group(n) <==> (oldc.contains_group(n) && n != name@) by {
                        if self.contains_group(n) {
                            let k = choose|k: int| 0 <= k < g1.len() && g1[k].0@ == n;
                            if k < j {
                                assert(g0[k].0@ == n);
                            } else {
                                assert(g0[k + 1].0@ == n);
                            }
                        }
                        if oldc.contains_group(n) && n != name@ {
                            let k = choose|k: int| 0 <= k < g0.len() && g0[k].0@ == n;
                            assert(k != j);
                            if k < j {
                                assert(g1[k].0@ == n);
                            } else {
                                assert(g1[k - 1].0@ == n);
                            }
                        }
                    }
                    let dj = choose|k: int|
                        0 <= k < g0.len() && g0[k].0@ == spec_default_name();
                    assert(oldc.contains_group(spec_default_name()));
                    assert(self.contains_group(spec_default_name()));
                }
            },
            None => {},
        }
        self.check_customized();
    }

    /// The tracker of the named group, or of the default group when the name
    /// is unknown — a lookup never fails.
    pub fn resource_group(&self, name: &[u8]) -> (t: &GroupPriorityTracker)
        requires
            self.wf(),
        ensures
            *t == self.groups()[self.spec_lookup_index(name@)].1,
    {
        let i = self.lookup_index(name);
        &self.resource_consumptions[i].1
    }

    /// Account one consumption report against the named group (or the default
    /// group): its virtual time advances by the reported units times its
    /// weight. Never fails.
    pub fn consume(&mut self, name: &[u8], resource: ResourceConsumeType)
        requires
            old(self).wf(),
        ensures
            final(self).wf(),
            final(self).name == old(self).name,
            final(self).is_read == old(self).is_read,
            final(self).max_ru_quota == old(self).max_ru_quota,
            final(self).last_min_vt == old(self).last_min_vt,
            final(self).customized == old(self).customized,
            spec_consume_effect(*old(self), *final(self), name@, resource),
    {
        let ghost oldc = *old(self);
        let i = self.lookup_index(name);
        let e = &mut self.resource_consumptions[i];
        e.1.consume(resource);
        proof {
            lemma_same_names_same_groups(oldc, *self);
        }
    }

    /// One admission event for the named group (or the default group) at the
    /// given urgency: under a read controller the estimated read cost is
    /// charged to the group's virtual time first, then the key for the
    /// post-charge virtual time plus the urgency bias is returned.
    pub fn get_priority(&mut self, name: &[u8], pri: CommandPri) -> (r: u64)
        requires
            old(self).wf(),
        ensures
            final(self).wf(),
            final(self).name == old(self).name,
            final(self).is_read == old(self).is_read,
            final(self).max_ru_quota == old(self).max_ru_quota,
            final(self).last_min_vt == old(self).last_min_vt,
            final(self).customized == old(self).customized,
            ({
                let gi = old(self).spec_lookup_index(name@);
                let t = old(self).groups()[gi].1;
                &&& r == t.spec_get_priority(spec_level(pri))
                &&& final(self).groups() == old(self).groups().update(
                    gi,
                    (
                        old(self).groups()[gi].0,
                        GroupPriorityTracker { virtual_time: t.spec_vt_after_get(), ..t },
                    ),
                )
            }),
    {
        let ghost oldc = *old(self);
        let level: usize = match pri {
            CommandPri::Low => 2,
            CommandPri::Normal => 1,
            CommandPri::High => 0,
        };
        let i = self.lookup_index(name);
        let e = &mut self.resource_consumptions[i];
        let r = e.1.get_priority(level);
        proof {
            lemma_same_names_same_groups(oldc, *self);
        }
        r
    }
}

/// The full effect of one upsert on a controller, entry by entry: the
/// baseline possibly raised, every existing group reweighted against it (its
/// accrued virtual time kept), and the upserted entry overwritten in place or
/// appended — an existing group keeps its virtual time, a new one starts at
/// the seed.
pub open spec fn spec_upsert_effect(
    pre: ResourceController,
    post: ResourceController,
    name: Seq<u8>,
    ru_quota: u64,
    group_priority: u32,
) -> bool {
    let q = spec_effective_quota(ru_quota);
    let p = spec_effective_priority(group_priority);
    let new_max = spec_new_max_quota(pre.max_ru_quota, name, q);
    let w = spec_calculate_factor(new_max, q);
    let t = GroupPriorityTracker {
        ru_quota: q,
        group_priority: p,
        weight: w,
        virtual_time: if pre.contains_group(name) {
            pre.groups()[pre.spec_group_index(name)].1.virtual_time
        } else {
            pre.last_min_vt
        },
        vt_delta_for_get: if pre.is_read {
            (DEFAULT_PRIORITY_PER_READ_TASK * w) as u64
        } else {
            0
        },
    };
    &&& post.name == pre.name
    &&& post.is_read == pre.is_read
    &&& post.last_min_vt == pre.last_min_vt
    &&& post.max_ru_quota == new_max
    &&& post.customized == post.spec_customized()
    &&& forall|n2: Seq<u8>| post.contains_group(n2) <==> (pre.contains_group(n2) || n2 == name)
    &&& if pre.contains_group(name) {
        let j = pre.spec_group_index(name);
        &&& post.groups().len() == pre.groups().len()
        &&& forall|i: int|
            0 <= i < pre.groups().len() && i != j ==> (#[trigger] post.groups()[i]) == (
            pre.groups()[i].0,
            GroupPriorityTracker {
                weight: spec_calculate_factor(new_max, pre.groups()[i].1.ru_quota),
                ..pre.groups()[i].1
            },
            )
        &&& post.groups()[j].0@ == name
        &&& post.groups()[j].1 == t
    } else {
        &&& post.groups().len() == pre.groups().len() + 1
        &&& forall|i: int|
            0 <= i < pre.groups().len() ==> (#[trigger] post.groups()[i]) == (
            pre.groups()[i].0,
            GroupPriorityTracker {
                weight: spec_calculate_factor(new_max, pre.groups()[i].1.ru_quota),
                ..pre.groups()[i].1
            },
            )
        &&& post.groups()[pre.groups().len() as int].0@ == name
        &&& post.groups()[pre.groups().len() as int].1 == t
    }
}

/// The full effect of one removal on a controller: the named entry deleted,
/// except the default group, which is reset to its built-in configuration
/// with its accrued virtual time kept.
pub open spec fn spec_remove_effect(
    pre: ResourceController,
    post: ResourceController,
    name: Seq<u8>,
) -> bool {
    &&& post.name == pre.name
    &&& post.is_read == pre.is_read
    &&& post.max_ru_quota == pre.max_ru_quota
    &&& post.last_min_vt == pre.last_min_vt
    &&& post.customized == post.spec_customized()
    &&& forall|n2: Seq<u8>|
        post.contains_group(n2) <==> (pre.contains_group(n2) && (n2 != name || n2
            == spec_default_name()))
    &&& if name == spec_default_name() {
        let j = pre.spec_group_index(spec_default_name());
        &&& post.groups().len() == pre.groups().len()
        &&& post.groups()[j].0@ == spec_default_name()
        &&& post.groups()[j].1 == (GroupPriorityTracker {
            ru_quota: 0,
            group_priority: MEDIUM_PRIORITY,
            weight: 1,
            virtual_time: pre.groups()[j].1.virtual_time,
            vt_delta_for_get: if pre.is_read {
                DEFAULT_PRIORITY_PER_READ_TASK as u64
            } else {
                0
            },
        })
        &&& forall|i: int|
            0 <= i < pre.groups().len() && i != j ==> (#[trigger] post.groups()[i])
                == pre.groups()[i]
    } else if pre.contains_group(name) {
        post.groups() == pre.groups().remove(pre.spec_group_index(name))
    } else {
        post.groups() == pre.groups()
    }
}

/// The full effect of one consumption report: the looked-up entry's virtual
/// time advances by the reported units times its weight, with wraparound;
/// nothing else changes.
pub open spec fn spec_consume_effect(
    pre: ResourceController,
    post: ResourceController,
    name: Seq<u8>,
    resource: ResourceConsumeType,
) -> bool {
    let gi = pre.spec_lookup_index(name);
    let t = pre.groups()[gi].1;
    &&& post.name == pre.name
    &&& post.is_read == pre.is_read
    &&& post.max_ru_quota == pre.max_ru_quota
    &&& post.last_min_vt == pre.last_min_vt
    &&& post.customized == pre.customized
    &&& post.groups() == pre.groups().update(
        gi,
        (
            pre.groups()[gi].0,
            GroupPriorityTracker {
                virtual_time: vstd::wrapping::u64_specs::wrapping_add(
                    t.virtual_time,
                    vstd::wrapping::u64_specs::wrapping_mul(
                        spec_consume_units(resource),
                        t.weight,
                    ),
                ),
                ..t
            },
        ),
    )
}

/// What a freshly created controller looks like: the default group alone,
/// unweighted at the medium tier, everything else at its initial value.
pub open spec fn spec_fresh_controller(c: ResourceController, name: Seq<u8>, is_read: bool) -> bool {
    &&& c.wf()
    &&& c.name@ == name
    &&& c.is_read == is_read
    &&& c.max_ru_quota == DEFAULT_MAX_RU_QUOTA
    &&& c.last_min_vt == 0
    &&& !c.customized
    &&& c.groups().len() == 1
    &&& c.groups()[0].0@ == spec_default_name()
    &&& c.groups()[0].1 == (GroupPriorityTracker {
        ru_quota: 0,
        group_priority: MEDIUM_PRIORITY,
        weight: 1,
        virtual_time: 0,
        vt_delta_for_get: if is_read {
            DEFAULT_PRIORITY_PER_READ_TASK as u64
        } else {
            0
        },
    })
}

/// The smallest virtual time across `groups` (`u64::MAX` when there are
/// none).
pub open spec fn spec_min_vt(groups: Seq<(Vec<u8>, GroupPriorityTracker)>) -> u64
    decreases groups.len(),
{
    if groups.len() == 0 {
        u64::MAX
    } else {
        let rest = spec_min_vt(groups.drop_last());
        if groups.last().1.virtual_time < rest {
            groups.last().1.virtual_time
        } else {
            rest
        }
    }
}

/// The largest virtual time across `groups` (0 when there are none).
pub open spec fn spec_max_vt(groups: Seq<(Vec<u8>, GroupPriorityTracker)>) -> u64
    decreases groups.len(),
{
    if groups.len() == 0 {
        0
    } else {
        let rest = spec_max_vt(groups.drop_last());
        if groups.last().1.virtual_time > rest {
            groups.last().1.virtual_time
        } else {
            rest
        }
    }
}

/// The full effect of one rebalance pass: nothing when the spread is small
/// and far from overflow; an exact drop by `RESET_VT_THRESHOLD` for every
/// group when all are past it; otherwise a damped catch-up of every group
/// toward the maximum. The post-adjustment high-water mark becomes the seed
/// for groups created later.
pub open spec fn spec_rebalance_effect(pre: ResourceController, post: ResourceController) -> bool {
    let g = pre.groups();
    let min0 = spec_min_vt(g);
    let max0 = spec_max_vt(g);
    &&& post.name == pre.name
    &&& post.is_read == pre.is_read
    &&& post.max_ru_quota == pre.max_ru_quota
    &&& post.customized == pre.customized
    &&& if min0 + 100_000 >= max0 && max0 < RESET_VT_THRESHOLD {
        post == pre
    } else if min0 > RESET_VT_THRESHOLD {
        &&& post.groups().len() == g.len()
        &&& forall|i: int|
            0 <= i < g.len() ==> (#[trigger] post.groups()[i]) == (
            g[i].0,
            GroupPriorityTracker {
                virtual_time: (g[i].1.virtual_time - RESET_VT_THRESHOLD) as u64,
                ..g[i].1
            },
            )
        &&& post.last_min_vt == (max0 - RESET_VT_THRESHOLD) as u64
    } else {
        &&& post.groups().len() == g.len()
        &&& forall|i: int|
            0 <= i < g.len() ==> (#[trigger] post.groups()[i]) == (
            g[i].0,
            GroupPriorityTracker {
                virtual_time: (g[i].1.virtual_time + (max0 - g[i].1.virtual_time) / 2) as u64,
                ..g[i].1
            },
            )
        &&& post.last_min_vt == max0
    }
}

/// Every group's virtual time lies between the minimum and the maximum.
pub proof fn lemma_min_max_vt_bounds(groups: Seq<(Vec<u8>, GroupPriorityTracker)>)
    ensures
        forall|i: int|
            0 <= i < groups.len() ==> spec_min_vt(groups) <= (#[trigger] groups[i]).1.virtual_time
                <= spec_max_vt(groups),
    decreases groups.len(),
{
    if groups.len() > 0 {
        lemma_min_max_vt_bounds(groups.drop_last());
        assert forall|i: int|
            0 <= i < groups.len() implies spec_min_vt(groups) <= (#[trigger] groups[i]).1.virtual_time
            <= spec_max_vt(groups) by {
            if i < groups.len() - 1 {
                assert(groups.drop_last()[i] == groups[i]);
            }
        }
    }
}

impl ResourceController {
    /// The periodic rebalance, run by an external ticker.
    ///
    /// When the spread between the smallest and the largest virtual time is
    /// small and nothing is near overflow, it does nothing. When every group
    /// has passed `RESET_VT_THRESHOLD`, each one is lowered by exactly that
    /// threshold, so the counters never reach the bits that hold the tier.
    /// Otherwise each group behind the maximum is advanced by half its lag: a
    /// damped catch-up that keeps a long-idle group from monopolizing
    /// priority once it resumes. Finally the post-adjustment high-water mark
    /// is stored as the seed for groups created later.
    pub fn update_min_virtual_time(&mut self)
        requires
            old(self).wf(),
        ensures
            final(self).wf(),
            final(self).name == old(self).name,
            final(self).is_read == old(self).is_read,
            final(self).max_ru_quota == old(self).max_ru_quota,
            final(self).customized == old(self).customized,
            spec_rebalance_effect(*old(self), *final(self)),
    {
        let ghost g0 = self.groups();
        let n = self.resource_consumptions.len();
        let mut min_vt: u64 = u64::MAX;
        let mut max_vt: u64 = 0;
        let mut i: usize = 0;
        while i < n
            invariant
                n == g0.len(),
                self.groups() == g0,
                i <= n,
                min_vt == spec_min_vt(g0.take(i as int)),
                max_vt == spec_max_vt(g0.take(i as int)),
            decreases n - i,
        {
            let vt = self.resource_consumptions[i].1.virtual_time;
            proof {
                assert(g0.take(i + 1).drop_last() =~= g0.take(i as int));
                assert(g0.take(i + 1).last() == g0[i as int]);
            }
            if vt < min_vt {
                min_vt = vt;
            }
            if vt > max_vt {
                max_vt = vt;
            }
            i = i + 1;
        }
        proof {
            assert(g0.take(n as int) =~= g0);
            lemma_min_max_vt_bounds(g0);
            assert(g0.len() >= 1);
            assert(min_vt <= g0[0].1.virtual_time <= max_vt);
        }
        // the spread is small enough and nothing is near overflow: avoid the
        // needless pass on this hot path
        if max_vt - min_vt <= 100_000 && max_vt < RESET_VT_THRESHOLD {
            return ;
        }
        let near_overflow = min_vt > RESET_VT_THRESHOLD;
        let mut i: usize = 0;
        while i < n
            invariant
                n == g0.len(),
                self.groups().len() == g0.len(),
                i <= n,
                min_vt == spec_min_vt(g0),
                max_vt == spec_max_vt(g0),
                near_overflow == (min_vt > RESET_VT_THRESHOLD),
                forall|k: int|
                    0 <= k < g0.len() ==> min_vt <= (#[trigger] g0[k]).1.virtual_time <= max_vt,
                forall|k: int| i <= k < n ==> (#[trigger] self.groups()[k]) == g0[k],
                forall|k: int|
                    0 <= k < i ==> (#[trigger] self.groups()[k]) == (
                    g0[k].0,
                    GroupPriorityTracker {
                        virtual_time: if near_overflow {
                            (g0[k].1.virtual_time - RESET_VT_THRESHOLD) as u64
                        } else {
                            (g0[k].1.virtual_time + (max_vt - g0[k].1.virtual_time) / 2) as u64
                        },
                        ..g0[k].1
                    },
                    ),
                self.name == old(self).name,
                self.is_read == old(self).is_read,
                self.max_ru_quota == old(self).max_ru_quota,
                self.last_min_vt == old(self).last_min_vt,
                self.customized == old(self).customized,
            decreases n - i,
        {
            if near_overflow {
                // this lowering is per group, not one global transaction; the
                // pass is rare and sequential here
                let e = &mut self.resource_consumptions[i];
                e.1.decrease_vt(RESET_VT_THRESHOLD);
            } else {
                let vt = self.resource_consumptions[i].1.virtual_time;
                if vt < max_vt {
                    let delta = (max_vt - vt) / 2;
                    let e = &mut self.resource_consumptions[i];
                    e.1.increase_vt(delta);
                }
            }
            i = i + 1;
        }
        if near_overflow {
            max_vt = max_vt - RESET_VT_THRESHOLD;
        }
        // a little above the true minimum, which is accurate enough as the
        // seed for newly created groups
        self.last_min_vt = max_vt;
        proof {
            lemma_same_names_same_groups(*old(self), *self);
        }
    }
}

/// Two controllers whose entries carry the same names pointwise agree on
/// membership, indices, and uniqueness.
proof fn lemma_same_names_same_groups(a: ResourceController, b: ResourceController)
    requires
        a.groups().len() == b.groups().len(),
        forall|i: int| 0 <= i < a.groups().len() ==> a.groups()[i].0 == b.groups()[i].0,
    ensures
        forall|n: Seq<u8>| a.contains_group(n) <==> b.contains_group(n),
{
    assert forall|n: Seq<u8>| a.contains_group(n) <==> b.contains_group(n) by {
        if a.contains_group(n) {
            let i = choose|i: int| 0 <= i < a.groups().len() && a.groups()[i].0@ == n;
            assert(b.groups()[i].0@ == n);
        }
        if b.contains_group(n) {
            let i = choose|i: int| 0 <= i < b.groups().len() && b.groups()[i].0@ == n;
            assert(a.groups()[i].0@ == n);
        }
    }
}

} // verus!
