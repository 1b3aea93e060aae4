//! The registry of resource-group configurations: the catalog of groups,
//! keyed case-insensitively by name, and the list of controllers derived from
//! it, which every catalog change is fanned out to so that all dimensions
//! stay consistent.

use vstd::prelude::*;

use crate::controller::{
    spec_consume_effect, spec_fresh_controller, spec_rebalance_effect, spec_remove_effect,
    spec_upsert_effect, CommandPri, ResourceController, MEDIUM_PRIORITY,
};
use crate::names::{
    bytes_eq, default_group_name, is_default_name, lemma_default_name_lowercase,
    spec_default_name, spec_to_lowercase, to_ascii_lowercase_bytes,
};
use crate::tracker::ResourceConsumeType;

verus! {

/// How a group's quota is expressed: one shared RU fill rate, or separate raw
/// fill rates per resource.
#[derive(Clone, Copy, PartialEq, Eq, Debug)]
pub enum GroupMode {
    Unknown,
    RuMode,
    RawMode,
}

/// One resource group's configuration, as delivered by the control plane.
pub struct ResourceGroup {
    /// The group's name; the catalog key is its ASCII-lower-cased form.
    pub name: Vec<u8>,
    /// Which of the fill-rate settings below apply.
    pub mode: GroupMode,
    /// The coarse priority tier: 0 ("unset", mapped to medium) or `[1, 16]`.
    pub priority: u32,
    /// RU mode: the fill rate shared by the read and the write dimension.
    pub ru_fill_rate: u64,
    /// Raw mode: the CPU fill rate, used by the read dimension.
    pub raw_cpu_fill_rate: u64,
    /// Raw mode: the I/O write fill rate, used by the write dimension.
    pub raw_io_write_fill_rate: u64,
}

/// Whether two configurations hold the same values.
pub open spec fn spec_group_eqv(a: ResourceGroup, b: ResourceGroup) -> bool {
    &&& a.name@ == b.name@
    &&& a.mode == b.mode
    &&& a.priority == b.priority
    &&& a.ru_fill_rate == b.ru_fill_rate
    &&& a.raw_cpu_fill_rate == b.raw_cpu_fill_rate
    &&& a.raw_io_write_fill_rate == b.raw_io_write_fill_rate
}

impl Clone for ResourceGroup {
    fn clone(&self) -> (res: Self)
        ensures
            spec_group_eqv(res, *self),
    {
        let name = self.name.clone();
        proof {
            assert(name@ =~= self.name@);
        }
        ResourceGroup {
            name,
            mode: self.mode,
            priority: self.priority,
            ru_fill_rate: self.ru_fill_rate,
            raw_cpu_fill_rate: self.raw_cpu_fill_rate,
            raw_io_write_fill_rate: self.raw_io_write_fill_rate,
        }
    }
}

/// The quota one controller dimension reads from a configuration: the shared
/// RU fill rate in RU mode, the CPU rate for reads and the I/O write rate for
/// writes in raw mode, and 1 for an unsupported mode.
pub open spec fn spec_ru_setting(rg: ResourceGroup, is_read: bool) -> u64 {
    match (rg.mode, is_read) {
        (GroupMode::RuMode, _) => rg.ru_fill_rate,
        (GroupMode::RawMode, true) => rg.raw_cpu_fill_rate,
        (GroupMode::RawMode, false) => rg.raw_io_write_fill_rate,
        (GroupMode::Unknown, _) => 1,
    }
}

fn get_ru_setting(rg: &ResourceGroup, is_read: bool) -> (r: u64)
    ensures
        r == spec_ru_setting(*rg, is_read),
{
    match (rg.mode, is_read) {
        (GroupMode::RuMode, _) => rg.ru_fill_rate,
        (GroupMode::RawMode, true) => rg.raw_cpu_fill_rate,
        (GroupMode::RawMode, false) => rg.raw_io_write_fill_rate,
        (GroupMode::Unknown, _) => 1,
    }
}

/// A post-hoc consumption correction measured outside this component: CPU
/// time in nanoseconds and written bytes, charged to one group.
pub struct ResourceControlContext {
    /// The group the work ran under.
    pub resource_group_name: Vec<u8>,
    /// Measured CPU time, in nanoseconds.
    pub total_cpu_time_ns: u64,
    /// Measured written bytes.
    pub write_bytes: u64,
}

/// The built-in configuration of the ever-present "default" group: a shared
/// fill rate of 0 ("unweighted") at the medium tier.
pub open spec fn spec_is_builtin_default(rg: ResourceGroup) -> bool {
    &&& rg.name@ == spec_default_name()
    &&& rg.mode == GroupMode::RuMode
    &&& rg.priority == MEDIUM_PRIORITY
    &&& rg.ru_fill_rate == 0
    &&& rg.raw_cpu_fill_rate == 0
    &&& rg.raw_io_write_fill_rate == 0
}

/// The built-in configuration the "default" group is created with and reset
/// to.
fn builtin_default_group() -> (rg: ResourceGroup)
    ensures
        spec_is_builtin_default(rg),
{
    ResourceGroup {
        name: default_group_name(),
        mode: GroupMode::RuMode,
        priority: MEDIUM_PRIORITY,
        ru_fill_rate: 0,
        raw_cpu_fill_rate: 0,
        raw_io_write_fill_rate: 0,
    }
}

/// The manager of resource-group metadata: the sole place configurations are
/// created, overwritten or destroyed, and the fan-out point that keeps every
/// derived controller in lockstep with the catalog.
pub struct ResourceGroupManager {
    /// The catalog: one configuration per group, keyed by the lower-cased
    /// name; the ever-present "default" group always has an entry.
    pub resource_groups: Vec<(Vec<u8>, ResourceGroup)>,
    /// Every controller derived from this manager; each catalog change is
    /// applied to all of them.
    pub registry: Vec<ResourceController>,
}

impl ResourceGroupManager {
    /// The catalog entries, as (lower-cased key, configuration) pairs.
    pub open spec fn catalog(self) -> Seq<(Vec<u8>, ResourceGroup)> {
        self.resource_groups@
    }

    /// The derived controllers.
    pub open spec fn controllers(self) -> Seq<ResourceController> {
        self.registry@
    }

    /// Whether the catalog holds a group under this (lower-cased) key.
    pub open spec fn catalog_contains(self, key: Seq<u8>) -> bool {
        exists|i: int| 0 <= i < self.catalog().len() && self.catalog()[i].0@ == key
    }

    /// The index of the catalog entry under this key (meaningful only when it
    /// exists).
    pub open spec fn catalog_index(self, key: Seq<u8>) -> int {
        choose|i: int| 0 <= i < self.catalog().len() && self.catalog()[i].0@ == key
    }

    /// Well-formedness: unique keys, each the lower-cased form of its
    /// configuration's name, tiers in range, the default group present, and
    /// every controller well formed.
    pub open spec fn wf(self) -> bool {
        &&& forall|i: int, j: int|
            0 <= i < j < self.catalog().len() ==> self.catalog()[i].0@ != self.catalog()[j].0@
        &&& forall|i: int|
            0 <= i < self.catalog().len() ==> (#[trigger] self.catalog()[i]).0@
                == spec_to_lowercase(self.catalog()[i].1.name@)
        &&& forall|i: int|
            0 <= i < self.catalog().len() ==> (#[trigger] self.catalog()[i]).1.priority <= 16
        &&& self.catalog_contains(spec_default_name())
        &&& forall|j: int|
            0 <= j < self.controllers().len() ==> (#[trigger] self.controllers()[j]).wf()
    }

    /// A fresh manager: no controllers derived yet, and the catalog holding
    /// only the ever-present "default" group with its built-in configuration.
    pub fn new() -> (m: ResourceGroupManager)
        ensures
            m.wf(),
            m.catalog().len() == 1,
            m.catalog()[0].0@ == spec_default_name(),
            spec_is_builtin_default(m.catalog()[0].1),
            m.controllers().len() == 0,
    {
        let mut resource_groups: Vec<(Vec<u8>, ResourceGroup)> = Vec::new();
        resource_groups.push((default_group_name(), builtin_default_group()));
        let m = ResourceGroupManager { resource_groups, registry: Vec::new() };
        proof {
            lemma_default_name_lowercase();
            assert(m.catalog()[0].0@ == spec_default_name());
        }
        m
    }
}

impl Default for ResourceGroupManager {
    /// The same fresh manager `new` builds.
    fn default() -> (m: Self)
        ensures
            m.wf(),
            m.catalog().len() == 1,
            m.catalog()[0].0@ == spec_default_name(),
            spec_is_builtin_default(m.catalog()[0].1),
            m.controllers().len() == 0,
    {
        ResourceGroupManager::new()
    }
}

impl ResourceGroupManager {
    /// Find the catalog entry under this exact (already lower-cased) key.
    fn find_catalog(&self, key: &[u8]) -> (r: Option<usize>)
        ensures
            match r {
                Some(i) => i < self.catalog().len() && self.catalog()[i as int].0@ == key@,
                None => !self.catalog_contains(key@),
            },
    {
        let n = self.resource_groups.len();
        let mut i: usize = 0;
        while i < n
            invariant
                n == self.catalog().len(),
                i <= n,
                forall|j: int| 0 <= j < i ==> self.catalog()[j].0@ != key@,
            decreases n - i,
        {
            if bytes_eq(self.resource_groups[i].0.as_slice(), key) {
                return Some(i);
            }
            i = i + 1;
        }
        None
    }

    /// Add a group, or overwrite its configuration: the upsert is propagated
    /// to every derived controller, with the quota dimension each controller
    /// reads, and last write wins in the catalog. Never fails.
    #[verifier::rlimit(50)]
    pub fn add_resource_group(&mut self, rg: ResourceGroup)
        requires
            old(self).wf(),
            rg.priority <= 16,
        ensures
            final(self).wf(),
            final(self).controllers().len() == old(self).controllers().len(),
            forall|j: int|
                0 <= j < old(self).controllers().len() ==> spec_upsert_effect(
                    old(self).controllers()[j],
                    #[trigger] final(self).controllers()[j],
                    spec_to_lowercase(rg.name@),
                    spec_ru_setting(rg, old(self).controllers()[j].is_read),
                    rg.priority,
                ),
            ({
                let key = spec_to_lowercase(rg.name@);
                if old(self).catalog_contains(key) {
                    let idx = old(self).catalog_index(key);
                    &&& final(self).catalog().len() == old(self).catalog().len()
                    &&& final(self).catalog()[idx].0@ == key
                    &&& final(self).catalog()[idx].1 == rg
                    &&& forall|i: int|
                        0 <= i < old(self).catalog().len() && i != idx
                            ==> (#[trigger] final(self).catalog()[i]) == old(self).catalog()[i]
                } else {
                    &&& final(self).catalog().len() == old(self).catalog().len() + 1
                    &&& final(self).catalog().last().0@ == key
                    &&& final(self).catalog().last().1 == rg
                    &&& forall|i: int|
                        0 <= i < old(self).catalog().len()
                            ==> (#[trigger] final(self).catalog()[i]) == old(self).catalog()[i]
                }
            }),
    {
        let ghost oldm = *old(self);
        let group_name = to_ascii_lowercase_bytes(rg.name.as_slice());
        let n = self.registry.len();
        let mut j: usize = 0;
        while j < n
            invariant
                n == self.controllers().len(),
                n == oldm.controllers().len(),
                j <= n,
                group_name@ == spec_to_lowercase(rg.name@),
                rg.priority <= 16,
                forall|k: int|
                    0 <= k < j ==> spec_upsert_effect(
                        oldm.controllers()[k],
                        #[trigger] self.controllers()[k],
                        spec_to_lowercase(rg.name@),
                        spec_ru_setting(rg, oldm.controllers()[k].is_read),
                        rg.priority,
                    ),
                forall|k: int| 0 <= k < j ==> (#[trigger] self.controllers()[k]).wf(),
                forall|k: int|
                    j <= k < n ==> (#[trigger] self.controllers()[k]) == oldm.controllers()[k],
                forall|k: int|
                    j <= k < n ==> (#[trigger] self.controllers()[k]).wf(),
                self.resource_groups == oldm.resource_groups,
            decreases n - j,
        {
            let is_read = self.registry[j].is_read;
            let quota = get_ru_setting(&rg, is_read);
            let name_clone = group_name.clone();
            proof {
                assert(name_clone@ =~= group_name@);
            }
            let c = &mut self.registry[j];
            c.add_resource_group(name_clone, quota, rg.priority);
            j = j + 1;
        }
        let found = self.find_catalog(group_name.as_slice());
        match found {
            Some(i) => {
                proof {
                    let k = oldm.catalog_index(group_name@);
                    assert(oldm.catalog()[k].0@ == group_name@);
                    assert(i == k);
                }
                let key = self.resource_groups[i].0.clone();
                proof {
                    assert(key@ =~= self.resource_groups@[i as int].0@);
                }
                self.resource_groups[i] = (key, rg);
                proof {
                    assert(self.catalog().len() == oldm.catalog().len());
                    assert(forall|q: int|
                        0 <= q < self.catalog().len() ==> (#[trigger] self.catalog()[q]).0@
                            == oldm.catalog()[q].0@);
                }
            },
            None => {
                self.resource_groups.push((group_name, rg));
                proof {
                    assert(self.catalog().len() == oldm.catalog().len() + 1);
                    assert(forall|q: int|
                        0 <= q < oldm.catalog().len() ==> (#[trigger] self.catalog()[q])
                            == oldm.catalog()[q]);
                    assert(self.catalog().last().0@ == group_name@);
                }
            },
        }
        proof {
            // keys are those of the old catalog, at most extended by one not
            // yet present, so uniqueness and the default entry carry over
            assert forall|a: int, b: int|
                0 <= a < b < self.catalog().len() implies (#[trigger] self.catalog()[a]).0@
                != (#[trigger] self.catalog()[b]).0@ by {
                if b < oldm.catalog().len() {
                } else {
                    assert(self.catalog()[b].0@ == group_name@);
                    assert(self.catalog()[a] == oldm.catalog()[a]);
                }
            }
            let d = oldm.catalog_index(spec_default_name());
            assert(oldm.catalog()[d].0@ == spec_default_name());
            assert(self.catalog()[d].0@ == spec_default_name());
            assert(self.catalog_contains(spec_default_name()));
        }
    }

    /// The configuration stored under this name, compared case-insensitively.
    pub fn get_resource_group(&self, name: &[u8]) -> (r: Option<&ResourceGroup>)
        requires
            self.wf(),
        ensures
            match r {
                Some(g) => self.catalog_contains(spec_to_lowercase(name@)) && *g
                    == self.catalog()[self.catalog_index(spec_to_lowercase(name@))].1,
                None => !self.catalog_contains(spec_to_lowercase(name@)),
            },
    {
        let key = to_ascii_lowercase_bytes(name);
        let found = self.find_catalog(key.as_slice());
        match found {
            Some(i) => {
                proof {
                    let k = self.catalog_index(key@);
                    assert(self.catalog()[k].0@ == key@);
                    assert(i == k);
                }
                Some(&self.resource_groups[i].1)
            },
            None => None,
        }
    }

    /// A copy of every stored configuration.
    pub fn get_all_resource_groups(&self) -> (r: Vec<ResourceGroup>)
        ensures
            r@.len() == self.catalog().len(),
            forall|i: int|
                0 <= i < r@.len() ==> spec_group_eqv(#[trigger] r@[i], self.catalog()[i].1),
    {
        let n = self.resource_groups.len();
        let mut r: Vec<ResourceGroup> = Vec::new();
        let mut i: usize = 0;
        while i < n
            invariant
                n == self.catalog().len(),
                i <= n,
                r@.len() == i,
                forall|k: int|
                    0 <= k < i ==> spec_group_eqv(#[trigger] r@[k], self.catalog()[k].1),
            decreases n - i,
        {
            r.push(self.resource_groups[i].1.clone());
            i = i + 1;
        }
        r
    }
}

/// A run of controller states threaded through one upsert per catalog entry,
/// in order, each with the quota dimension the starting controller reads.
pub open spec fn spec_seed_chain(
    states: Seq<ResourceController>,
    cat: Seq<(Vec<u8>, ResourceGroup)>,
) -> bool {
    &&& states.len() == cat.len() + 1
    &&& forall|i: int|
        0 <= i < cat.len() ==> spec_upsert_effect(
            #[trigger] states[i],
            states[i + 1],
            cat[i].0@,
            spec_ru_setting(cat[i].1, states[0].is_read),
            cat[i].1.priority,
        )
}

/// The effect of seeding a controller with every catalog entry in order:
/// some run of states connects `pre` to `post` through the upserts.
pub open spec fn spec_seed_effect(
    pre: ResourceController,
    post: ResourceController,
    cat: Seq<(Vec<u8>, ResourceGroup)>,
) -> bool {
    exists|states: Seq<ResourceController>|
        #![trigger spec_seed_chain(states, cat)]
        states.first() == pre && states.last() == post && spec_seed_chain(states, cat)
}

/// The effect of one penalty application on one controller: a CPU charge (in
/// whole microseconds) followed by an I/O byte charge, both against the same
/// group.
pub open spec fn spec_penalty_effect(
    pre: ResourceController,
    post: ResourceController,
    name: Seq<u8>,
    cpu_micros: u64,
    bytes: u64,
) -> bool {
    exists|mid: ResourceController|
        #![trigger spec_consume_effect(pre, mid, name, ResourceConsumeType::CpuTime(cpu_micros))]
        spec_consume_effect(pre, mid, name, ResourceConsumeType::CpuTime(cpu_micros))
            && spec_consume_effect(mid, post, name, ResourceConsumeType::IoBytes(bytes))
}

/// A CPU charge followed by an I/O charge on one controller is a penalty
/// application.
proof fn lemma_consume_pair(
    pre: ResourceController,
    mid: ResourceController,
    post: ResourceController,
    name: Seq<u8>,
    cpu: u64,
    bytes: u64,
)
    requires
        spec_consume_effect(pre, mid, name, ResourceConsumeType::CpuTime(cpu)),
        spec_consume_effect(mid, post, name, ResourceConsumeType::IoBytes(bytes)),
    ensures
        spec_penalty_effect(pre, post, name, cpu, bytes),
{
}

/// The catalog entries whose keep flag is set, in order.
pub open spec fn spec_filter_keep(
    cat: Seq<(Vec<u8>, ResourceGroup)>,
    keep: Seq<bool>,
) -> Seq<(Vec<u8>, ResourceGroup)>
    recommends
        keep.len() == cat.len(),
    decreases cat.len(),
{
    if cat.len() == 0 {
        cat
    } else {
        let rest = spec_filter_keep(cat.drop_last(), keep.drop_last());
        if keep.len() == cat.len() && keep.last() {
            rest.push(cat.last())
        } else {
            rest
        }
    }
}

/// The keys of the catalog entries whose keep flag is clear, in order.
pub open spec fn spec_dropped_keys(
    cat: Seq<(Vec<u8>, ResourceGroup)>,
    keep: Seq<bool>,
) -> Seq<Seq<u8>>
    recommends
        keep.len() == cat.len(),
    decreases cat.len(),
{
    if cat.len() == 0 {
        Seq::empty()
    } else {
        let rest = spec_dropped_keys(cat.drop_last(), keep.drop_last());
        if keep.len() == cat.len() && !keep.last() {
            rest.push(cat.last().0@)
        } else {
            rest
        }
    }
}

/// A run of controller states threaded through one removal per name, in
/// order.
pub open spec fn spec_removal_chain(states: Seq<ResourceController>, names: Seq<Seq<u8>>) -> bool {
    &&& states.len() == names.len() + 1
    &&& forall|i: int|
        0 <= i < names.len() ==> spec_remove_effect(#[trigger] states[i], states[i + 1], names[i])
}

/// The effect of removing these names from a controller, one after the
/// other: some run of states connects `pre` to `post` through the removals.
pub open spec fn spec_removals_effect(
    pre: ResourceController,
    post: ResourceController,
    names: Seq<Seq<u8>>,
) -> bool {
    exists|states: Seq<ResourceController>|
        #![trigger spec_removal_chain(states, names)]
        states.first() == pre && states.last() == post && spec_removal_chain(states, names)
}

impl ResourceGroupManager {
    /// Remove a group: the removal is propagated to every derived controller,
    /// then the catalog entry is deleted. The default group is never deleted
    /// anywhere: removing it resets its catalog entry, and every controller's
    /// tracker, to the built-in configuration. Never fails; any other unknown
    /// name is a no-op.
    pub fn remove_resource_group(&mut self, name: &[u8])
        requires
            old(self).wf(),
        ensures
            final(self).wf(),
            final(self).controllers().len() == old(self).controllers().len(),
            forall|j: int|
                0 <= j < old(self).controllers().len() ==> spec_remove_effect(
                    old(self).controllers()[j],
                    #[trigger] final(self).controllers()[j],
                    spec_to_lowercase(name@),
                ),
            spec_to_lowercase(name@) == spec_default_name() ==> ({
                let idx = old(self).catalog_index(spec_default_name());
                &&& final(self).catalog().len() == old(self).catalog().len()
                &&& final(self).catalog()[idx].0@ == spec_default_name()
                &&& spec_is_builtin_default(final(self).catalog()[idx].1)
                &&& forall|i: int|
                    0 <= i < old(self).catalog().len() && i != idx
                        ==> (#[trigger] final(self).catalog()[i]) == old(self).catalog()[i]
            }),
            spec_to_lowercase(name@) != spec_default_name() ==> final(self).catalog() == if old(
                self,
            ).catalog_contains(spec_to_lowercase(name@)) {
                old(self).catalog().remove(
                    old(self).catalog_index(spec_to_lowercase(name@)),
                )
            } else {
                old(self).catalog()
            },
    {
        let ghost oldm = *old(self);
        let group_name = to_ascii_lowercase_bytes(name);
        let n = self.registry.len();
        let mut j: usize = 0;
        while j < n
            invariant
                n == self.controllers().len(),
                n == oldm.controllers().len(),
                j <= n,
                group_name@ == spec_to_lowercase(name@),
                forall|k: int|
                    0 <= k < j ==> spec_remove_effect(
                        oldm.controllers()[k],
                        #[trigger] self.controllers()[k],
                        spec_to_lowercase(name@),
                    ),
                forall|k: int| 0 <= k < j ==> (#[trigger] self.controllers()[k]).wf(),
                forall|k: int|
                    j <= k < n ==> (#[trigger] self.controllers()[k]) == oldm.controllers()[k],
                forall|k: int|
                    j <= k < n ==> (#[trigger] self.controllers()[k]).wf(),
                self.resource_groups == oldm.resource_groups,
            decreases n - j,
        {
            let c = &mut self.registry[j];
            c.remove_resource_group(group_name.as_slice());
            j = j + 1;
        }
        if is_default_name(group_name.as_slice()) {
            // the default group is never deleted from the catalog either:
            // reset its entry to the built-in configuration
            let found = self.find_catalog(group_name.as_slice());
            match found {
                Some(i) => {
                    proof {
                        let k = oldm.catalog_index(group_name@);
                        assert(oldm.catalog()[k].0@ == group_name@);
                        assert(i == k);
                    }
                    let key = self.resource_groups[i].0.clone();
                    proof {
                        assert(key@ =~= self.resource_groups@[i as int].0@);
                        lemma_default_name_lowercase();
                    }
                    self.resource_groups[i] = (key, builtin_default_group());
                    proof {
                        assert(self.catalog()[i as int].0@ == spec_default_name());
                    }
                },
                None => {
                    // the catalog always holds the default group
                    proof {
                        assert(false);
                    }
                },
            }
        } else {
            let found = self.find_catalog(group_name.as_slice());
            match found {
                Some(i) => {
                    proof {
                        let k = oldm.catalog_index(group_name@);
                        assert(oldm.catalog()[k].0@ == group_name@);
                        assert(i == k);
                    }
                    self.resource_groups.remove(i);
                    proof {
                        // the default entry survives, at its old or shifted
                        // position
                        let d = oldm.catalog_index(spec_default_name());
                        assert(oldm.catalog()[d].0@ == spec_default_name());
                        assert(d != i);
                        if d < i {
                            assert(self.catalog()[d].0@ == spec_default_name());
                        } else {
                            assert(self.catalog()[d - 1].0@ == spec_default_name());
                        }
                    }
                },
                None => {},
            }
        }
    }

    /// Build a new controller for a pool, seed it with every group currently
    /// in the catalog (with the quota dimension it reads), and register it so
    /// future catalog changes reach it. The returned index addresses it in
    /// this manager.
    #[verifier::rlimit(100)]
    pub fn derive_controller(&mut self, name: Vec<u8>, is_read: bool) -> (idx: usize)
        requires
            old(self).wf(),
        ensures
            final(self).wf(),
            final(self).catalog() == old(self).catalog(),
            idx == old(self).controllers().len(),
            final(self).controllers().len() == old(self).controllers().len() + 1,
            forall|j: int|
                0 <= j < old(self).controllers().len()
                    ==> (#[trigger] final(self).controllers()[j]) == old(self).controllers()[j],
            final(self).controllers().last().is_read == is_read,
            exists|c0: ResourceController|
                spec_fresh_controller(c0, name@, is_read) && spec_seed_effect(
                    c0,
                    final(self).controllers().last(),
                    old(self).catalog(),
                ),
    {
        let ghost oldm = *old(self);
        let controller = ResourceController::new(name, is_read);
        let idx = self.registry.len();
        self.registry.push(controller);
        let ghost c0 = self.registry@[idx as int];
        let ghost mut states = seq![c0];
        let n = self.resource_groups.len();
        let mut i: usize = 0;
        while i < n
            invariant
                idx == oldm.controllers().len(),
                self.controllers().len() == idx + 1,
                n == self.catalog().len(),
                i <= n,
                self.resource_groups == oldm.resource_groups,
                oldm.wf(),
                forall|j: int|
                    0 <= j < idx ==> (#[trigger] self.controllers()[j]) == oldm.controllers()[j],
                spec_fresh_controller(c0, c0.name@, is_read),
                states.len() == i + 1,
                states.first() == c0,
                states.last() == self.controllers()[idx as int],
                spec_seed_chain(states, self.catalog().take(i as int)),
                self.controllers()[idx as int].wf(),
                self.controllers()[idx as int].is_read == is_read,
            decreases n - i,
        {
            let quota = get_ru_setting(&self.resource_groups[i].1, is_read);
            let priority = self.resource_groups[i].1.priority;
            let key = self.resource_groups[i].0.clone();
            proof {
                assert(key@ =~= self.resource_groups@[i as int].0@);
            }
            let c = &mut self.registry[idx];
            c.add_resource_group(key, quota, priority);
            proof {
                states = states.push(self.controllers()[idx as int]);
                let cat = self.catalog();
                assert forall|k: int|
                    0 <= k < i + 1 implies spec_upsert_effect(
                    #[trigger] states[k],
                    states[k + 1],
                    cat.take(i + 1)[k].0@,
                    spec_ru_setting(cat.take(i + 1)[k].1, states[0].is_read),
                    cat.take(i + 1)[k].1.priority,
                ) by {
                    if k < i {
                        assert(spec_upsert_effect(
                            states[k],
                            states[k + 1],
                            cat.take(i as int)[k].0@,
                            spec_ru_setting(cat.take(i as int)[k].1, states[0].is_read),
                            cat.take(i as int)[k].1.priority,
                        ));
                    }
                }
                assert(spec_seed_chain(states, cat.take(i + 1)));
            }
            i = i + 1;
        }
        proof {
            assert(self.catalog().take(n as int) =~= self.catalog());
            assert(spec_seed_chain(states, self.catalog()));
            assert(spec_seed_effect(c0, self.controllers()[idx as int], self.catalog()));
            let d = oldm.catalog_index(spec_default_name());
            assert(oldm.catalog()[d].0@ == spec_default_name());
            assert(self.catalog()[d].0@ == spec_default_name());
        }
        idx
    }

    /// A shared borrow of the controller at this index.
    pub fn controller(&self, ctl: usize) -> (c: &ResourceController)
        requires
            ctl < self.controllers().len(),
        ensures
            *c == self.controllers()[ctl as int],
    {
        &self.registry[ctl]
    }

    /// The periodic tick: rebalance every derived controller. Safe to invoke
    /// at any interval; frequency only affects fairness responsiveness.
    pub fn advance_min_virtual_time(&mut self)
        requires
            old(self).wf(),
        ensures
            final(self).wf(),
            final(self).catalog() == old(self).catalog(),
            final(self).controllers().len() == old(self).controllers().len(),
            forall|j: int|
                0 <= j < old(self).controllers().len() ==> spec_rebalance_effect(
                    old(self).controllers()[j],
                    #[trigger] final(self).controllers()[j],
                ),
    {
        let ghost oldm = *old(self);
        let n = self.registry.len();
        let mut j: usize = 0;
        while j < n
            invariant
                n == self.controllers().len(),
                n == oldm.controllers().len(),
                j <= n,
                forall|k: int|
                    0 <= k < j ==> spec_rebalance_effect(
                        oldm.controllers()[k],
                        #[trigger] self.controllers()[k],
                    ),
                forall|k: int| 0 <= k < j ==> (#[trigger] self.controllers()[k]).wf(),
                forall|k: int|
                    j <= k < n ==> (#[trigger] self.controllers()[k]) == oldm.controllers()[k],
                forall|k: int|
                    j <= k < n ==> (#[trigger] self.controllers()[k]).wf(),
                self.resource_groups == oldm.resource_groups,
            decreases n - j,
        {
            let c = &mut self.registry[j];
            c.update_min_virtual_time();
            j = j + 1;
        }
    }

    /// Forward a measured correction to every controller: the CPU time and
    /// the written bytes are both charged to the named group on each of them,
    /// whatever resource that controller governs — a deliberate coarse
    /// double accounting, kept because the per-dimension cost is not
    /// separately observable at the call site.
    pub fn consume_penalty(&mut self, ctx: &ResourceControlContext)
        requires
            old(self).wf(),
        ensures
            final(self).wf(),
            final(self).catalog() == old(self).catalog(),
            final(self).controllers().len() == old(self).controllers().len(),
            forall|j: int|
                0 <= j < old(self).controllers().len() ==> spec_penalty_effect(
                    old(self).controllers()[j],
                    #[trigger] final(self).controllers()[j],
                    ctx.resource_group_name@,
                    ctx.total_cpu_time_ns / 1000,
                    ctx.write_bytes,
                ),
    {
        let ghost oldm = *old(self);
        let n = self.registry.len();
        let mut j: usize = 0;
        while j < n
            invariant
                n == self.controllers().len(),
                n == oldm.controllers().len(),
                j <= n,
                forall|k: int|
                    0 <= k < j ==> spec_penalty_effect(
                        oldm.controllers()[k],
                        #[trigger] self.controllers()[k],
                        ctx.resource_group_name@,
                        ctx.total_cpu_time_ns / 1000,
                        ctx.write_bytes,
                    ),
                forall|k: int| 0 <= k < j ==> (#[trigger] self.controllers()[k]).wf(),
                forall|k: int|
                    j <= k < n ==> (#[trigger] self.controllers()[k]) == oldm.controllers()[k],
                forall|k: int|
                    j <= k < n ==> (#[trigger] self.controllers()[k]).wf(),
                self.resource_groups == oldm.resource_groups,
            decreases n - j,
        {
            // the true cost per dimension is not observable here: charge the
            // CPU time (in whole microseconds) and the written bytes to both
            let micros = ctx.total_cpu_time_ns / 1000;
            let c = &mut self.registry[j];
            c.consume(ctx.resource_group_name.as_slice(), ResourceConsumeType::CpuTime(micros));
            let ghost mid = self.controllers()[j as int];
            let c = &mut self.registry[j];
            c.consume(
                ctx.resource_group_name.as_slice(),
                ResourceConsumeType::IoBytes(ctx.write_bytes),
            );
            proof {
                lemma_consume_pair(
                    oldm.controllers()[j as int],
                    mid,
                    self.controllers()[j as int],
                    ctx.resource_group_name@,
                    ctx.total_cpu_time_ns / 1000,
                    ctx.write_bytes,
                );
            }
            j = j + 1;
        }
    }

    /// Account one consumption report on the controller at this index.
    pub fn consume(&mut self, ctl: usize, name: &[u8], resource: ResourceConsumeType)
        requires
            old(self).wf(),
            ctl < old(self).controllers().len(),
        ensures
            final(self).wf(),
            final(self).catalog() == old(self).catalog(),
            final(self).controllers().len() == old(self).controllers().len(),
            forall|j: int|
                0 <= j < old(self).controllers().len() && j != ctl
                    ==> (#[trigger] final(self).controllers()[j]) == old(self).controllers()[j],
            spec_consume_effect(
                old(self).controllers()[ctl as int],
                final(self).controllers()[ctl as int],
                name@,
                resource,
            ),
    {
        let c = &mut self.registry[ctl];
        c.consume(name, resource);
    }

    /// One admission event on the controller at this index: the key for the
    /// named group (or the default group) at the given urgency.
    pub fn get_priority(&mut self, ctl: usize, name: &[u8], pri: CommandPri) -> (r: u64)
        requires
            old(self).wf(),
            ctl < old(self).controllers().len(),
        ensures
            final(self).wf(),
            final(self).catalog() == old(self).catalog(),
            final(self).controllers().len() == old(self).controllers().len(),
            forall|j: int|
                0 <= j < old(self).controllers().len() && j != ctl
                    ==> (#[trigger] final(self).controllers()[j]) == old(self).controllers()[j],
            ({
                let c = old(self).controllers()[ctl as int];
                let gi = c.spec_lookup_index(name@);
                let t = c.groups()[gi].1;
                &&& r == t.spec_get_priority(crate::controller::spec_level(pri))
                &&& final(self).controllers()[ctl as int].groups() == c.groups().update(
                    gi,
                    (
                        c.groups()[gi].0,
                        crate::tracker::GroupPriorityTracker {
                            virtual_time: t.spec_vt_after_get(),
                            ..t
                        },
                    ),
                )
                &&& final(self).controllers()[ctl as int].last_min_vt == c.last_min_vt
                &&& final(self).controllers()[ctl as int].max_ru_quota == c.max_ru_quota
            }),
    {
        let c = &mut self.registry[ctl];
        c.get_priority(name, pri)
    }
}

impl ResourceGroupManager {
    /// Remove each of the given (already lower-cased) names from every
    /// controller, in order: each controller ends related to its start by the
    /// whole removal run.
    fn fan_out_removals(&mut self, removed: &Vec<Vec<u8>>, Ghost(dropped): Ghost<Seq<Seq<u8>>>)
        requires
            forall|j: int|
                0 <= j < old(self).controllers().len()
                    ==> (#[trigger] old(self).controllers()[j]).wf(),
            dropped.len() == removed@.len(),
            forall|k: int| 0 <= k < removed@.len() ==> (#[trigger] removed@[k])@ == dropped[k],
        ensures
            final(self).resource_groups == old(self).resource_groups,
            final(self).controllers().len() == old(self).controllers().len(),
            forall|j: int|
                0 <= j < old(self).controllers().len() ==> spec_removals_effect(
                    old(self).controllers()[j],
                    #[trigger] final(self).controllers()[j],
                    dropped,
                ),
            forall|j: int|
                0 <= j < old(self).controllers().len()
                    ==> (#[trigger] final(self).controllers()[j]).wf(),
    {
        let ghost oldm = *old(self);
        let m = self.registry.len();
        let nr = removed.len();
        let mut j: usize = 0;
        while j < m
            invariant
                m == oldm.controllers().len(),
                self.controllers().len() == m,
                j <= m,
                nr == removed@.len(),
                dropped.len() == nr,
                forall|k: int| 0 <= k < nr ==> (#[trigger] removed@[k])@ == dropped[k],
                self.resource_groups == oldm.resource_groups,
                forall|k: int|
                    0 <= k < j ==> spec_removals_effect(
                        oldm.controllers()[k],
                        #[trigger] self.controllers()[k],
                        dropped,
                    ),
                forall|k: int| 0 <= k < j ==> (#[trigger] self.controllers()[k]).wf(),
                forall|k: int|
                    j <= k < m ==> (#[trigger] self.controllers()[k]) == oldm.controllers()[k],
                forall|k: int|
                    j <= k < m ==> (#[trigger] self.controllers()[k]).wf(),
            decreases m - j,
        {
            let ghost mut states = seq![self.controllers()[j as int]];
            let mut k: usize = 0;
            while k < nr
                invariant
                    m == oldm.controllers().len(),
                    self.controllers().len() == m,
                    j < m,
                    k <= nr,
                    nr == removed@.len(),
                    dropped.len() == nr,
                    forall|q: int| 0 <= q < nr ==> (#[trigger] removed@[q])@ == dropped[q],
                    self.resource_groups == oldm.resource_groups,
                    states.len() == k + 1,
                    states.first() == oldm.controllers()[j as int],
                    states.last() == self.controllers()[j as int],
                    spec_removal_chain(states, dropped.take(k as int)),
                    self.controllers()[j as int].wf(),
                    forall|q: int|
                        0 <= q < j ==> spec_removals_effect(
                            oldm.controllers()[q],
                            #[trigger] self.controllers()[q],
                            dropped,
                        ),
                    forall|q: int| 0 <= q < j ==> (#[trigger] self.controllers()[q]).wf(),
                    forall|q: int|
                        j < q < m ==> (#[trigger] self.controllers()[q]) == oldm.controllers()[q],
                    forall|q: int|
                        j < q < m ==> (#[trigger] self.controllers()[q]).wf(),
                decreases nr - k,
            {
                let c = &mut self.registry[j];
                c.remove_resource_group(removed[k].as_slice());
                proof {
                    states = states.push(self.controllers()[j as int]);
                    assert forall|q: int|
                        0 <= q < k + 1 implies spec_remove_effect(
                        #[trigger] states[q],
                        states[q + 1],
                        dropped.take(k + 1)[q],
                    ) by {
                        if q < k {
                            assert(spec_remove_effect(
                                states[q],
                                states[q + 1],
                                dropped.take(k as int)[q],
                            ));
                        }
                    }
                    assert(spec_removal_chain(states, dropped.take(k + 1)));
                }
                k = k + 1;
            }
            proof {
                assert(dropped.take(nr as int) =~= dropped);
                assert(spec_removal_chain(states, dropped));
            }
            j = j + 1;
        }
    }

    /// Bulk-remove every group whose (key, configuration) pair fails the
    /// predicate, with the same per-group semantics as `remove_resource_group`
    /// — in particular, a controller's default group is reset, never deleted,
    /// even when a caller's predicate drops the "default" catalog entry.
    #[verifier::rlimit(100)]
    pub fn retain<F: Fn(&Vec<u8>, &ResourceGroup) -> bool>(&mut self, f: F)
        requires
            old(self).wf(),
            forall|i: int|
                0 <= i < old(self).catalog().len() ==> call_requires(
                    f,
                    (&old(self).catalog()[i].0, &old(self).catalog()[i].1),
                ),
        ensures
            final(self).wf(),
            final(self).controllers().len() == old(self).controllers().len(),
            exists|keep: Seq<bool>|
                #![trigger spec_filter_keep(old(self).catalog(), keep)]
                {
                    &&& keep.len() == old(self).catalog().len()
                    &&& forall|i: int|
                        0 <= i < keep.len() ==> call_ensures(
                            f,
                            (&old(self).catalog()[i].0, &old(self).catalog()[i].1),
                            #[trigger] keep[i],
                        )
                    &&& if spec_dropped_keys(old(self).catalog(), keep).contains(
                        spec_default_name(),
                    ) {
                        // a predicate that drops "default" resets it instead:
                        // the built-in entry reappears behind the survivors
                        &&& final(self).catalog().len() == spec_filter_keep(
                            old(self).catalog(),
                            keep,
                        ).len() + 1
                        &&& final(self).catalog().drop_last() == spec_filter_keep(
                            old(self).catalog(),
                            keep,
                        )
                        &&& final(self).catalog().last().0@ == spec_default_name()
                        &&& spec_is_builtin_default(final(self).catalog().last().1)
                    } else {
                        final(self).catalog() == spec_filter_keep(old(self).catalog(), keep)
                    }
                    &&& forall|j: int|
                        0 <= j < old(self).controllers().len() ==> spec_removals_effect(
                            old(self).controllers()[j],
                            #[trigger] final(self).controllers()[j],
                            spec_dropped_keys(old(self).catalog(), keep),
                        )
                },
    {
        let ghost oldm = *old(self);
        let n = self.resource_groups.len();
        let mut kept: Vec<(Vec<u8>, ResourceGroup)> = Vec::new();
        let mut removed: Vec<Vec<u8>> = Vec::new();
        let mut default_dropped = false;
        let ghost mut keep: Seq<bool> = Seq::empty();
        let ghost mut di: int = 0;
        let mut i: usize = 0;
        while i < n
            invariant
                n == oldm.catalog().len(),
                oldm.wf(),
                i <= n,
                self.resource_groups@ == oldm.catalog().skip(i as int),
                self.registry == oldm.registry,
                forall|k: int|
                    0 <= k < n ==> call_requires(
                        f,
                        (&oldm.catalog()[k].0, &oldm.catalog()[k].1),
                    ),
                keep.len() == i,
                forall|k: int|
                    0 <= k < i ==> call_ensures(
                        f,
                        (&oldm.catalog()[k].0, &oldm.catalog()[k].1),
                        #[trigger] keep[k],
                    ),
                kept@ == spec_filter_keep(oldm.catalog().take(i as int), keep),
                removed@.len() == spec_dropped_keys(oldm.catalog().take(i as int), keep).len(),
                forall|k: int|
                    0 <= k < removed@.len() ==> (#[trigger] removed@[k])@ == spec_dropped_keys(
                        oldm.catalog().take(i as int),
                        keep,
                    )[k],
                default_dropped == spec_dropped_keys(
                    oldm.catalog().take(i as int),
                    keep,
                ).contains(spec_default_name()),
                default_dropped ==> 0 <= di < i && oldm.catalog()[di].0@ == spec_default_name()
                    && !keep[di],
                !default_dropped ==> forall|b: int|
                    0 <= b < i && (#[trigger] oldm.catalog()[b]).0@ == spec_default_name()
                        ==> keep[b],
            decreases n - i,
        {
            let entry = self.resource_groups.remove(0);
            proof {
                assert(entry == oldm.catalog()[i as int]);
                assert(self.resource_groups@ =~= oldm.catalog().skip(i + 1));
            }
            let r = f(&entry.0, &entry.1);
            let is_def = is_default_name(entry.0.as_slice());
            proof {
                let keep0 = keep;
                keep = keep.push(r);
                let cat1 = oldm.catalog().take(i + 1);
                assert(cat1.drop_last() =~= oldm.catalog().take(i as int));
                assert(keep.drop_last() =~= keep0);
                assert(cat1.last() == oldm.catalog()[i as int]);
                let d0 = spec_dropped_keys(oldm.catalog().take(i as int), keep0);
                let d1 = spec_dropped_keys(cat1, keep);
                if !r {
                    assert(d1 == d0.push(entry.0@));
                    assert forall|y: Seq<u8>|
                        d1.contains(y) <==> (d0.contains(y) || entry.0@ == y) by {
                        if d0.contains(y) {
                            let w = choose|w: int| 0 <= w < d0.len() && d0[w] == y;
                            assert(d1[w] == y);
                        }
                        if entry.0@ == y {
                            assert(d1[d1.len() - 1] == y);
                        }
                        if d1.contains(y) {
                            let w = choose|w: int| 0 <= w < d1.len() && d1[w] == y;
                            if w < d0.len() {
                                assert(d0[w] == y);
                            }
                        }
                    }
                    if is_def {
                        di = i as int;
                    }
                } else {
                    assert(d1 == d0);
                }
            }
            if r {
                kept.push(entry);
            } else {
                removed.push(entry.0);
                if is_def {
                    default_dropped = true;
                }
            }
            i = i + 1;
        }
        proof {
            assert(oldm.catalog().take(n as int) =~= oldm.catalog());
        }
        self.resource_groups = kept;
        proof {
            // the surviving entries inherit the catalog invariants from
            // their positions in the old catalog
            lemma_filter_keep_increasing(oldm.catalog(), keep);
            lemma_filter_keep_member(oldm.catalog(), keep);
            assert forall|a: int|
                0 <= a < self.catalog().len() implies (#[trigger] self.catalog()[a]).0@
                == spec_to_lowercase(self.catalog()[a].1.name@) && self.catalog()[a].1.priority
                <= 16 by {
                let b = choose|b: int|
                    0 <= b < oldm.catalog().len() && spec_filter_keep(oldm.catalog(), keep)[a]
                        == #[trigger] oldm.catalog()[b];
                assert(oldm.catalog()[b].0@ == spec_to_lowercase(oldm.catalog()[b].1.name@));
                assert(oldm.catalog()[b].1.priority <= 16);
            }
        }
        proof {
            assert forall|j: int|
                0 <= j < self.controllers().len() implies (#[trigger] self.controllers()[
                j]).wf() by {
                assert(self.controllers()[j] == oldm.controllers()[j]);
            }
        }
        self.fan_out_removals(&removed, Ghost(spec_dropped_keys(oldm.catalog(), keep)));
        proof {
            assert(self.catalog() == spec_filter_keep(oldm.catalog(), keep));
        }
        if default_dropped {
            // the predicate dropped the default group: reset it in the
            // catalog rather than losing it, as a plain removal would
            proof {
                lemma_filter_keep_member(oldm.catalog(), keep);
                lemma_default_name_lowercase();
                assert forall|a: int|
                    0 <= a < self.catalog().len() implies (#[trigger] self.catalog()[a]).0@
                    != spec_default_name() by {
                    let b = choose|b: int|
                        0 <= b < oldm.catalog().len() && spec_filter_keep(oldm.catalog(), keep)[a]
                            == #[trigger] oldm.catalog()[b] && keep[b];
                    assert(b != di);
                    assert(oldm.catalog()[b].0@ != oldm.catalog()[di].0@);
                }
            }
            let ghost cat_before = self.catalog();
            self.resource_groups.push((default_group_name(), builtin_default_group()));
            proof {
                assert(self.catalog().drop_last() =~= cat_before);
                assert(self.catalog().last().0@ == spec_default_name());
            }
        } else {
            proof {
                // the default entry satisfied the predicate and survives
                let d = oldm.catalog_index(spec_default_name());
                assert(oldm.catalog()[d].0@ == spec_default_name());
                assert(keep[d]);
                lemma_filter_keep_complete(oldm.catalog(), keep);
                let a = choose|a: int|
                    0 <= a < spec_filter_keep(oldm.catalog(), keep).len() && spec_filter_keep(
                        oldm.catalog(),
                        keep,
                    )[a] == oldm.catalog()[d];
                assert(self.catalog()[a].0@ == spec_default_name());
            }
        }
    }
}

/// The filtered catalog keeps entries in order and without repetition: each
/// comes from a distinct source position, in increasing order.
proof fn lemma_filter_keep_increasing(cat: Seq<(Vec<u8>, ResourceGroup)>, keep: Seq<bool>)
    requires
        keep.len() == cat.len(),
        forall|i: int, j: int| 0 <= i < j < cat.len() ==> cat[i].0@ != cat[j].0@,
    ensures
        forall|a1: int, a2: int|
            0 <= a1 < a2 < spec_filter_keep(cat, keep).len() ==> spec_filter_keep(cat, keep)[a1].0@
                != spec_filter_keep(cat, keep)[a2].0@,
    decreases cat.len(),
{
    if cat.len() > 0 {
        lemma_filter_keep_increasing(cat.drop_last(), keep.drop_last());
        lemma_filter_keep_member(cat.drop_last(), keep.drop_last());
        let fk = spec_filter_keep(cat, keep);
        let rest = spec_filter_keep(cat.drop_last(), keep.drop_last());
        assert forall|a1: int, a2: int|
            0 <= a1 < a2 < fk.len() implies fk[a1].0@ != fk[a2].0@ by {
            if keep.last() && a2 == fk.len() - 1 {
                let b = choose|b: int|
                    0 <= b < cat.drop_last().len() && rest[a1] == #[trigger] cat.drop_last()[b];
                assert(cat.drop_last()[b] == cat[b]);
                assert(fk[a1] == rest[a1]);
                assert(fk[a2] == cat.last());
                assert(cat[b].0@ != cat[cat.len() - 1].0@);
            } else {
                assert(fk[a1] == rest[a1] && fk[a2] == rest[a2]);
            }
        }
    }
}

/// Every filtered entry is one of the source entries whose keep flag is set.
proof fn lemma_filter_keep_member(cat: Seq<(Vec<u8>, ResourceGroup)>, keep: Seq<bool>)
    requires
        keep.len() == cat.len(),
    ensures
        forall|a: int|
            #![trigger spec_filter_keep(cat, keep)[a]]
            0 <= a < spec_filter_keep(cat, keep).len() ==> exists|b: int|
                0 <= b < cat.len() && spec_filter_keep(cat, keep)[a] == #[trigger] cat[b]
                    && keep[b],
    decreases cat.len(),
{
    if cat.len() > 0 {
        lemma_filter_keep_member(cat.drop_last(), keep.drop_last());
        assert forall|a: int|
            #![trigger spec_filter_keep(cat, keep)[a]]
            0 <= a < spec_filter_keep(cat, keep).len() implies exists|b: int|
            0 <= b < cat.len() && spec_filter_keep(cat, keep)[a] == #[trigger] cat[b]
                && keep[b] by {
            let rest = spec_filter_keep(cat.drop_last(), keep.drop_last());
            if a < rest.len() {
                let b = choose|b: int|
                    0 <= b < cat.drop_last().len() && rest[a] == #[trigger] cat.drop_last()[b]
                        && keep.drop_last()[b];
                assert(cat.drop_last()[b] == cat[b]);
                assert(keep.drop_last()[b] == keep[b]);
                assert(spec_filter_keep(cat, keep)[a] == cat[b]);
            } else {
                assert(spec_filter_keep(cat, keep)[a] == cat[cat.len() - 1]);
                assert(keep[cat.len() - 1]);
            }
        }
    }
}

/// Every source entry whose keep flag is set appears among the filtered
/// entries.
proof fn lemma_filter_keep_complete(cat: Seq<(Vec<u8>, ResourceGroup)>, keep: Seq<bool>)
    requires
        keep.len() == cat.len(),
    ensures
        forall|b: int|
            0 <= b < cat.len() && keep[b] ==> exists|a: int|
                0 <= a < spec_filter_keep(cat, keep).len() && spec_filter_keep(cat, keep)[a]
                    == #[trigger] cat[b],
    decreases cat.len(),
{
    if cat.len() > 0 {
        lemma_filter_keep_complete(cat.drop_last(), keep.drop_last());
        let fk = spec_filter_keep(cat, keep);
        let rest = spec_filter_keep(cat.drop_last(), keep.drop_last());
        assert forall|b: int|
            0 <= b < cat.len() && keep[b] implies exists|a: int|
            0 <= a < fk.len() && fk[a] == #[trigger] cat[b] by {
            if b == cat.len() - 1 {
                assert(fk[fk.len() - 1] == cat[b]);
            } else {
                assert(cat.drop_last()[b] == cat[b] && keep.drop_last()[b] == keep[b]);
                let a = choose|a: int| 0 <= a < rest.len() && rest[a] == cat.drop_last()[b];
                assert(fk[a] == cat[b]);
            }
        }
    }
}

} // verus!
