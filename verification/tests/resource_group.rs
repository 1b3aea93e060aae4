//! Scheduler behaviour end to end: catalog upserts, weight derivation,
//! priority keys, consumption accounting and the periodic rebalance.

use resource_control::controller::CommandPri;
use resource_control::manager::{GroupMode, ResourceGroup, ResourceGroupManager};
use resource_control::priority::{concat_priority_vt, RESET_VT_THRESHOLD};
use resource_control::tracker::ResourceConsumeType;

const LOW_PRIORITY: u32 = 1;
const MEDIUM_PRIORITY: u32 = 8;
const HIGH_PRIORITY: u32 = 16;

pub fn new_resource_group(
    name: &str,
    is_ru_mode: bool,
    read_tokens: u64,
    write_tokens: u64,
    group_priority: u32,
) -> ResourceGroup {
    if is_ru_mode {
        assert!(read_tokens == write_tokens);
    }
    ResourceGroup {
        name: name.as_bytes().to_vec(),
        mode: if is_ru_mode {
            GroupMode::RuMode
        } else {
            GroupMode::RawMode
        },
        priority: group_priority,
        ru_fill_rate: if is_ru_mode { read_tokens } else { 0 },
        raw_cpu_fill_rate: if is_ru_mode { 0 } else { read_tokens },
        raw_io_write_fill_rate: if is_ru_mode { 0 } else { write_tokens },
    }
}

pub fn new_resource_group_ru(name: &str, ru: u64, group_priority: u32) -> ResourceGroup {
    new_resource_group(name, true, ru, ru, group_priority)
}

#[test]
fn test_resource_group() {
    let mut resource_manager = ResourceGroupManager::default();

    let group1 = new_resource_group_ru("TEST", 100, 0);
    resource_manager.add_resource_group(group1);

    assert!(resource_manager.get_resource_group(b"test1").is_none());
    let group = resource_manager.get_resource_group(b"test").unwrap();
    assert_eq!(group.ru_fill_rate, 100);
    // the catalog always holds the "default" entry beside the added group
    assert_eq!(resource_manager.resource_groups.len(), 2);

    let group1 = new_resource_group_ru("Test", 200, LOW_PRIORITY);
    resource_manager.add_resource_group(group1);
    let group = resource_manager.get_resource_group(b"test").unwrap();
    assert_eq!(group.ru_fill_rate, 200);
    assert_eq!(group.priority, 1);
    assert_eq!(resource_manager.resource_groups.len(), 2);

    let group2 = new_resource_group_ru("test2", 400, 0);
    resource_manager.add_resource_group(group2);
    assert_eq!(resource_manager.resource_groups.len(), 3);

    let rc = resource_manager.derive_controller(b"test_read".to_vec(), true);
    assert_eq!(
        resource_manager.controller(rc).resource_consumptions.len(),
        3
    );

    let group1_weight = resource_manager.controller(rc).resource_group(b"test").weight;
    let group2_weight = resource_manager
        .controller(rc)
        .resource_group(b"test2")
        .weight;
    assert_eq!(group1_weight, group2_weight * 2);
    assert_eq!(
        resource_manager
            .controller(rc)
            .resource_group(b"test")
            .current_vt(),
        0
    );

    assert_eq!(
        resource_manager.get_priority(rc, b"test", CommandPri::High),
        concat_priority_vt(LOW_PRIORITY, group1_weight * 50)
    );
    assert_eq!(
        resource_manager
            .controller(rc)
            .resource_group(b"test")
            .current_vt(),
        group1_weight * 50
    );

    assert_eq!(
        resource_manager.get_priority(rc, b"test2", CommandPri::High),
        concat_priority_vt(MEDIUM_PRIORITY, group2_weight * 50)
    );
    assert_eq!(
        resource_manager
            .controller(rc)
            .resource_group(b"test2")
            .current_vt(),
        group2_weight * 50
    );

    assert_eq!(
        resource_manager.get_priority(rc, b"unknown_group", CommandPri::High),
        concat_priority_vt(MEDIUM_PRIORITY, 50)
    );
    assert_eq!(
        resource_manager
            .controller(rc)
            .resource_group(b"default")
            .current_vt(),
        50
    );

    resource_manager.consume(rc, b"test", ResourceConsumeType::CpuTime(10000));
    resource_manager.consume(rc, b"test2", ResourceConsumeType::CpuTime(10000));

    assert_eq!(
        resource_manager
            .controller(rc)
            .resource_group(b"test")
            .current_vt(),
        group1_weight * 10050
    );
    assert_eq!(
        resource_manager
            .controller(rc)
            .resource_group(b"test")
            .current_vt(),
        resource_manager
            .controller(rc)
            .resource_group(b"test2")
            .current_vt()
            * 2
    );

    // rebalance all group virtual times
    resource_manager.advance_min_virtual_time();
    let group1_vt = resource_manager
        .controller(rc)
        .resource_group(b"test")
        .current_vt();
    assert_eq!(group1_vt, group1_weight * 10050);
    assert!(
        resource_manager
            .controller(rc)
            .resource_group(b"test2")
            .current_vt()
            >= group1_vt * 3 / 4
    );
    assert!(
        resource_manager
            .controller(rc)
            .resource_group(b"default")
            .current_vt()
            >= group1_vt / 2
    );

    // add one new resource group
    let new_group = new_resource_group_ru("new_group", 600, HIGH_PRIORITY);
    resource_manager.add_resource_group(new_group);

    assert_eq!(
        resource_manager.controller(rc).resource_consumptions.len(),
        4
    );
    let group3_weight = resource_manager
        .controller(rc)
        .resource_group(b"new_group")
        .weight;
    assert!(group1_weight - 10 <= group3_weight * 3 && group3_weight * 3 <= group1_weight + 10);
    assert!(
        resource_manager
            .controller(rc)
            .resource_group(b"new_group")
            .current_vt()
            >= group1_vt / 2
    );
}

#[test]
fn test_reset_resource_group_vt() {
    let mut resource_manager = ResourceGroupManager::default();
    let rc = resource_manager.derive_controller(b"test_write".to_vec(), false);

    let group1 = new_resource_group_ru("g1", i32::MAX as u64, 1);
    resource_manager.add_resource_group(group1);
    let group2 = new_resource_group_ru("g2", 1, 16);
    resource_manager.add_resource_group(group2);

    let threshold = 1u64 << 59;
    let mut last_g2_vt = 0;
    for i in 0..8 {
        resource_manager.consume(rc, b"g2", ResourceConsumeType::IoBytes(1 << 25));
        resource_manager.advance_min_virtual_time();
        let g1_vt = resource_manager
            .controller(rc)
            .resource_group(b"g1")
            .current_vt();
        let g2_vt = resource_manager
            .controller(rc)
            .resource_group(b"g2")
            .current_vt();
        if i < 7 {
            assert!(g2_vt < threshold);
        }
        // after 8 rounds, g1's virtual time is still under the threshold and
        // still rising
        assert!(g1_vt < threshold && g1_vt > last_g2_vt);
        last_g2_vt = g2_vt;
    }

    resource_manager.consume(rc, b"g2", ResourceConsumeType::IoBytes(1 << 25));
    resource_manager.advance_min_virtual_time();
    assert!(
        resource_manager
            .controller(rc)
            .resource_group(b"g1")
            .current_vt()
            > threshold
    );

    // rebalance again: every group's virtual time drops
    resource_manager.advance_min_virtual_time();
    let g1_vt = resource_manager
        .controller(rc)
        .resource_group(b"g1")
        .current_vt();
    let g2_vt = resource_manager
        .controller(rc)
        .resource_group(b"g2")
        .current_vt();
    assert!(g2_vt < threshold / 2);
    assert!(g1_vt < threshold / 2 && g1_vt < g2_vt);
    assert_eq!(resource_manager.controller(rc).last_min_vt, g2_vt);
}

#[test]
fn test_adjust_resource_group_weight() {
    let mut resource_manager = ResourceGroupManager::default();
    let rc = resource_manager.derive_controller(b"test_read".to_vec(), true);
    let rc_write = resource_manager.derive_controller(b"test_write".to_vec(), false);
    assert_eq!(resource_manager.controller(rc).is_customized(), false);
    assert_eq!(resource_manager.controller(rc_write).is_customized(), false);
    let group1 = new_resource_group_ru("test1", 5000, 0);
    resource_manager.add_resource_group(group1);
    assert_eq!(
        resource_manager.controller(rc).resource_group(b"test1").weight,
        20
    );
    assert_eq!(
        resource_manager
            .controller(rc_write)
            .resource_group(b"test1")
            .weight,
        20
    );
    assert_eq!(resource_manager.controller(rc).is_customized(), true);
    assert_eq!(resource_manager.controller(rc_write).is_customized(), true);

    // a resource group with a big RU quota raises the baseline
    let group1 = new_resource_group_ru("test2", 50000, 0);
    resource_manager.add_resource_group(group1);
    assert_eq!(resource_manager.controller(rc).max_ru_quota, 50000);
    assert_eq!(
        resource_manager.controller(rc).resource_group(b"test1").weight,
        100
    );
    assert_eq!(
        resource_manager.controller(rc).resource_group(b"test2").weight,
        10
    );
    assert_eq!(resource_manager.controller(rc_write).max_ru_quota, 50000);
    assert_eq!(
        resource_manager
            .controller(rc_write)
            .resource_group(b"test1")
            .weight,
        100
    );
    assert_eq!(
        resource_manager
            .controller(rc_write)
            .resource_group(b"test2")
            .weight,
        10
    );

    // the default group at its "unlimited" sentinel must not shift weights
    let group = new_resource_group_ru("default", u32::MAX as u64, 0);
    resource_manager.add_resource_group(group);
    assert_eq!(
        resource_manager
            .controller(rc_write)
            .resource_group(b"test1")
            .weight,
        100
    );
    assert_eq!(
        resource_manager
            .controller(rc_write)
            .resource_group(b"default")
            .weight,
        1
    );

    // any other value for the default group does raise the baseline
    let group = new_resource_group_ru("default", 100000, 0);
    resource_manager.add_resource_group(group);
    assert_eq!(
        resource_manager
            .controller(rc_write)
            .resource_group(b"test1")
            .weight,
        200
    );
    assert_eq!(
        resource_manager
            .controller(rc_write)
            .resource_group(b"default")
            .weight,
        10
    );
}

#[test]
fn test_retain_resource_groups() {
    let mut resource_manager = ResourceGroupManager::default();
    let rc = resource_manager.derive_controller(b"test_read".to_vec(), true);
    let rc_write = resource_manager.derive_controller(b"test_write".to_vec(), false);

    for i in 0..5 {
        let group1 = new_resource_group_ru(&format!("test{}", i), 100, 0);
        resource_manager.add_resource_group(group1);
        let group1 = new_resource_group_ru(&format!("group{}", i), 100, 0);
        resource_manager.add_resource_group(group1);
    }
    // consume for the default group
    resource_manager.consume(rc, b"default", ResourceConsumeType::CpuTime(10000));
    resource_manager.consume(rc_write, b"default", ResourceConsumeType::IoBytes(10000));

    // ten added groups plus the ever-present "default" entry
    assert_eq!(resource_manager.get_all_resource_groups().len(), 11);
    assert_eq!(
        resource_manager.controller(rc).resource_consumptions.len(),
        11
    );
    assert_eq!(
        resource_manager
            .controller(rc_write)
            .resource_consumptions
            .len(),
        11
    );

    resource_manager.retain(|k: &Vec<u8>, _v: &ResourceGroup| k.starts_with(b"test"));
    // five survivors, plus "default" reset to its built-ins, never deleted
    assert_eq!(resource_manager.get_all_resource_groups().len(), 6);
    let d = resource_manager.get_resource_group(b"default").unwrap();
    assert_eq!(d.ru_fill_rate, 0);
    assert_eq!(d.priority, 8);
    assert_eq!(
        resource_manager.controller(rc).resource_consumptions.len(),
        6
    );
    assert_eq!(
        resource_manager
            .controller(rc_write)
            .resource_consumptions
            .len(),
        6
    );
    assert!(resource_manager.get_resource_group(b"group1").is_none());
    // a removed group's lookup falls back to the default group's state
    assert_ne!(
        resource_manager
            .controller(rc)
            .resource_group(b"group2")
            .current_vt(),
        0
    );
    assert_ne!(
        resource_manager
            .controller(rc_write)
            .resource_group(b"group2")
            .current_vt(),
        0
    );
}

#[test]
fn test_concat_priority_vt() {
    let v1 = concat_priority_vt(MEDIUM_PRIORITY, 1000);
    let v2 = concat_priority_vt(MEDIUM_PRIORITY, 1111);
    assert!(v1 < v2);

    let v3 = concat_priority_vt(LOW_PRIORITY, 1000);
    assert!(v1 < v3);

    let v4 = concat_priority_vt(MEDIUM_PRIORITY, 1111);
    assert_eq!(v2, v4);

    let v5 = concat_priority_vt(HIGH_PRIORITY, 10);
    assert!(v5 < v1);
}

#[test]
fn fairness_by_quota_scenario() {
    // two groups under one fresh write controller, A with twice B's quota:
    // equal consumption drives B's virtual time twice as fast
    let mut resource_manager = ResourceGroupManager::default();
    let rc = resource_manager.derive_controller(b"pool".to_vec(), false);
    resource_manager.add_resource_group(new_resource_group_ru("a", 200, 0));
    resource_manager.add_resource_group(new_resource_group_ru("b", 100, 0));

    let wa = resource_manager.controller(rc).resource_group(b"a").weight;
    let wb = resource_manager.controller(rc).resource_group(b"b").weight;
    assert_eq!(wa, 500);
    assert_eq!(wb, 1000);
    assert_eq!(wb, 2 * wa);

    resource_manager.consume(rc, b"a", ResourceConsumeType::CpuTime(10000));
    resource_manager.consume(rc, b"b", ResourceConsumeType::CpuTime(10000));
    let vta = resource_manager.controller(rc).resource_group(b"a").current_vt();
    let vtb = resource_manager.controller(rc).resource_group(b"b").current_vt();
    assert_eq!(vta, 10000 * 500);
    assert_eq!(vtb, 2 * vta);
}

#[test]
fn tier_dominance_scenario() {
    // a higher tier beats any lower tier whatever the virtual times, up to
    // the reset threshold
    let top = concat_priority_vt(16, RESET_VT_THRESHOLD - 1);
    let bottom = concat_priority_vt(1, 0);
    assert!(top < bottom);
    let mid_high_vt = concat_priority_vt(9, RESET_VT_THRESHOLD - 1);
    let mid_low_vt = concat_priority_vt(8, 0);
    assert!(mid_high_vt < mid_low_vt);
}

#[test]
fn config_overwrite_preserves_history() {
    let mut resource_manager = ResourceGroupManager::default();
    let rc = resource_manager.derive_controller(b"pool".to_vec(), false);
    resource_manager.add_resource_group(new_resource_group_ru("g", 1000, 3));
    resource_manager.consume(rc, b"g", ResourceConsumeType::IoBytes(7777));
    let vt_before = resource_manager.controller(rc).resource_group(b"g").current_vt();
    assert_ne!(vt_before, 0);

    // upsert with the same quota: nothing accrued is lost
    resource_manager.add_resource_group(new_resource_group_ru("g", 1000, 3));
    let vt_same = resource_manager.controller(rc).resource_group(b"g").current_vt();
    assert_eq!(vt_same, vt_before);

    // even a changed quota or tier keeps the history
    resource_manager.add_resource_group(new_resource_group_ru("g", 2000, 5));
    let vt_after = resource_manager.controller(rc).resource_group(b"g").current_vt();
    assert_eq!(vt_after, vt_before);
}

#[test]
fn default_fallback_scenario() {
    let mut resource_manager = ResourceGroupManager::default();
    let rc = resource_manager.derive_controller(b"pool".to_vec(), false);
    resource_manager.add_resource_group(new_resource_group_ru("known", 100, 0));

    // consumption against an unknown group lands on the default group
    resource_manager.consume(rc, b"nonexistent-group", ResourceConsumeType::CpuTime(123));
    assert_eq!(
        resource_manager
            .controller(rc)
            .resource_group(b"default")
            .current_vt(),
        123
    );
    // and a priority query for an unknown group answers as "default" would
    // (no side effect on a write controller)
    let unknown = resource_manager.get_priority(rc, b"nonexistent-group", CommandPri::Normal);
    let default = resource_manager.get_priority(rc, b"default", CommandPri::Normal);
    assert_eq!(unknown, default);
}

#[test]
fn overflow_reset_decrements_exactly() {
    let mut resource_manager = ResourceGroupManager::default();
    let rc = resource_manager.derive_controller(b"pool".to_vec(), false);
    resource_manager.add_resource_group(new_resource_group_ru("x", 100, 0));

    // drive every group past the threshold: weights are 1 (default) and
    // 1000 (x, quota a hundredth of the baseline)
    let wx = resource_manager.controller(rc).resource_group(b"x").weight;
    assert_eq!(wx, 1000);
    resource_manager.consume(
        rc,
        b"x",
        ResourceConsumeType::IoBytes(RESET_VT_THRESHOLD / 1000 + 5),
    );
    resource_manager.consume(
        rc,
        b"default",
        ResourceConsumeType::IoBytes(RESET_VT_THRESHOLD + 77),
    );
    let vx = resource_manager.controller(rc).resource_group(b"x").current_vt();
    let vd = resource_manager
        .controller(rc)
        .resource_group(b"default")
        .current_vt();
    assert!(vx > RESET_VT_THRESHOLD && vd > RESET_VT_THRESHOLD);

    resource_manager.advance_min_virtual_time();
    assert_eq!(
        resource_manager.controller(rc).resource_group(b"x").current_vt(),
        vx - RESET_VT_THRESHOLD
    );
    assert_eq!(
        resource_manager
            .controller(rc)
            .resource_group(b"default")
            .current_vt(),
        vd - RESET_VT_THRESHOLD
    );
    assert!(
        resource_manager.controller(rc).resource_group(b"x").current_vt() < RESET_VT_THRESHOLD
    );
}

#[test]
fn new_group_seeded_at_frontier() {
    let mut resource_manager = ResourceGroupManager::default();
    let rc = resource_manager.derive_controller(b"pool".to_vec(), false);
    resource_manager.add_resource_group(new_resource_group_ru("old", 100, 0));
    resource_manager.consume(rc, b"old", ResourceConsumeType::CpuTime(500_000));
    resource_manager.advance_min_virtual_time();
    let seed = resource_manager.controller(rc).last_min_vt;
    assert_ne!(seed, 0);

    resource_manager.add_resource_group(new_resource_group_ru("late", 100, 0));
    assert_eq!(
        resource_manager
            .controller(rc)
            .resource_group(b"late")
            .current_vt(),
        seed
    );
}

#[test]
fn quota_and_tier_are_clamped() {
    let mut resource_manager = ResourceGroupManager::default();
    let rc = resource_manager.derive_controller(b"pool".to_vec(), false);
    // a quota beyond the maximum is clamped to it, and tier 0 becomes medium
    resource_manager.add_resource_group(new_resource_group_ru("huge", u64::MAX, 0));
    let t = resource_manager.controller(rc).resource_group(b"huge");
    assert_eq!(t.ru_quota, 0x7fff_ffff);
    assert_eq!(t.group_priority, 8);
    assert_eq!(resource_manager.controller(rc).max_ru_quota, 0x7fff_ffff);
}

#[test]
fn remove_default_group_resets_it() {
    let mut resource_manager = ResourceGroupManager::default();
    let rc = resource_manager.derive_controller(b"pool".to_vec(), false);
    resource_manager.consume(rc, b"default", ResourceConsumeType::IoBytes(42));
    // give "default" a configuration of its own first, then remove it
    resource_manager.add_resource_group(new_resource_group_ru("default", 7000, 3));
    resource_manager.remove_resource_group(b"default");
    // never deleted: reset to quota 0, medium tier, history kept
    let t = resource_manager.controller(rc).resource_group(b"default");
    assert_eq!(t.ru_quota, 0);
    assert_eq!(t.group_priority, 8);
    assert_eq!(t.weight, 1);
    assert_eq!(t.current_vt(), 42);
    assert_eq!(resource_manager.controller(rc).resource_consumptions.len(), 1);
    // the catalog entry is reset too, not deleted
    let d = resource_manager.get_resource_group(b"default").unwrap();
    assert_eq!(d.ru_fill_rate, 0);
    assert_eq!(d.priority, 8);
    assert_eq!(resource_manager.get_all_resource_groups().len(), 1);
}

#[test]
fn default_group_exists_from_the_start() {
    let resource_manager = ResourceGroupManager::default();
    let d = resource_manager.get_resource_group(b"default").unwrap();
    assert_eq!(d.ru_fill_rate, 0);
    assert_eq!(d.priority, 8);
    assert_eq!(resource_manager.get_all_resource_groups().len(), 1);
}

#[test]
fn consume_penalty_charges_both_dimensions() {
    let mut resource_manager = ResourceGroupManager::default();
    let rc = resource_manager.derive_controller(b"read-pool".to_vec(), true);
    let rc_write = resource_manager.derive_controller(b"write-pool".to_vec(), false);
    resource_manager.add_resource_group(new_resource_group_ru("g", 10000, 0));
    let w = resource_manager.controller(rc).resource_group(b"g").weight;
    assert_eq!(w, 10);

    let ctx = resource_control::manager::ResourceControlContext {
        resource_group_name: b"g".to_vec(),
        total_cpu_time_ns: 5_000_000,  // 5000 microseconds
        write_bytes: 300,
    };
    resource_manager.consume_penalty(&ctx);
    // both the CPU time and the bytes are charged, on every controller
    assert_eq!(
        resource_manager.controller(rc).resource_group(b"g").current_vt(),
        (5000 + 300) * w
    );
    assert_eq!(
        resource_manager
            .controller(rc_write)
            .resource_group(b"g")
            .current_vt(),
        (5000 + 300) * w
    );
}

#[test]
fn priority_key_exact_values() {
    // tier 1 maps to field 15 in the top four bits; tier 16 to field 0
    assert_eq!(concat_priority_vt(1, 0), 0xf << 60);
    assert_eq!(concat_priority_vt(16, 5), 5);
    assert_eq!(concat_priority_vt(8, 1000), (0x8u64 << 60) | 1000);
}

#[test]
fn read_controller_charges_estimate_per_query() {
    let mut resource_manager = ResourceGroupManager::default();
    let rc = resource_manager.derive_controller(b"read-pool".to_vec(), true);
    resource_manager.add_resource_group(new_resource_group_ru("g", 5000, 0));
    let w = resource_manager.controller(rc).resource_group(b"g").weight;
    assert_eq!(w, 20);
    // each query charges 50 * weight, and biases by level: High adds 0,
    // Normal 20 * 1000 * weight, Low 100 * 1000 * weight
    let first = resource_manager.get_priority(rc, b"g", CommandPri::High);
    assert_eq!(first, concat_priority_vt(8, 50 * w));
    let second = resource_manager.get_priority(rc, b"g", CommandPri::Normal);
    assert_eq!(second, concat_priority_vt(8, 100 * w + 20 * 1000 * w));
    let third = resource_manager.get_priority(rc, b"g", CommandPri::Low);
    assert_eq!(third, concat_priority_vt(8, 150 * w + 100 * 1000 * w));
    assert_eq!(
        resource_manager.controller(rc).resource_group(b"g").current_vt(),
        150 * w
    );
}

#[test]
fn retain_can_target_the_default_group() {
    let mut resource_manager = ResourceGroupManager::default();
    let rc = resource_manager.derive_controller(b"pool".to_vec(), false);
    resource_manager.add_resource_group(new_resource_group_ru("default", 5000, 4));
    resource_manager.add_resource_group(new_resource_group_ru("other", 100, 0));
    resource_manager.consume(rc, b"default", ResourceConsumeType::IoBytes(9));
    let vt = resource_manager
        .controller(rc)
        .resource_group(b"default")
        .current_vt();

    // a predicate that drops everything: "default" is reset to its built-in
    // configuration, never deleted — in the catalog and in every controller
    resource_manager.retain(|_k: &Vec<u8>, _v: &ResourceGroup| false);
    assert_eq!(resource_manager.get_all_resource_groups().len(), 1);
    let d = resource_manager.get_resource_group(b"default").unwrap();
    assert_eq!(d.ru_fill_rate, 0);
    assert_eq!(d.priority, 8);
    assert_eq!(resource_manager.controller(rc).resource_consumptions.len(), 1);
    let t = resource_manager.controller(rc).resource_group(b"default");
    assert_eq!(t.ru_quota, 0);
    assert_eq!(t.group_priority, 8);
    assert_eq!(t.current_vt(), vt);
}

#[test]
fn unknown_group_mode_counts_as_quota_one() {
    let mut resource_manager = ResourceGroupManager::default();
    let rc = resource_manager.derive_controller(b"pool".to_vec(), true);
    let rg = ResourceGroup {
        name: b"odd".to_vec(),
        mode: GroupMode::Unknown,
        priority: 0,
        ru_fill_rate: 777,
        raw_cpu_fill_rate: 777,
        raw_io_write_fill_rate: 777,
    };
    resource_manager.add_resource_group(rg);
    let t = resource_manager.controller(rc).resource_group(b"odd");
    assert_eq!(t.ru_quota, 1);
    // quota 1 against the 10000 baseline gives the largest weight
    assert_eq!(t.weight, 100_000);
}

#[test]
fn remove_resource_group_deletes_and_falls_back() {
    let mut resource_manager = ResourceGroupManager::default();
    let rc = resource_manager.derive_controller(b"pool".to_vec(), false);
    resource_manager.add_resource_group(new_resource_group_ru("Gone", 100, 0));
    assert!(resource_manager.get_resource_group(b"gone").is_some());
    assert_eq!(resource_manager.controller(rc).resource_consumptions.len(), 2);

    // removal is case-insensitive, like every catalog operation
    resource_manager.remove_resource_group(b"GONE");
    assert!(resource_manager.get_resource_group(b"gone").is_none());
    assert_eq!(resource_manager.controller(rc).resource_consumptions.len(), 1);
    // lookups for the removed name fall back to the default group
    resource_manager.consume(rc, b"gone", ResourceConsumeType::IoBytes(3));
    assert_eq!(
        resource_manager
            .controller(rc)
            .resource_group(b"default")
            .current_vt(),
        3
    );
}
