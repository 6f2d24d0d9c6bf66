use std::cmp::Ordering;

use hydra::dispatch::{sort_for_dispatch, DispatchEntry, StepSortFn};

/// The `i64` key that orders shares as `f64::total_cmp` does.
fn share_key(share: f64) -> i64 {
    let bits = share.to_bits() as i64;
    bits ^ ((((bits >> 63) as u64) >> 1) as i64)
}

fn create_test_entry(
    highest_global_priority: i32,
    highest_local_priority: i32,
    lowest_build_id: i32,
    lowest_share_used: f64,
    rdeps_count: i64,
) -> DispatchEntry {
    DispatchEntry {
        drv_path: "aaaaaaaaaaaaaaaaaaaaaaaaaaaaaaaa-test.drv".to_string(),
        resolved_drv_path: None,
        system: "x86_64-linux".to_string(),
        required_features: vec![],
        ready_time: 0,
        highest_global_priority,
        highest_local_priority,
        lowest_build_id,
        rdeps_count,
        lowest_share_used: share_key(lowest_share_used),
    }
}

#[test]
fn test_legacy_compare_global_priority() {
    let step1 = create_test_entry(10, 1, 1, 1.0, 0);
    let step2 = create_test_entry(5, 1, 2, 1.0, 0);

    assert_eq!(step1.legacy_compare(&step2), Ordering::Less);
    assert_eq!(step2.legacy_compare(&step1), Ordering::Greater);
}

#[test]
fn test_legacy_compare_share_used() {
    let step1 = create_test_entry(5, 1, 1, 0.5, 0);
    let step2 = create_test_entry(5, 1, 2, 1.0, 0);

    assert_eq!(step1.legacy_compare(&step2), Ordering::Less);
    assert_eq!(step2.legacy_compare(&step1), Ordering::Greater);
}

#[test]
fn test_legacy_compare_local_priority() {
    let step1 = create_test_entry(5, 10, 1, 1.0, 0);
    let step2 = create_test_entry(5, 5, 2, 1.0, 0);

    assert_eq!(step1.legacy_compare(&step2), Ordering::Less);
    assert_eq!(step2.legacy_compare(&step1), Ordering::Greater);
}

#[test]
fn test_legacy_compare_build_id() {
    let step1 = create_test_entry(5, 1, 1, 1.0, 0);
    let step2 = create_test_entry(5, 1, 2, 1.0, 0);

    assert_eq!(step1.legacy_compare(&step2), Ordering::Less);
    assert_eq!(step2.legacy_compare(&step1), Ordering::Greater);
}

#[test]
fn test_legacy_compare_equal() {
    let step1 = create_test_entry(5, 1, 1, 1.0, 0);
    let step2 = create_test_entry(5, 1, 1, 1.0, 0);

    assert_eq!(step1.legacy_compare(&step2), Ordering::Equal);
}

#[test]
fn test_compare_with_rdeps_global_priority() {
    let step1 = create_test_entry(10, 1, 1, 1.0, 0);
    let step2 = create_test_entry(5, 1, 2, 1.0, 0);

    assert_eq!(step1.compare_with_rdeps(&step2), Ordering::Less);
    assert_eq!(step2.compare_with_rdeps(&step1), Ordering::Greater);
}

#[test]
fn test_compare_with_rdeps_share_used() {
    let step1 = create_test_entry(5, 1, 1, 0.5, 0);
    let step2 = create_test_entry(5, 1, 2, 1.0, 0);

    assert_eq!(step1.compare_with_rdeps(&step2), Ordering::Less);
    assert_eq!(step2.compare_with_rdeps(&step1), Ordering::Greater);
}

#[test]
fn test_compare_with_rdeps_rdeps_len() {
    let step1 = create_test_entry(5, 1, 1, 1.0, 10);
    let step2 = create_test_entry(5, 1, 2, 1.0, 5);

    assert_eq!(step1.compare_with_rdeps(&step2), Ordering::Less);
    assert_eq!(step2.compare_with_rdeps(&step1), Ordering::Greater);
}

#[test]
fn test_compare_with_rdeps_local_priority() {
    let step1 = create_test_entry(5, 10, 1, 1.0, 0);
    let step2 = create_test_entry(5, 5, 2, 1.0, 0);

    assert_eq!(step1.compare_with_rdeps(&step2), Ordering::Less);
    assert_eq!(step2.compare_with_rdeps(&step1), Ordering::Greater);
}

#[test]
fn test_compare_with_rdeps_build_id() {
    let step1 = create_test_entry(5, 1, 1, 1.0, 0);
    let step2 = create_test_entry(5, 1, 2, 1.0, 0);

    assert_eq!(step1.compare_with_rdeps(&step2), Ordering::Less);
    assert_eq!(step2.compare_with_rdeps(&step1), Ordering::Greater);
}

#[test]
fn test_compare_with_rdeps_equal() {
    let step1 = create_test_entry(5, 1, 1, 1.0, 0);
    let step2 = create_test_entry(5, 1, 1, 1.0, 0);

    assert_eq!(step1.compare_with_rdeps(&step2), Ordering::Equal);
}

#[test]
fn test_difference_between_compare_functions() {
    let step1 = create_test_entry(5, 1, 1, 1.0, 10);
    let step2 = create_test_entry(5, 1, 1, 1.0, 5);

    assert_eq!(step1.legacy_compare(&step2), Ordering::Equal);

    assert_eq!(step1.compare_with_rdeps(&step2), Ordering::Less);
    assert_eq!(step2.compare_with_rdeps(&step1), Ordering::Greater);
}

#[test]
fn share_key_orders_like_total_cmp() {
    let shares = [-1.5, -0.0, 0.0, 0.25, 0.5, 1.0, 1e9, f64::INFINITY];
    for a in shares {
        for b in shares {
            assert_eq!(share_key(a).cmp(&share_key(b)), a.total_cmp(&b));
        }
    }
}

#[test]
fn negative_share_ranks_before_positive() {
    let step1 = create_test_entry(5, 1, 1, -0.5, 0);
    let step2 = create_test_entry(5, 1, 1, 0.5, 0);
    assert_eq!(step1.legacy_compare(&step2), Ordering::Less);
}

#[test]
fn sort_for_dispatch_orders_by_rank() {
    let mut entries = vec![
        create_test_entry(5, 1, 3, 1.0, 0),
        create_test_entry(10, 1, 4, 1.0, 0),
        create_test_entry(5, 1, 1, 1.0, 0),
        create_test_entry(5, 2, 2, 1.0, 0),
    ];
    sort_for_dispatch(&mut entries, StepSortFn::Legacy);
    let ids: Vec<i32> = entries.iter().map(|e| e.lowest_build_id).collect();
    assert_eq!(ids, vec![4, 2, 1, 3]);
}

#[test]
fn sort_for_dispatch_is_stable() {
    let mut a = create_test_entry(5, 1, 1, 1.0, 0);
    a.drv_path = "first.drv".to_string();
    let mut b = create_test_entry(5, 1, 1, 1.0, 0);
    b.drv_path = "second.drv".to_string();
    let c = create_test_entry(7, 1, 1, 1.0, 0);
    let mut entries = vec![a, b, c];
    sort_for_dispatch(&mut entries, StepSortFn::Legacy);
    assert_eq!(entries[0].highest_global_priority, 7);
    assert_eq!(entries[1].drv_path, "first.drv");
    assert_eq!(entries[2].drv_path, "second.drv");
}

#[test]
fn sort_for_dispatch_with_rdeps() {
    let mut entries = vec![
        create_test_entry(5, 1, 1, 1.0, 1),
        create_test_entry(5, 1, 2, 1.0, 9),
        create_test_entry(5, 1, 3, 0.5, 0),
    ];
    sort_for_dispatch(&mut entries, StepSortFn::WithRdeps);
    let ids: Vec<i32> = entries.iter().map(|e| e.lowest_build_id).collect();
    assert_eq!(ids, vec![3, 2, 1]);
}

#[test]
fn dispatch_before_follows_the_order() {
    let a = create_test_entry(10, 1, 1, 1.0, 0);
    let b = create_test_entry(5, 1, 2, 1.0, 0);
    assert!(hydra::dispatch::dispatch_before(&a, &b, StepSortFn::Legacy));
    assert!(!hydra::dispatch::dispatch_before(&b, &a, StepSortFn::Legacy));
    assert!(!hydra::dispatch::dispatch_before(&a, &a, StepSortFn::WithRdeps));
}
