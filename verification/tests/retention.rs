use cubestore::retention::{select_deletions, split_batches, RetentionSweep};
use cubestore::store::{BaseRocksStoreFs, SnapshotsConfig};

fn test_config() -> SnapshotsConfig {
    SnapshotsConfig {
        minimum_metastore_snapshots_count: 2,
        metastore_snapshots_lifetime: 100,
        minimum_cachestore_snapshots_count: 1,
        cachestore_snapshots_lifetime: 10,
        snapshots_deletion_batch_size: 2,
    }
}

#[test]
fn sweep_keeps_the_largest_ids_and_finds_the_cutoff() {
    let mut sweep = RetentionSweep::begin(2, 100);
    for id in [10u128, 50, 200, 150, 50, 200] {
        sweep.observe(id);
    }
    assert_eq!(sweep.retained_snapshot_ids(), vec![150, 200]);
    // 10 and 50 fell outside the window and are older than the cutoff, so
    // the deletion pass runs; it deletes below min(cutoff 100, earliest
    // retained 150) = 100.
    assert_eq!(sweep.deletion_cutoff(), Some(100));
}

#[test]
fn sweep_cutoff_is_bounded_by_the_earliest_retained_id() {
    let mut sweep = RetentionSweep::begin(2, 1000);
    for id in [10u128, 50, 200, 150] {
        sweep.observe(id);
    }
    // The cutoff time (1000) lies above the earliest retained id (150):
    // deletion must still never touch the retained window.
    assert_eq!(sweep.deletion_cutoff(), Some(150));
}

#[test]
fn no_op_sweep_when_all_ids_are_in_the_window() {
    let mut sweep = RetentionSweep::begin(1, 100);
    for id in [200u128, 300, 250] {
        sweep.observe(id);
    }
    assert_eq!(sweep.deletion_cutoff(), None);
}

#[test]
fn no_op_sweep_when_distinct_ids_fit_the_capacity() {
    let mut sweep = RetentionSweep::begin(5, u128::MAX);
    for id in [1u128, 2, 3, 2, 1] {
        sweep.observe(id);
    }
    assert_eq!(sweep.retained_snapshot_ids(), vec![1, 2, 3]);
    assert_eq!(sweep.deletion_cutoff(), None);
}

#[test]
fn no_op_sweep_on_an_empty_listing() {
    let sweep = RetentionSweep::begin(3, 100);
    assert_eq!(sweep.deletion_cutoff(), None);
}

#[test]
fn capacity_is_floored_at_one() {
    let mut sweep = RetentionSweep::begin(0, u128::MAX);
    for id in [5u128, 9, 7] {
        sweep.observe(id);
    }
    assert_eq!(sweep.retained_snapshot_ids(), vec![9]);
}

#[test]
fn observe_page_ignores_foreign_names() {
    let config = test_config();
    let store = BaseRocksStoreFs::new_for_metastore(&config);
    // now = 300_000 ms, lifetime = 100 s: cutoff at 200_000 ms.
    let mut sweep = store.sweep_begin(300_000);
    let page: Vec<String> = vec![
        "metastore-100/a.sst".to_string(),
        "metastore-100/b.sst".to_string(),
        "metastore-100-logs/0.flex".to_string(),
        "metastore-250000/a.sst".to_string(),
        "metastore-260000/a.sst".to_string(),
        "metastore-current".to_string(),
        "unrelated".to_string(),
    ];
    sweep.observe_page(&store.list_prefix(), &page);
    assert_eq!(sweep.retained_snapshot_ids(), vec![250000, 260000]);
    // Only id 100 is deletable (old and outside the window); the cutoff
    // is min(200_000, 250_000).
    assert_eq!(sweep.deletion_cutoff(), Some(200_000));
}

#[test]
fn select_deletions_picks_exactly_the_old_files() {
    let page: Vec<String> = vec![
        "metastore-100/a.sst".to_string(),
        "metastore-100-logs/0.flex".to_string(),
        "metastore-250000/a.sst".to_string(),
        "metastore-current".to_string(),
        "junk".to_string(),
    ];
    let doomed = select_deletions("metastore-", &page, 200_000);
    assert_eq!(
        doomed,
        vec![
            "metastore-100/a.sst".to_string(),
            "metastore-100-logs/0.flex".to_string(),
        ]
    );
}

#[test]
fn split_batches_bounds_every_batch() {
    let items: Vec<String> = (0..5).map(|i| format!("f{}", i)).collect();
    let batches = split_batches(&items, 2);
    assert_eq!(batches.len(), 3);
    assert_eq!(batches[0], vec!["f0".to_string(), "f1".to_string()]);
    assert_eq!(batches[1], vec!["f2".to_string(), "f3".to_string()]);
    assert_eq!(batches[2], vec!["f4".to_string()]);
    let empty: Vec<String> = Vec::new();
    assert_eq!(split_batches(&empty, 3).len(), 0);
}

#[test]
fn sweep_begin_floors_the_cutoff_at_zero() {
    let config = test_config();
    let store = BaseRocksStoreFs::new_for_cachestore(&config);
    // now (5_000 ms) lies within the 10 s lifetime: the cutoff is 0 and
    // nothing can ever be older than it.
    let mut sweep = store.sweep_begin(5_000);
    sweep.observe(1);
    sweep.observe(2);
    assert_eq!(sweep.deletion_cutoff(), None);
}
