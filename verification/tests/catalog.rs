use cubestore::catalog::{snapshots_list, SnapshotInfo};

fn listing() -> Vec<String> {
    vec![
        "metastore-300/b.sst".to_string(),
        "metastore-100/a.sst".to_string(),
        "metastore-100/b.sst".to_string(),
        "metastore-100-logs/0.flex".to_string(),
        "metastore-current".to_string(),
        "metastore-200/a.sst".to_string(),
        "junk".to_string(),
    ]
}

#[test]
fn catalog_lists_distinct_ids_ascending_with_current_flag() {
    let infos = snapshots_list("metastore", &listing(), Some(200));
    assert_eq!(
        infos,
        vec![
            SnapshotInfo { id: 100, current: false },
            SnapshotInfo { id: 200, current: true },
            SnapshotInfo { id: 300, current: false },
        ]
    );
}

#[test]
fn catalog_without_a_current_pointer_flags_nothing() {
    let infos = snapshots_list("metastore", &listing(), None);
    assert_eq!(infos.len(), 3);
    assert!(infos.iter().all(|i| !i.current));
}

#[test]
fn catalog_with_a_dangling_pointer_flags_nothing() {
    // The pointer names a snapshot whose files are gone.
    let infos = snapshots_list("metastore", &listing(), Some(999));
    assert_eq!(infos.len(), 3);
    assert!(infos.iter().all(|i| !i.current));
}

#[test]
fn catalog_of_an_empty_listing_is_empty() {
    let infos = snapshots_list("metastore", &Vec::new(), Some(1));
    assert!(infos.is_empty());
}
