use cubestore::bootstrap::{BootstrapAction, BootstrapEvent, BootstrapState};

fn is_remote(a: &BootstrapAction) -> bool {
    matches!(
        a,
        BootstrapAction::ListCurrentMarker(_)
            | BootstrapAction::DownloadPointer(_)
            | BootstrapAction::ListSnapshotFiles(_)
            | BootstrapAction::DownloadFile(_)
            | BootstrapAction::ReplayLogs(_)
    )
}

fn is_download(a: &BootstrapAction) -> bool {
    matches!(
        a,
        BootstrapAction::DownloadPointer(_)
            | BootstrapAction::DownloadFile(_)
            | BootstrapAction::ReplayLogs(_)
    )
}

#[test]
fn existing_local_bootstrap_never_touches_remote() {
    let mut state = BootstrapState::start();
    let mut actions_seen: Vec<BootstrapAction> = Vec::new();
    for event in [
        BootstrapEvent::LocalPresent(true),
        BootstrapEvent::EngineOpened,
        BootstrapEvent::IndexesValid,
    ] {
        state = state.step("metastore", event);
        let action = state.action("metastore");
        assert!(!is_remote(&action));
        actions_seen.push(action);
    }
    assert!(matches!(actions_seen[0], BootstrapAction::OpenEngine));
    assert!(matches!(actions_seen[1], BootstrapAction::ValidateIndexes));
    assert!(matches!(actions_seen[2], BootstrapAction::Finished));
}

#[test]
fn fresh_bootstrap_downloads_nothing() {
    let mut state = BootstrapState::start();
    assert!(matches!(state.action("metastore"), BootstrapAction::ProbeLocal));
    state = state.step("metastore", BootstrapEvent::LocalPresent(false));
    match state.action("metastore") {
        BootstrapAction::ListCurrentMarker(p) => assert_eq!(p.as_str(), "metastore-current"),
        other => panic!("expected the pointer-marker listing, got {:?}", action_name(&other)),
    }
    state = state.step("metastore", BootstrapEvent::PointerPresent(false));
    // No pointer object: create the store from scratch; no download ever.
    assert!(matches!(state.action("metastore"), BootstrapAction::OpenEngine));
    state = state.step("metastore", BootstrapEvent::EngineOpened);
    let action = state.action("metastore");
    assert!(!is_download(&action));
    assert!(matches!(action, BootstrapAction::ValidateIndexes));
    state = state.step("metastore", BootstrapEvent::IndexesValid);
    assert!(matches!(state.action("metastore"), BootstrapAction::Finished));
}

#[test]
fn remote_bootstrap_fetches_replays_and_validates() {
    let mut state = BootstrapState::start();
    state = state.step("metastore", BootstrapEvent::LocalPresent(false));
    state = state.step("metastore", BootstrapEvent::PointerPresent(true));
    match state.action("metastore") {
        BootstrapAction::DownloadPointer(p) => assert_eq!(p.as_str(), "metastore-current"),
        _ => panic!("expected the pointer download"),
    }
    state = state.step(
        "metastore",
        BootstrapEvent::PointerContent("metastore-42/checkpoint".to_string()),
    );
    match state.action("metastore") {
        BootstrapAction::ListSnapshotFiles(p) => assert_eq!(p.as_str(), "metastore-42"),
        _ => panic!("expected the snapshot file listing"),
    }
    state = state.step(
        "metastore",
        BootstrapEvent::FileList(vec![
            "metastore-42/a.sst".to_string(),
            "metastore-42/b.sst".to_string(),
        ]),
    );
    match state.action("metastore") {
        BootstrapAction::DownloadFile(f) => assert_eq!(f.as_str(), "metastore-42/a.sst"),
        _ => panic!("expected the first file download"),
    }
    state = state.step("metastore", BootstrapEvent::FileFetched);
    match state.action("metastore") {
        BootstrapAction::DownloadFile(f) => assert_eq!(f.as_str(), "metastore-42/b.sst"),
        _ => panic!("expected the second file download"),
    }
    state = state.step("metastore", BootstrapEvent::FileFetched);
    assert!(matches!(state.action("metastore"), BootstrapAction::OpenEngine));
    state = state.step("metastore", BootstrapEvent::EngineOpened);
    match state.action("metastore") {
        BootstrapAction::ReplayLogs(id) => assert_eq!(id, 42),
        _ => panic!("expected the log replay"),
    }
    state = state.step("metastore", BootstrapEvent::LogsReplayed);
    assert!(matches!(state.action("metastore"), BootstrapAction::ValidateIndexes));
    state = state.step("metastore", BootstrapEvent::IndexesValid);
    assert!(matches!(state.action("metastore"), BootstrapAction::Finished));
}

#[test]
fn unparseable_pointer_degrades_to_fresh_store() {
    let mut state = BootstrapState::start();
    state = state.step("metastore", BootstrapEvent::LocalPresent(false));
    state = state.step("metastore", BootstrapEvent::PointerPresent(true));
    state = state.step(
        "metastore",
        BootstrapEvent::PointerContent("not a pointer".to_string()),
    );
    // Silent degrade: open a fresh store, no error, no further remote work.
    assert!(matches!(state.action("metastore"), BootstrapAction::OpenEngine));
    state = state.step("metastore", BootstrapEvent::EngineOpened);
    assert!(matches!(state.action("metastore"), BootstrapAction::ValidateIndexes));
}

#[test]
fn empty_snapshot_file_list_still_replays_logs() {
    let mut state = BootstrapState::start();
    state = state.step("metastore", BootstrapEvent::LocalPresent(false));
    state = state.step("metastore", BootstrapEvent::PointerPresent(true));
    state = state.step(
        "metastore",
        BootstrapEvent::PointerContent("metastore-7/x".to_string()),
    );
    state = state.step("metastore", BootstrapEvent::FileList(Vec::new()));
    assert!(matches!(state.action("metastore"), BootstrapAction::OpenEngine));
    state = state.step("metastore", BootstrapEvent::EngineOpened);
    match state.action("metastore") {
        BootstrapAction::ReplayLogs(id) => assert_eq!(id, 7),
        _ => panic!("expected the log replay"),
    }
}

fn action_name(a: &BootstrapAction) -> &'static str {
    match a {
        BootstrapAction::ProbeLocal => "ProbeLocal",
        BootstrapAction::ListCurrentMarker(_) => "ListCurrentMarker",
        BootstrapAction::DownloadPointer(_) => "DownloadPointer",
        BootstrapAction::ListSnapshotFiles(_) => "ListSnapshotFiles",
        BootstrapAction::DownloadFile(_) => "DownloadFile",
        BootstrapAction::OpenEngine => "OpenEngine",
        BootstrapAction::ReplayLogs(_) => "ReplayLogs",
        BootstrapAction::ValidateIndexes => "ValidateIndexes",
        BootstrapAction::Finished => "Finished",
    }
}
