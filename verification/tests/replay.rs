use cubestore::replay::{plan_replay, ReplayError, ReplayRun};

fn names(list: &[&str]) -> Vec<String> {
    list.iter().map(|s| s.to_string()).collect()
}

#[test]
fn replay_plan_sorts_by_sequence_number() {
    let listing = names(&[
        "metastore-9-logs/2.flex",
        "metastore-9-logs/0.flex",
        "metastore-9-logs/10.flex",
        "metastore-9-logs/1.flex",
    ]);
    let plan = plan_replay(&listing).unwrap();
    let seqs: Vec<u64> = plan.iter().map(|p| p.1).collect();
    assert_eq!(seqs, vec![0, 1, 2, 10]);
    assert_eq!(plan[3].0.as_str(), "metastore-9-logs/10.flex");
    assert_eq!(plan[0].0.as_str(), "metastore-9-logs/0.flex");
}

#[test]
fn replay_plan_keeps_every_chunk() {
    let listing = names(&["d/3.flex", "d/1.flex", "d/2.flex"]);
    let plan = plan_replay(&listing).unwrap();
    assert_eq!(plan.len(), 3);
    let mut planned: Vec<String> = plan.iter().map(|p| p.0.clone()).collect();
    planned.sort();
    let mut expected = listing.clone();
    expected.sort();
    assert_eq!(planned, expected);
}

#[test]
fn replay_plan_rejects_unparseable_names() {
    let listing = names(&["d/0.flex", "d/broken.flex", "d/1.flex"]);
    match plan_replay(&listing) {
        Err(ReplayError::NamingViolation { path }) => {
            assert_eq!(path.as_str(), "d/broken.flex");
        },
        Ok(_) => panic!("a name without a sequence number must abort the replay"),
    }
}

#[test]
fn replay_applies_in_ascending_order() {
    let listing = names(&["d/1.flex", "d/0.flex", "d/2.flex"]);
    let plan = plan_replay(&listing).unwrap();
    let mut run = ReplayRun::start(plan);
    let mut applied: Vec<u64> = Vec::new();
    while let Some((_, seq)) = run.next_chunk() {
        applied.push(seq);
        run.chunk_applied();
    }
    assert_eq!(applied, vec![0, 1, 2]);
    assert!(!run.is_stopped());
}

#[test]
fn corruption_truncates_replay() {
    // Chunks 0, 1, 2 where chunk 1 is corrupt: chunk 0 is applied, replay
    // stops, and chunk 2 is never applied; the replay still counts as
    // successful for the prefix it applied.
    let listing = names(&["d/0.flex", "d/1.flex", "d/2.flex"]);
    let plan = plan_replay(&listing).unwrap();
    let mut run = ReplayRun::start(plan);
    let mut applied: Vec<u64> = Vec::new();
    while let Some((name, seq)) = run.next_chunk() {
        let corrupt = name.as_str() == "d/1.flex";
        if corrupt {
            run.chunk_corrupt();
        } else {
            applied.push(seq);
            run.chunk_applied();
        }
    }
    assert_eq!(applied, vec![0]);
    assert_eq!(run.applied_count(), 1);
    assert!(run.is_stopped());
    assert!(run.next_chunk().is_none());
}

#[test]
fn empty_listing_replays_nothing() {
    let plan = plan_replay(&Vec::new()).unwrap();
    assert_eq!(plan.len(), 0);
    let run = ReplayRun::start(plan);
    assert!(run.next_chunk().is_none());
}
