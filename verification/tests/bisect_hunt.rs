use crucible::bisect::{BisectAction, BisectRunner, BisectStep};
use crucible::types::{HuntPhase, ProbeVerdict};

fn seven_commits() -> Vec<String> {
    vec![
        "c0".into(),
        "c1".into(),
        "c2".into(),
        "c3".into(),
        "c4".into(),
        "c5".into(),
        "c6".into(),
    ]
}

#[test]
fn starts_large_ranges_in_sampling_mode() {
    let runner = BisectRunner::new();
    let session = runner
        .start_bisect("engine", "good-rev", "bad-rev", seven_commits())
        .unwrap();

    assert_eq!(session.phase, HuntPhase::Sampling);
    assert_eq!(session.pending_indices, vec![1, 3, 4]);
}

#[test]
fn sampling_shrinks_to_first_bad_window() {
    let runner = BisectRunner::new();
    let mut session = runner
        .start_bisect("engine", "good-rev", "bad-rev", seven_commits())
        .unwrap();

    assert!(matches!(
        runner.next_commit_to_test(&mut session),
        Some(BisectStep::Test { index: 1, .. })
    ));
    assert!(matches!(
        runner.process_result(&mut session, "rev-1", "job-1", ProbeVerdict::Good),
        BisectAction::TestNext { index: 3, .. }
    ));
    assert!(matches!(
        runner.process_result(&mut session, "rev-3", "job-2", ProbeVerdict::Bad),
        BisectAction::TestNext { index: 4, .. }
    ));
    let action = runner.process_result(&mut session, "rev-4", "job-3", ProbeVerdict::Bad);

    assert!(matches!(
        action,
        BisectAction::TestNext {
            phase: HuntPhase::Scanning,
            ..
        }
    ));
    assert_eq!(session.commit_range, vec!["c1", "c2", "c3"]);
}

#[test]
fn confirming_requires_two_bad_results() {
    let runner = BisectRunner::new();
    let mut session = runner
        .start_bisect(
            "engine",
            "good-rev",
            "bad-rev",
            vec!["c0".into(), "c1".into(), "c2".into(), "c3".into()],
        )
        .unwrap();

    assert!(matches!(
        runner.next_commit_to_test(&mut session),
        Some(BisectStep::Test { index: 1, .. })
    ));
    assert!(matches!(
        runner.process_result(&mut session, "rev-1", "job-1", ProbeVerdict::Good),
        BisectAction::TestNext { index: 2, .. }
    ));
    let action = runner.process_result(&mut session, "rev-2", "job-2", ProbeVerdict::Bad);

    assert!(matches!(
        action,
        BisectAction::TestNext {
            index: 2,
            phase: HuntPhase::Confirming,
            ..
        }
    ));
    let action = runner.process_result(&mut session, "rev-2", "job-3", ProbeVerdict::Bad);
    assert!(matches!(
        action,
        BisectAction::Found { ref culprit } if culprit == "rev-2"
    ));
}

#[test]
fn short_ranges_are_refused() {
    let runner = BisectRunner::new();
    let result = runner.start_bisect("engine", "good-rev", "bad-rev", vec!["c0".into()]);
    assert!(result.is_err());
    let err = result.err().unwrap();
    assert_eq!(err.message(), "Need at least 2 commits in range to bisect");
}

#[test]
fn small_ranges_start_by_scanning() {
    let runner = BisectRunner::new();
    let session = runner
        .start_bisect(
            "engine",
            "good-rev",
            "bad-rev",
            vec!["c0".into(), "c1".into(), "c2".into()],
        )
        .unwrap();
    assert_eq!(session.phase, HuntPhase::Scanning);
    assert!(runner.is_well_formed(&session));
}

#[test]
fn no_new_probe_while_one_is_in_flight() {
    let runner = BisectRunner::new();
    let mut session = runner
        .start_bisect("engine", "good-rev", "bad-rev", seven_commits())
        .unwrap();
    assert!(runner.next_commit_to_test(&mut session).is_some());
    session.current_job_id = Some("job-1".into());
    assert!(runner.next_commit_to_test(&mut session).is_none());
}
