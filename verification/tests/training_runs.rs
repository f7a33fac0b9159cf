use crucible::training::{
    keeps_sample, next_selfplay_game, run_dir_prefix, sanitize_path_component, TrainingDepthMode,
    TrainingRunDescriptor, TrainingRunKind, TrainingRunStatus, TrainingRunWriter,
};

fn descriptor(revision_id: &str, hash: &str, kind: TrainingRunKind, mode: TrainingDepthMode, depth: u32) -> TrainingRunDescriptor {
    TrainingRunDescriptor {
        engine_id: "engine-1".into(),
        engine_name: "Sykora".into(),
        revision_id: revision_id.into(),
        revision_hash: hash.into(),
        time_control: "10+0.1".into(),
        games_requested: Some(1),
        kind,
        source_job_id: None,
        source_role: None,
        depth_mode: mode,
        depth_value: depth,
    }
}

#[test]
fn sanitizes_engine_name_for_output_paths() {
    assert_eq!(sanitize_path_component("Stockfish Dev"), "Stockfish-Dev");
    assert_eq!(sanitize_path_component("lc0+cuda"), "lc0-cuda");
}

#[test]
fn writer_filters_using_depth_mode() {
    let mut writer = TrainingRunWriter::new(
        "runs/Sykora/abcd/selfplay".into(),
        descriptor("rev-1", "abcd", TrainingRunKind::SelfPlay, TrainingDepthMode::Exact, 10),
        "2026-04-01T00:00:00Z".into(),
    );
    for depth in [9u32, 10] {
        writer.admit_sample(depth);
    }

    assert_eq!(writer.samples_written(), 1);
    assert_eq!(writer.depth_counts().get(&9), None);
    assert_eq!(writer.depth_counts().get(&10), Some(&1));

    let mut min_writer = TrainingRunWriter::new(
        "runs/Sykora/efgh/regression".into(),
        TrainingRunDescriptor {
            source_job_id: Some("job-1".into()),
            source_role: Some("dev".into()),
            ..descriptor("rev-2", "efgh", TrainingRunKind::Regression, TrainingDepthMode::Min, 10)
        },
        "2026-04-01T00:00:00Z".into(),
    );
    for depth in [9u32, 10, 12] {
        min_writer.admit_sample(depth);
    }
    assert_eq!(min_writer.samples_written(), 2);
    assert_eq!(min_writer.depth_counts().get(&10), Some(&1));
    assert_eq!(min_writer.depth_counts().get(&12), Some(&1));
}

#[test]
fn games_are_counted_once() {
    let mut writer = TrainingRunWriter::new(
        "runs/x".into(),
        descriptor("rev-1", "abcd", TrainingRunKind::SelfPlay, TrainingDepthMode::Exact, 10),
        "now".into(),
    );
    assert!(writer.record_game(1));
    assert!(!writer.record_game(1));
    assert!(writer.record_game(2));
    assert_eq!(writer.games_played(), 2);
    assert_eq!(writer.run_dir(), "runs/x");
    writer.set_status(TrainingRunStatus::Completed);
    assert_eq!(writer.metadata().status, TrainingRunStatus::Completed);
    assert_eq!(writer.metadata().status.label(), "completed");
}

#[test]
fn depth_rules() {
    assert!(keeps_sample(TrainingDepthMode::Exact, 10, 10));
    assert!(!keeps_sample(TrainingDepthMode::Exact, 10, 11));
    assert!(keeps_sample(TrainingDepthMode::Min, 10, 11));
    assert!(!keeps_sample(TrainingDepthMode::Min, 10, 9));
}

#[test]
fn run_directory_prefixes() {
    assert_eq!(run_dir_prefix(TrainingRunKind::SelfPlay, None, None), "selfplay");
    assert_eq!(run_dir_prefix(TrainingRunKind::Idle, Some("x"), None), "idle");
    assert_eq!(
        run_dir_prefix(TrainingRunKind::Regression, Some("0123456789"), Some("dev")),
        "regression-01234567-dev"
    );
    assert_eq!(run_dir_prefix(TrainingRunKind::Regression, None, None), "regression-job-unknown");
}

#[test]
fn selfplay_stops_when_enough_games_are_counted() {
    let mut writer = TrainingRunWriter::new(
        "runs/x".into(),
        descriptor("rev-1", "abcd", TrainingRunKind::SelfPlay, TrainingDepthMode::Exact, 10),
        "now".into(),
    );
    assert_eq!(next_selfplay_game(&writer, 2, 0, 3), Some((1, 0)));
    writer.record_game(1);
    assert_eq!(next_selfplay_game(&writer, 2, 4, 3), Some((5, 1)));
    writer.record_game(5);
    assert_eq!(next_selfplay_game(&writer, 2, 5, 3), None);
}
