use crucible::bisect::BisectAction;
use crucible::codec::{
    decode_build_status, decode_hunt_phase, decode_job_type, decode_sprt_result,
    decode_test_status, decode_bisect_status, encode_build_status, encode_game_result,
    encode_hunt_phase, encode_sprt_result, normalize_db_enum, InvalidEnum,
};
use crucible::config::{Config, GateOpponentConfig, GateProfileConfig};
use crucible::gate::{gate_file_name_ok, gate_tasks, gate_total_matches, resolve_gate_profile, GateRunProgress, GateTask, GateTaskKind};
use crucible::types::{BisectStatus, BuildStatus, Engine, EngineRevision, GameResult, HuntPhase, JobType, ProbeVerdict, SprtResult, TestStatus};
use crucible::uci::parse_bestmove;
use crucible::web::{authorize_admin, build_revision_lineage, job_matches_lane, BranchLane, LineageError};
use crucible::workflow::{job_cancellable, probe_verdict, settle_bisect_session, tracked_branches, watch_job, JobWatch};
use crucible::bisect::BisectRunner;
use std::collections::BTreeMap;

fn engine() -> Engine {
    Engine {
        id: "engine-1".into(),
        name: "engine".into(),
        repo_url: "https://example.invalid/repo.git".into(),
        local_path: "/tmp/engine".into(),
        branches: vec!["main".into()],
        experimental_branches: vec!["exp/*".into()],
        build_cmd: "make".into(),
        binary_path: "engine".into(),
        start_from: None,
    }
}

fn revision(id: &str, branch: &str, date: i64, fingerprint: Option<&str>) -> EngineRevision {
    EngineRevision {
        id: id.into(),
        engine_id: "engine-1".into(),
        commit_hash: format!("{}-hash", id),
        commit_message: "m".into(),
        commit_date: date,
        branch: branch.into(),
        tag: None,
        is_release: false,
        binary_path: None,
        binary_fingerprint: fingerprint.map(|f| f.to_string()),
        build_status: BuildStatus::Success,
    }
}

#[test]
fn stored_names_round_trip() {
    for status in [BuildStatus::Pending, BuildStatus::Building, BuildStatus::Success, BuildStatus::Failed] {
        assert_eq!(decode_build_status(encode_build_status(status)), Ok(status));
    }
    for phase in [HuntPhase::Sampling, HuntPhase::Scanning, HuntPhase::Confirming, HuntPhase::Found, HuntPhase::Failed] {
        assert_eq!(decode_hunt_phase(encode_hunt_phase(phase)), Ok(phase));
    }
    for result in [SprtResult::Inconclusive, SprtResult::H1Accepted, SprtResult::H0Accepted, SprtResult::FixedGames] {
        assert_eq!(decode_sprt_result(encode_sprt_result(result)), Ok(result));
    }
    assert_eq!(decode_test_status("\"Cancelled\""), Ok(TestStatus::Cancelled));
    assert_eq!(decode_job_type("Bisect"), Ok(JobType::Bisect));
    assert_eq!(decode_bisect_status("Nope"), Err(InvalidEnum::BisectStatus));
    assert_eq!(normalize_db_enum("\"Found\""), "Found");
    assert_eq!(normalize_db_enum("\""), "\"");
    assert_eq!(encode_game_result(GameResult::Draw), "Draw");
}

#[test]
fn lanes_and_admin_tokens() {
    let e = engine();
    assert_eq!(BranchLane::from_query(None), BranchLane::Canonical);
    assert_eq!(BranchLane::from_query(Some("experimental")), BranchLane::Experimental);
    assert_eq!(BranchLane::from_query(Some("all")), BranchLane::All);
    assert_eq!(BranchLane::from_query(Some("other")), BranchLane::Canonical);
    assert!(BranchLane::Canonical.includes_branch(&e, "main"));
    assert!(!BranchLane::Canonical.includes_branch(&e, "exp/a"));
    assert!(BranchLane::Experimental.includes_branch(&e, "exp/a"));
    assert!(job_matches_lane(BranchLane::Experimental, &e, None, &vec!["main".into(), "exp/b".into()]));
    assert!(!job_matches_lane(BranchLane::Experimental, &e, Some("main"), &vec!["exp/b".into()]));
    assert!(authorize_admin(None, None));
    assert!(authorize_admin(Some("tok"), Some("Bearer  tok ")));
    assert!(!authorize_admin(Some("tok"), Some("Basic tok")));
    assert!(!authorize_admin(Some("tok"), None));
}

#[test]
fn lineage_skips_identical_binaries() {
    let revisions = vec![
        revision("r1", "main", 1, Some("x")),
        revision("r2", "main", 2, Some("same")),
        revision("d1", "dev", 2, None),
        revision("r3", "main", 3, Some("same")),
        revision("r4", "main", 4, Some("same")),
        revision("r5", "main", 5, None),
    ];
    let lineage = build_revision_lineage(&revisions, &revisions[3]).unwrap();
    assert_eq!(lineage.previous_branch_revision, Some(1));
    assert_eq!(lineage.next_branch_revision, Some(4));
    assert_eq!(lineage.previous_distinct_binary_revision, Some(0));
    assert_eq!(lineage.skipped_identical_previous, 1);
    assert_eq!(lineage.next_distinct_binary_revision, Some(5));
    assert_eq!(lineage.skipped_identical_next, 1);
    let stranger = revision("zz", "main", 9, None);
    assert_eq!(build_revision_lineage(&revisions, &stranger), Err(LineageError::NotOnBranch));
}

#[test]
fn gates_play_each_opponent_twice_then_head_to_head() {
    let mut config = Config::default();
    config.gate.opponents.push(GateOpponentConfig { name: "A".into(), binary_path: "/a".into(), options: BTreeMap::new() });
    config.gate.opponents.push(GateOpponentConfig { name: "B".into(), binary_path: "/b".into(), options: BTreeMap::new() });
    config.gate.profiles.push(GateProfileConfig {
        name: "release".into(),
        opponents: vec!["B".into()],
        games_per_opponent: 2,
        time_control: None,
        opening_book: None,
    });
    let tasks = gate_tasks(&vec!["B".into()], &config.gate.opponents).unwrap();
    assert_eq!(tasks, vec![
        GateTask { kind: GateTaskKind::CandidateVsOpponent(0), opponent: Some(1) },
        GateTask { kind: GateTaskKind::BaselineVsOpponent(0), opponent: Some(1) },
        GateTask { kind: GateTaskKind::HeadToHead, opponent: None },
    ]);
    assert_eq!(gate_tasks(&vec!["A".into(), "C".into()], &config.gate.opponents), Err(1));
    assert_eq!(gate_total_matches(2), 5);
    assert_eq!(GateRunProgress::new(3, 5).message, "3 / 5 matches complete");
    assert_eq!(resolve_gate_profile(&config, "release"), Some(0));
    assert_eq!(resolve_gate_profile(&config, "nightly"), None);
}

#[test]
fn engine_answers_and_probe_results() {
    assert_eq!(parse_bestmove("bestmove e2e4 ponder d7d5"), Some("e2e4".to_string()));
    assert_eq!(parse_bestmove("  bestmove   g1f3"), Some("g1f3".to_string()));
    assert_eq!(parse_bestmove("bestmove"), None);
    assert_eq!(parse_bestmove("info depth 3"), None);
    assert_eq!(probe_verdict(SprtResult::H1Accepted), ProbeVerdict::Good);
    assert_eq!(probe_verdict(SprtResult::H0Accepted), ProbeVerdict::Bad);
    assert_eq!(probe_verdict(SprtResult::Inconclusive), ProbeVerdict::Uncertain);
    assert_eq!(tracked_branches(&engine()), vec!["main".to_string(), "exp/*".into()]);
}

#[test]
fn finished_hunts_close_their_session() {
    let runner = BisectRunner::new();
    let mut session = runner
        .start_bisect("engine", "good", "bad", vec!["c0".into(), "c1".into(), "c2".into()])
        .unwrap();
    session.current_job_id = Some("job".into());
    settle_bisect_session(&mut session, &BisectAction::Found { culprit: "rev-2".into() });
    assert_eq!(session.status, BisectStatus::Found);
    assert_eq!(session.culprit_revision_id, Some("rev-2".to_string()));
    assert_eq!(session.current_job_id, None);
}

#[test]
fn gate_result_names_stay_inside_the_gate_directory() {
    assert!(gate_file_name_ok("20240101T000000Z-release.json"));
    assert!(gate_file_name_ok(".json"));
    assert!(!gate_file_name_ok("../secrets.json"));
    assert!(!gate_file_name_ok("a\\b.json"));
    assert!(!gate_file_name_ok("release.txt"));
    assert!(!gate_file_name_ok("json"));
}

#[test]
fn only_open_jobs_can_be_cancelled() {
    assert!(job_cancellable(TestStatus::Queued));
    assert!(job_cancellable(TestStatus::Running));
    assert!(!job_cancellable(TestStatus::Completed));
    assert!(!job_cancellable(TestStatus::Cancelled));
    assert!(!job_cancellable(TestStatus::Failed));
    assert_eq!(watch_job(None), JobWatch::Cancel);
    assert_eq!(watch_job(Some(TestStatus::Cancelled)), JobWatch::Cancel);
    assert_eq!(watch_job(Some(TestStatus::Completed)), JobWatch::Stop);
    assert_eq!(watch_job(Some(TestStatus::Failed)), JobWatch::Stop);
    assert_eq!(watch_job(Some(TestStatus::Running)), JobWatch::Continue);
    assert_eq!(watch_job(Some(TestStatus::Queued)), JobWatch::Continue);
}
