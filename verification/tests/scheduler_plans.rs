use crucible::scheduler::{
    is_experimental_branch, latest_built_revision, plan_engine_jobs, priority, should_schedule_pair, JobPlan,
};
use crucible::types::{BuildStatus, Engine, EngineRevision};

const DAY: i64 = 86_400;
const NOW: i64 = 1_800_000_000;

fn test_engine() -> Engine {
    Engine {
        id: "engine-1".into(),
        name: "engine".into(),
        repo_url: "https://example.invalid/repo.git".into(),
        local_path: "/tmp/engine".into(),
        branches: vec!["main".into(), "dev".into()],
        experimental_branches: vec!["exp/*".into()],
        build_cmd: "make".into(),
        binary_path: "engine".into(),
        start_from: None,
    }
}

fn test_revision(engine_id: &str, branch: &str, suffix: &str, offset_days: i64) -> EngineRevision {
    EngineRevision {
        id: format!("{}-{}", branch, suffix),
        engine_id: engine_id.into(),
        commit_hash: format!("{}{}", branch, suffix),
        commit_message: format!("{} {}", branch, suffix),
        commit_date: NOW + offset_days * DAY,
        branch: branch.into(),
        tag: None,
        is_release: false,
        binary_path: Some(format!("/tmp/{}", suffix)),
        binary_fingerprint: None,
        build_status: BuildStatus::Success,
    }
}

fn clone_revision(r: &EngineRevision) -> EngineRevision {
    EngineRevision {
        id: r.id.clone(),
        engine_id: r.engine_id.clone(),
        commit_hash: r.commit_hash.clone(),
        commit_message: r.commit_message.clone(),
        commit_date: r.commit_date,
        branch: r.branch.clone(),
        tag: r.tag.clone(),
        is_release: r.is_release,
        binary_path: r.binary_path.clone(),
        binary_fingerprint: r.binary_fingerprint.clone(),
        build_status: r.build_status,
    }
}

/// The revisions as the job store lists them: by commit date, then branch.
fn stored_order(mut revisions: Vec<EngineRevision>) -> Vec<EngineRevision> {
    revisions.sort_by(|a, b| a.commit_date.cmp(&b.commit_date).then_with(|| a.branch.cmp(&b.branch)));
    revisions
}

fn pairs(revisions: &[EngineRevision], jobs: &[JobPlan]) -> Vec<(String, String)> {
    jobs.iter()
        .map(|job| (revisions[job.dev].id.clone(), revisions[job.base].id.clone()))
        .collect()
}

#[test]
fn schedules_adjacent_revisions_within_each_branch() {
    let engine = test_engine();
    let revisions = stored_order(vec![
        test_revision(&engine.id, "main", "a1", 0),
        test_revision(&engine.id, "main", "a2", 1),
        test_revision(&engine.id, "dev", "b1", 2),
        test_revision(&engine.id, "dev", "b2", 3),
    ]);

    let jobs = plan_engine_jobs(&engine, &revisions, NOW);
    let found = pairs(&revisions, &jobs);

    assert_eq!(jobs.len(), 2);
    assert!(found.iter().any(|(dev, base)| dev == "main-a2" && base == "main-a1"));
    assert!(found.iter().any(|(dev, base)| dev == "dev-b2" && base == "dev-b1"));
    assert!(jobs.iter().all(|job| !revisions[job.dev].branch.is_empty()));
}

#[test]
fn preserves_shared_commit_membership_across_branches() {
    let engine = test_engine();
    let shared_main = test_revision(&engine.id, "main", "shared", 0);
    let mut shared_dev = clone_revision(&shared_main);
    shared_dev.branch = "dev".into();
    let main_head = test_revision(&engine.id, "main", "main2", 1);
    let dev_head = test_revision(&engine.id, "dev", "dev2", 2);
    let main_head_id = main_head.id.clone();
    let dev_head_id = dev_head.id.clone();
    let shared_id = shared_main.id.clone();

    let revisions = stored_order(vec![shared_main, shared_dev, main_head, dev_head]);
    let jobs = plan_engine_jobs(&engine, &revisions, NOW);
    let found = pairs(&revisions, &jobs);

    assert!(found.iter().any(|(dev, base)| *dev == main_head_id && *base == shared_id));
    assert!(found.iter().any(|(dev, base)| *dev == dev_head_id && *base == shared_id));
}

#[test]
fn skips_sequential_jobs_for_identical_binaries() {
    let engine = test_engine();
    let mut base = test_revision(&engine.id, "main", "a1", 0);
    let mut dev = test_revision(&engine.id, "main", "a2", 1);
    base.binary_fingerprint = Some("same-binary".into());
    dev.binary_fingerprint = Some("same-binary".into());

    let revisions = stored_order(vec![base, dev]);
    let jobs = plan_engine_jobs(&engine, &revisions, NOW);

    assert!(jobs.is_empty());
}

#[test]
fn experimental_head_runs_against_main_head() {
    let engine = Engine {
        branches: vec!["main".into()],
        experimental_branches: vec!["exp/*".into()],
        ..test_engine()
    };
    let shared = test_revision(&engine.id, "main", "base", 0);
    let mut shared_exp = clone_revision(&shared);
    shared_exp.branch = "exp/nullmove".into();
    let mut main_head = test_revision(&engine.id, "main", "main2", 1);
    let mut exp_head = test_revision(&engine.id, "exp/nullmove", "exp2", 2);
    main_head.binary_fingerprint = Some("main-head".into());
    exp_head.binary_fingerprint = Some("exp-head".into());
    let exp_head_id = exp_head.id.clone();
    let main_head_id = main_head.id.clone();
    let shared_id = shared.id.clone();

    let revisions = stored_order(vec![shared, shared_exp, main_head, exp_head]);
    let jobs = plan_engine_jobs(&engine, &revisions, NOW);

    assert!(jobs.iter().any(|job| {
        revisions[job.dev].id == exp_head_id
            && revisions[job.base].id == main_head_id
            && revisions[job.dev].branch == "exp/nullmove"
    }));
    assert!(!jobs.iter().any(|job| {
        revisions[job.dev].id == exp_head_id && revisions[job.base].id == shared_id
    }));
}

#[test]
fn heads_and_releases_get_higher_priority() {
    let engine = test_engine();
    let mut tagged = test_revision(&engine.id, "main", "a2", -40);
    tagged.tag = Some("v1.0".into());
    let revisions = stored_order(vec![
        test_revision(&engine.id, "main", "a1", -50),
        tagged,
        test_revision(&engine.id, "main", "a3", -10),
        test_revision(&engine.id, "main", "a4", 0),
    ]);
    let jobs = plan_engine_jobs(&engine, &revisions, NOW);
    assert_eq!(jobs.len(), 3);
    assert_eq!(jobs[0].priority, priority::TAGGED_RELEASE);
    assert_eq!(jobs[1].priority, priority::BACKFILL + 30 - 10);
    assert_eq!(jobs[2].priority, priority::BRANCH_HEAD);
}

#[test]
fn single_revisions_plan_nothing() {
    let engine = test_engine();
    let revisions = vec![test_revision(&engine.id, "main", "a1", 0)];
    assert!(plan_engine_jobs(&engine, &revisions, NOW).is_empty());
}

#[test]
fn unbuilt_revisions_are_not_paired() {
    let engine = test_engine();
    let base = test_revision(&engine.id, "main", "a1", 0);
    let mut dev = test_revision(&engine.id, "main", "a2", 1);
    dev.build_status = BuildStatus::Failed;
    assert!(!should_schedule_pair(&dev, &base));
    assert!(should_schedule_pair(&base, &base));
    assert!(is_experimental_branch(&engine, "exp/x"));
    assert!(!is_experimental_branch(&engine, "main"));
}

#[test]
fn latest_built_revision_skips_failed_builds() {
    let mut revisions = vec![
        test_revision("engine-1", "main", "a", 0),
        test_revision("engine-1", "main", "b", 1),
        test_revision("engine-1", "main", "c", 2),
    ];
    assert_eq!(latest_built_revision(&revisions), Some(2));
    revisions[2].build_status = BuildStatus::Failed;
    revisions[1].build_status = BuildStatus::Pending;
    assert_eq!(latest_built_revision(&revisions), Some(0));
    revisions[0].build_status = BuildStatus::Building;
    assert_eq!(latest_built_revision(&revisions), None);
    assert_eq!(latest_built_revision(&Vec::new()), None);
}

#[test]
fn priorities_follow_the_documented_tiers() {
    let engine = Engine { branches: vec!["main".into()], experimental_branches: vec![], ..test_engine() };
    let old = test_revision(&engine.id, "main", "a1", -40);
    let mut tagged = test_revision(&engine.id, "main", "a2", -20);
    tagged.tag = Some("v1.0".into());
    let recent = test_revision(&engine.id, "main", "a3", -2);
    let head = test_revision(&engine.id, "main", "a4", 0);
    let revisions = stored_order(vec![old, tagged, recent, head]);
    let jobs = plan_engine_jobs(&engine, &revisions, NOW);
    let priority_of = |id: &str| jobs.iter().find(|job| revisions[job.dev].id == id).map(|job| job.priority);
    assert_eq!(priority_of("main-a4"), Some(priority::BRANCH_HEAD));
    assert_eq!(priority_of("main-a2"), Some(priority::TAGGED_RELEASE));
    assert_eq!(priority_of("main-a3"), Some(priority::BACKFILL + 28));
    assert!(priority::BISECT > priority::MANUAL && priority::MANUAL > priority::BRANCH_HEAD);
    assert!(priority::BACKFILL + 30 < priority::TAGGED_RELEASE);
}
