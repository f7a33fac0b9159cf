//! Steps of the daemon's work that follow from configuration and results:
//! the time control jobs use, the branches to track, and how a finished
//! probe moves a regression hunt on.
use vstd::prelude::*;
use crate::bisect::BisectAction;
use crate::config::Config;
use crate::types::{opt_str_view, BisectSession, BisectStatus, Engine, ProbeVerdict, SprtResult, TestStatus, TimeControl};

verus! {

/// The time control that configured tests use.
pub fn configured_time_control(config: &Config) -> (tc: TimeControl)
    ensures
        tc.base_time_ms == config.testing.time_control.base_ms,
        tc.increment_ms == config.testing.time_control.increment_ms,
        tc.nodes == config.testing.time_control.nodes,
{
    TimeControl {
        base_time_ms: config.testing.time_control.base_ms,
        increment_ms: config.testing.time_control.increment_ms,
        nodes: config.testing.time_control.nodes,
    }
}

/// The branch patterns of an engine to follow: its branches, then its
/// experimental branches.
pub fn tracked_branches(engine: &Engine) -> (r: Vec<String>)
    ensures
        r@.map_values(|s: String| s@) == engine.branches@.map_values(|s: String| s@)
            + engine.experimental_branches@.map_values(|s: String| s@),
{
    let mut out: Vec<String> = Vec::new();
    let mut i: usize = 0;
    while i < engine.branches.len()
        invariant
            i <= engine.branches.len(),
            out@.map_values(|s: String| s@) == engine.branches@.take(i as int).map_values(|s: String| s@),
        decreases engine.branches.len() - i,
    {
        let ghost before = out@.map_values(|s: String| s@);
        let c = engine.branches[i].clone();
        assert(c@ == engine.branches@[i as int]@);
        out.push(c);
        assert(out@.map_values(|s: String| s@) =~= before.push(c@));
        assert(engine.branches@.take(i + 1) =~= engine.branches@.take(i as int).push(engine.branches@[i as int]));
        assert(out@.map_values(|s: String| s@) =~= engine.branches@.take(i + 1).map_values(|s: String| s@));
        i = i + 1;
    }
    assert(engine.branches@.take(engine.branches.len() as int) =~= engine.branches@);
    let ghost first = out@.map_values(|s: String| s@);
    let mut k: usize = 0;
    while k < engine.experimental_branches.len()
        invariant
            k <= engine.experimental_branches.len(),
            first == engine.branches@.map_values(|s: String| s@),
            out@.map_values(|s: String| s@) == first + engine.experimental_branches@.take(k as int).map_values(|s: String| s@),
        decreases engine.experimental_branches.len() - k,
    {
        let ghost before = out@.map_values(|s: String| s@);
        let c = engine.experimental_branches[k].clone();
        assert(c@ == engine.experimental_branches@[k as int]@);
        out.push(c);
        assert(out@.map_values(|s: String| s@) =~= before.push(c@));
        assert(engine.experimental_branches@.take(k + 1) =~= engine.experimental_branches@.take(k as int).push(
            engine.experimental_branches@[k as int],
        ));
        assert(out@.map_values(|s: String| s@) =~= first + engine.experimental_branches@.take(k + 1).map_values(|s: String| s@));
        k = k + 1;
    }
    assert(engine.experimental_branches@.take(engine.experimental_branches.len() as int) =~= engine.experimental_branches@);
    out
}

/// What a finished probe says about the tested commit: a passed test keeps
/// it good, a failed one marks it bad, and a test without a decision leaves
/// it uncertain.
pub open spec fn spec_probe_verdict(result: SprtResult) -> ProbeVerdict {
    match result {
        SprtResult::H1Accepted => ProbeVerdict::Good,
        SprtResult::H0Accepted => ProbeVerdict::Bad,
        SprtResult::Inconclusive | SprtResult::FixedGames => ProbeVerdict::Uncertain,
    }
}

/// The verdict that a probe's test result gives.
pub fn probe_verdict(result: SprtResult) -> (r: ProbeVerdict)
    ensures
        r == spec_probe_verdict(result),
{
    match result {
        SprtResult::H1Accepted => ProbeVerdict::Good,
        SprtResult::H0Accepted => ProbeVerdict::Bad,
        SprtResult::Inconclusive | SprtResult::FixedGames => ProbeVerdict::Uncertain,
    }
}

/// Records the end of a hunt in its session: a found culprit or a failure
/// closes the session with no probe in flight; a next probe leaves the
/// session for the probe to be queued.
pub fn settle_bisect_session(session: &mut BisectSession, action: &BisectAction)
    ensures
        match action {
            BisectAction::Found { culprit } => {
                &&& final(session)@.status == BisectStatus::Found
                &&& final(session)@.current_index is None
                &&& final(session)@.current_job_id is None
                &&& final(session)@.culprit_revision_id == Some(culprit@)
                &&& final(session)@ == (crate::types::SessionModel {
                    status: BisectStatus::Found,
                    current_index: None,
                    current_job_id: None,
                    culprit_revision_id: Some(culprit@),
                    ..old(session)@
                })
            },
            BisectAction::Failed { .. } => final(session)@ == (crate::types::SessionModel {
                status: BisectStatus::Failed,
                current_index: None,
                current_job_id: None,
                ..old(session)@
            }),
            BisectAction::TestNext { .. } => final(session)@ == old(session)@,
        },
{
    match action {
        BisectAction::Found { culprit } => {
            session.status = BisectStatus::Found;
            session.current_index = None;
            session.current_job_id = None;
            session.culprit_revision_id = Some(culprit.clone());
        },
        BisectAction::Failed { .. } => {
            session.status = BisectStatus::Failed;
            session.current_index = None;
            session.current_job_id = None;
        },
        BisectAction::TestNext { .. } => {},
    }
}

/// Whether a job in this state can still be cancelled: it is queued or
/// running.
pub fn job_cancellable(status: TestStatus) -> (r: bool)
    ensures
        r == (status == TestStatus::Queued || status == TestStatus::Running),
{
    match status {
        TestStatus::Queued | TestStatus::Running => true,
        TestStatus::Completed | TestStatus::Cancelled | TestStatus::Failed => false,
    }
}

/// What the watch over a running job does when it reads the job's stored
/// state.
#[derive(Debug, Clone, Copy, PartialEq, Eq, Structural)]
pub enum JobWatch {
    /// Stop the match: the job was cancelled or is gone.
    Cancel,
    /// Stop watching: the job has finished.
    Stop,
    /// Look again later.
    Continue,
}

/// The watch's decision for a job's stored state (`None` when the job is
/// no longer stored).
pub fn watch_job(status: Option<TestStatus>) -> (r: JobWatch)
    ensures
        r == match status {
            None | Some(TestStatus::Cancelled) => JobWatch::Cancel,
            Some(TestStatus::Completed) | Some(TestStatus::Failed) => JobWatch::Stop,
            Some(TestStatus::Queued) | Some(TestStatus::Running) => JobWatch::Continue,
        },
{
    match status {
        None | Some(TestStatus::Cancelled) => JobWatch::Cancel,
        Some(TestStatus::Completed) | Some(TestStatus::Failed) => JobWatch::Stop,
        Some(TestStatus::Queued) | Some(TestStatus::Running) => JobWatch::Continue,
    }
}

} // verus!
