//! Regression hunt for noisy engine-strength changes.
//!
//! This is deliberately not a pure binary search. The runner samples a fixed
//! known-good baseline across the range, shrinks to the first bad window it can
//! justify, then linearly scans the final window and confirms the culprit.
use vstd::prelude::*;
use crate::types::{BisectSession, BisectStatus, HuntPhase, ProbeModel, ProbeRecord, ProbeVerdict, SessionModel, opt_str_view};

verus! {

/// Ranges of at most this many commits are scanned linearly instead of sampled.
pub const SAMPLE_WINDOW_MAX: usize = 6;

// ---------------------------------------------------------------------------
// Mathematical model of the hunt
// ---------------------------------------------------------------------------

/// A session is well formed when its window has both endpoints and every
/// index it stores points into the window.
pub open spec fn session_wf(s: SessionModel) -> bool {
    let len = s.commit_range.len();
    &&& len >= 2
    &&& len <= usize::MAX
    &&& forall|k: int| 0 <= k < s.pending_indices.len() ==> #[trigger] s.pending_indices[k] < len
    &&& forall|k: int| 0 <= k < s.probe_history.len() ==> #[trigger] s.probe_history[k].index < len
    &&& (s.current_index matches Some(i) ==> i < len)
    &&& (s.candidate_index matches Some(i) ==> i < len)
}

/// The verdict of the most recent probe recorded at `i`, if any.
pub open spec fn last_verdict(h: Seq<ProbeModel>, i: int) -> Option<ProbeVerdict>
    decreases h.len(),
{
    if h.len() == 0 {
        None
    } else if h.last().index == i {
        Some(h.last().verdict)
    } else {
        last_verdict(h.drop_last(), i)
    }
}

/// What is known at index `i` of the window: the latest probe there, or else
/// the implied verdicts of the window's endpoints (good start, bad end).
pub open spec fn verdict_at(s: SessionModel, i: int) -> Option<ProbeVerdict> {
    match last_verdict(s.probe_history, i) {
        Some(v) => Some(v),
        None => if i == s.commit_range.len() - 1 {
            Some(ProbeVerdict::Bad)
        } else if i == 0 {
            Some(ProbeVerdict::Good)
        } else {
            None
        },
    }
}

/// Some probe has been recorded at index `i`.
pub open spec fn was_tested(s: SessionModel, i: int) -> bool {
    exists|k: int| 0 <= k < s.probe_history.len() && #[trigger] s.probe_history[k].index == i
}

pub open spec fn clamp(x: int, lo: int, hi: int) -> int {
    if x < lo {
        lo
    } else if x > hi {
        hi
    } else {
        x
    }
}

/// The sample point at the given quarter of a window of `len` commits.
pub open spec fn sample_target(len: int, quarter: int) -> int {
    clamp(((len - 1) * quarter) / 4, 1, len - 2)
}

/// The untested quarter points of a large window, in increasing order without repeats.
pub open spec fn spec_sample_indices(s: SessionModel) -> Seq<usize> {
    let len = s.commit_range.len() as int;
    if len <= SAMPLE_WINDOW_MAX {
        seq![]
    } else {
        let t1 = sample_target(len, 1);
        let t2 = sample_target(len, 2);
        let t3 = sample_target(len, 3);
        let a = if !was_tested(s, t1) { seq![t1 as usize] } else { seq![] };
        let b = if !was_tested(s, t2) && t2 != t1 { seq![t2 as usize] } else { seq![] };
        let c = if !was_tested(s, t3) && t3 != t2 { seq![t3 as usize] } else { seq![] };
        a + b + c
    }
}

/// The indices in `1..n` that have no verdict, in increasing order.
pub open spec fn unknown_below(s: SessionModel, n: int) -> Seq<usize>
    decreases n,
{
    if n <= 1 {
        seq![]
    } else {
        let prev = unknown_below(s, n - 1);
        if verdict_at(s, n - 1) is None {
            prev.push((n - 1) as usize)
        } else {
            prev
        }
    }
}

/// The interior indices of the window that still lack a verdict.
pub open spec fn spec_scan_indices(s: SessionModel) -> Seq<usize> {
    unknown_below(s, s.commit_range.len() - 1)
}

/// A verdict other than `Uncertain` is known at `i`.
pub open spec fn is_known(s: SessionModel, i: int) -> bool {
    match verdict_at(s, i) {
        Some(v) => v != ProbeVerdict::Uncertain,
        None => false,
    }
}

/// `(a, b)` are neighbouring known verdicts, good then bad.
pub open spec fn is_bad_window(s: SessionModel, a: int, b: int) -> bool {
    &&& 0 <= a < b < s.commit_range.len()
    &&& verdict_at(s, a) == Some(ProbeVerdict::Good)
    &&& verdict_at(s, b) == Some(ProbeVerdict::Bad)
    &&& forall|j: int| a < j < b ==> !#[trigger] is_known(s, j)
}

/// The earliest good-to-bad window of the session, if there is one.
pub open spec fn spec_first_bad_window(s: SessionModel) -> Option<(usize, usize)> {
    if exists|a: int, b: int| is_bad_window(s, a, b) {
        let (a, b) = choose|a: int, b: int|
            is_bad_window(s, a, b) && forall|c: int, d: int| is_bad_window(s, c, d) ==> a <= c;
        Some((a as usize, b as usize))
    } else {
        None
    }
}

/// The last position of `h` in `r`.
pub open spec fn last_pos(r: Seq<Seq<char>>, h: Seq<char>) -> Option<int>
    decreases r.len(),
{
    if r.len() == 0 {
        None
    } else if r.last() == h {
        Some(r.len() - 1)
    } else {
        last_pos(r.drop_last(), h)
    }
}

/// The probes whose commit lies in the new window `r`, re-indexed into it.
pub open spec fn rebase_history(h: Seq<ProbeModel>, r: Seq<Seq<char>>) -> Seq<ProbeModel>
    decreases h.len(),
{
    if h.len() == 0 {
        seq![]
    } else {
        let prev = rebase_history(h.drop_last(), r);
        match last_pos(r, h.last().commit_hash) {
            Some(p) => prev.push(ProbeModel { index: p as usize, ..h.last() }),
            None => prev,
        }
    }
}

/// Narrows the window to `start..=end`.
pub open spec fn spec_rebase(s: SessionModel, start: int, end: int) -> SessionModel {
    let r = s.commit_range.subrange(start, end + 1);
    SessionModel {
        commit_range: r,
        probe_history: rebase_history(s.probe_history, r),
        pending_indices: seq![],
        current_index: None,
        current_job_id: None,
        candidate_index: None,
        candidate_revision_id: None,
        phase: if r.len() <= SAMPLE_WINDOW_MAX {
            HuntPhase::Scanning
        } else {
            HuntPhase::Sampling
        },
        ..s
    }
}

/// The revision of the first probe of commit `h`.
pub open spec fn first_revision(hist: Seq<ProbeModel>, h: Seq<char>) -> Option<Seq<char>>
    decreases hist.len(),
{
    if hist.len() == 0 {
        None
    } else if hist[0].commit_hash == h {
        Some(hist[0].revision_id)
    } else {
        first_revision(hist.drop_first(), h)
    }
}

/// The revision id known for a commit: from a probe, or the session's endpoints.
pub open spec fn spec_revision_for(s: SessionModel, h: Option<Seq<char>>) -> Option<Seq<char>> {
    match h {
        None => None,
        Some(x) => match first_revision(s.probe_history, x) {
            Some(r) => Some(r),
            None => if s.commit_range.len() > 0 && s.commit_range[0] == x {
                Some(s.good_revision_id)
            } else if s.commit_range.len() > 0 && s.commit_range.last() == x {
                Some(s.bad_revision_id)
            } else {
                None
            },
        },
    }
}

/// The culprit a finished scan identifies: the first non-good index from `i`
/// on, when it is bad and everything before it is good.
pub open spec fn scan_outcome_from(s: SessionModel, i: int) -> Option<Seq<char>>
    decreases s.commit_range.len() - i,
{
    if i >= s.commit_range.len() {
        None
    } else {
        match verdict_at(s, i) {
            Some(ProbeVerdict::Good) => scan_outcome_from(s, i + 1),
            Some(ProbeVerdict::Bad) => if forall|j: int|
                0 <= j < i ==> #[trigger] verdict_at(s, j) == Some(ProbeVerdict::Good) {
                spec_revision_for(s, Some(s.commit_range[i]))
            } else {
                None
            },
            _ => None,
        }
    }
}

/// Plans the probes of the current phase.
#[verifier::opaque]
pub open spec fn spec_replan(s: SessionModel) -> SessionModel {
    let s1 = SessionModel { current_index: None, current_job_id: None, ..s };
    let len = s1.commit_range.len();
    if len <= 2 {
        let last = if len > 0 { Some(s1.commit_range.last()) } else { None };
        match spec_revision_for(s1, last) {
            Some(r) => SessionModel {
                phase: HuntPhase::Found,
                status: BisectStatus::Found,
                culprit_revision_id: Some(r),
                pending_indices: seq![],
                ..s1
            },
            None => SessionModel {
                phase: HuntPhase::Failed,
                status: BisectStatus::Failed,
                pending_indices: seq![],
                ..s1
            },
        }
    } else {
        match s1.phase {
            HuntPhase::Sampling => {
                let planned = spec_sample_indices(s1);
                if planned.len() == 0 {
                    SessionModel {
                        phase: HuntPhase::Scanning,
                        pending_indices: spec_scan_indices(s1),
                        ..s1
                    }
                } else {
                    SessionModel { pending_indices: planned, ..s1 }
                }
            },
            HuntPhase::Scanning => SessionModel { pending_indices: spec_scan_indices(s1), ..s1 },
            _ => SessionModel { pending_indices: seq![], ..s1 },
        }
    }
}

/// Moves a sampling or scanning session on once its planned probes are exhausted.
#[verifier::opaque]
pub open spec fn spec_advance(s: SessionModel) -> SessionModel {
    match s.phase {
        HuntPhase::Sampling => match spec_first_bad_window(s) {
            None => SessionModel { phase: HuntPhase::Failed, status: BisectStatus::Failed, ..s },
            Some((a, b)) => spec_replan(spec_rebase(s, a as int, b as int)),
        },
        HuntPhase::Scanning => match scan_outcome_from(s, 1) {
            Some(r) => SessionModel {
                phase: HuntPhase::Found,
                status: BisectStatus::Found,
                culprit_revision_id: Some(r),
                ..s
            },
            None => SessionModel { phase: HuntPhase::Failed, status: BisectStatus::Failed, ..s },
        },
        _ => s,
    }
}

/// Model of a [`BisectStep`].
pub enum StepModel {
    Test { commit_hash: Seq<char>, index: usize, remaining_range: usize, phase: HuntPhase },
    Found { culprit: Seq<char> },
    Failed { reason: Seq<char> },
}

/// Model of a [`BisectAction`].
pub enum ActionModel {
    TestNext { commit_hash: Seq<char>, index: usize, remaining: usize, phase: HuntPhase },
    Found { culprit: Seq<char> },
    Failed { reason: Seq<char> },
}

pub open spec fn reason_inconclusive() -> Seq<char> {
    "Regression hunt became inconclusive"@
}

pub open spec fn reason_lost_probe() -> Seq<char> {
    "Bisect session lost its active probe"@
}

pub open spec fn reason_no_probe() -> Seq<char> {
    "Regression hunt did not produce another probe"@
}

/// The probe a session in `phase` asks for at `i`.
pub open spec fn test_step(s: SessionModel, i: usize) -> StepModel {
    StepModel::Test {
        commit_hash: s.commit_range[i as int],
        index: i,
        remaining_range: s.commit_range.len() as usize,
        phase: s.phase,
    }
}

/// Looks for the next probe, advancing the hunt at most `fuel` times.
pub open spec fn spec_next_fuel(s: SessionModel, fuel: nat) -> (SessionModel, Option<StepModel>)
    decreases fuel,
{
    match s.phase {
        HuntPhase::Found => (
            SessionModel { status: BisectStatus::Found, ..s },
            match s.culprit_revision_id {
                Some(c) => Some(StepModel::Found { culprit: c }),
                None => None,
            },
        ),
        HuntPhase::Failed => (
            SessionModel { status: BisectStatus::Failed, ..s },
            Some(StepModel::Failed { reason: reason_inconclusive() }),
        ),
        HuntPhase::Confirming => match s.candidate_index {
            None => (s, None),
            Some(i) => (SessionModel { current_index: Some(i), ..s }, Some(test_step(s, i))),
        },
        _ => if s.pending_indices.len() > 0 {
            let i = s.pending_indices[0];
            (
                SessionModel {
                    pending_indices: s.pending_indices.drop_first(),
                    current_index: Some(i),
                    ..s
                },
                Some(test_step(s, i)),
            )
        } else if fuel == 0 {
            (s, None)
        } else {
            spec_next_fuel(spec_advance(s), (fuel - 1) as nat)
        },
    }
}

/// What asking a session for its next probe does to it, and what it answers.
pub open spec fn spec_next(s: SessionModel) -> (SessionModel, Option<StepModel>) {
    if s.status != BisectStatus::Running || s.current_job_id is Some {
        (s, None)
    } else {
        spec_next_fuel(s, 3)
    }
}

/// Records a probe outcome for the probe in flight at `index`.
pub open spec fn spec_record(
    s: SessionModel,
    index: usize,
    tested: Seq<char>,
    job: Seq<char>,
    verdict: ProbeVerdict,
) -> SessionModel {
    let s1 = SessionModel {
        current_index: None,
        current_job_id: None,
        probe_history: s.probe_history.push(
            ProbeModel {
                commit_hash: s.commit_range[index as int],
                revision_id: tested,
                index,
                verdict,
                job_id: job,
            },
        ),
        ..s
    };
    match s1.phase {
        HuntPhase::Scanning => if verdict == ProbeVerdict::Bad {
            SessionModel {
                phase: HuntPhase::Confirming,
                candidate_index: Some(index),
                candidate_revision_id: Some(tested),
                ..s1
            }
        } else {
            s1
        },
        HuntPhase::Confirming => if verdict == ProbeVerdict::Bad {
            SessionModel {
                phase: HuntPhase::Found,
                status: BisectStatus::Found,
                culprit_revision_id: Some(tested),
                ..s1
            }
        } else {
            SessionModel {
                phase: HuntPhase::Scanning,
                candidate_index: None,
                candidate_revision_id: None,
                ..s1
            }
        },
        _ => s1,
    }
}

/// The action reported after a probe outcome, given the next step.
pub open spec fn action_of(s: SessionModel, step: Option<StepModel>) -> ActionModel {
    match step {
        Some(StepModel::Test { commit_hash, index, remaining_range, phase }) => ActionModel::TestNext {
            commit_hash,
            index,
            remaining: remaining_range,
            phase,
        },
        Some(StepModel::Found { culprit }) => ActionModel::Found { culprit },
        Some(StepModel::Failed { reason }) => ActionModel::Failed { reason },
        None => match s.culprit_revision_id {
            Some(c) => ActionModel::Found { culprit: c },
            None => ActionModel::Failed { reason: reason_no_probe() },
        },
    }
}

/// What processing a probe outcome does to a session, and what it answers.
pub open spec fn spec_process(
    s: SessionModel,
    tested: Seq<char>,
    job: Seq<char>,
    verdict: ProbeVerdict,
) -> (SessionModel, ActionModel) {
    match s.current_index {
        None => (
            SessionModel { phase: HuntPhase::Failed, status: BisectStatus::Failed, ..s },
            ActionModel::Failed { reason: reason_lost_probe() },
        ),
        Some(index) => {
            let s2 = spec_record(s, index, tested, job, verdict);
            let (s3, step) = spec_next(s2);
            (s3, action_of(s3, step))
        },
    }
}


// ---------------------------------------------------------------------------
// The runner
// ---------------------------------------------------------------------------

/// Result of asking the regression hunt what to do next.
pub enum BisectStep {
    /// Test this commit against the fixed baseline.
    Test { commit_hash: String, index: usize, remaining_range: usize, phase: HuntPhase },
    /// We found the culprit.
    Found { culprit: String },
    /// The hunt could not localize a culprit safely.
    Failed { reason: String },
}

/// Action to take after processing a probe result.
pub enum BisectAction {
    /// Test the next commit.
    TestNext { commit_hash: String, index: usize, remaining: usize, phase: HuntPhase },
    /// Regression hunt is complete.
    Found { culprit: String },
    /// Regression hunt became inconclusive.
    Failed { reason: String },
}

impl View for BisectStep {
    type V = StepModel;

    open spec fn view(&self) -> StepModel {
        match self {
            BisectStep::Test { commit_hash, index, remaining_range, phase } => StepModel::Test {
                commit_hash: commit_hash@,
                index: *index,
                remaining_range: *remaining_range,
                phase: *phase,
            },
            BisectStep::Found { culprit } => StepModel::Found { culprit: culprit@ },
            BisectStep::Failed { reason } => StepModel::Failed { reason: reason@ },
        }
    }
}

impl View for BisectAction {
    type V = ActionModel;

    open spec fn view(&self) -> ActionModel {
        match self {
            BisectAction::TestNext { commit_hash, index, remaining, phase } => ActionModel::TestNext {
                commit_hash: commit_hash@,
                index: *index,
                remaining: *remaining,
                phase: *phase,
            },
            BisectAction::Found { culprit } => ActionModel::Found { culprit: culprit@ },
            BisectAction::Failed { reason } => ActionModel::Failed { reason: reason@ },
        }
    }
}

/// Views an optional step.
pub open spec fn step_view(o: Option<BisectStep>) -> Option<StepModel> {
    match o {
        Some(step) => Some(step@),
        None => None,
    }
}

/// Why a regression hunt could not start.
#[derive(Debug, Clone, Copy, PartialEq, Eq, Structural)]
pub enum BisectError {
    /// The commit range has fewer than two commits.
    RangeTooShort,
}

impl BisectError {
    /// A human-readable description of the error.
    pub fn message(&self) -> (r: String)
        ensures
            r@ == "Need at least 2 commits in range to bisect"@,
    {
        "Need at least 2 commits in range to bisect".to_owned()
    }
}

/// The session a hunt starts from, before its first plan.
pub open spec fn initial_session(
    id: Seq<char>,
    engine_id: Seq<char>,
    good: Seq<char>,
    bad: Seq<char>,
    range: Seq<Seq<char>>,
) -> SessionModel {
    SessionModel {
        id,
        engine_id,
        good_revision_id: good,
        bad_revision_id: bad,
        commit_range: range,
        current_index: None,
        current_job_id: None,
        phase: if range.len() <= SAMPLE_WINDOW_MAX {
            HuntPhase::Scanning
        } else {
            HuntPhase::Sampling
        },
        pending_indices: seq![],
        probe_history: seq![],
        candidate_revision_id: None,
        candidate_index: None,
        status: BisectStatus::Running,
        culprit_revision_id: None,
    }
}

/// How many more times a session may need to advance before it yields a step.
pub open spec fn advances_needed(s: SessionModel) -> nat {
    match s.phase {
        HuntPhase::Sampling => if s.pending_indices.len() == 0 { 2 } else { 0 },
        HuntPhase::Scanning => if s.pending_indices.len() == 0 { 1 } else { 0 },
        _ => 0,
    }
}

proof fn lemma_unknown_below_bound(s: SessionModel, n: int)
    requires
        n <= usize::MAX + 1,
    ensures
        forall|k: int|
            0 <= k < unknown_below(s, n).len() ==> 1 <= #[trigger] unknown_below(s, n)[k] < n,
    decreases n,
{
    if n > 1 {
        lemma_unknown_below_bound(s, n - 1);
        let prev = unknown_below(s, n - 1);
        if verdict_at(s, n - 1) is None {
            assert(unknown_below(s, n) == prev.push((n - 1) as usize));
            assert forall|k: int| 0 <= k < unknown_below(s, n).len() implies 1
                <= #[trigger] unknown_below(s, n)[k] < n by {
                if k < prev.len() {
                    assert(unknown_below(s, n)[k] == prev[k]);
                }
            }
        }
    }
}

proof fn lemma_rebase_history_bound(h: Seq<ProbeModel>, r: Seq<Seq<char>>)
    ensures
        forall|k: int|
            0 <= k < rebase_history(h, r).len() ==> #[trigger] rebase_history(h, r)[k].index
                < r.len(),
    decreases h.len(),
{
    if h.len() > 0 {
        lemma_rebase_history_bound(h.drop_last(), r);
        lemma_last_pos_bound(r, h.last().commit_hash);
    }
}

proof fn lemma_replan_wf(s: SessionModel)
    requires
        s.commit_range.len() >= 2,
        s.commit_range.len() <= usize::MAX,
        forall|k: int| 0 <= k < s.probe_history.len() ==> #[trigger] s.probe_history[k].index
            < s.commit_range.len(),
        s.candidate_index matches Some(i) ==> i < s.commit_range.len(),
    ensures
        session_wf(spec_replan(s)),
        spec_replan(s).commit_range == s.commit_range,
        spec_replan(s).id == s.id,
        spec_replan(s).phase == HuntPhase::Sampling ==> spec_replan(s).pending_indices.len() > 0,
        spec_replan(s).phase != HuntPhase::Confirming || s.phase == HuntPhase::Confirming,
{
    reveal(spec_replan);
    let s1 = SessionModel { current_index: None, current_job_id: None, ..s };
    lemma_unknown_below_bound(s1, s.commit_range.len() - 1);
}

proof fn lemma_first_window_sound(s: SessionModel)
    requires
        s.commit_range.len() <= usize::MAX,
    ensures
        spec_first_bad_window(s) matches Some((a, b)) ==> is_bad_window(s, a as int, b as int)
            && a < b,
{
    if exists|a: int, b: int| is_bad_window(s, a, b) {
        let (a0, b0) = choose|a: int, b: int| is_bad_window(s, a, b);
        lemma_min_window(s, a0);
        let (a, b) = choose|a: int, b: int|
            is_bad_window(s, a, b) && forall|c: int, d: int| is_bad_window(s, c, d) ==> a <= c;
        assert(is_bad_window(s, a, b));
        assert(spec_first_bad_window(s) == Some((a as usize, b as usize)));
    }
}

proof fn lemma_min_window(s: SessionModel, n: int)
    requires
        n >= 0,
        exists|a: int, b: int| is_bad_window(s, a, b) && a <= n,
    ensures
        exists|a: int, b: int|
            is_bad_window(s, a, b) && forall|c: int, d: int| is_bad_window(s, c, d) ==> a <= c,
    decreases n,
{
    if exists|a: int, b: int| is_bad_window(s, a, b) && a < n {
        lemma_min_window(s, n - 1);
    } else {
        let (a, b) = choose|a: int, b: int| is_bad_window(s, a, b) && a <= n;
        assert forall|c: int, d: int| is_bad_window(s, c, d) implies a <= c by {
            if c < n {
                assert(is_bad_window(s, c, d) && c < n);
            }
        }
    }
}

proof fn lemma_rebase_wf(s: SessionModel, a: int, b: int)
    requires
        session_wf(s),
        0 <= a < b < s.commit_range.len(),
    ensures
        ({
            let r = spec_rebase(s, a, b);
            &&& r.commit_range.len() == b - a + 1
            &&& forall|k: int| 0 <= k < r.probe_history.len() ==> #[trigger] r.probe_history[k].index
                < r.commit_range.len()
            &&& r.candidate_index is None
            &&& r.phase == HuntPhase::Sampling || r.phase == HuntPhase::Scanning
        }),
{
    let r = spec_rebase(s, a, b);
    lemma_rebase_history_bound(s.probe_history, r.commit_range);
}

#[verifier::rlimit(30)]
proof fn lemma_sampling_advance_wf(s: SessionModel)
    requires
        session_wf(s),
        s.phase == HuntPhase::Sampling,
    ensures
        session_wf(spec_advance(s)),
        spec_advance(s).phase == HuntPhase::Sampling ==> spec_advance(s).pending_indices.len() > 0,
        spec_advance(s).phase != HuntPhase::Confirming,
        is_subwindow(spec_advance(s).commit_range, s.commit_range),
{
    reveal(spec_advance);
    lemma_first_window_sound(s);
    match spec_first_bad_window(s) {
        None => {
            assert(s.commit_range == s.commit_range.subrange(0, s.commit_range.len() as int));
        },
        Some((a, b)) => {
            lemma_rebase_wf(s, a as int, b as int);
            let r = spec_rebase(s, a as int, b as int);
            lemma_replan_wf(r);
            assert(spec_advance(s).commit_range == s.commit_range.subrange(a as int, b + 1));
        },
    }
}

proof fn lemma_advance_wf(s: SessionModel)
    requires
        session_wf(s),
        s.phase == HuntPhase::Sampling || s.phase == HuntPhase::Scanning,
        s.pending_indices.len() == 0,
    ensures
        session_wf(spec_advance(s)),
        advances_needed(spec_advance(s)) < advances_needed(s),
        spec_advance(s).phase != HuntPhase::Confirming,
{
    reveal(spec_advance);
    if s.phase == HuntPhase::Sampling {
        lemma_sampling_advance_wf(s);
    }
}

/// The session has run out of planned probes and must advance to go on.
pub open spec fn needs_advance(s: SessionModel) -> bool {
    (s.phase == HuntPhase::Sampling || s.phase == HuntPhase::Scanning) && s.pending_indices.len()
        == 0
}

proof fn lemma_next_fuel_irrelevant(s: SessionModel, fuel: nat)
    requires
        !needs_advance(s),
    ensures
        spec_next_fuel(s, fuel) == spec_next_fuel(s, 0),
{
}

/// Drives regression hunts. It keeps no state of its own: all of a hunt's
/// state lives in its [`BisectSession`].
pub struct BisectRunner;

proof fn lemma_last_verdict_take(h: Seq<ProbeModel>, k: int, i: int)
    requires
        0 < k <= h.len(),
        h[k - 1].index != i,
    ensures
        last_verdict(h.take(k), i) == last_verdict(h.take(k - 1), i),
{
    assert(h.take(k).drop_last() =~= h.take(k - 1));
}

proof fn lemma_first_window_unique(s: SessionModel, a: int, b: int)
    requires
        is_bad_window(s, a, b),
        forall|c: int, d: int| is_bad_window(s, c, d) ==> a <= c,
    ensures
        spec_first_bad_window(s) == Some((a as usize, b as usize)),
{
    let (a2, b2) = choose|a2: int, b2: int|
        is_bad_window(s, a2, b2) && forall|c: int, d: int| is_bad_window(s, c, d) ==> a2 <= c;
    assert(a2 <= a);
    assert(a <= a2);
    if b2 < b {
        assert(is_known(s, b2));
    } else if b < b2 {
        assert(is_known(s, b));
    }
}

proof fn lemma_first_revision_skip(h: Seq<ProbeModel>, k: int, x: Seq<char>)
    requires
        0 <= k < h.len(),
        h[k].commit_hash != x,
    ensures
        first_revision(h.skip(k), x) == first_revision(h.skip(k + 1), x),
{
    assert(h.skip(k).drop_first() =~= h.skip(k + 1));
    assert(h.skip(k)[0] == h[k]);
}

proof fn lemma_last_pos_take(r: Seq<Seq<char>>, k: int, x: Seq<char>)
    requires
        0 < k <= r.len(),
        r[k - 1] != x,
    ensures
        last_pos(r.take(k), x) == last_pos(r.take(k - 1), x),
{
    assert(r.take(k).drop_last() =~= r.take(k - 1));
}

proof fn lemma_last_pos_bound(r: Seq<Seq<char>>, x: Seq<char>)
    ensures
        last_pos(r, x) matches Some(p) ==> 0 <= p < r.len() && r[p] == x,
    decreases r.len(),
{
    if r.len() > 0 && r.last() != x {
        lemma_last_pos_bound(r.drop_last(), x);
    }
}

impl BisectRunner {
    /// The verdict known at `index` of the session's window.
    fn verdict_at(&self, session: &BisectSession, index: usize) -> (r: Option<ProbeVerdict>)
        requires
            session.commit_range.len() >= 1,
        ensures
            r == verdict_at(session@, index as int),
    {
        let ghost h = session@.probe_history;
        let mut k: usize = session.probe_history.len();
        assert(h.take(k as int) =~= h);
        while k > 0
            invariant
                k <= session.probe_history.len(),
                h == session@.probe_history,
                last_verdict(h, index as int) == last_verdict(h.take(k as int), index as int),
            decreases k,
        {
            k = k - 1;
            if session.probe_history[k].index == index {
                assert(h.take(k + 1).last() == h[k as int]);
                return Some(session.probe_history[k].verdict);
            }
            proof {
                lemma_last_verdict_take(h, k + 1, index as int);
            }
        }
        assert(h.take(0) =~= Seq::<ProbeModel>::empty());
        if index == session.commit_range.len() - 1 {
            Some(ProbeVerdict::Bad)
        } else if index == 0 {
            Some(ProbeVerdict::Good)
        } else {
            None
        }
    }

    /// Whether some probe was recorded at `index`.
    fn was_tested(&self, session: &BisectSession, index: usize) -> (r: bool)
        ensures
            r == was_tested(session@, index as int),
    {
        let ghost h = session@.probe_history;
        let mut k: usize = 0;
        while k < session.probe_history.len()
            invariant
                k <= session.probe_history.len(),
                h == session@.probe_history,
                forall|j: int| 0 <= j < k ==> h[j].index != index,
            decreases session.probe_history.len() - k,
        {
            if session.probe_history[k].index == index {
                assert(h[k as int].index == index);
                return true;
            }
            k = k + 1;
        }
        false
    }

    /// The sample point at the given quarter of a window of `len > 6` commits.
    fn sample_target(len: usize, quarter: u8) -> (r: usize)
        requires
            len > SAMPLE_WINDOW_MAX,
            1 <= quarter <= 3,
        ensures
            r as int == sample_target(len as int, quarter as int),
            1 <= r <= len - 2,
    {
        let m: u128 = (len - 1) as u128;
        let q: u128 = quarter as u128;
        assert(m * q <= 3 * 0xffff_ffff_ffff_ffffu128) by (nonlinear_arith)
            requires
                m <= 0xffff_ffff_ffff_ffffu128,
                q <= 3,
        ;
        let raw: u128 = (m * q) / 4;
        if raw < 1 {
            1
        } else if raw > (len - 2) as u128 {
            len - 2
        } else {
            raw as usize
        }
    }

    /// The untested quarter points of a large window.
    fn sample_indices(&self, session: &BisectSession) -> (r: Vec<usize>)
        ensures
            r@ == spec_sample_indices(session@),
    {
        let len = session.commit_range.len();
        if len <= SAMPLE_WINDOW_MAX {
            return Vec::new();
        }
        let t1 = Self::sample_target(len, 1);
        let t2 = Self::sample_target(len, 2);
        let t3 = Self::sample_target(len, 3);
        let mut indices: Vec<usize> = Vec::new();
        if !self.was_tested(session, t1) {
            indices.push(t1);
        }
        if !self.was_tested(session, t2) && t2 != t1 {
            indices.push(t2);
        }
        if !self.was_tested(session, t3) && t3 != t2 {
            indices.push(t3);
        }
        proof {
            let s = session@;
            let a = if !was_tested(s, t1 as int) { seq![t1] } else { Seq::<usize>::empty() };
            let b = if !was_tested(s, t2 as int) && t2 != t1 { seq![t2] } else { Seq::<usize>::empty() };
            let c = if !was_tested(s, t3 as int) && t3 != t2 { seq![t3] } else { Seq::<usize>::empty() };
            assert(indices@ =~= a + b + c);
        }
        indices
    }

    /// The interior indices of the window that still lack a verdict.
    fn scan_indices(&self, session: &BisectSession) -> (r: Vec<usize>)
        requires
            session.commit_range.len() >= 1,
        ensures
            r@ == spec_scan_indices(session@),
    {
        let mut indices: Vec<usize> = Vec::new();
        let end = session.commit_range.len() - 1;
        let mut index: usize = 1;
        while index < end
            invariant
                1 <= index,
                end == session.commit_range.len() - 1,
                index <= end || index == 1,
                indices@ == unknown_below(session@, index as int),
            decreases end - index,
        {
            if self.verdict_at(session, index).is_none() {
                indices.push(index);
            }
            index = index + 1;
        }
        assert(session@.commit_range.len() == session.commit_range@.len());
        if end == 0 {
            assert(unknown_below(session@, 0) =~= Seq::<usize>::empty());
        }
        indices
    }

    /// The earliest window of neighbouring known verdicts that goes from good to bad.
    fn first_bad_window(&self, session: &BisectSession) -> (r: Option<(usize, usize)>)
        requires
            session.commit_range.len() >= 1,
        ensures
            r == spec_first_bad_window(session@),
            r matches Some((a, b)) ==> is_bad_window(session@, a as int, b as int),
    {
        let ghost s = session@;
        let len = session.commit_range.len();
        assert(s.commit_range.len() == len);
        let mut last: Option<(usize, ProbeVerdict)> = None;
        let mut i: usize = 0;
        while i < len
            invariant
                i <= len,
                len == session.commit_range.len(),
                s == session@,
                s.commit_range.len() == len,
                match last {
                    None => forall|j: int| 0 <= j < i ==> !#[trigger] is_known(s, j),
                    Some((a, v)) => {
                        &&& a < i
                        &&& verdict_at(s, a as int) == Some(v)
                        &&& v != ProbeVerdict::Uncertain
                        &&& forall|j: int| a < j < i ==> !#[trigger] is_known(s, j)
                    },
                },
                forall|a: int, b: int| b < i ==> !is_bad_window(s, a, b),
            decreases len - i,
        {
            let v = self.verdict_at(session, i);
            match v {
                Some(ProbeVerdict::Bad) => {
                    if let Some((a, ProbeVerdict::Good)) = last {
                        proof {
                            assert(is_bad_window(s, a as int, i as int));
                            assert forall|c: int, d: int| is_bad_window(s, c, d) implies a <= c by {
                                if c < a {
                                    assert(is_known(s, a as int));
                                }
                            }
                            lemma_first_window_unique(s, a as int, i as int);
                        }
                        return Some((a, i));
                    }
                    proof {
                        assert forall|a: int, b: int| b < i + 1 implies !is_bad_window(s, a, b) by {
                            if b == i && is_bad_window(s, a, b) {
                                assert(is_known(s, a));
                                match last {
                                    None => {},
                                    Some((a0, v0)) => {
                                        if a < a0 {
                                            assert(is_known(s, a0 as int));
                                        }
                                    },
                                }
                            }
                        }
                    }
                    last = Some((i, ProbeVerdict::Bad));
                },
                Some(ProbeVerdict::Good) => {
                    last = Some((i, ProbeVerdict::Good));
                },
                _ => {
                    assert(!is_known(s, i as int));
                },
            }
            i = i + 1;
        }
        proof {
            if exists|a: int, b: int| is_bad_window(s, a, b) {
                let (a, b) = choose|a: int, b: int| is_bad_window(s, a, b);
                assert(!is_bad_window(s, a, b));
            }
        }
        None
    }

    /// The revision id known for a commit of the window.
    fn revision_id_for_hash(&self, session: &BisectSession, commit_hash: Option<&String>) -> (r:
        Option<String>)
        ensures
            opt_str_view(r) == spec_revision_for(
                session@,
                match commit_hash {
                    Some(h) => Some(h@),
                    None => None,
                },
            ),
    {
        let hash = match commit_hash {
            Some(h) => h,
            None => return None,
        };
        let ghost s = session@;
        let ghost h = s.probe_history;
        let mut k: usize = 0;
        assert(h.skip(0) =~= h);
        while k < session.probe_history.len()
            invariant
                k <= session.probe_history.len(),
                s == session@,
                h == s.probe_history,
                first_revision(h, hash@) == first_revision(h.skip(k as int), hash@),
                commit_hash == Some(hash),
            decreases session.probe_history.len() - k,
        {
            if session.probe_history[k].commit_hash == *hash {
                assert(h.skip(k as int)[0] == h[k as int]);
                assert(h[k as int] == session.probe_history@[k as int]@);
                assert(first_revision(h.skip(k as int), hash@) == Some(h[k as int].revision_id));
                let found = session.probe_history[k].revision_id.clone();
                assert(found@ == h[k as int].revision_id);
                assert(spec_revision_for(s, Some(hash@)) == Some(found@));
                return Some(found);
            }
            proof {
                lemma_first_revision_skip(h, k as int, hash@);
            }
            k = k + 1;
        }
        assert(h.skip(k as int) =~= Seq::<ProbeModel>::empty());
        let len = session.commit_range.len();
        if len > 0 && session.commit_range[0] == *hash {
            return Some(session.good_revision_id.clone());
        }
        if len > 0 && session.commit_range[len - 1] == *hash {
            return Some(session.bad_revision_id.clone());
        }
        None
    }

    /// The last position of `hash` in `range`.
    fn last_position(range: &Vec<String>, hash: &String) -> (r: Option<usize>)
        ensures
            match r {
                Some(p) => last_pos(range@.map_values(|h: String| h@), hash@) == Some(p as int),
                None => last_pos(range@.map_values(|h: String| h@), hash@) is None,
            },
    {
        let ghost rv = range@.map_values(|h: String| h@);
        let mut k: usize = range.len();
        assert(rv.take(k as int) =~= rv);
        while k > 0
            invariant
                k <= range.len(),
                rv == range@.map_values(|h: String| h@),
                last_pos(rv, hash@) == last_pos(rv.take(k as int), hash@),
            decreases k,
        {
            k = k - 1;
            if range[k] == *hash {
                assert(rv.take(k + 1).last() == rv[k as int]);
                return Some(k);
            }
            proof {
                lemma_last_pos_take(rv, k + 1, hash@);
            }
        }
        assert(rv.take(0) =~= Seq::<Seq<char>>::empty());
        None
    }

    /// Narrows the session's window to `start..=end`, keeping the probes of
    /// the commits that remain in it.
    fn rebase_window(&self, session: &mut BisectSession, start: usize, end: usize)
        requires
            start < end < old(session).commit_range.len(),
        ensures
            final(session)@ == spec_rebase(old(session)@, start as int, end as int),
    {
        let ghost s = session@;
        let mut new_range: Vec<String> = Vec::new();
        let mut j: usize = start;
        while j <= end
            invariant
                start <= j <= end + 1,
                end < session.commit_range.len(),
                s == session@,
                new_range@.map_values(|h: String| h@) =~= s.commit_range.subrange(
                    start as int,
                    j as int,
                ),
            decreases end + 1 - j,
        {
            let ghost before = new_range@.map_values(|h: String| h@);
            let item = session.commit_range[j].clone();
            assert(item@ == s.commit_range[j as int]);
            new_range.push(item);
            assert(new_range@.map_values(|h: String| h@) =~= before.push(item@));
            assert(s.commit_range.subrange(start as int, j + 1) =~= s.commit_range.subrange(
                start as int,
                j as int,
            ).push(s.commit_range[j as int]));
            j = j + 1;
        }
        let ghost rv = new_range@.map_values(|h: String| h@);
        assert(rv =~= s.commit_range.subrange(start as int, end + 1));
        let ghost h = s.probe_history;
        let mut new_history: Vec<ProbeRecord> = Vec::new();
        let mut k: usize = 0;
        assert(h.take(0) =~= Seq::<ProbeModel>::empty());
        while k < session.probe_history.len()
            invariant
                k <= session.probe_history.len(),
                s == session@,
                h == s.probe_history,
                rv == new_range@.map_values(|h: String| h@),
                new_history@.map_values(|r: ProbeRecord| r@) =~= rebase_history(
                    h.take(k as int),
                    rv,
                ),
            decreases session.probe_history.len() - k,
        {
            let ghost before = new_history@.map_values(|r: ProbeRecord| r@);
            assert(h.take(k + 1).drop_last() =~= h.take(k as int));
            assert(h.take(k + 1).last() == h[k as int]);
            match Self::last_position(&new_range, &session.probe_history[k].commit_hash) {
                Some(p) => {
                    let mut record = session.probe_history[k].duplicate();
                    record.index = p;
                    new_history.push(record);
                    assert(new_history@.map_values(|r: ProbeRecord| r@) =~= before.push(
                        ProbeModel { index: p, ..h[k as int] },
                    ));
                },
                None => {},
            }
            k = k + 1;
        }
        assert(h.take(k as int) =~= h);
        session.probe_history = new_history;
        session.commit_range = new_range;
        session.pending_indices.clear();
        session.current_index = None;
        session.current_job_id = None;
        session.candidate_index = None;
        session.candidate_revision_id = None;
        session.phase = if session.commit_range.len() <= SAMPLE_WINDOW_MAX {
            HuntPhase::Scanning
        } else {
            HuntPhase::Sampling
        };
        assert(session@.pending_indices =~= Seq::<usize>::empty());
    }

    /// The culprit a finished scan identifies, if the scan is conclusive.
    fn evaluate_scan_window(&self, session: &BisectSession) -> (r: Option<String>)
        requires
            session.commit_range.len() >= 1,
        ensures
            opt_str_view(r) == scan_outcome_from(session@, 1),
    {
        let ghost s = session@;
        let len = session.commit_range.len();
        assert(s.commit_range.len() == len);
        let mut index: usize = 1;
        while index < len
            invariant
                1 <= index,
                len == session.commit_range.len(),
                s == session@,
                s.commit_range.len() == len,
                scan_outcome_from(s, 1) == scan_outcome_from(s, index as int),
                forall|j: int| 1 <= j < index ==> verdict_at(s, j) == Some(ProbeVerdict::Good),
            decreases len - index,
        {
            match self.verdict_at(session, index) {
                Some(ProbeVerdict::Good) => {
                    index = index + 1;
                },
                Some(ProbeVerdict::Bad) => {
                    let first = self.verdict_at(session, 0);
                    let previous_all_good = match first {
                        Some(ProbeVerdict::Good) => true,
                        _ => false,
                    };
                    if !previous_all_good {
                        assert(!(verdict_at(s, 0) == Some(ProbeVerdict::Good)));
                        return None;
                    }
                    assert(forall|j: int|
                        0 <= j < index ==> #[trigger] verdict_at(s, j) == Some(ProbeVerdict::Good));
                    return self.revision_id_for_hash(session, Some(&session.commit_range[index]));
                },
                _ => {
                    return None;
                },
            }
        }
        None
    }

    /// Plans the probes of the session's current phase.
    fn replan(&self, session: &mut BisectSession)
        requires
            old(session).commit_range.len() >= 1,
        ensures
            final(session)@ == spec_replan(old(session)@),
    {
        reveal(spec_replan);
        let ghost s0 = session@;
        session.current_index = None;
        session.current_job_id = None;
        let ghost s1 = session@;
        assert(s1 == SessionModel { current_index: None, current_job_id: None, ..s0 });
        let len = session.commit_range.len();
        if len <= 2 {
            let culprit = self.revision_id_for_hash(session, Some(&session.commit_range[len - 1]));
            assert(s1.commit_range.last() == session.commit_range@[len - 1]@);
            match culprit {
                Some(revision_id) => {
                    session.phase = HuntPhase::Found;
                    session.status = BisectStatus::Found;
                    session.culprit_revision_id = Some(revision_id);
                },
                None => {
                    session.phase = HuntPhase::Failed;
                    session.status = BisectStatus::Failed;
                },
            }
            session.pending_indices.clear();
            assert(session@.pending_indices =~= Seq::<usize>::empty());
            assert(session@ =~= spec_replan(s0));
            return ;
        }
        match session.phase {
            HuntPhase::Sampling => {
                let planned = self.sample_indices(session);
                if planned.len() == 0 {
                    let scan = self.scan_indices(session);
                    session.phase = HuntPhase::Scanning;
                    session.pending_indices = scan;
                    assert(session@ =~= spec_replan(s0));
                } else {
                    session.pending_indices = planned;
                    assert(session@ =~= spec_replan(s0));
                }
            },
            HuntPhase::Scanning => {
                let scan = self.scan_indices(session);
                session.pending_indices = scan;
                assert(session@ =~= spec_replan(s0));
            },
            _ => {
                session.pending_indices.clear();
                assert(session@.pending_indices =~= Seq::<usize>::empty());
                assert(session@ =~= spec_replan(s0));
            },
        }
    }

    /// Moves a sampling or scanning session on once its planned probes are
    /// exhausted; answers whether the phase allows that.
    fn advance_without_new_result(&self, session: &mut BisectSession) -> (r: bool)
        requires
            session_wf(old(session)@),
        ensures
            final(session)@ == spec_advance(old(session)@),
            r == (old(session).phase == HuntPhase::Sampling || old(session).phase
                == HuntPhase::Scanning),
    {
        reveal(spec_advance);
        match session.phase {
            HuntPhase::Sampling => {
                proof {
                    lemma_first_window_sound(session@);
                }
                match self.first_bad_window(session) {
                    None => {
                        session.phase = HuntPhase::Failed;
                        session.status = BisectStatus::Failed;
                        true
                    },
                    Some((good_idx, bad_idx)) => {
                        self.rebase_window(session, good_idx, bad_idx);
                        self.replan(session);
                        true
                    },
                }
            },
            HuntPhase::Scanning => {
                match self.evaluate_scan_window(session) {
                    Some(revision_id) => {
                        session.phase = HuntPhase::Found;
                        session.status = BisectStatus::Found;
                        session.culprit_revision_id = Some(revision_id);
                        true
                    },
                    None => {
                        session.phase = HuntPhase::Failed;
                        session.status = BisectStatus::Failed;
                        true
                    },
                }
            },
            _ => false,
        }
    }

    /// Creates a runner.
    pub fn new() -> (r: Self) {
        BisectRunner
    }

    /// Whether a session satisfies the invariant the runner relies on
    /// (a window of at least two commits, and every stored index inside it).
    pub fn is_well_formed(&self, session: &BisectSession) -> (r: bool)
        ensures
            r == session_wf(session@),
    {
        let len = session.commit_range.len();
        if len < 2 {
            return false;
        }
        let mut k: usize = 0;
        while k < session.pending_indices.len()
            invariant
                k <= session.pending_indices.len(),
                len == session.commit_range.len(),
                forall|j: int| 0 <= j < k ==> #[trigger] session.pending_indices@[j] < len,
            decreases session.pending_indices.len() - k,
        {
            if session.pending_indices[k] >= len {
                assert(session@.pending_indices[k as int] >= len);
                return false;
            }
            k = k + 1;
        }
        let mut k: usize = 0;
        while k < session.probe_history.len()
            invariant
                k <= session.probe_history.len(),
                len == session.commit_range.len(),
                forall|j: int| 0 <= j < k ==> #[trigger] session.probe_history@[j].index < len,
            decreases session.probe_history.len() - k,
        {
            if session.probe_history[k].index >= len {
                assert(session@.probe_history[k as int].index >= len);
                return false;
            }
            k = k + 1;
        }
        assert(forall|j: int|
            0 <= j < session@.probe_history.len() ==> #[trigger] session@.probe_history[j]
                == session.probe_history@[j]@);
        let current_ok = match session.current_index {
            Some(i) => i < len,
            None => true,
        };
        let candidate_ok = match session.candidate_index {
            Some(i) => i < len,
            None => true,
        };
        current_ok && candidate_ok
    }

    /// Start a new regression hunt session over `commit_range`, which runs
    /// from the known-good commit to the known-bad one.
    pub fn start_bisect(
        &self,
        engine_id: &str,
        good_revision_id: &str,
        bad_revision_id: &str,
        commit_range: Vec<String>,
    ) -> (r: Result<BisectSession, BisectError>)
        ensures
            commit_range.len() < 2 ==> r == Err::<BisectSession, BisectError>(
                BisectError::RangeTooShort,
            ),
            commit_range.len() >= 2 ==> (r matches Ok(session) && session@ == spec_replan(
                initial_session(
                    session@.id,
                    engine_id@,
                    good_revision_id@,
                    bad_revision_id@,
                    commit_range@.map_values(|h: String| h@),
                ),
            ) && session_wf(session@)),
    {
        if commit_range.len() < 2 {
            return Err(BisectError::RangeTooShort);
        }
        let phase = if commit_range.len() <= SAMPLE_WINDOW_MAX {
            HuntPhase::Scanning
        } else {
            HuntPhase::Sampling
        };
        let mut session = BisectSession {
            id: new_session_id(),
            engine_id: engine_id.to_owned(),
            good_revision_id: good_revision_id.to_owned(),
            bad_revision_id: bad_revision_id.to_owned(),
            commit_range,
            current_index: None,
            current_job_id: None,
            phase,
            pending_indices: Vec::new(),
            probe_history: Vec::new(),
            candidate_revision_id: None,
            candidate_index: None,
            status: BisectStatus::Running,
            culprit_revision_id: None,
        };
        let ghost s0 = session@;
        assert(s0 =~= initial_session(
            s0.id,
            engine_id@,
            good_revision_id@,
            bad_revision_id@,
            commit_range@.map_values(|h: String| h@),
        ));
        self.replan(&mut session);
        proof {
            lemma_replan_wf(s0);
        }
        Ok(session)
    }

    /// Get the next probe to run, mutating the session state if needed.
    pub fn next_commit_to_test(&self, session: &mut BisectSession) -> (step: Option<BisectStep>)
        requires
            session_wf(old(session)@),
        ensures
            (final(session)@, step_view(step)) == spec_next(old(session)@),
            session_wf(final(session)@),
    {
        if session.status != BisectStatus::Running || session.current_job_id.is_some() {
            return None;
        }
        let ghost s0 = session@;
        let ghost mut fuel: nat = 3;
        loop
            invariant
                session_wf(session@),
                spec_next_fuel(session@, fuel) == spec_next(s0),
                advances_needed(session@) <= fuel,
                s0 == old(session)@,
            decreases advances_needed(session@),
        {
            let ghost before = session@;
            match self.try_step(session) {
                Some(step) => {
                    proof {
                        lemma_next_fuel_irrelevant(before, fuel);
                        assert(spec_next_fuel(before, fuel) == spec_next(s0));
                        assert((session@, step_view(step)) == spec_next_fuel(before, 0));
                        assert((session@, step_view(step)) == spec_next(s0));
                    }
                    return step;
                },
                None => {
                    proof {
                        lemma_advance_wf(before);
                        fuel = (fuel - 1) as nat;
                    }
                },
            }
        }
    }

    /// One round of looking for the next probe: either the answer, or `None`
    /// after advancing a session whose planned probes were exhausted.
    fn try_step(&self, session: &mut BisectSession) -> (r: Option<Option<BisectStep>>)
        requires
            session_wf(old(session)@),
        ensures
            r matches Some(step) ==> !needs_advance(old(session)@) && (final(session)@, step_view(
                step,
            )) == spec_next_fuel(old(session)@, 0),
            r is None ==> needs_advance(old(session)@) && final(session)@ == spec_advance(
                old(session)@,
            ),
    {
        match session.phase {
            HuntPhase::Found => {
                session.status = BisectStatus::Found;
                Some(
                    match &session.culprit_revision_id {
                        Some(culprit) => Some(BisectStep::Found { culprit: culprit.clone() }),
                        None => None,
                    },
                )
            },
            HuntPhase::Failed => {
                session.status = BisectStatus::Failed;
                Some(
                    Some(
                        BisectStep::Failed {
                            reason: "Regression hunt became inconclusive".to_owned(),
                        },
                    ),
                )
            },
            HuntPhase::Confirming => {
                let index = match session.candidate_index {
                    Some(index) => index,
                    None => return Some(None),
                };
                session.current_index = Some(index);
                Some(
                    Some(
                        BisectStep::Test {
                            commit_hash: session.commit_range[index].clone(),
                            index,
                            remaining_range: session.commit_range.len(),
                            phase: session.phase,
                        },
                    ),
                )
            },
            HuntPhase::Sampling | HuntPhase::Scanning => {
                let ghost pending = session.pending_indices@;
                proof {
                    if pending.len() > 0 {
                        assert(session@.pending_indices[0] < session@.commit_range.len());
                    }
                }
                if let Some(index) = pop_front(&mut session.pending_indices) {
                    assert(index == pending[0]);
                    session.current_index = Some(index);
                    return Some(
                        Some(
                            BisectStep::Test {
                                commit_hash: session.commit_range[index].clone(),
                                index,
                                remaining_range: session.commit_range.len(),
                                phase: session.phase,
                            },
                        ),
                    );
                }
                self.advance_without_new_result(session);
                None
            },
        }
    }

    /// Process a completed probe and advance the hunt.
    pub fn process_result(
        &self,
        session: &mut BisectSession,
        tested_revision_id: &str,
        job_id: &str,
        verdict: ProbeVerdict,
    ) -> (action: BisectAction)
        requires
            session_wf(old(session)@),
        ensures
            (final(session)@, action@) == spec_process(
                old(session)@,
                tested_revision_id@,
                job_id@,
                verdict,
            ),
            session_wf(final(session)@),
    {
        let index = match session.current_index {
            Some(index) => index,
            None => {
                session.phase = HuntPhase::Failed;
                session.status = BisectStatus::Failed;
                return BisectAction::Failed {
                    reason: "Bisect session lost its active probe".to_owned(),
                };
            },
        };
        let ghost s0 = session@;
        session.current_index = None;
        session.current_job_id = None;
        let record = ProbeRecord {
            commit_hash: session.commit_range[index].clone(),
            revision_id: tested_revision_id.to_owned(),
            index,
            verdict,
            job_id: job_id.to_owned(),
        };
        let ghost before = session.probe_history@;
        session.probe_history.push(record);
        assert(session.probe_history@ =~= before.push(record));
        assert(session@.probe_history =~= s0.probe_history.push(record@));
        match session.phase {
            HuntPhase::Scanning => {
                if verdict == ProbeVerdict::Bad {
                    session.phase = HuntPhase::Confirming;
                    session.candidate_index = Some(index);
                    session.candidate_revision_id = Some(tested_revision_id.to_owned());
                }
            },
            HuntPhase::Confirming => {
                match verdict {
                    ProbeVerdict::Bad => {
                        session.phase = HuntPhase::Found;
                        session.status = BisectStatus::Found;
                        session.culprit_revision_id = Some(tested_revision_id.to_owned());
                    },
                    _ => {
                        session.phase = HuntPhase::Scanning;
                        session.candidate_index = None;
                        session.candidate_revision_id = None;
                    },
                }
            },
            _ => {},
        }
        assert(session@ =~= spec_record(s0, index, tested_revision_id@, job_id@, verdict));
        match self.next_commit_to_test(session) {
            Some(BisectStep::Test { commit_hash, index, remaining_range, phase }) => {
                BisectAction::TestNext { commit_hash, index, remaining: remaining_range, phase }
            },
            Some(BisectStep::Found { culprit }) => BisectAction::Found { culprit },
            Some(BisectStep::Failed { reason }) => BisectAction::Failed { reason },
            None => {
                match &session.culprit_revision_id {
                    Some(culprit) => BisectAction::Found { culprit: culprit.clone() },
                    None => BisectAction::Failed {
                        reason: "Regression hunt did not produce another probe".to_owned(),
                    },
                }
            },
        }
    }
}

/// Removes and returns the first element of `values`.
fn pop_front<T>(values: &mut Vec<T>) -> (r: Option<T>)
    ensures
        old(values)@.len() == 0 ==> r is None && final(values)@ == old(values)@,
        old(values)@.len() > 0 ==> r == Some(old(values)@[0]) && final(values)@
            == old(values)@.drop_first(),
{
    if values.len() == 0 {
        None
    } else {
        let first = values.remove(0);
        assert(values@ =~= old(values)@.drop_first());
        Some(first)
    }
}

/// A fresh random identifier for a session.
#[verifier::external_body]
fn new_session_id() -> (r: String) {
    uuid::Uuid::new_v4().to_string()
}

} // verus!

verus! {

// ---------------------------------------------------------------------------
// Laws of the regression hunt
// ---------------------------------------------------------------------------

/// A single bad probe during the linear scan never ends the hunt: the same
/// commit is tested again, now as the candidate under confirmation.
pub proof fn law_single_bad_probe_is_confirmed(
    s: SessionModel,
    tested: Seq<char>,
    job: Seq<char>,
)
    requires
        session_wf(s),
        s.status == BisectStatus::Running,
        s.phase == HuntPhase::Scanning,
        s.current_index is Some,
    ensures
        ({
            let i = s.current_index->0;
            let (next, action) = spec_process(s, tested, job, ProbeVerdict::Bad);
            &&& action == ActionModel::TestNext {
                commit_hash: s.commit_range[i as int],
                index: i,
                remaining: s.commit_range.len() as usize,
                phase: HuntPhase::Confirming,
            }
            &&& next.candidate_revision_id == Some(tested)
            &&& next.status == BisectStatus::Running
            &&& next.culprit_revision_id == s.culprit_revision_id
        }),
{
}

proof fn lemma_first_revision_recorded(hist: Seq<ProbeModel>, h: Seq<char>)
    ensures
        first_revision(hist, h) matches Some(r) ==> exists|k: int|
            0 <= k < hist.len() && #[trigger] hist[k].commit_hash == h && hist[k].revision_id == r,
    decreases hist.len(),
{
    if hist.len() > 0 && hist[0].commit_hash != h {
        lemma_first_revision_recorded(hist.drop_first(), h);
        if let Some(r) = first_revision(hist.drop_first(), h) {
            let k = choose|k: int| 0 <= k < hist.drop_first().len() && #[trigger] hist.drop_first()[k].commit_hash == h
                && hist.drop_first()[k].revision_id == r;
            assert(hist[k + 1] == hist.drop_first()[k]);
        }
    }
}

/// The revision `r` belongs to commit `i` of the window: a probe of that
/// commit recorded it, or the commit is an endpoint and `r` is that
/// endpoint's revision.
pub open spec fn is_revision_of_commit(s: SessionModel, i: int, r: Seq<char>) -> bool {
    let c = s.commit_range[i];
    ||| exists|k: int| 0 <= k < s.probe_history.len() && #[trigger] s.probe_history[k].commit_hash == c
        && s.probe_history[k].revision_id == r
    ||| s.commit_range[0] == c && r == s.good_revision_id
    ||| s.commit_range.last() == c && r == s.bad_revision_id
}

/// The verdicts that make index `i` the culprit of a scan: bad at `i`,
/// good at every index before it.
pub open spec fn first_bad_after_goods(s: SessionModel, i: int) -> bool {
    &&& 1 <= i < s.commit_range.len()
    &&& verdict_at(s, i) == Some(ProbeVerdict::Bad)
    &&& forall|j: int| 0 <= j < i ==> #[trigger] verdict_at(s, j) == Some(ProbeVerdict::Good)
}

proof fn lemma_scan_outcome_is_first_bad(s: SessionModel, k: int)
    requires
        k >= 1,
    ensures
        scan_outcome_from(s, k) matches Some(r) ==> exists|i: int|
            k <= i && #[trigger] first_bad_after_goods(s, i) && Some(r) == spec_revision_for(s, Some(s.commit_range[i])),
    decreases s.commit_range.len() - k,
{
    if k < s.commit_range.len() {
        if verdict_at(s, k) == Some(ProbeVerdict::Good) {
            lemma_scan_outcome_is_first_bad(s, k + 1);
        } else if verdict_at(s, k) == Some(ProbeVerdict::Bad) {
            if let Some(r) = scan_outcome_from(s, k) {
                assert(first_bad_after_goods(s, k));
            }
        }
    }
}

/// A scan that finishes with a culprit names the revision of the first
/// commit of the window found bad, every commit before it having tested
/// good; a culprit is never the revision taken from a commit found good.
pub proof fn law_scan_culprit_is_first_bad_commit(s: SessionModel)
    requires
        s.phase == HuntPhase::Scanning,
    ensures
        spec_advance(s).phase == HuntPhase::Found ==> exists|i: int| #[trigger] first_bad_after_goods(s, i) && {
            let r = spec_advance(s).culprit_revision_id;
            &&& r == spec_revision_for(s, Some(s.commit_range[i]))
            &&& r matches Some(x) && is_revision_of_commit(s, i, x)
        },
{
    reveal(spec_advance);
    lemma_scan_outcome_is_first_bad(s, 1);
    if let Some(r) = scan_outcome_from(s, 1) {
        let i = choose|i: int| 1 <= i && #[trigger] first_bad_after_goods(s, i)
            && Some(r) == spec_revision_for(s, Some(s.commit_range[i]));
        let c = s.commit_range[i];
        lemma_first_revision_recorded(s.probe_history, c);
        assert(is_revision_of_commit(s, i, r));
    }
}

/// A second bad result for the candidate under confirmation names it as the culprit.
pub proof fn law_confirmed_candidate_is_culprit(
    s: SessionModel,
    tested: Seq<char>,
    job: Seq<char>,
)
    requires
        session_wf(s),
        s.phase == HuntPhase::Confirming,
        s.current_index is Some,
    ensures
        ({
            let (next, action) = spec_process(s, tested, job, ProbeVerdict::Bad);
            &&& action == ActionModel::Found { culprit: tested }
            &&& next.status == BisectStatus::Found
            &&& next.phase == HuntPhase::Found
            &&& next.culprit_revision_id == Some(tested)
        }),
{
}

/// A candidate that is not confirmed as bad is dropped and the scan resumes.
pub proof fn law_unconfirmed_candidate_is_dropped(
    s: SessionModel,
    tested: Seq<char>,
    job: Seq<char>,
    verdict: ProbeVerdict,
)
    requires
        session_wf(s),
        s.phase == HuntPhase::Confirming,
        s.current_index is Some,
        verdict != ProbeVerdict::Bad,
    ensures
        ({
            let recorded = spec_record(s, s.current_index->0, tested, job, verdict);
            &&& recorded.phase == HuntPhase::Scanning
            &&& recorded.candidate_index is None
            &&& recorded.candidate_revision_id is None
            &&& spec_process(s, tested, job, verdict) == ({
                let (n, step) = spec_next(recorded);
                (n, action_of(n, step))
            })
        }),
{
}

/// A hunt that is no longer running, or has a probe in flight, is left as it is.
pub proof fn law_idle_unless_running(s: SessionModel)
    requires
        s.status != BisectStatus::Running || s.current_job_id is Some,
    ensures
        spec_next(s) == (s, Option::<StepModel>::None),
{
}

/// Every probe the hunt asks for lies in its window and is the probe it
/// then waits for; every culprit it reports is recorded in the session.
pub proof fn law_steps_agree_with_session(s: SessionModel)
    requires
        session_wf(s),
    ensures
        ({
            let (next, step) = spec_next(s);
            &&& session_wf(next)
            &&& (step matches Some(StepModel::Test { commit_hash, index, remaining_range, phase }) ==> {
                &&& index < next.commit_range.len()
                &&& commit_hash == next.commit_range[index as int]
                &&& next.current_index == Some(index)
                &&& remaining_range == next.commit_range.len()
                &&& phase == next.phase
            })
            &&& (step matches Some(StepModel::Found { culprit }) ==> {
                &&& next.status == BisectStatus::Found
                &&& next.culprit_revision_id == Some(culprit)
            })
            &&& (step matches Some(StepModel::Failed { .. }) ==> next.status == BisectStatus::Failed)
        }),
{
    lemma_next_wf(s);
    if !(s.status != BisectStatus::Running || s.current_job_id is Some) {
        lemma_next_fuel_steps(s, 3);
    }
}

/// What a step answers agrees with the session it leaves.
pub open spec fn step_agrees(next: SessionModel, step: Option<StepModel>) -> bool {
    &&& (step matches Some(StepModel::Test { commit_hash, index, remaining_range, phase }) ==> {
        &&& index < next.commit_range.len()
        &&& commit_hash == next.commit_range[index as int]
        &&& next.current_index == Some(index)
        &&& remaining_range == next.commit_range.len()
        &&& phase == next.phase
    })
    &&& (step matches Some(StepModel::Found { culprit }) ==> {
        &&& next.status == BisectStatus::Found
        &&& next.culprit_revision_id == Some(culprit)
    })
    &&& (step matches Some(StepModel::Failed { .. }) ==> next.status == BisectStatus::Failed)
}

proof fn lemma_next_fuel_steps(s: SessionModel, fuel: nat)
    requires
        session_wf(s),
    ensures
        step_agrees(spec_next_fuel(s, fuel).0, spec_next_fuel(s, fuel).1),
    decreases fuel,
{
    if needs_advance(s) && fuel > 0 {
        lemma_advance_wf(s);
        lemma_next_fuel_steps(spec_advance(s), (fuel - 1) as nat);
    } else if s.pending_indices.len() > 0 {
        assert(s.pending_indices[0] < s.commit_range.len());
    }
}

/// A subsequence of consecutive elements of `r`.
pub open spec fn is_subwindow(w: Seq<Seq<char>>, r: Seq<Seq<char>>) -> bool {
    exists|a: int, b: int| 0 <= a <= b <= r.len() && w == r.subrange(a, b)
}

/// The hunt's window only ever narrows to a stretch of consecutive commits of
/// the window it had.
pub proof fn law_window_only_narrows(s: SessionModel)
    requires
        session_wf(s),
    ensures
        is_subwindow(spec_next(s).0.commit_range, s.commit_range),
{
    assert(s.commit_range == s.commit_range.subrange(0, s.commit_range.len() as int));
    if !(s.status != BisectStatus::Running || s.current_job_id is Some) {
        lemma_next_fuel_narrows(s, 3);
    }
}

proof fn lemma_subwindow_trans(w: Seq<Seq<char>>, v: Seq<Seq<char>>, r: Seq<Seq<char>>)
    requires
        is_subwindow(w, v),
        is_subwindow(v, r),
    ensures
        is_subwindow(w, r),
{
    let (a, b) = choose|a: int, b: int| 0 <= a <= b <= v.len() && w == v.subrange(a, b);
    let (c, d) = choose|c: int, d: int| 0 <= c <= d <= r.len() && v == r.subrange(c, d);
    assert(w =~= r.subrange(c + a, c + b));
}

proof fn lemma_advance_narrows(s: SessionModel)
    requires
        session_wf(s),
    ensures
        is_subwindow(spec_advance(s).commit_range, s.commit_range),
{
    if s.phase == HuntPhase::Sampling {
        lemma_sampling_advance_wf(s);
    } else {
        reveal(spec_advance);
        assert(s.commit_range == s.commit_range.subrange(0, s.commit_range.len() as int));
    }
}

proof fn lemma_next_fuel_narrows(s: SessionModel, fuel: nat)
    requires
        session_wf(s),
    ensures
        is_subwindow(spec_next_fuel(s, fuel).0.commit_range, s.commit_range),
    decreases fuel,
{
    assert(s.commit_range == s.commit_range.subrange(0, s.commit_range.len() as int));
    if needs_advance(s) && fuel > 0 {
        let t = spec_advance(s);
        lemma_advance_wf(s);
        lemma_advance_narrows(s);
        lemma_next_fuel_narrows(t, (fuel - 1) as nat);
        lemma_subwindow_trans(spec_next_fuel(t, (fuel - 1) as nat).0.commit_range, t.commit_range, s.commit_range);
    }
}

proof fn lemma_next_fuel_wf(s: SessionModel, fuel: nat)
    requires
        session_wf(s),
    ensures
        session_wf(spec_next_fuel(s, fuel).0),
    decreases fuel,
{
    if needs_advance(s) && fuel > 0 {
        lemma_advance_wf(s);
        lemma_next_fuel_wf(spec_advance(s), (fuel - 1) as nat);
    } else if s.pending_indices.len() > 0 {
        assert(s.pending_indices[0] < s.commit_range.len());
        let t = spec_next_fuel(s, fuel).0;
        assert forall|k: int| 0 <= k < t.pending_indices.len() implies #[trigger] t.pending_indices[k]
            < t.commit_range.len() by {
            if s.phase == HuntPhase::Sampling || s.phase == HuntPhase::Scanning {
                assert(t.pending_indices[k] == s.pending_indices[k + 1]);
            }
        }
    }
}

proof fn lemma_next_wf(s: SessionModel)
    requires
        session_wf(s),
    ensures
        session_wf(spec_next(s).0),
{
    lemma_next_fuel_wf(s, 3);
}

} // verus!
