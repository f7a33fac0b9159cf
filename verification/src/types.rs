//! Plain data types shared by the library.
use vstd::prelude::*;

verus! {

/// Views an optional owned string as an optional character sequence.
pub open spec fn opt_str_view(o: Option<String>) -> Option<Seq<char>> {
    match o {
        Some(s) => Some(s@),
        None => None,
    }
}

/// A chess engine registered for testing.
pub struct Engine {
    pub id: String,
    pub name: String,
    pub repo_url: String,
    /// Where the repository is checked out.
    pub local_path: String,
    /// The branch(es) to track.
    pub branches: Vec<String>,
    /// Experimental branch patterns to test separately from the canonical history.
    pub experimental_branches: Vec<String>,
    /// Build command (e.g., "make" or "cargo build --release").
    pub build_cmd: String,
    /// Path to the resulting binary, relative to repo root.
    pub binary_path: String,
    /// Starting commit hash or tag to begin testing from.
    pub start_from: Option<String>,
}

/// A specific commit of an engine that has been (or will be) built.
pub struct EngineRevision {
    pub id: String,
    pub engine_id: String,
    pub commit_hash: String,
    pub commit_message: String,
    /// Commit time in seconds since the Unix epoch.
    pub commit_date: i64,
    pub branch: String,
    pub tag: Option<String>,
    pub is_release: bool,
    pub binary_path: Option<String>,
    pub binary_fingerprint: Option<String>,
    pub build_status: BuildStatus,
}

#[derive(Debug, Clone, Copy, PartialEq, Eq, Structural)]
pub enum BuildStatus {
    Pending,
    Building,
    Success,
    Failed,
}

#[derive(Debug, Clone, Copy, PartialEq, Eq, Structural)]
pub enum TestStatus {
    Queued,
    Running,
    Completed,
    Cancelled,
    Failed,
}

#[derive(Debug, Clone, Copy, PartialEq, Eq, Structural)]
pub enum JobType {
    /// Standard sequential test: this commit vs previous.
    Sequential,
    /// Testing against a fixed baseline (e.g., a tagged release).
    Baseline,
    /// Part of a bisect search.
    Bisect,
    /// User-requested manual test.
    Manual,
}

/// Time control specification.
#[derive(Debug, Clone, Copy, PartialEq, Eq, Structural)]
pub struct TimeControl {
    pub base_time_ms: u64,
    pub increment_ms: u64,
    /// Optional node limit (for reproducible testing).
    pub nodes: Option<u64>,
}

impl TimeControl {
    /// Short time control: 10 seconds plus 0.1 seconds per move.
    pub fn stc() -> (tc: Self)
        ensures
            tc.base_time_ms == 10_000,
            tc.increment_ms == 100,
            tc.nodes is None,
    {
        TimeControl { base_time_ms: 10_000, increment_ms: 100, nodes: None }
    }

    /// Long time control: 60 seconds plus 0.6 seconds per move.
    pub fn ltc() -> (tc: Self)
        ensures
            tc.base_time_ms == 60_000,
            tc.increment_ms == 600,
            tc.nodes is None,
    {
        TimeControl { base_time_ms: 60_000, increment_ms: 600, nodes: None }
    }
}

#[derive(Debug, Clone, Copy, PartialEq, Eq, Structural)]
pub enum SprtResult {
    /// Still running, not yet conclusive.
    Inconclusive,
    /// H1 accepted: the change is likely an improvement.
    H1Accepted,
    /// H0 accepted: the change is likely not an improvement.
    H0Accepted,
    /// The configured fixed game count completed.
    FixedGames,
}

/// A single game record.
pub struct GameRecord {
    pub game_number: u32,
    pub result: GameResult,
    pub pgn: String,
    pub opening: String,
    pub move_count: u32,
}

#[derive(Debug, Clone, Copy, PartialEq, Eq, Structural)]
pub enum GameResult {
    WhiteWin,
    BlackWin,
    Draw,
}

#[derive(Debug, Clone, Copy, PartialEq, Eq, Structural)]
pub enum BisectStatus {
    Running,
    Found,
    Failed,
}

#[derive(Debug, Clone, Copy, PartialEq, Eq, Structural)]
pub enum HuntPhase {
    Sampling,
    Scanning,
    Confirming,
    Found,
    Failed,
}

#[derive(Debug, Clone, Copy, PartialEq, Eq, Structural)]
pub enum ProbeVerdict {
    Good,
    Bad,
    Uncertain,
}

/// The recorded outcome of one probe of a regression hunt.
pub struct ProbeRecord {
    pub commit_hash: String,
    pub revision_id: String,
    pub index: usize,
    pub verdict: ProbeVerdict,
    pub job_id: String,
}

/// Mathematical model of a probe record.
pub struct ProbeModel {
    pub commit_hash: Seq<char>,
    pub revision_id: Seq<char>,
    pub index: usize,
    pub verdict: ProbeVerdict,
    pub job_id: Seq<char>,
}

impl View for ProbeRecord {
    type V = ProbeModel;

    open spec fn view(&self) -> ProbeModel {
        ProbeModel {
            commit_hash: self.commit_hash@,
            revision_id: self.revision_id@,
            index: self.index,
            verdict: self.verdict,
            job_id: self.job_id@,
        }
    }
}

impl ProbeRecord {
    /// Copies the record, keeping its model.
    pub fn duplicate(&self) -> (r: ProbeRecord)
        ensures
            r@ == self@,
    {
        ProbeRecord {
            commit_hash: self.commit_hash.clone(),
            revision_id: self.revision_id.clone(),
            index: self.index,
            verdict: self.verdict,
            job_id: self.job_id.clone(),
        }
    }
}

/// A bisect session tracking a regression search.
pub struct BisectSession {
    pub id: String,
    pub engine_id: String,
    /// Fixed known-good baseline used for all probes.
    pub good_revision_id: String,
    /// User-supplied known-bad endpoint.
    pub bad_revision_id: String,
    /// Current candidate window, inclusive of good and bad boundaries.
    pub commit_range: Vec<String>,
    /// Current index being tested within commit_range.
    pub current_index: Option<usize>,
    /// Active bisect job id, if one is in flight.
    pub current_job_id: Option<String>,
    /// Current search phase.
    pub phase: HuntPhase,
    /// Remaining indices to probe in the current phase.
    pub pending_indices: Vec<usize>,
    /// Recorded outcomes for prior probes.
    pub probe_history: Vec<ProbeRecord>,
    /// Candidate under confirmation, if any.
    pub candidate_revision_id: Option<String>,
    /// Candidate index under confirmation, if any.
    pub candidate_index: Option<usize>,
    pub status: BisectStatus,
    /// The commit identified as causing the regression.
    pub culprit_revision_id: Option<String>,
}

/// Mathematical model of a bisect session.
#[verifier::ext_equal]
pub struct SessionModel {
    pub id: Seq<char>,
    pub engine_id: Seq<char>,
    pub good_revision_id: Seq<char>,
    pub bad_revision_id: Seq<char>,
    pub commit_range: Seq<Seq<char>>,
    pub current_index: Option<usize>,
    pub current_job_id: Option<Seq<char>>,
    pub phase: HuntPhase,
    pub pending_indices: Seq<usize>,
    pub probe_history: Seq<ProbeModel>,
    pub candidate_revision_id: Option<Seq<char>>,
    pub candidate_index: Option<usize>,
    pub status: BisectStatus,
    pub culprit_revision_id: Option<Seq<char>>,
}

impl View for BisectSession {
    type V = SessionModel;

    open spec fn view(&self) -> SessionModel {
        SessionModel {
            id: self.id@,
            engine_id: self.engine_id@,
            good_revision_id: self.good_revision_id@,
            bad_revision_id: self.bad_revision_id@,
            commit_range: self.commit_range@.map_values(|h: String| h@),
            current_index: self.current_index,
            current_job_id: opt_str_view(self.current_job_id),
            phase: self.phase,
            pending_indices: self.pending_indices@,
            probe_history: self.probe_history@.map_values(|r: ProbeRecord| r@),
            candidate_revision_id: opt_str_view(self.candidate_revision_id),
            candidate_index: self.candidate_index,
            status: self.status,
            culprit_revision_id: opt_str_view(self.culprit_revision_id),
        }
    }
}

} // verus!
