//! Bookkeeping of training-data runs: which games a run has counted, which
//! samples it keeps, and where its files go.
use vstd::prelude::*;
use crate::text::{chars_of, push_char, string_from_chars};
use crate::types::TimeControl;
use std::collections::{BTreeMap, BTreeSet};

verus! {

broadcast use {vstd::std_specs::btree::group_btree_axioms, vstd::laws_cmp::group_laws_cmp};

/// What a training run was started for.
#[derive(Debug, Clone, Copy, PartialEq, Eq, Structural)]
pub enum TrainingRunKind {
    SelfPlay,
    Regression,
    Idle,
}

/// Where a training run stands.
#[derive(Debug, Clone, Copy, PartialEq, Eq, Structural)]
pub enum TrainingRunStatus {
    Running,
    Completed,
    Cancelled,
    Failed,
}

impl Default for TrainingRunStatus {
    fn default() -> (r: Self)
        ensures
            r == TrainingRunStatus::Completed,
    {
        TrainingRunStatus::Completed
    }
}

impl TrainingRunStatus {
    /// The lower-case name of the status.
    pub fn label(&self) -> (r: &'static str)
        ensures
            r@ == match *self {
                TrainingRunStatus::Running => "running"@,
                TrainingRunStatus::Completed => "completed"@,
                TrainingRunStatus::Cancelled => "cancelled"@,
                TrainingRunStatus::Failed => "failed"@,
            },
    {
        match self {
            TrainingRunStatus::Running => "running",
            TrainingRunStatus::Completed => "completed",
            TrainingRunStatus::Cancelled => "cancelled",
            TrainingRunStatus::Failed => "failed",
        }
    }
}

/// How a run selects samples by search depth.
#[derive(Debug, Clone, Copy, PartialEq, Eq, Structural)]
pub enum TrainingDepthMode {
    /// Only samples searched to exactly the given depth.
    Exact,
    /// Samples searched to at least the given depth.
    Min,
}

/// What a training run is about when it starts.
pub struct TrainingRunDescriptor {
    pub engine_id: String,
    pub engine_name: String,
    pub revision_id: String,
    pub revision_hash: String,
    pub time_control: String,
    pub games_requested: Option<u32>,
    pub kind: TrainingRunKind,
    pub source_job_id: Option<String>,
    pub source_role: Option<String>,
    pub depth_mode: TrainingDepthMode,
    pub depth_value: u32,
}

/// The recorded state of a training run, as its metadata file holds it.
pub struct RunMetadata {
    pub engine_id: String,
    pub engine_name: String,
    pub revision_id: String,
    pub revision_hash: String,
    pub games_requested: Option<u32>,
    pub games_played: u32,
    pub samples_written: usize,
    pub time_control: String,
    pub output_depth_counts: BTreeMap<u32, usize>,
    pub created_at: String,
    pub kind: TrainingRunKind,
    pub status: TrainingRunStatus,
    pub source_job_id: Option<String>,
    pub source_role: Option<String>,
    pub depth_mode: TrainingDepthMode,
    pub depth_value: u32,
}

/// A training run found on disk.
pub struct TrainingRunSummary {
    pub engine_id: String,
    pub engine_name: String,
    pub revision_id: String,
    pub revision_hash: String,
    pub games_requested: Option<u32>,
    pub games_played: u32,
    pub samples_written: usize,
    pub time_control: String,
    pub output_depth_counts: BTreeMap<u32, usize>,
    pub created_at: String,
    pub kind: TrainingRunKind,
    pub status: TrainingRunStatus,
    pub source_job_id: Option<String>,
    pub source_role: Option<String>,
    pub depth_mode: TrainingDepthMode,
    pub depth_value: u32,
    pub run_dir: String,
}

/// A self-play data generation request.
pub struct SelfPlayDataConfig {
    pub engine_id: String,
    pub engine_name: String,
    pub revision_id: String,
    pub revision_hash: String,
    pub binary_path: String,
    pub time_control: TimeControl,
    pub opening_book: Option<Vec<String>>,
    pub games: u32,
    pub hash_mb: u32,
    pub threads: u32,
    pub output_dir: String,
    pub depth: u32,
    pub kind: TrainingRunKind,
}

/// What a self-play data generation produced.
pub struct SelfPlayDataSummary {
    pub run_dir: String,
    pub games_played: u32,
    pub samples_written: usize,
    pub depth_counts: BTreeMap<u32, usize>,
}

/// Whether a sample searched to `depth` belongs in a run selecting by
/// `mode` and `value`.
pub open spec fn spec_keeps(mode: TrainingDepthMode, value: u32, depth: u32) -> bool {
    match mode {
        TrainingDepthMode::Exact => depth == value,
        TrainingDepthMode::Min => depth >= value,
    }
}

/// Whether a sample searched to `depth` belongs in the run.
pub fn keeps_sample(mode: TrainingDepthMode, value: u32, depth: u32) -> (r: bool)
    ensures
        r == spec_keeps(mode, value, depth),
{
    match mode {
        TrainingDepthMode::Exact => depth == value,
        TrainingDepthMode::Min => depth >= value,
    }
}

/// The counters of a training run, kept in step with its metadata.
pub struct TrainingRunWriter {
    run_dir: String,
    metadata: RunMetadata,
    seen_games: BTreeSet<u32>,
}

impl TrainingRunWriter {
    /// The games counted so far.
    pub closed spec fn seen(&self) -> Set<u32> {
        self.seen_games@
    }

    pub closed spec fn spec_games_played(&self) -> u32 {
        self.metadata.games_played
    }

    pub closed spec fn spec_samples_written(&self) -> usize {
        self.metadata.samples_written
    }

    pub closed spec fn spec_depth_counts(&self) -> Map<u32, usize> {
        self.metadata.output_depth_counts@
    }

    pub closed spec fn spec_status(&self) -> TrainingRunStatus {
        self.metadata.status
    }

    pub closed spec fn spec_run_dir(&self) -> Seq<char> {
        self.run_dir@
    }

    pub closed spec fn spec_depth_rule(&self) -> (TrainingDepthMode, u32) {
        (self.metadata.depth_mode, self.metadata.depth_value)
    }

    /// The number of games played is the number of distinct games counted.
    pub closed spec fn well_formed(&self) -> bool {
        &&& self.seen_games@.finite()
        &&& self.metadata.games_played == self.seen_games@.len()
    }

    /// A writer for a run that has just started in `run_dir` at `created_at`:
    /// nothing counted, status running.
    pub fn new(run_dir: String, descriptor: TrainingRunDescriptor, created_at: String) -> (w: Self)
        ensures
            w.well_formed(),
            w.seen() == Set::<u32>::empty(),
            w.spec_games_played() == 0,
            w.spec_samples_written() == 0,
            w.spec_depth_counts() == Map::<u32, usize>::empty(),
            w.spec_status() == TrainingRunStatus::Running,
            w.spec_run_dir() == run_dir@,
            w.spec_depth_rule() == (descriptor.depth_mode, descriptor.depth_value),
    {
        let metadata = RunMetadata {
            engine_id: descriptor.engine_id,
            engine_name: descriptor.engine_name,
            revision_id: descriptor.revision_id,
            revision_hash: descriptor.revision_hash,
            games_requested: descriptor.games_requested,
            games_played: 0,
            samples_written: 0,
            time_control: descriptor.time_control,
            output_depth_counts: BTreeMap::new(),
            created_at,
            kind: descriptor.kind,
            status: TrainingRunStatus::Running,
            source_job_id: descriptor.source_job_id,
            source_role: descriptor.source_role,
            depth_mode: descriptor.depth_mode,
            depth_value: descriptor.depth_value,
        };
        let w = TrainingRunWriter { run_dir, metadata, seen_games: BTreeSet::new() };
        assert(w.seen_games@ =~= Set::<u32>::empty());
        w
    }

    /// The run's directory.
    pub fn run_dir(&self) -> (r: &str)
        ensures
            r@ == self.spec_run_dir(),
    {
        self.run_dir.as_str()
    }

    /// The number of distinct games counted.
    pub fn games_played(&self) -> (r: u32)
        ensures
            r == self.spec_games_played(),
    {
        self.metadata.games_played
    }

    /// The number of samples kept.
    pub fn samples_written(&self) -> (r: usize)
        ensures
            r == self.spec_samples_written(),
    {
        self.metadata.samples_written
    }

    /// The number of samples kept per search depth.
    pub fn depth_counts(&self) -> (r: &BTreeMap<u32, usize>)
        ensures
            r@ == self.spec_depth_counts(),
    {
        &self.metadata.output_depth_counts
    }

    /// The run's metadata record.
    pub fn metadata(&self) -> (r: &RunMetadata)
        ensures
            r.games_played == self.spec_games_played(),
            r.samples_written == self.spec_samples_written(),
            r.output_depth_counts@ == self.spec_depth_counts(),
            r.status == self.spec_status(),
    {
        &self.metadata
    }

    /// Counts game `game_number`, once: a game counted before changes
    /// nothing. Says whether the count changed.
    pub fn record_game(&mut self, game_number: u32) -> (changed: bool)
        requires
            old(self).well_formed(),
            old(self).seen().contains(game_number) || old(self).spec_games_played() < u32::MAX,
        ensures
            final(self).well_formed(),
            changed == !old(self).seen().contains(game_number),
            final(self).seen() == old(self).seen().insert(game_number),
            final(self).spec_games_played() == old(self).spec_games_played() + (if changed { 1int } else { 0int }),
            final(self).spec_samples_written() == old(self).spec_samples_written(),
            final(self).spec_depth_counts() == old(self).spec_depth_counts(),
            final(self).spec_status() == old(self).spec_status(),
            final(self).spec_run_dir() == old(self).spec_run_dir(),
            final(self).spec_depth_rule() == old(self).spec_depth_rule(),
    {
        let inserted = self.seen_games.insert(game_number);
        if inserted {
            self.metadata.games_played = self.metadata.games_played + 1;
        }
        inserted
    }

    /// Counts one sample searched to `depth` if the run keeps it. Says
    /// whether it was kept.
    pub fn admit_sample(&mut self, depth: u32) -> (kept: bool)
        requires
            old(self).spec_samples_written() < usize::MAX,
            old(self).spec_depth_counts().contains_key(depth) ==> old(self).spec_depth_counts()[depth] < usize::MAX,
        ensures
            kept == spec_keeps(old(self).spec_depth_rule().0, old(self).spec_depth_rule().1, depth),
            final(self).spec_samples_written() == old(self).spec_samples_written() + (if kept { 1int } else { 0int }),
            final(self).spec_depth_counts() == (if kept {
                old(self).spec_depth_counts().insert(
                    depth,
                    (if old(self).spec_depth_counts().contains_key(depth) { old(self).spec_depth_counts()[depth] + 1 } else { 1 }) as usize,
                )
            } else {
                old(self).spec_depth_counts()
            }),
            final(self).seen() == old(self).seen(),
            final(self).spec_games_played() == old(self).spec_games_played(),
            final(self).spec_status() == old(self).spec_status(),
            final(self).spec_run_dir() == old(self).spec_run_dir(),
            final(self).spec_depth_rule() == old(self).spec_depth_rule(),
            old(self).well_formed() ==> final(self).well_formed(),
    {
        if !keeps_sample(self.metadata.depth_mode, self.metadata.depth_value, depth) {
            return false;
        }
        let current: usize = match self.metadata.output_depth_counts.get(&depth) {
            Some(n) => *n,
            None => 0,
        };
        self.metadata.output_depth_counts.insert(depth, current + 1);
        self.metadata.samples_written = self.metadata.samples_written + 1;
        true
    }

    /// Records the run's new status.
    pub fn set_status(&mut self, status: TrainingRunStatus)
        ensures
            final(self).spec_status() == status,
            final(self).seen() == old(self).seen(),
            final(self).spec_games_played() == old(self).spec_games_played(),
            final(self).spec_samples_written() == old(self).spec_samples_written(),
            final(self).spec_depth_counts() == old(self).spec_depth_counts(),
            final(self).spec_run_dir() == old(self).spec_run_dir(),
            final(self).spec_depth_rule() == old(self).spec_depth_rule(),
            old(self).well_formed() ==> final(self).well_formed(),
    {
        self.metadata.status = status;
    }
}

/// Counting a game is idempotent: counting the same game again leaves the
/// number of games played unchanged.
pub proof fn law_recounting_a_game_changes_nothing(seen: Set<u32>, played: u32, game: u32)
    requires
        seen.finite(),
        played == seen.len(),
    ensures
        seen.insert(game).insert(game) == seen.insert(game),
        seen.insert(game).finite(),
        seen.insert(game).len() == played + (if seen.contains(game) { 0int } else { 1int }),
{
    assert(seen.insert(game).insert(game) =~= seen.insert(game));
    if seen.contains(game) {
        assert(seen.insert(game) =~= seen);
    }
}

/// `c` kept if it is an ASCII letter or digit, `-` or `_`, and otherwise `-`.
pub open spec fn path_safe_char(c: char) -> char {
    if ('a' <= c && c <= 'z') || ('A' <= c && c <= 'Z') || ('0' <= c && c <= '9') || c == '-' || c == '_' {
        c
    } else {
        '-'
    }
}

/// A name made safe to use as one component of a file path.
pub fn sanitize_path_component(value: &str) -> (r: String)
    ensures
        r@ == value@.map_values(|c: char| path_safe_char(c)),
{
    let v = chars_of(value);
    let mut s = String::new();
    let mut i: usize = 0;
    while i < v.len()
        invariant
            i <= v.len(),
            s@ == v@.take(i as int).map_values(|c: char| path_safe_char(c)),
        decreases v.len() - i,
    {
        let c = v[i];
        let keep = ('a' <= c && c <= 'z') || ('A' <= c && c <= 'Z') || ('0' <= c && c <= '9') || c
            == '-' || c == '_';
        push_char(&mut s, if keep { c } else { '-' });
        assert(v@.take(i + 1) =~= v@.take(i as int).push(c));
        assert(s@ =~= v@.take(i + 1).map_values(|c: char| path_safe_char(c)));
        i = i + 1;
    }
    assert(v@.take(v.len() as int) =~= v@);
    s
}

/// The first part of a run directory's name: the kind of run, and for a
/// regression run the first eight characters of the job it came from (or
/// `job`) and the role (or `unknown`).
pub open spec fn spec_run_prefix(kind: TrainingRunKind, job: Option<Seq<char>>, role: Option<Seq<char>>) -> Seq<char> {
    match kind {
        TrainingRunKind::SelfPlay => "selfplay"@,
        TrainingRunKind::Idle => "idle"@,
        TrainingRunKind::Regression => "regression-"@ + match job {
            Some(j) => j.take(if j.len() < 8 { j.len() as int } else { 8 }),
            None => "job"@,
        } + "-"@ + match role {
            Some(r) => r,
            None => "unknown"@,
        },
    }
}

/// The kind part of a run directory's name.
pub fn run_dir_prefix(kind: TrainingRunKind, source_job_id: Option<&str>, source_role: Option<&str>) -> (r: String)
    ensures
        r@ == spec_run_prefix(
            kind,
            match source_job_id { Some(j) => Some(j@), None => None },
            match source_role { Some(x) => Some(x@), None => None },
        ),
{
    match kind {
        TrainingRunKind::SelfPlay => "selfplay".to_owned(),
        TrainingRunKind::Idle => "idle".to_owned(),
        TrainingRunKind::Regression => {
            let mut s = "regression-".to_owned();
            match source_job_id {
                Some(j) => {
                    let v = chars_of(j);
                    let end = if v.len() < 8 { v.len() } else { 8 };
                    let head = string_from_chars(&v, 0, end);
                    assert(v@.subrange(0, end as int) =~= j@.take(end as int));
                    s.append(head.as_str());
                },
                None => s.append("job"),
            }
            s.append("-");
            match source_role {
                Some(x) => s.append(x),
                None => s.append("unknown"),
            }
            s
        },
    }
}

/// The next game of a self-play run, if more are wanted: its number (the
/// position in the run, counted from one) and the opening it uses, the
/// openings being played in turn.
pub fn next_selfplay_game(writer: &TrainingRunWriter, games: u32, game_index: u32, opening_count: usize) -> (r: Option<(u32, usize)>)
    requires
        opening_count > 0,
        game_index < u32::MAX,
    ensures
        r is None <==> writer.spec_games_played() >= games,
        r matches Some((n, o)) ==> n == game_index + 1 && o == (game_index as int) % (opening_count as int),
{
    if writer.games_played() >= games {
        return None;
    }
    Some((game_index + 1, (game_index as usize) % opening_count))
}

} // verus!
