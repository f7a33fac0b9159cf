//! The dashboard's decisions: which branch lane a view shows, who may use
//! the protected routes, and how a revision sits among its neighbours.
use vstd::prelude::*;
use crate::scheduler::{
    branch_history, ints, is_experimental_branch, spec_is_experimental, lemma_branch_history_indices,
    lemma_branch_history_len,
};
use crate::text::{chars_of, trim, trim_chars};
use crate::types::{opt_str_view, Engine, EngineRevision};

verus! {

/// Which branches a dashboard view shows.
#[derive(Debug, Clone, Copy, PartialEq, Eq, Structural)]
pub enum BranchLane {
    /// Branches that are not experimental.
    Canonical,
    /// Experimental branches only.
    Experimental,
    /// Every branch.
    All,
}

/// The lane a query names: `experimental` and `all` name those lanes, and
/// anything else, or nothing, the canonical lane.
pub open spec fn spec_lane(value: Option<Seq<char>>) -> BranchLane {
    match value {
        Some(v) => if v == "experimental"@ {
            BranchLane::Experimental
        } else if v == "all"@ {
            BranchLane::All
        } else {
            BranchLane::Canonical
        },
        None => BranchLane::Canonical,
    }
}

impl BranchLane {
    /// The lane a `lane` query parameter asks for.
    pub fn from_query(value: Option<&str>) -> (r: Self)
        ensures
            r == spec_lane(match value { Some(v) => Some(v@), None => None }),
    {
        match value {
            None => BranchLane::Canonical,
            Some(v) => {
                let chars = chars_of(v);
                let experimental = chars_of("experimental");
                let all = chars_of("all");
                if crate::text::chars_equal(&chars, &experimental) {
                    BranchLane::Experimental
                } else if crate::text::chars_equal(&chars, &all) {
                    BranchLane::All
                } else {
                    BranchLane::Canonical
                }
            },
        }
    }

    /// Whether the lane shows `branch` of `engine`.
    pub open spec fn spec_includes(self, engine: &Engine, branch: Seq<char>) -> bool {
        match self {
            BranchLane::All => true,
            BranchLane::Canonical => !spec_is_experimental(engine, branch),
            BranchLane::Experimental => spec_is_experimental(engine, branch),
        }
    }

    /// Whether the lane shows `branch` of `engine`.
    pub fn includes_branch(self, engine: &Engine, branch: &str) -> (r: bool)
        ensures
            r == self.spec_includes(engine, branch@),
    {
        match self {
            BranchLane::All => true,
            BranchLane::Canonical => !engine_branch_is_experimental(engine, branch),
            BranchLane::Experimental => engine_branch_is_experimental(engine, branch),
        }
    }
}

/// Whether `branch` is one of the engine's experimental branches.
pub fn engine_branch_is_experimental(engine: &Engine, branch: &str) -> (r: bool)
    ensures
        r == spec_is_experimental(engine, branch@),
{
    is_experimental_branch(engine, branch)
}

/// Whether a job belongs in a lane: every job in the full lane; a job made
/// for a branch when the lane shows that branch; any other job when the lane
/// shows one of the branches of its revision.
pub open spec fn spec_job_in_lane(lane: BranchLane, engine: &Engine, branch_context: Option<Seq<char>>, revision_branches: Seq<String>) -> bool {
    if lane == BranchLane::All {
        true
    } else {
        match branch_context {
            Some(b) => lane.spec_includes(engine, b),
            None => exists|i: int| 0 <= i < revision_branches.len() && lane.spec_includes(engine, #[trigger] revision_branches[i]@),
        }
    }
}

/// Whether a job belongs in a lane, given the branch it was made for, or
/// else the branches of its revision.
pub fn job_matches_lane(lane: BranchLane, engine: &Engine, branch_context: Option<&str>, revision_branches: &Vec<String>) -> (r: bool)
    ensures
        r == spec_job_in_lane(lane, engine, match branch_context { Some(b) => Some(b@), None => None }, revision_branches@),
{
    if lane == BranchLane::All {
        return true;
    }
    if let Some(branch) = branch_context {
        return lane.includes_branch(engine, branch);
    }
    let mut i: usize = 0;
    while i < revision_branches.len()
        invariant
            i <= revision_branches.len(),
            lane != BranchLane::All,
            branch_context is None,
            forall|j: int| 0 <= j < i ==> !lane.spec_includes(engine, #[trigger] revision_branches@[j]@),
        decreases revision_branches.len() - i,
    {
        if lane.includes_branch(engine, revision_branches[i].as_str()) {
            return true;
        }
        i = i + 1;
    }
    false
}

/// The token that an `Authorization` header carries after `Bearer `, trimmed.
pub open spec fn bearer_token(header: Seq<char>) -> Option<Seq<char>> {
    if header.len() >= 7 && header.take(7) == "Bearer "@ {
        Some(trim(header.skip(7)))
    } else {
        None
    }
}

/// Whether a request may use the protected routes: always when no admin
/// token is configured, and otherwise only with that token as its bearer
/// token.
pub open spec fn spec_admin_authorized(expected: Option<Seq<char>>, authorization: Option<Seq<char>>) -> bool {
    match expected {
        None => true,
        Some(t) => match authorization {
            Some(h) => bearer_token(h) == Some(t),
            None => false,
        },
    }
}

/// Checks a request's `Authorization` header against the configured admin
/// token.
pub fn authorize_admin(expected_token: Option<&str>, authorization: Option<&str>) -> (r: bool)
    ensures
        r == spec_admin_authorized(
            match expected_token { Some(t) => Some(t@), None => None },
            match authorization { Some(h) => Some(h@), None => None },
        ),
{
    let expected = match expected_token {
        None => return true,
        Some(t) => t,
    };
    let header = match authorization {
        None => return false,
        Some(h) => h,
    };
    let h = chars_of(header);
    let prefix = chars_of("Bearer ");
    proof {
        reveal_strlit("Bearer ");
    }
    if h.len() < 7 || !crate::text::matches_at(&h, 0, &prefix) {
        proof {
            if h@.len() >= 7 && h@.take(7) == "Bearer "@ {
                assert(h@.subrange(0, 7) =~= h@.take(7));
            }
        }
        return false;
    }
    assert(h@.subrange(0, 7) =~= h@.take(7));
    let token = trim_chars(&h, 7);
    let want = chars_of(expected);
    crate::text::chars_equal(&token, &want)
}

/// Where a revision stands on its branch: indices into the revisions given,
/// the neighbours by commit date and the nearest neighbours whose binary is
/// not known to be identical, with the identical ones skipped to reach them.
#[derive(Debug, Clone, Copy, PartialEq, Eq, Structural)]
pub struct RevisionLineage {
    pub previous_branch_revision: Option<usize>,
    pub next_branch_revision: Option<usize>,
    pub previous_distinct_binary_revision: Option<usize>,
    pub next_distinct_binary_revision: Option<usize>,
    pub skipped_identical_previous: usize,
    pub skipped_identical_next: usize,
}

/// Why a lineage could not be built.
#[derive(Debug, Clone, Copy, PartialEq, Eq, Structural)]
pub enum LineageError {
    /// The revision is not among the branch's revisions.
    NotOnBranch,
}

/// The first position in `h` from `p` on holding a revision with id `id`.
pub open spec fn position_of(revs: Seq<EngineRevision>, h: Seq<int>, id: Seq<char>, p: int) -> Option<int>
    decreases h.len() - p,
{
    if p < 0 || p >= h.len() {
        None
    } else if revs[h[p]].id@ == id {
        Some(p)
    } else {
        position_of(revs, h, id, p + 1)
    }
}

/// Whether a neighbour is known to have the same binary.
pub open spec fn same_binary(candidate: &EngineRevision, fingerprint: Option<Seq<char>>) -> bool {
    opt_str_view(candidate.binary_fingerprint) is Some && opt_str_view(candidate.binary_fingerprint) == fingerprint
}

/// Walking down from position `q` of `h`, the first revision whose binary
/// differs, and how many identical ones were passed.
pub open spec fn scan_down(revs: Seq<EngineRevision>, h: Seq<int>, q: int, fp: Option<Seq<char>>) -> (Option<int>, nat)
    decreases q + 1,
{
    if q < 0 || q >= h.len() {
        (None, 0)
    } else if same_binary(&revs[h[q]], fp) {
        let r = scan_down(revs, h, q - 1, fp);
        (r.0, r.1 + 1)
    } else {
        (Some(h[q]), 0)
    }
}

/// Walking up from position `q` of `h`, the first revision whose binary
/// differs, and how many identical ones were passed.
pub open spec fn scan_up(revs: Seq<EngineRevision>, h: Seq<int>, q: int, fp: Option<Seq<char>>) -> (Option<int>, nat)
    decreases h.len() - q,
{
    if q < 0 || q >= h.len() {
        (None, 0)
    } else if same_binary(&revs[h[q]], fp) {
        let r = scan_up(revs, h, q + 1, fp);
        (r.0, r.1 + 1)
    } else {
        (Some(h[q]), 0)
    }
}

/// The lineage of `revision` among the revisions of an engine.
pub open spec fn spec_lineage(revs: Seq<EngineRevision>, revision: &EngineRevision) -> Result<RevisionLineage, LineageError> {
    let h = branch_history(revs, revision.branch@, revs.len() as int);
    match position_of(revs, h, revision.id@, 0) {
        None => Err(LineageError::NotOnBranch),
        Some(p) => {
            let fp = opt_str_view(revision.binary_fingerprint);
            let down = scan_down(revs, h, p - 1, fp);
            let up = scan_up(revs, h, p + 1, fp);
            Ok(RevisionLineage {
                previous_branch_revision: if p > 0 { Some(h[p - 1] as usize) } else { None },
                next_branch_revision: if p + 1 < h.len() { Some(h[p + 1] as usize) } else { None },
                previous_distinct_binary_revision: match down.0 { Some(i) => Some(i as usize), None => None },
                next_distinct_binary_revision: match up.0 { Some(i) => Some(i as usize), None => None },
                skipped_identical_previous: down.1 as usize,
                skipped_identical_next: up.1 as usize,
            })
        },
    }
}

fn same_binary_exec(candidate: &EngineRevision, fingerprint: &Option<String>) -> (r: bool)
    ensures
        r == same_binary(candidate, opt_str_view(*fingerprint)),
{
    match (&candidate.binary_fingerprint, fingerprint) {
        (Some(c), Some(f)) => c.eq(f),
        _ => false,
    }
}

/// Walks down from position `from - 1` of `history` past revisions with the
/// same binary.
fn scan_previous(revisions: &Vec<EngineRevision>, history: &Vec<usize>, from: usize, fingerprint: &Option<String>) -> (r: (Option<usize>, usize))
    requires
        from <= history.len(),
        forall|m: int| 0 <= m < history.len() ==> #[trigger] history@[m] < revisions.len(),
    ensures
        ({
            let s = scan_down(revisions@, ints(history@), from - 1, opt_str_view(*fingerprint));
            &&& r.1 as nat == s.1
            &&& match s.0 { Some(i) => r.0 == Some(i as usize), None => r.0 is None }
        }),
{
    let ghost h = ints(history@);
    let ghost fp = opt_str_view(*fingerprint);
    let mut skipped: usize = 0;
    let mut q: usize = from;
    while q > 0
        invariant
            q <= from <= history.len(),
            h == ints(history@),
            fp == opt_str_view(*fingerprint),
            forall|m: int| 0 <= m < history.len() ==> #[trigger] history@[m] < revisions.len(),
            skipped == from - q,
            ({
                let r = scan_down(revisions@, h, q - 1, fp);
                scan_down(revisions@, h, from - 1, fp) == (r.0, (r.1 + skipped) as nat)
            }),
        decreases q,
    {
        let cand = history[q - 1];
        assert(h[q - 1] == cand as int);
        if !same_binary_exec(&revisions[cand], fingerprint) {
            return (Some(cand), skipped);
        }
        skipped = skipped + 1;
        q = q - 1;
    }
    (None, skipped)
}

/// Walks up from position `from` of `history` past revisions with the same
/// binary.
fn scan_next(revisions: &Vec<EngineRevision>, history: &Vec<usize>, from: usize, fingerprint: &Option<String>) -> (r: (Option<usize>, usize))
    requires
        from <= history.len(),
        forall|m: int| 0 <= m < history.len() ==> #[trigger] history@[m] < revisions.len(),
    ensures
        ({
            let s = scan_up(revisions@, ints(history@), from as int, opt_str_view(*fingerprint));
            &&& r.1 as nat == s.1
            &&& match s.0 { Some(i) => r.0 == Some(i as usize), None => r.0 is None }
        }),
{
    let ghost h = ints(history@);
    let ghost fp = opt_str_view(*fingerprint);
    let mut skipped: usize = 0;
    let mut u: usize = from;
    while u < history.len()
        invariant
            from <= u <= history.len(),
            h == ints(history@),
            fp == opt_str_view(*fingerprint),
            forall|m: int| 0 <= m < history.len() ==> #[trigger] history@[m] < revisions.len(),
            skipped == u - from,
            ({
                let r = scan_up(revisions@, h, u as int, fp);
                scan_up(revisions@, h, from as int, fp) == (r.0, (r.1 + skipped) as nat)
            }),
        decreases history.len() - u,
    {
        let cand = history[u];
        assert(h[u as int] == cand as int);
        if !same_binary_exec(&revisions[cand], fingerprint) {
            return (Some(cand), skipped);
        }
        skipped = skipped + 1;
        u = u + 1;
    }
    (None, skipped)
}

/// Where `revision` sits on its branch among an engine's revisions.
pub fn build_revision_lineage(revisions: &Vec<EngineRevision>, revision: &EngineRevision) -> (r: Result<RevisionLineage, LineageError>)
    ensures
        r == spec_lineage(revisions@, revision),
{
    let mut branches: Vec<Vec<char>> = Vec::new();
    let mut k: usize = 0;
    while k < revisions.len()
        invariant
            k <= revisions.len(),
            branches.len() == k,
            forall|q: int| 0 <= q < k ==> #[trigger] branches@[q]@ == revisions@[q].branch@,
        decreases revisions.len() - k,
    {
        branches.push(chars_of(revisions[k].branch.as_str()));
        k = k + 1;
    }
    let branch = chars_of(revision.branch.as_str());
    let history = crate::scheduler::branch_history_of(revisions, &branches, &branch);
    let ghost h = ints(history@);
    let mut p: usize = 0;
    while p < history.len() && revisions[history[p]].id != revision.id
        invariant
            p <= history.len(),
            h == ints(history@),
            forall|m: int| 0 <= m < history.len() ==> #[trigger] history@[m] < revisions.len(),
            position_of(revisions@, h, revision.id@, 0) == position_of(revisions@, h, revision.id@, p as int),
        decreases history.len() - p,
    {
        assert(h[p as int] == history@[p as int] as int);
        p = p + 1;
    }
    if p == history.len() {
        return Err(LineageError::NotOnBranch);
    }
    assert(h[p as int] == history@[p as int] as int);
    let (previous_distinct, skipped_previous) = scan_previous(revisions, &history, p, &revision.binary_fingerprint);
    let (next_distinct, skipped_next) = scan_next(revisions, &history, p + 1, &revision.binary_fingerprint);
    let previous_branch_revision = if p > 0 {
        assert(h[p - 1] == history@[p - 1] as int);
        Some(history[p - 1])
    } else {
        None
    };
    let next_branch_revision = if p + 1 < history.len() {
        assert(h[p + 1] == history@[p + 1] as int);
        Some(history[p + 1])
    } else {
        None
    };
    Ok(RevisionLineage {
        previous_branch_revision,
        next_branch_revision,
        previous_distinct_binary_revision: previous_distinct,
        next_distinct_binary_revision: next_distinct,
        skipped_identical_previous: skipped_previous,
        skipped_identical_next: skipped_next,
    })
}

/// The revision at `q` has a fingerprint, and it is `fp`.
pub open spec fn has_fingerprint(revs: Seq<EngineRevision>, h: Seq<int>, q: int, fp: Option<Seq<char>>) -> bool {
    opt_str_view(revs[h[q]].binary_fingerprint) is Some && opt_str_view(revs[h[q]].binary_fingerprint) == fp
}

/// Read in fingerprints, the lineage `l` of the revision at position `p` of
/// the branch history `h`, whose own fingerprint is `fp`: the neighbours it
/// skips on either side are exactly the run of neighbours next to it whose
/// fingerprint is present and equal to `fp`, and the distinct neighbour is
/// the first one past that run, which is absent only when the run reaches
/// the end of the history.
pub open spec fn lineage_skips_identical(revs: Seq<EngineRevision>, h: Seq<int>, p: int, fp: Option<Seq<char>>, l: RevisionLineage) -> bool {
    let sp = l.skipped_identical_previous as int;
    let sn = l.skipped_identical_next as int;
    &&& 0 <= sp <= p
    &&& p + sn < h.len()
    &&& forall|q: int| p - sp <= q < p ==> #[trigger] has_fingerprint(revs, h, q, fp)
    &&& forall|q: int| p < q <= p + sn ==> #[trigger] has_fingerprint(revs, h, q, fp)
    &&& match l.previous_distinct_binary_revision {
        Some(i) => sp < p && i as int == h[p - sp - 1] && !has_fingerprint(revs, h, p - sp - 1, fp),
        None => sp == p,
    }
    &&& match l.next_distinct_binary_revision {
        Some(i) => p + sn + 1 < h.len() && i as int == h[p + sn + 1] && !has_fingerprint(revs, h, p + sn + 1, fp),
        None => p + sn + 1 == h.len(),
    }
}

proof fn lemma_scan_down_run(revs: Seq<EngineRevision>, h: Seq<int>, q: int, fp: Option<Seq<char>>)
    requires
        -1 <= q < h.len(),
    ensures
        ({
            let (o, n) = scan_down(revs, h, q, fp);
            &&& n <= q + 1
            &&& forall|x: int| q - n < x <= q ==> #[trigger] has_fingerprint(revs, h, x, fp)
            &&& match o {
                Some(i) => q - n >= 0 && i == h[q - n] && !has_fingerprint(revs, h, q - n, fp),
                None => n == q + 1,
            }
        }),
    decreases q + 1,
{
    if q >= 0 && same_binary(&revs[h[q]], fp) {
        lemma_scan_down_run(revs, h, q - 1, fp);
    }
}

proof fn lemma_scan_up_run(revs: Seq<EngineRevision>, h: Seq<int>, q: int, fp: Option<Seq<char>>)
    requires
        0 <= q <= h.len(),
    ensures
        ({
            let (o, n) = scan_up(revs, h, q, fp);
            &&& q + n <= h.len()
            &&& forall|x: int| q <= x < q + n ==> #[trigger] has_fingerprint(revs, h, x, fp)
            &&& match o {
                Some(i) => q + n < h.len() && i == h[q + n] && !has_fingerprint(revs, h, q + n, fp),
                None => q + n == h.len(),
            }
        }),
    decreases h.len() - q,
{
    if q < h.len() && same_binary(&revs[h[q]], fp) {
        lemma_scan_up_run(revs, h, q + 1, fp);
    }
}

/// A lineage skips only neighbours known to carry the very same binary: each
/// skipped neighbour has a fingerprint equal to the revision's, so a
/// revision without a fingerprint skips nothing and its distinct-binary
/// neighbours are simply its branch neighbours.
pub proof fn law_lineage_skips_only_identical_fingerprints(revs: Seq<EngineRevision>, revision: &EngineRevision)
    requires
        revs.len() <= usize::MAX,
    ensures
        spec_lineage(revs, revision) matches Ok(l) ==> exists|p: int|
            0 <= p < branch_history(revs, revision.branch@, revs.len() as int).len()
            && revs[branch_history(revs, revision.branch@, revs.len() as int)[p]].id@ == revision.id@
            && #[trigger] lineage_skips_identical(
                revs,
                branch_history(revs, revision.branch@, revs.len() as int),
                p,
                opt_str_view(revision.binary_fingerprint),
                l,
            ),
        opt_str_view(revision.binary_fingerprint) is None ==> (spec_lineage(revs, revision) matches Ok(l) ==> {
            &&& l.skipped_identical_previous == 0
            &&& l.skipped_identical_next == 0
            &&& l.previous_distinct_binary_revision == l.previous_branch_revision
            &&& l.next_distinct_binary_revision == l.next_branch_revision
        }),
{
    let h = branch_history(revs, revision.branch@, revs.len() as int);
    let fp = opt_str_view(revision.binary_fingerprint);
    lemma_branch_history_len(revs, revision.branch@, revs.len() as int);
    lemma_branch_history_indices(revs, revision.branch@, revs.len() as int);
    lemma_position_of_found(revs, h, revision.id@, 0);
    if let Some(p) = position_of(revs, h, revision.id@, 0) {
        lemma_scan_down_run(revs, h, p - 1, fp);
        lemma_scan_up_run(revs, h, p + 1, fp);
        let l = spec_lineage(revs, revision)->Ok_0;
        let down = scan_down(revs, h, p - 1, fp);
        let up = scan_up(revs, h, p + 1, fp);
        assert(l.skipped_identical_previous as int == down.1);
        assert(l.skipped_identical_next as int == up.1);
        if let Some(i) = down.0 {
            assert(0 <= h[p - down.1 - 1] < revs.len());
        }
        if let Some(i) = up.0 {
            assert(0 <= h[p + 1 + up.1] < revs.len());
        }
        assert(lineage_skips_identical(revs, h, p, fp, l));
        if fp is None {
            if p > 0 {
                assert(!has_fingerprint(revs, h, p - 1, fp));
            }
            if p + 1 < h.len() {
                assert(!has_fingerprint(revs, h, p + 1, fp));
            }
        }
    }
}

proof fn lemma_position_of_found(revs: Seq<EngineRevision>, h: Seq<int>, id: Seq<char>, p: int)
    requires
        p >= 0,
    ensures
        position_of(revs, h, id, p) matches Some(q) ==> p <= q < h.len() && revs[h[q]].id@ == id,
    decreases h.len() - p,
{
    if p < h.len() && revs[h[p]].id@ != id {
        lemma_position_of_found(revs, h, id, p + 1);
    }
}

/// The canonical and experimental lanes split an engine's branches between
/// them: each branch is in exactly one of the two, and in the full lane.
pub proof fn law_lanes_partition_branches(engine: &Engine, branch: Seq<char>)
    ensures
        BranchLane::Canonical.spec_includes(engine, branch) != BranchLane::Experimental.spec_includes(engine, branch),
        BranchLane::All.spec_includes(engine, branch),
{
}

} // verus!
