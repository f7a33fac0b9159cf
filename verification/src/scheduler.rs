//! Which revision pairs to test, and how urgently.
//!
//! Priority logic:
//! 1. Bisect jobs (highest - user is actively waiting)
//! 2. Manual/user-requested tests
//! 3. Branch HEAD commits (most recent work)
//! 4. Tagged releases (important milestones)
//! 5. Sequential fill-in (working backwards from HEAD)
pub mod priority;

use vstd::prelude::*;
use crate::git::{branch_pattern_matches, pattern_matches};
use crate::types::{opt_str_view, BuildStatus, Engine, EngineRevision};
use crate::text::chars_of;

verus! {

/// Whether `a` comes before `b` in dictionary order of their characters.
pub open spec fn lex_lt(a: Seq<char>, b: Seq<char>) -> bool
    decreases a.len(),
{
    if a.len() == 0 {
        b.len() > 0
    } else if b.len() == 0 {
        false
    } else if a[0] != b[0] {
        a[0] < b[0]
    } else {
        lex_lt(a.drop_first(), b.drop_first())
    }
}

pub proof fn lemma_lex_trichotomy(a: Seq<char>, b: Seq<char>)
    ensures
        lex_lt(a, b) || a == b || lex_lt(b, a),
        !(lex_lt(a, b) && lex_lt(b, a)),
        !(lex_lt(a, b) && a == b),
    decreases a.len(),
{
    if a.len() > 0 && b.len() > 0 && a[0] == b[0] {
        lemma_lex_trichotomy(a.drop_first(), b.drop_first());
        if a.drop_first() == b.drop_first() {
            assert(a =~= seq![a[0]] + a.drop_first());
            assert(b =~= seq![b[0]] + b.drop_first());
        }
    } else if a.len() == 0 && b.len() == 0 {
        assert(a =~= b);
    }
}

/// Whether `a` comes before `b` in dictionary order.
pub fn lex_less(a: &Vec<char>, b: &Vec<char>) -> (r: bool)
    ensures
        r == lex_lt(a@, b@),
{
    let mut i: usize = 0;
    assert(a@.skip(0) =~= a@);
    assert(b@.skip(0) =~= b@);
    while i < a.len() && i < b.len()
        invariant
            i <= a.len(),
            i <= b.len(),
            lex_lt(a@, b@) == lex_lt(a@.skip(i as int), b@.skip(i as int)),
        decreases a.len() - i,
    {
        if a[i] != b[i] {
            assert(a@.skip(i as int)[0] == a@[i as int]);
            assert(b@.skip(i as int)[0] == b@[i as int]);
            return a[i] < b[i];
        }
        assert(a@.skip(i as int).drop_first() =~= a@.skip(i + 1));
        assert(b@.skip(i as int).drop_first() =~= b@.skip(i + 1));
        i = i + 1;
    }
    i == a.len() && i < b.len()
}

/// `n` added to the ordered list of distinct names `s`, scanning from the end.
pub open spec fn insert_name(s: Seq<Seq<char>>, n: Seq<char>) -> Seq<Seq<char>>
    decreases s.len(),
{
    if s.len() == 0 {
        seq![n]
    } else if s.last() == n {
        s
    } else if lex_lt(s.last(), n) {
        s.push(n)
    } else {
        insert_name(s.drop_last(), n).push(s.last())
    }
}

/// Whether the names are in strictly increasing dictionary order: sorted,
/// with no name twice.
pub open spec fn strictly_ordered(s: Seq<Seq<char>>) -> bool {
    forall|i: int, j: int| 0 <= i < j < s.len() ==> lex_lt(#[trigger] s[i], #[trigger] s[j])
}

pub proof fn lemma_lex_transitive(a: Seq<char>, b: Seq<char>, c: Seq<char>)
    requires
        lex_lt(a, b),
        lex_lt(b, c),
    ensures
        lex_lt(a, c),
    decreases a.len(),
{
    if a.len() > 0 && b.len() > 0 && c.len() > 0 && a[0] == b[0] && b[0] == c[0] {
        lemma_lex_transitive(a.drop_first(), b.drop_first(), c.drop_first());
    }
}

/// Adding a name to a strictly ordered list keeps it strictly ordered, and
/// the list then holds exactly the names it held and the new one.
pub proof fn lemma_insert_name_sorted(s: Seq<Seq<char>>, n: Seq<char>)
    requires
        strictly_ordered(s),
    ensures
        strictly_ordered(insert_name(s, n)),
        forall|x: Seq<char>| #[trigger] insert_name(s, n).contains(x) <==> (s.contains(x) || x == n),
    decreases s.len(),
{
    if s.len() == 0 {
        assert(insert_name(s, n) =~= seq![n]);
        assert forall|x: Seq<char>| #[trigger] insert_name(s, n).contains(x) <==> (s.contains(x) || x == n) by {
            if insert_name(s, n).contains(x) {
                let i = choose|i: int| 0 <= i < insert_name(s, n).len() && insert_name(s, n)[i] == x;
                assert(i == 0);
            }
            if x == n {
                assert(insert_name(s, n)[0] == x);
            }
        }
    } else if s.last() == n {
        assert forall|x: Seq<char>| #[trigger] insert_name(s, n).contains(x) <==> (s.contains(x) || x == n) by {
            if x == n {
                assert(s[s.len() - 1] == x);
            }
        }
    } else if lex_lt(s.last(), n) {
        let t = s.push(n);
        assert(insert_name(s, n) == t);
        assert forall|i: int, j: int| 0 <= i < j < t.len() implies lex_lt(#[trigger] t[i], #[trigger] t[j]) by {
            if j == s.len() {
                if i < s.len() - 1 {
                    assert(lex_lt(s[i], s[s.len() - 1]));
                    lemma_lex_transitive(s[i], s.last(), n);
                }
            } else {
                assert(t[i] == s[i] && t[j] == s[j]);
            }
        }
        assert forall|x: Seq<char>| #[trigger] t.contains(x) <==> (s.contains(x) || x == n) by {
            if t.contains(x) {
                let i = choose|i: int| 0 <= i < t.len() && t[i] == x;
                if i < s.len() {
                    assert(s[i] == x);
                }
            }
            if s.contains(x) {
                let i = choose|i: int| 0 <= i < s.len() && s[i] == x;
                assert(t[i] == x);
            }
            if x == n {
                assert(t[s.len() as int] == x);
            }
        }
    } else {
        let d = s.drop_last();
        let last = s.last();
        assert forall|i: int, j: int| 0 <= i < j < d.len() implies lex_lt(#[trigger] d[i], #[trigger] d[j]) by {
            assert(d[i] == s[i] && d[j] == s[j]);
        }
        lemma_insert_name_sorted(d, n);
        let u = insert_name(d, n);
        let t = u.push(last);
        assert(insert_name(s, n) == t);
        lemma_lex_trichotomy(last, n);
        assert(lex_lt(n, last));
        assert forall|x: Seq<char>| u.contains(x) implies lex_lt(x, last) by {
            if x != n {
                assert(d.contains(x));
                let i = choose|i: int| 0 <= i < d.len() && d[i] == x;
                assert(s[i] == x);
                assert(lex_lt(s[i], s[s.len() - 1]));
            }
        }
        assert forall|i: int, j: int| 0 <= i < j < t.len() implies lex_lt(#[trigger] t[i], #[trigger] t[j]) by {
            if j == u.len() {
                assert(t[i] == u[i]);
                assert(u.contains(u[i]));
            } else {
                assert(t[i] == u[i] && t[j] == u[j]);
            }
        }
        assert forall|x: Seq<char>| #[trigger] t.contains(x) <==> (s.contains(x) || x == n) by {
            if t.contains(x) {
                let i = choose|i: int| 0 <= i < t.len() && t[i] == x;
                if i < u.len() {
                    assert(u[i] == x);
                    assert(u.contains(x));
                    if x != n {
                        assert(d.contains(x));
                        let k = choose|k: int| 0 <= k < d.len() && d[k] == x;
                        assert(s[k] == x);
                    }
                } else {
                    assert(s[s.len() - 1] == x);
                }
            }
            if s.contains(x) {
                let i = choose|i: int| 0 <= i < s.len() && s[i] == x;
                if i < s.len() - 1 {
                    assert(d[i] == x);
                    assert(d.contains(x));
                    assert(u.contains(x));
                    let k = choose|k: int| 0 <= k < u.len() && u[k] == x;
                    assert(t[k] == x);
                } else {
                    assert(t[u.len() as int] == x);
                }
            }
            if x == n {
                assert(u.contains(x));
                let k = choose|k: int| 0 <= k < u.len() && u[k] == x;
                assert(t[k] == x);
            }
        }
    }
}

/// The distinct branch names of the revisions, in dictionary order.
pub open spec fn branch_order(revs: Seq<EngineRevision>) -> Seq<Seq<char>>
    decreases revs.len(),
{
    if revs.len() == 0 {
        seq![]
    } else {
        insert_name(branch_order(revs.drop_last()), revs.last().branch@)
    }
}

/// The index list `s`, ordered by commit date, with `k` added after every
/// index of an equal or earlier date: a stable sort by date.
pub open spec fn insert_by_date(revs: Seq<EngineRevision>, s: Seq<int>, k: int) -> Seq<int>
    decreases s.len(),
{
    if s.len() == 0 {
        seq![k]
    } else if revs[s.last()].commit_date <= revs[k].commit_date {
        s.push(k)
    } else {
        insert_by_date(revs, s.drop_last(), k).push(s.last())
    }
}

/// The indices of the first `n` revisions on `branch`, stably sorted by
/// commit date.
pub open spec fn branch_history(revs: Seq<EngineRevision>, branch: Seq<char>, n: int) -> Seq<int>
    decreases n,
{
    if n <= 0 {
        seq![]
    } else if revs[n - 1].branch@ == branch {
        insert_by_date(revs, branch_history(revs, branch, n - 1), n - 1)
    } else {
        branch_history(revs, branch, n - 1)
    }
}

/// The last of the listed revisions that built successfully.
pub open spec fn latest_success(revs: Seq<EngineRevision>, idx: Seq<int>) -> Option<int>
    decreases idx.len(),
{
    if idx.len() == 0 {
        None
    } else if revs[idx.last()].build_status == BuildStatus::Success {
        Some(idx.last())
    } else {
        latest_success(revs, idx.drop_last())
    }
}

/// The indices of the first `n` revisions that are on `branch`, in input order.
pub open spec fn on_branch(revs: Seq<EngineRevision>, branch: Seq<char>, n: int) -> Seq<int>
    decreases n,
{
    if n <= 0 {
        seq![]
    } else if revs[n - 1].branch@ == branch {
        on_branch(revs, branch, n - 1).push(n - 1)
    } else {
        on_branch(revs, branch, n - 1)
    }
}

/// Whether `branch` is one of the engine's experimental branches.
pub open spec fn spec_is_experimental(engine: &Engine, branch: Seq<char>) -> bool {
    exists|i: int| 0 <= i < engine.experimental_branches.len() && pattern_matches(
        #[trigger] engine.experimental_branches@[i]@,
        branch,
    )
}

/// Whether a branch matches one of the engine's experimental patterns.
pub fn is_experimental_branch(engine: &Engine, branch: &str) -> (r: bool)
    ensures
        r == spec_is_experimental(engine, branch@),
{
    let mut i: usize = 0;
    while i < engine.experimental_branches.len()
        invariant
            i <= engine.experimental_branches.len(),
            forall|j: int| 0 <= j < i ==> !pattern_matches(#[trigger] engine.experimental_branches@[j]@, branch@),
        decreases engine.experimental_branches.len() - i,
    {
        if branch_pattern_matches(engine.experimental_branches[i].as_str(), branch) {
            return true;
        }
        i = i + 1;
    }
    false
}

/// Whether `dev` is worth testing against `base`: both built, and not known
/// to be the same binary.
pub open spec fn pair_eligible(dev: &EngineRevision, base: &EngineRevision) -> bool {
    &&& dev.build_status == BuildStatus::Success
    &&& base.build_status == BuildStatus::Success
    &&& !(dev.binary_fingerprint is Some && opt_str_view(dev.binary_fingerprint) == opt_str_view(
        base.binary_fingerprint,
    ))
}

/// Whether `dev` is worth testing against `base`, before the job store is
/// asked whether such a job exists.
pub fn should_schedule_pair(dev: &EngineRevision, base: &EngineRevision) -> (r: bool)
    ensures
        r == pair_eligible(dev, base),
{
    if dev.build_status != BuildStatus::Success || base.build_status != BuildStatus::Success {
        return false;
    }
    match (&dev.binary_fingerprint, &base.binary_fingerprint) {
        (Some(d), Some(b)) => {
            let same = d.eq(b);
            !same
        },
        _ => true,
    }
}

/// Whole days from `commit_date` to `now`, both in seconds since the epoch,
/// clamped to 0..=30.
pub open spec fn age_days(commit_date: i64, now: i64) -> int {
    let diff = now - commit_date;
    if diff <= 0 {
        0
    } else if diff / 86400 > 30 {
        30
    } else {
        diff / 86400
    }
}

/// The priority of testing revision `dev`, the last of `history` or not:
/// tagged releases and branch heads rank above plain commits, and plain
/// commits gain up to thirty points for recency.
pub open spec fn spec_priority(revs: Seq<EngineRevision>, dev: int, history: Seq<int>, now: i64) -> int {
    let tagged = revs[dev].is_release || revs[dev].tag is Some;
    let head = history.len() > 0 && revs[history.last()].id@ == revs[dev].id@;
    let base = if head {
        priority::BRANCH_HEAD as int
    } else if tagged {
        priority::TAGGED_RELEASE as int
    } else {
        priority::BACKFILL as int
    };
    if base < priority::TAGGED_RELEASE {
        base + 30 - age_days(revs[dev].commit_date, now)
    } else {
        base
    }
}

/// Job priorities follow the documented tiers: regression-hunt probes, then
/// manual tests, then branch heads, then tagged releases, then every other
/// commit, which gains at most thirty points for recency and so stays below
/// the releases.
pub proof fn law_priority_tiers(revs: Seq<EngineRevision>, dev: int, history: Seq<int>, now: i64)
    ensures
        priority::BISECT > priority::MANUAL,
        priority::MANUAL > priority::BRANCH_HEAD,
        priority::BRANCH_HEAD > priority::TAGGED_RELEASE,
        ({
            let p = spec_priority(revs, dev, history, now);
            let head = history.len() > 0 && revs[history.last()].id@ == revs[dev].id@;
            let tagged = revs[dev].is_release || revs[dev].tag is Some;
            &&& head ==> p == priority::BRANCH_HEAD
            &&& !head && tagged ==> p == priority::TAGGED_RELEASE
            &&& !head && !tagged ==> priority::BACKFILL <= p <= priority::BACKFILL + 30
            &&& priority::BACKFILL + 30 < priority::TAGGED_RELEASE
        }),
{
}

/// Among commits that are neither branch heads nor tagged, a newer commit is
/// never ranked below an older one.
pub proof fn law_newer_commits_rank_no_lower(revs: Seq<EngineRevision>, older: int, newer: int, history: Seq<int>, now: i64)
    requires
        revs[older].commit_date <= revs[newer].commit_date,
        !(history.len() > 0 && revs[history.last()].id@ == revs[older].id@),
        !(history.len() > 0 && revs[history.last()].id@ == revs[newer].id@),
        !(revs[older].is_release || revs[older].tag is Some),
        !(revs[newer].is_release || revs[newer].tag is Some),
    ensures
        spec_priority(revs, older, history, now) <= spec_priority(revs, newer, history, now),
{
    let d_old = now - revs[older].commit_date;
    let d_new = now - revs[newer].commit_date;
    assert(d_new <= d_old);
    if d_new > 0 {
        vstd::arithmetic::div_mod::lemma_div_is_ordered(d_new as int, d_old as int, 86400);
    }
}

/// A test to schedule: revision `dev` against revision `base`, both indices
/// into the revisions given to the planner.
#[derive(Debug, Clone, Copy, PartialEq, Eq, Structural)]
pub struct JobPlan {
    pub dev: usize,
    pub base: usize,
    pub priority: i32,
}

/// The plan entry for testing `dev` against `base`, if the pair is eligible.
pub open spec fn plan_pair(revs: Seq<EngineRevision>, dev: int, base: int, history: Seq<int>, now: i64) -> Seq<JobPlan> {
    if pair_eligible(&revs[dev], &revs[base]) {
        seq![JobPlan { dev: dev as usize, base: base as usize, priority: spec_priority(revs, dev, history, now) as i32 }]
    } else {
        seq![]
    }
}

/// The pairs of neighbours in `history` from position `k` on, each newer
/// revision against the one before it.
pub open spec fn window_jobs(revs: Seq<EngineRevision>, history: Seq<int>, k: int, now: i64) -> Seq<JobPlan>
    decreases history.len() - k,
{
    if k < 1 || k >= history.len() {
        seq![]
    } else {
        plan_pair(revs, history[k], history[k - 1], history, now) + window_jobs(revs, history, k + 1, now)
    }
}

/// The jobs for one branch: on an experimental branch, its latest built
/// revision against the latest built revision of `main`; elsewhere, every
/// revision against the one before it.
pub open spec fn branch_jobs(engine: &Engine, revs: Seq<EngineRevision>, branch: Seq<char>, main_head: Option<int>, now: i64) -> Seq<JobPlan> {
    let history = branch_history(revs, branch, revs.len() as int);
    if spec_is_experimental(engine, branch) {
        match (latest_success(revs, history), main_head) {
            (Some(d), Some(b)) => if revs[d].id@ == revs[b].id@ {
                seq![]
            } else {
                plan_pair(revs, d, b, history, now)
            },
            _ => seq![],
        }
    } else {
        window_jobs(revs, history, 1, now)
    }
}

pub open spec fn main_branch() -> Seq<char> {
    seq!['m', 'a', 'i', 'n']
}

/// The jobs for the branches `names[k..]`.
pub open spec fn jobs_for_branches(engine: &Engine, revs: Seq<EngineRevision>, names: Seq<Seq<char>>, k: int, now: i64) -> Seq<JobPlan>
    decreases names.len() - k,
{
    if k < 0 || k >= names.len() {
        seq![]
    } else {
        branch_jobs(engine, revs, names[k], latest_success(revs, on_branch(revs, main_branch(), revs.len() as int)), now)
            + jobs_for_branches(engine, revs, names, k + 1, now)
    }
}

/// The sequential jobs for an engine's revisions, branch by branch in
/// dictionary order; `now` is the current time in seconds since the epoch.
pub open spec fn spec_plan_jobs(engine: &Engine, revs: Seq<EngineRevision>, now: i64) -> Seq<JobPlan> {
    if revs.len() < 2 {
        seq![]
    } else {
        jobs_for_branches(engine, revs, branch_order(revs), 0, now)
    }
}

/// The index list of a `Vec<usize>` as integers.
pub open spec fn ints(v: Seq<usize>) -> Seq<int> {
    v.map_values(|i: usize| i as int)
}

proof fn lemma_insert_name_at(s: Seq<Seq<char>>, n: Seq<char>, j: int)
    requires
        0 <= j <= s.len(),
        forall|k: int| j <= k < s.len() ==> lex_lt(n, #[trigger] s[k]),
        j > 0 ==> !lex_lt(n, s[j - 1]),
    ensures
        insert_name(s, n) == (if j > 0 && s[j - 1] == n { s } else { s.insert(j, n) }),
    decreases s.len(),
{
    if s.len() == 0 {
        assert(s.insert(0, n) =~= seq![n]);
    } else if j == s.len() {
        lemma_lex_trichotomy(n, s.last());
        assert(s.insert(j, n) =~= s.push(n));
    } else {
        let last = s.last();
        assert(lex_lt(n, s[s.len() - 1]));
        lemma_lex_trichotomy(n, last);
        lemma_insert_name_at(s.drop_last(), n, j);
        if j > 0 && s[j - 1] == n {
            assert(s.drop_last()[j - 1] == s[j - 1]);
            assert(s.drop_last().push(last) =~= s);
        } else {
            if j > 0 {
                assert(s.drop_last()[j - 1] == s[j - 1]);
            }
            assert(s.drop_last().insert(j, n).push(last) =~= s.insert(j, n));
        }
    }
}

/// Adds `n` to the ordered list of distinct names `s`.
pub fn insert_name_exec(s: &mut Vec<Vec<char>>, n: Vec<char>)
    ensures
        final(s)@.map_values(|v: Vec<char>| v@) == insert_name(old(s)@.map_values(|v: Vec<char>| v@), n@),
{
    let ghost sv = s@.map_values(|v: Vec<char>| v@);
    let mut j = s.len();
    while j > 0 && lex_less(&n, &s[j - 1])
        invariant
            j <= s.len(),
            sv == s@.map_values(|v: Vec<char>| v@),
            forall|k: int| j <= k < s.len() ==> lex_lt(n@, #[trigger] sv[k]),
        decreases j,
    {
        j = j - 1;
    }
    proof {
        lemma_insert_name_at(sv, n@, j as int);
    }
    if j > 0 && crate::text::chars_equal(&s[j - 1], &n) {
        return;
    }
    s.insert(j, n);
    assert(s@.map_values(|v: Vec<char>| v@) =~= sv.insert(j as int, n@));
}

proof fn lemma_insert_by_date_at(revs: Seq<EngineRevision>, s: Seq<int>, k: int, j: int)
    requires
        0 <= j <= s.len(),
        forall|m: int| j <= m < s.len() ==> revs[#[trigger] s[m]].commit_date > revs[k].commit_date,
        j > 0 ==> revs[s[j - 1]].commit_date <= revs[k].commit_date,
    ensures
        insert_by_date(revs, s, k) == s.insert(j, k),
    decreases s.len(),
{
    if s.len() == 0 {
        assert(s.insert(0, k) =~= seq![k]);
    } else if j == s.len() {
        assert(s.insert(j, k) =~= s.push(k));
    } else {
        assert(revs[s[s.len() - 1]].commit_date > revs[k].commit_date);
        lemma_insert_by_date_at(revs, s.drop_last(), k, j);
        if j > 0 {
            assert(s.drop_last()[j - 1] == s[j - 1]);
        }
        assert(s.drop_last().insert(j, k).push(s.last()) =~= s.insert(j, k));
    }
}

/// The revisions on `branch`, stably sorted by commit date, as indices.
pub fn branch_history_of(revs: &Vec<EngineRevision>, branches: &Vec<Vec<char>>, branch: &Vec<char>) -> (r: Vec<usize>)
    requires
        branches.len() == revs.len(),
        forall|k: int| 0 <= k < revs.len() ==> #[trigger] branches@[k]@ == revs@[k].branch@,
    ensures
        ints(r@) == branch_history(revs@, branch@, revs.len() as int),
        forall|m: int| 0 <= m < r.len() ==> #[trigger] r@[m] < revs.len(),
{
    let mut hist: Vec<usize> = Vec::new();
    let mut k: usize = 0;
    while k < revs.len()
        invariant
            k <= revs.len(),
            branches.len() == revs.len(),
            forall|q: int| 0 <= q < revs.len() ==> #[trigger] branches@[q]@ == revs@[q].branch@,
            ints(hist@) == branch_history(revs@, branch@, k as int),
            forall|m: int| 0 <= m < hist.len() ==> #[trigger] hist@[m] < k,
        decreases revs.len() - k,
    {
        if crate::text::chars_equal(&branches[k], branch) {
            let ghost hv = ints(hist@);
            let mut j = hist.len();
            while j > 0 && revs[hist[j - 1]].commit_date > revs[k].commit_date
                invariant
                    j <= hist.len(),
                    k < revs.len(),
                    hv == ints(hist@),
                    forall|m: int| 0 <= m < hist.len() ==> #[trigger] hist@[m] < k,
                    forall|m: int| j <= m < hist.len() ==> revs@[#[trigger] hv[m]].commit_date > revs@[k as int].commit_date,
                decreases j,
            {
                assert(hv[j - 1] == hist@[j - 1] as int);
                j = j - 1;
            }
            proof {
                if j > 0 {
                    assert(hv[j - 1] == hist@[j - 1] as int);
                }
                lemma_insert_by_date_at(revs@, hv, k as int, j as int);
            }
            hist.insert(j, k);
            assert(ints(hist@) =~= hv.insert(j as int, k as int));
        }
        k = k + 1;
    }
    hist
}

/// The last of the listed revisions that built successfully.
fn latest_successful_revision(revs: &Vec<EngineRevision>, idx: &Vec<usize>) -> (r: Option<usize>)
    requires
        forall|m: int| 0 <= m < idx.len() ==> #[trigger] idx@[m] < revs.len(),
    ensures
        match latest_success(revs@, ints(idx@)) {
            Some(i) => r matches Some(d) && d as int == i,
            None => r is None,
        },
        r matches Some(i) ==> i < revs.len(),
{
    let mut j = idx.len();
    assert(ints(idx@).take(idx.len() as int) =~= ints(idx@));
    while j > 0
        invariant
            j <= idx.len(),
            forall|m: int| 0 <= m < idx.len() ==> #[trigger] idx@[m] < revs.len(),
            latest_success(revs@, ints(idx@)) == latest_success(revs@, ints(idx@).take(j as int)),
        decreases j,
    {
        let i = idx[j - 1];
        let ghost t = ints(idx@).take(j as int);
        assert(t.last() == i as int);
        assert(t.drop_last() =~= ints(idx@).take(j - 1));
        if revs[i].build_status == BuildStatus::Success {
            return Some(i);
        }
        j = j - 1;
    }
    assert(ints(idx@).take(0) =~= Seq::<int>::empty());
    None
}

/// The priority of testing revision `dev` of a branch whose history is `history`.
fn compute_priority(revs: &Vec<EngineRevision>, dev: usize, history: &Vec<usize>, now: i64) -> (r: i32)
    requires
        dev < revs.len(),
        forall|m: int| 0 <= m < history.len() ==> #[trigger] history@[m] < revs.len(),
    ensures
        r == spec_priority(revs@, dev as int, ints(history@), now),
{
    let rev = &revs[dev];
    let tagged = rev.is_release || rev.tag.is_some();
    let head = history.len() > 0 && revs[history[history.len() - 1]].id == rev.id;
    assert(history.len() > 0 ==> ints(history@).last() == history@[history.len() - 1] as int);
    let base: i32 = if head {
        priority::BRANCH_HEAD
    } else if tagged {
        priority::TAGGED_RELEASE
    } else {
        priority::BACKFILL
    };
    if base < priority::TAGGED_RELEASE {
        let diff: i128 = now as i128 - rev.commit_date as i128;
        let age: i128 = if diff <= 0 {
            0
        } else if diff / 86400 > 30 {
            30
        } else {
            diff / 86400
        };
        base + 30 - (age as i32)
    } else {
        base
    }
}

/// The jobs for one branch, whose history is `history`.
fn plan_branch(engine: &Engine, revs: &Vec<EngineRevision>, branch: &Vec<char>, history: &Vec<usize>, main_head: Option<usize>, now: i64) -> (r: Vec<JobPlan>)
    requires
        ints(history@) == branch_history(revs@, branch@, revs.len() as int),
        forall|m: int| 0 <= m < history.len() ==> #[trigger] history@[m] < revs.len(),
        match main_head {
            Some(b) => b < revs.len(),
            None => true,
        },
    ensures
        r@ == branch_jobs(engine, revs@, branch@, match main_head { Some(b) => Some(b as int), None => None }, now),
{
    let name = crate::text::string_from_chars(branch, 0, branch.len());
    assert(branch@.subrange(0, branch@.len() as int) =~= branch@);
    let mut out: Vec<JobPlan> = Vec::new();
    if is_experimental_branch(engine, name.as_str()) {
        let latest = latest_successful_revision(revs, history);
        match (latest, main_head) {
            (Some(d), Some(b)) => {
                if revs[d].id == revs[b].id {
                    return out;
                }
                if should_schedule_pair(&revs[d], &revs[b]) {
                    let p = compute_priority(revs, d, history, now);
                    out.push(JobPlan { dev: d, base: b, priority: p });
                }
                assert(out@ =~= plan_pair(revs@, d as int, b as int, ints(history@), now));
                return out;
            },
            _ => {
                return out;
            },
        }
    }
    let ghost h = ints(history@);
    let mut k: usize = 1;
    assert(out@ + window_jobs(revs@, h, 1, now) =~= window_jobs(revs@, h, 1, now));
    while k < history.len()
        invariant
            1 <= k,
            h == ints(history@),
            forall|m: int| 0 <= m < history.len() ==> #[trigger] history@[m] < revs.len(),
            out@ + window_jobs(revs@, h, k as int, now) == window_jobs(revs@, h, 1, now),
        decreases history.len() - k,
    {
        let dev = history[k];
        let base = history[k - 1];
        assert(h[k as int] == dev as int && h[k - 1] == base as int);
        let ghost before = out@;
        if should_schedule_pair(&revs[dev], &revs[base]) {
            let p = compute_priority(revs, dev, history, now);
            out.push(JobPlan { dev, base, priority: p });
        }
        assert(out@ =~= before + plan_pair(revs@, dev as int, base as int, h, now));
        assert(before + window_jobs(revs@, h, k as int, now) =~= out@ + window_jobs(revs@, h, k + 1, now));
        k = k + 1;
    }
    assert(out@ + window_jobs(revs@, h, k as int, now) =~= out@);
    out
}

/// Plans the sequential test jobs for an engine's revisions: per branch, in
/// dictionary order of branch names, each revision against the one before
/// it by commit date, or on an experimental branch its latest built
/// revision against the latest built revision of `main`. `now` is the
/// current time in seconds since the epoch. Whether a planned job already
/// exists is for the job store to tell.
pub fn plan_engine_jobs(engine: &Engine, revisions: &Vec<EngineRevision>, now: i64) -> (r: Vec<JobPlan>)
    ensures
        r@ == spec_plan_jobs(engine, revisions@, now),
{
    let mut out: Vec<JobPlan> = Vec::new();
    if revisions.len() < 2 {
        return out;
    }
    let mut branches: Vec<Vec<char>> = Vec::new();
    let mut names: Vec<Vec<char>> = Vec::new();
    let main_name: Vec<char> = vec!['m', 'a', 'i', 'n'];
    assert(main_name@ =~= main_branch());
    let mut main_head: Option<usize> = None;
    let ghost mut main_list: Seq<int> = seq![];
    let mut k: usize = 0;
    while k < revisions.len()
        invariant
            k <= revisions.len(),
            branches.len() == k,
            main_name@ == main_branch(),
            forall|q: int| 0 <= q < k ==> #[trigger] branches@[q]@ == revisions@[q].branch@,
            names@.map_values(|v: Vec<char>| v@) == branch_order(revisions@.take(k as int)),
            main_list == on_branch(revisions@, main_branch(), k as int),
            match main_head {
                Some(b) => latest_success(revisions@, main_list) == Some(b as int),
                None => latest_success(revisions@, main_list) is None,
            },
            main_head matches Some(b) ==> b < k,
        decreases revisions.len() - k,
    {
        let b = chars_of(revisions[k].branch.as_str());
        assert(revisions@.take(k + 1).drop_last() =~= revisions@.take(k as int));
        assert(revisions@.take(k + 1).last() == revisions@[k as int]);
        let copy = b.clone();
        assert(copy@ == b@);
        insert_name_exec(&mut names, copy);
        if crate::text::chars_equal(&b, &main_name) {
            proof {
                assert(main_list.push(k as int).drop_last() =~= main_list);
                main_list = main_list.push(k as int);
            }
            if revisions[k].build_status == BuildStatus::Success {
                main_head = Some(k);
            }
        }
        branches.push(b);
        k = k + 1;
    }
    assert(revisions@.take(revisions.len() as int) =~= revisions@);
    let ghost head_spec = latest_success(revisions@, on_branch(revisions@, main_branch(), revisions.len() as int));
    assert(match main_head { Some(b) => head_spec == Some(b as int), None => head_spec is None });
    let ghost nv = names@.map_values(|v: Vec<char>| v@);
    let mut i: usize = 0;
    assert(out@ + jobs_for_branches(engine, revisions@, nv, 0, now) =~= jobs_for_branches(engine, revisions@, nv, 0, now));
    while i < names.len()
        invariant
            i <= names.len(),
            nv == names@.map_values(|v: Vec<char>| v@),
            nv == branch_order(revisions@),
            branches.len() == revisions.len(),
            forall|q: int| 0 <= q < revisions.len() ==> #[trigger] branches@[q]@ == revisions@[q].branch@,
            match main_head {
                Some(b) => head_spec == Some(b as int) && b < revisions.len(),
                None => head_spec is None,
            },
            head_spec == latest_success(revisions@, on_branch(revisions@, main_branch(), revisions.len() as int)),
            out@ + jobs_for_branches(engine, revisions@, nv, i as int, now) == jobs_for_branches(engine, revisions@, nv, 0, now),
        decreases names.len() - i,
    {
        let history = branch_history_of(revisions, &branches, &names[i]);
        let jobs = plan_branch(engine, revisions, &names[i], &history, main_head, now);
        let ghost before = out@;
        let mut q: usize = 0;
        while q < jobs.len()
            invariant
                q <= jobs.len(),
                out@ == before + jobs@.take(q as int),
            decreases jobs.len() - q,
        {
            out.push(jobs[q]);
            assert(jobs@.take(q + 1) =~= jobs@.take(q as int).push(jobs@[q as int]));
            q = q + 1;
        }
        assert(jobs@.take(jobs.len() as int) =~= jobs@);
        assert(jobs@ == branch_jobs(engine, revisions@, nv[i as int], head_spec, now));
        assert(before + jobs_for_branches(engine, revisions@, nv, i as int, now) =~= out@ + jobs_for_branches(engine, revisions@, nv, i + 1, now));
        i = i + 1;
    }
    assert(out@ + jobs_for_branches(engine, revisions@, nv, i as int, now) =~= out@);
    out
}

/// Every index in a list that a job may point at names a revision.
pub open spec fn indices_below(s: Seq<int>, n: int) -> bool {
    forall|m: int| 0 <= m < s.len() ==> 0 <= #[trigger] s[m] < n
}

/// Every planned job names two revisions that may be paired.
pub open spec fn plan_is_sound(revs: Seq<EngineRevision>, plan: Seq<JobPlan>) -> bool {
    forall|m: int| 0 <= m < plan.len() ==> {
        let j = #[trigger] plan[m];
        &&& (j.dev as int) < revs.len()
        &&& (j.base as int) < revs.len()
        &&& pair_eligible(&revs[j.dev as int], &revs[j.base as int])
    }
}

proof fn lemma_insert_by_date_indices(revs: Seq<EngineRevision>, s: Seq<int>, k: int, n: int)
    requires
        indices_below(s, n),
        0 <= k < n,
    ensures
        indices_below(insert_by_date(revs, s, k), n),
    decreases s.len(),
{
    if s.len() > 0 && revs[s.last()].commit_date > revs[k].commit_date {
        lemma_insert_by_date_indices(revs, s.drop_last(), k, n);
        let t = insert_by_date(revs, s.drop_last(), k);
        assert forall|m: int| 0 <= m < t.push(s.last()).len() implies 0 <= #[trigger] t.push(s.last())[m] < n by {
            if m < t.len() {
                assert(t.push(s.last())[m] == t[m]);
            }
        }
    }
}

pub(crate) proof fn lemma_branch_history_indices(revs: Seq<EngineRevision>, branch: Seq<char>, n: int)
    requires
        n <= revs.len(),
    ensures
        indices_below(branch_history(revs, branch, n), revs.len() as int),
    decreases n,
{
    if n > 0 {
        lemma_branch_history_indices(revs, branch, n - 1);
        if revs[n - 1].branch@ == branch {
            lemma_insert_by_date_indices(revs, branch_history(revs, branch, n - 1), n - 1, revs.len() as int);
        }
    }
}

proof fn lemma_on_branch_indices(revs: Seq<EngineRevision>, branch: Seq<char>, n: int)
    requires
        n <= revs.len(),
    ensures
        indices_below(on_branch(revs, branch, n), revs.len() as int),
    decreases n,
{
    if n > 0 {
        lemma_on_branch_indices(revs, branch, n - 1);
    }
}

proof fn lemma_latest_success_member(revs: Seq<EngineRevision>, s: Seq<int>, n: int)
    requires
        indices_below(s, n),
    ensures
        latest_success(revs, s) matches Some(i) ==> 0 <= i < n,
    decreases s.len(),
{
    if s.len() > 0 && revs[s.last()].build_status != BuildStatus::Success {
        lemma_latest_success_member(revs, s.drop_last(), n);
    }
}

proof fn lemma_concat_sound(revs: Seq<EngineRevision>, a: Seq<JobPlan>, b: Seq<JobPlan>)
    requires
        plan_is_sound(revs, a),
        plan_is_sound(revs, b),
    ensures
        plan_is_sound(revs, a + b),
{
    assert forall|m: int| 0 <= m < (a + b).len() implies {
        let j = #[trigger] (a + b)[m];
        &&& (j.dev as int) < revs.len()
        &&& (j.base as int) < revs.len()
        &&& pair_eligible(&revs[j.dev as int], &revs[j.base as int])
    } by {
        if m < a.len() {
            assert((a + b)[m] == a[m]);
        } else {
            assert((a + b)[m] == b[m - a.len()]);
        }
    }
}

proof fn lemma_plan_pair_sound(revs: Seq<EngineRevision>, dev: int, base: int, h: Seq<int>, now: i64)
    requires
        revs.len() <= usize::MAX,
        0 <= dev < revs.len(),
        0 <= base < revs.len(),
    ensures
        plan_is_sound(revs, plan_pair(revs, dev, base, h, now)),
{
}

proof fn lemma_window_jobs_sound(revs: Seq<EngineRevision>, h: Seq<int>, k: int, now: i64)
    requires
        revs.len() <= usize::MAX,
        indices_below(h, revs.len() as int),
    ensures
        plan_is_sound(revs, window_jobs(revs, h, k, now)),
    decreases h.len() - k,
{
    if 1 <= k < h.len() {
        lemma_window_jobs_sound(revs, h, k + 1, now);
        lemma_plan_pair_sound(revs, h[k], h[k - 1], h, now);
        lemma_concat_sound(revs, plan_pair(revs, h[k], h[k - 1], h, now), window_jobs(revs, h, k + 1, now));
    }
}

proof fn lemma_jobs_for_branches_sound(engine: &Engine, revs: Seq<EngineRevision>, names: Seq<Seq<char>>, k: int, now: i64)
    requires
        revs.len() <= usize::MAX,
    ensures
        plan_is_sound(revs, jobs_for_branches(engine, revs, names, k, now)),
    decreases names.len() - k,
{
    if 0 <= k < names.len() {
        lemma_jobs_for_branches_sound(engine, revs, names, k + 1, now);
        let h = branch_history(revs, names[k], revs.len() as int);
        let head = latest_success(revs, on_branch(revs, main_branch(), revs.len() as int));
        lemma_branch_history_indices(revs, names[k], revs.len() as int);
        lemma_window_jobs_sound(revs, h, 1, now);
        lemma_latest_success_member(revs, h, revs.len() as int);
        lemma_on_branch_indices(revs, main_branch(), revs.len() as int);
        lemma_latest_success_member(revs, on_branch(revs, main_branch(), revs.len() as int), revs.len() as int);
        if let (Some(d), Some(b)) = (latest_success(revs, h), head) {
            lemma_plan_pair_sound(revs, d, b, h, now);
        }
        let a = branch_jobs(engine, revs, names[k], head, now);
        lemma_concat_sound(revs, a, jobs_for_branches(engine, revs, names, k + 1, now));
    }
}

/// Every job the planner proposes pairs two of the given revisions that both
/// built successfully and are not known to be the same binary.
pub proof fn law_planned_jobs_are_eligible(engine: &Engine, revs: Seq<EngineRevision>, now: i64)
    requires
        revs.len() <= usize::MAX,
    ensures
        plan_is_sound(revs, spec_plan_jobs(engine, revs, now)),
{
    if revs.len() >= 2 {
        lemma_jobs_for_branches_sound(engine, revs, branch_order(revs), 0, now);
    }
}

proof fn lemma_insert_by_date_len(revs: Seq<EngineRevision>, s: Seq<int>, k: int)
    ensures
        insert_by_date(revs, s, k).len() == s.len() + 1,
    decreases s.len(),
{
    if s.len() > 0 && revs[s.last()].commit_date > revs[k].commit_date {
        lemma_insert_by_date_len(revs, s.drop_last(), k);
    }
}

/// The history of a branch among the first `n` revisions has at most `n`
/// entries.
pub(crate) proof fn lemma_branch_history_len(revs: Seq<EngineRevision>, branch: Seq<char>, n: int)
    ensures
        branch_history(revs, branch, n).len() <= if n < 0 { 0 } else { n },
    decreases n,
{
    if n > 0 {
        lemma_branch_history_len(revs, branch, n - 1);
        if revs[n - 1].branch@ == branch {
            lemma_insert_by_date_len(revs, branch_history(revs, branch, n - 1), n - 1);
        }
    }
}

/// Every listed revision is on `branch`.
pub open spec fn all_on(revs: Seq<EngineRevision>, s: Seq<int>, branch: Seq<char>) -> bool {
    forall|m: int| 0 <= m < s.len() ==> revs[#[trigger] s[m]].branch@ == branch
}

/// A job pairs a revision of an experimental branch with a revision of
/// `main`, and any other revision with one of its own branch.
pub open spec fn job_follows_branches(engine: &Engine, revs: Seq<EngineRevision>, j: JobPlan) -> bool {
    let dev_branch = revs[j.dev as int].branch@;
    let base_branch = revs[j.base as int].branch@;
    if spec_is_experimental(engine, dev_branch) {
        base_branch == main_branch()
    } else {
        base_branch == dev_branch
    }
}

/// Every job of `plan` follows the branches of its two revisions.
pub open spec fn plan_follows_branches(engine: &Engine, revs: Seq<EngineRevision>, plan: Seq<JobPlan>) -> bool {
    forall|m: int| 0 <= m < plan.len() ==> job_follows_branches(engine, revs, #[trigger] plan[m])
}

proof fn lemma_insert_by_date_on(revs: Seq<EngineRevision>, s: Seq<int>, k: int, branch: Seq<char>)
    requires
        all_on(revs, s, branch),
        revs[k].branch@ == branch,
    ensures
        all_on(revs, insert_by_date(revs, s, k), branch),
    decreases s.len(),
{
    if s.len() == 0 {
        assert(seq![k][0] == k);
    } else if revs[s.last()].commit_date <= revs[k].commit_date {
        assert forall|m: int| 0 <= m < s.push(k).len() implies revs[#[trigger] s.push(k)[m]].branch@ == branch by {
            if m < s.len() {
                assert(s.push(k)[m] == s[m]);
            }
        }
    } else {
        lemma_insert_by_date_on(revs, s.drop_last(), k, branch);
        let t = insert_by_date(revs, s.drop_last(), k);
        assert forall|m: int| 0 <= m < t.push(s.last()).len() implies revs[#[trigger] t.push(s.last())[m]].branch@ == branch by {
            if m < t.len() {
                assert(t.push(s.last())[m] == t[m]);
            }
        }
    }
}

proof fn lemma_branch_history_on(revs: Seq<EngineRevision>, branch: Seq<char>, n: int)
    ensures
        all_on(revs, branch_history(revs, branch, n), branch),
    decreases n,
{
    if n > 0 {
        lemma_branch_history_on(revs, branch, n - 1);
        if revs[n - 1].branch@ == branch {
            lemma_insert_by_date_on(revs, branch_history(revs, branch, n - 1), n - 1, branch);
        }
    }
}

proof fn lemma_on_branch_on(revs: Seq<EngineRevision>, branch: Seq<char>, n: int)
    ensures
        all_on(revs, on_branch(revs, branch, n), branch),
    decreases n,
{
    if n > 0 {
        lemma_on_branch_on(revs, branch, n - 1);
        let s = on_branch(revs, branch, n - 1);
        if revs[n - 1].branch@ == branch {
            assert forall|m: int| 0 <= m < s.push(n - 1).len() implies revs[#[trigger] s.push(n - 1)[m]].branch@ == branch by {
                if m < s.len() {
                    assert(s.push(n - 1)[m] == s[m]);
                }
            }
        }
    }
}

proof fn lemma_latest_success_on(revs: Seq<EngineRevision>, s: Seq<int>, branch: Seq<char>)
    requires
        all_on(revs, s, branch),
    ensures
        latest_success(revs, s) matches Some(i) ==> revs[i].branch@ == branch,
    decreases s.len(),
{
    if s.len() > 0 {
        assert(revs[s[s.len() - 1]].branch@ == branch);
        if revs[s.last()].build_status != BuildStatus::Success {
            assert(all_on(revs, s.drop_last(), branch)) by {
                assert forall|m: int| 0 <= m < s.drop_last().len() implies revs[#[trigger] s.drop_last()[m]].branch@ == branch by {
                    assert(s.drop_last()[m] == s[m]);
                }
            }
            lemma_latest_success_on(revs, s.drop_last(), branch);
        }
    }
}

proof fn lemma_concat_follows(engine: &Engine, revs: Seq<EngineRevision>, a: Seq<JobPlan>, b: Seq<JobPlan>)
    requires
        plan_follows_branches(engine, revs, a),
        plan_follows_branches(engine, revs, b),
    ensures
        plan_follows_branches(engine, revs, a + b),
{
    assert forall|m: int| 0 <= m < (a + b).len() implies job_follows_branches(engine, revs, #[trigger] (a + b)[m]) by {
        if m < a.len() {
            assert((a + b)[m] == a[m]);
        } else {
            assert((a + b)[m] == b[m - a.len()]);
        }
    }
}

proof fn lemma_window_jobs_on(revs: Seq<EngineRevision>, h: Seq<int>, k: int, now: i64, branch: Seq<char>)
    requires
        revs.len() <= usize::MAX,
        indices_below(h, revs.len() as int),
        all_on(revs, h, branch),
    ensures
        forall|m: int| 0 <= m < window_jobs(revs, h, k, now).len() ==> {
            let j = #[trigger] window_jobs(revs, h, k, now)[m];
            &&& revs[j.dev as int].branch@ == branch
            &&& revs[j.base as int].branch@ == branch
        },
    decreases h.len() - k,
{
    if 1 <= k < h.len() {
        lemma_window_jobs_on(revs, h, k + 1, now, branch);
        let p = plan_pair(revs, h[k], h[k - 1], h, now);
        let w = window_jobs(revs, h, k + 1, now);
        assert(revs[h[k]].branch@ == branch);
        assert(revs[h[k - 1]].branch@ == branch);
        assert forall|m: int| 0 <= m < (p + w).len() implies {
            let j = #[trigger] (p + w)[m];
            &&& revs[j.dev as int].branch@ == branch
            &&& revs[j.base as int].branch@ == branch
        } by {
            if m < p.len() {
                assert((p + w)[m] == p[m]);
            } else {
                assert((p + w)[m] == w[m - p.len()]);
            }
        }
    }
}

proof fn lemma_jobs_for_branches_follow(engine: &Engine, revs: Seq<EngineRevision>, names: Seq<Seq<char>>, k: int, now: i64)
    requires
        revs.len() <= usize::MAX,
    ensures
        plan_follows_branches(engine, revs, jobs_for_branches(engine, revs, names, k, now)),
    decreases names.len() - k,
{
    if 0 <= k < names.len() {
        lemma_jobs_for_branches_follow(engine, revs, names, k + 1, now);
        let name = names[k];
        let h = branch_history(revs, name, revs.len() as int);
        let mains = on_branch(revs, main_branch(), revs.len() as int);
        let head = latest_success(revs, mains);
        lemma_branch_history_on(revs, name, revs.len() as int);
        lemma_on_branch_on(revs, main_branch(), revs.len() as int);
        lemma_latest_success_on(revs, h, name);
        lemma_latest_success_on(revs, mains, main_branch());
        lemma_branch_history_indices(revs, name, revs.len() as int);
        lemma_latest_success_member(revs, h, revs.len() as int);
        lemma_on_branch_indices(revs, main_branch(), revs.len() as int);
        lemma_latest_success_member(revs, mains, revs.len() as int);
        let a = branch_jobs(engine, revs, name, head, now);
        if !spec_is_experimental(engine, name) {
            lemma_window_jobs_on(revs, h, 1, now, name);
            assert forall|m: int| 0 <= m < a.len() implies job_follows_branches(engine, revs, #[trigger] a[m]) by {
                let j = a[m];
                assert(revs[j.dev as int].branch@ == name);
            }
        } else {
            assert forall|m: int| 0 <= m < a.len() implies job_follows_branches(engine, revs, #[trigger] a[m]) by {
                let j = a[m];
                if let (Some(d), Some(b)) = (latest_success(revs, h), head) {
                    assert(j.dev as int == d);
                    assert(j.base as int == b);
                    assert(revs[d].branch@ == name);
                }
            }
        }
        lemma_concat_follows(engine, revs, a, jobs_for_branches(engine, revs, names, k + 1, now));
    }
}

/// Every planned job on an experimental branch tests a revision of that
/// branch against a revision of `main`; every other job tests a revision
/// against one of its own branch.
pub proof fn law_jobs_follow_branches(engine: &Engine, revs: Seq<EngineRevision>, now: i64)
    requires
        revs.len() <= usize::MAX,
    ensures
        plan_follows_branches(engine, revs, spec_plan_jobs(engine, revs, now)),
{
    if revs.len() >= 2 {
        lemma_jobs_for_branches_follow(engine, revs, branch_order(revs), 0, now);
    }
}

/// `base` stands immediately before `dev` in the date-ordered history `h`.
pub open spec fn is_neighbour_pair(h: Seq<int>, dev: int, base: int) -> bool {
    exists|idx: int| 1 <= idx < h.len() && #[trigger] h[idx] == dev && h[idx - 1] == base
}

/// The history of `branch` among all the revisions, oldest first.
pub open spec fn full_history(revs: Seq<EngineRevision>, branch: Seq<char>) -> Seq<int> {
    branch_history(revs, branch, revs.len() as int)
}

/// Some job of `plan` tests `dev` against `base`.
pub open spec fn plans_pair(plan: Seq<JobPlan>, dev: int, base: int) -> bool {
    exists|m: int| 0 <= m < plan.len() && (#[trigger] plan[m]).dev as int == dev && plan[m].base as int == base
}

proof fn lemma_window_jobs_neighbours(revs: Seq<EngineRevision>, h: Seq<int>, k: int, now: i64)
    requires
        revs.len() <= usize::MAX,
        indices_below(h, revs.len() as int),
    ensures
        forall|m: int| 0 <= m < window_jobs(revs, h, k, now).len() ==> is_neighbour_pair(
            h,
            (#[trigger] window_jobs(revs, h, k, now)[m]).dev as int,
            window_jobs(revs, h, k, now)[m].base as int,
        ),
    decreases h.len() - k,
{
    if 1 <= k < h.len() {
        lemma_window_jobs_neighbours(revs, h, k + 1, now);
        let p = plan_pair(revs, h[k], h[k - 1], h, now);
        let w = window_jobs(revs, h, k + 1, now);
        assert(0 <= h[k] < revs.len() && 0 <= h[k - 1] < revs.len());
        assert forall|m: int| 0 <= m < (p + w).len() implies is_neighbour_pair(
            h,
            (#[trigger] (p + w)[m]).dev as int,
            (p + w)[m].base as int,
        ) by {
            if m < p.len() {
                assert((p + w)[m] == p[m]);
                assert(h[k] == p[m].dev as int);
            } else {
                assert((p + w)[m] == w[m - p.len()]);
            }
        }
    }
}

proof fn lemma_jobs_for_branches_neighbours(engine: &Engine, revs: Seq<EngineRevision>, names: Seq<Seq<char>>, k: int, now: i64)
    requires
        revs.len() <= usize::MAX,
    ensures
        forall|m: int| 0 <= m < jobs_for_branches(engine, revs, names, k, now).len() ==> {
            let j = #[trigger] jobs_for_branches(engine, revs, names, k, now)[m];
            let b = revs[j.dev as int].branch@;
            !spec_is_experimental(engine, b) ==> is_neighbour_pair(full_history(revs, b), j.dev as int, j.base as int)
        },
    decreases names.len() - k,
{
    if 0 <= k < names.len() {
        lemma_jobs_for_branches_neighbours(engine, revs, names, k + 1, now);
        let name = names[k];
        let h = branch_history(revs, name, revs.len() as int);
        let mains = on_branch(revs, main_branch(), revs.len() as int);
        let head = latest_success(revs, mains);
        let a = branch_jobs(engine, revs, name, head, now);
        let rest = jobs_for_branches(engine, revs, names, k + 1, now);
        lemma_branch_history_on(revs, name, revs.len() as int);
        lemma_branch_history_indices(revs, name, revs.len() as int);
        lemma_latest_success_on(revs, h, name);
        lemma_latest_success_member(revs, h, revs.len() as int);
        if !spec_is_experimental(engine, name) {
            lemma_window_jobs_on(revs, h, 1, now, name);
            lemma_window_jobs_neighbours(revs, h, 1, now);
        }
        assert forall|m: int| 0 <= m < (a + rest).len() implies {
            let j = #[trigger] (a + rest)[m];
            let b = revs[j.dev as int].branch@;
            !spec_is_experimental(engine, b) ==> is_neighbour_pair(full_history(revs, b), j.dev as int, j.base as int)
        } by {
            if m < a.len() {
                assert((a + rest)[m] == a[m]);
                let j = a[m];
                if spec_is_experimental(engine, name) {
                    if let (Some(d), Some(bb)) = (latest_success(revs, h), head) {
                        assert(j.dev as int == d);
                        assert(revs[d].branch@ == name);
                    }
                } else {
                    assert(revs[j.dev as int].branch@ == name);
                }
            } else {
                assert((a + rest)[m] == rest[m - a.len()]);
            }
        }
    }
}

proof fn lemma_concat_plans(a: Seq<JobPlan>, b: Seq<JobPlan>, dev: int, base: int)
    ensures
        plans_pair(a, dev, base) || plans_pair(b, dev, base) ==> plans_pair(a + b, dev, base),
{
    if plans_pair(a, dev, base) {
        let m = choose|m: int| 0 <= m < a.len() && (#[trigger] a[m]).dev as int == dev && a[m].base as int == base;
        assert((a + b)[m] == a[m]);
    } else if plans_pair(b, dev, base) {
        let m = choose|m: int| 0 <= m < b.len() && (#[trigger] b[m]).dev as int == dev && b[m].base as int == base;
        assert((a + b)[a.len() + m] == b[m]);
    }
}

proof fn lemma_window_jobs_plan_pair(revs: Seq<EngineRevision>, h: Seq<int>, k: int, idx: int, now: i64)
    requires
        revs.len() <= usize::MAX,
        indices_below(h, revs.len() as int),
        1 <= k <= idx < h.len(),
        pair_eligible(&revs[h[idx]], &revs[h[idx - 1]]),
    ensures
        plans_pair(window_jobs(revs, h, k, now), h[idx], h[idx - 1]),
    decreases idx - k,
{
    let p = plan_pair(revs, h[k], h[k - 1], h, now);
    let w = window_jobs(revs, h, k + 1, now);
    assert(0 <= h[idx] < revs.len() && 0 <= h[idx - 1] < revs.len());
    if k == idx {
        assert(p[0].dev as int == h[idx]);
        assert(plans_pair(p, h[idx], h[idx - 1]));
    } else {
        lemma_window_jobs_plan_pair(revs, h, k + 1, idx, now);
    }
    lemma_concat_plans(p, w, h[idx], h[idx - 1]);
}

proof fn lemma_jobs_for_branches_plan_pair(
    engine: &Engine,
    revs: Seq<EngineRevision>,
    names: Seq<Seq<char>>,
    k: int,
    t: int,
    idx: int,
    now: i64,
)
    requires
        revs.len() <= usize::MAX,
        0 <= k <= t < names.len(),
        !spec_is_experimental(engine, names[t]),
        1 <= idx < full_history(revs, names[t]).len(),
        pair_eligible(&revs[full_history(revs, names[t])[idx]], &revs[full_history(revs, names[t])[idx - 1]]),
    ensures
        plans_pair(
            jobs_for_branches(engine, revs, names, k, now),
            full_history(revs, names[t])[idx],
            full_history(revs, names[t])[idx - 1],
        ),
    decreases t - k,
{
    let h = full_history(revs, names[t]);
    let head = latest_success(revs, on_branch(revs, main_branch(), revs.len() as int));
    let a = branch_jobs(engine, revs, names[k], head, now);
    let rest = jobs_for_branches(engine, revs, names, k + 1, now);
    if k == t {
        lemma_branch_history_indices(revs, names[t], revs.len() as int);
        lemma_window_jobs_plan_pair(revs, h, 1, idx, now);
    } else {
        lemma_jobs_for_branches_plan_pair(engine, revs, names, k + 1, t, idx, now);
    }
    lemma_concat_plans(a, rest, h[idx], h[idx - 1]);
}

proof fn lemma_insert_name_keeps(s: Seq<Seq<char>>, n: Seq<char>, x: Seq<char>)
    ensures
        (s.contains(x) || x == n) ==> insert_name(s, n).contains(x),
    decreases s.len(),
{
    let r = insert_name(s, n);
    if s.len() == 0 {
        if x == n {
            assert(r[0] == n);
        }
    } else if s.last() == n {
        if x == n {
            assert(s[s.len() - 1] == n);
        }
    } else if lex_lt(s.last(), n) {
        if s.contains(x) {
            let i = choose|i: int| 0 <= i < s.len() && s[i] == x;
            assert(s.push(n)[i] == x);
        } else if x == n {
            assert(s.push(n)[s.len() as int] == n);
        }
    } else {
        let d = s.drop_last();
        lemma_insert_name_keeps(d, n, x);
        let t = insert_name(d, n);
        if s.contains(x) {
            let i = choose|i: int| 0 <= i < s.len() && s[i] == x;
            if i == s.len() - 1 {
                assert(t.push(s.last())[t.len() as int] == x);
            } else {
                assert(d[i] == x);
                assert(d.contains(x));
                let j = choose|j: int| 0 <= j < t.len() && t[j] == x;
                assert(t.push(s.last())[j] == x);
            }
        } else if x == n {
            let j = choose|j: int| 0 <= j < t.len() && t[j] == x;
            assert(t.push(s.last())[j] == x);
        }
    }
}

proof fn lemma_branch_order_has(revs: Seq<EngineRevision>, i: int)
    requires
        0 <= i < revs.len(),
    ensures
        branch_order(revs).contains(revs[i].branch@),
    decreases revs.len(),
{
    let d = revs.drop_last();
    if i == revs.len() - 1 {
        lemma_insert_name_keeps(branch_order(d), revs.last().branch@, revs[i].branch@);
    } else {
        lemma_branch_order_has(d, i);
        assert(d[i] == revs[i]);
        lemma_insert_name_keeps(branch_order(d), revs.last().branch@, revs[i].branch@);
    }
}

/// On a branch that is not experimental, the planner tests every revision
/// against the one immediately before it in the branch's date-ordered
/// history, and only so: each job on such a branch is such a neighbour
/// pair, and each neighbour pair that may be paired gets a job.
pub proof fn law_canonical_jobs_pair_each_commit_with_its_predecessor(
    engine: &Engine,
    revs: Seq<EngineRevision>,
    now: i64,
    branch: Seq<char>,
)
    requires
        revs.len() <= usize::MAX,
    ensures
        forall|m: int| 0 <= m < spec_plan_jobs(engine, revs, now).len() ==> {
            let j = #[trigger] spec_plan_jobs(engine, revs, now)[m];
            let b = revs[j.dev as int].branch@;
            !spec_is_experimental(engine, b) ==> is_neighbour_pair(full_history(revs, b), j.dev as int, j.base as int)
        },
        !spec_is_experimental(engine, branch) ==> forall|idx: int|
            1 <= idx < full_history(revs, branch).len() && pair_eligible(
                &revs[#[trigger] full_history(revs, branch)[idx]],
                &revs[full_history(revs, branch)[idx - 1]],
            ) ==> plans_pair(spec_plan_jobs(engine, revs, now), full_history(revs, branch)[idx], full_history(revs, branch)[idx - 1]),
{
    if revs.len() >= 2 {
        lemma_jobs_for_branches_neighbours(engine, revs, branch_order(revs), 0, now);
    }
    let h = full_history(revs, branch);
    if !spec_is_experimental(engine, branch) && h.len() >= 2 {
        lemma_branch_history_on(revs, branch, revs.len() as int);
        lemma_branch_history_indices(revs, branch, revs.len() as int);
        lemma_branch_history_len(revs, branch, revs.len() as int);
        let i0 = h[0];
        assert(revs[i0].branch@ == branch);
        lemma_branch_order_has(revs, i0);
        let names = branch_order(revs);
        let t = choose|t: int| 0 <= t < names.len() && names[t] == branch;
        assert forall|idx: int|
            1 <= idx < h.len() && pair_eligible(&revs[#[trigger] h[idx]], &revs[h[idx - 1]])
            implies plans_pair(spec_plan_jobs(engine, revs, now), h[idx], h[idx - 1]) by {
            lemma_jobs_for_branches_plan_pair(engine, revs, names, 0, t, idx, now);
        }
    }
}

/// The position of the last successfully built revision of `revs`.
pub fn latest_built_revision(revs: &Vec<EngineRevision>) -> (r: Option<usize>)
    ensures
        match r {
            Some(i) => {
                &&& i < revs.len()
                &&& revs@[i as int].build_status == BuildStatus::Success
                &&& forall|j: int| i < j < revs.len() ==> #[trigger] revs@[j].build_status != BuildStatus::Success
            },
            None => forall|j: int| 0 <= j < revs.len() ==> #[trigger] revs@[j].build_status != BuildStatus::Success,
        },
{
    let mut k = revs.len();
    while k > 0
        invariant
            k <= revs.len(),
            forall|j: int| k <= j < revs.len() ==> #[trigger] revs@[j].build_status != BuildStatus::Success,
        decreases k,
    {
        if revs[k - 1].build_status == BuildStatus::Success {
            return Some(k - 1);
        }
        k = k - 1;
    }
    None
}

} // verus!
