//! Plain records of git data, and the branch patterns that select branches.
use vstd::prelude::*;
use crate::text::{chars_equal, chars_of, contains_char, matches_at, split_chars, split_on, lemma_split_on_nonempty, string_from_chars, trim};
use crate::scheduler::{insert_name, lemma_insert_name_sorted, strictly_ordered};
use crate::types::opt_str_view;

verus! {

/// Number of leading characters of a commit hash shown to users.
pub const DISPLAY_HASH_LEN: usize = 12;

/// Largest size in bytes of the patch text kept for a diff.
pub const MAX_PATCH_BYTES: usize = 24576;


/// The author or committer of a commit.
pub struct CommitActor {
    pub name: Option<String>,
    pub email: Option<String>,
}

/// What a diff did to one file.
pub struct DiffFileSummary {
    pub old_path: Option<String>,
    pub new_path: Option<String>,
    pub status: String,
    pub additions: usize,
    pub deletions: usize,
}

/// Summary of the changes between two revisions.
pub struct DiffSummary {
    pub base_hash: Option<String>,
    pub head_hash: String,
    pub files_changed: usize,
    pub insertions: usize,
    pub deletions: usize,
    pub files: Vec<DiffFileSummary>,
    pub patch: String,
    pub patch_truncated: bool,
}

/// Where and how an engine repository is checked out and built.
pub struct GitManager {
    pub repo_url: String,
    pub local_path: String,
    pub build_cmd: String,
    pub binary_path: String,
}

impl GitManager {
    /// A manager for the repository at `repo_url`, checked out at `local_path`.
    pub fn new(repo_url: &str, local_path: &str, build_cmd: &str, binary_path: &str) -> (r: Self)
        ensures
            r.repo_url@ == repo_url@,
            r.local_path@ == local_path@,
            r.build_cmd@ == build_cmd@,
            r.binary_path@ == binary_path@,
    {
        GitManager {
            repo_url: repo_url.to_owned(),
            local_path: local_path.to_owned(),
            build_cmd: build_cmd.to_owned(),
            binary_path: binary_path.to_owned(),
        }
    }
}

/// The abbreviated form of a commit hash: its first twelve characters.
pub fn short_hash(hash: &str) -> (r: &str)
    ensures
        r@ == hash@.take(if hash@.len() < DISPLAY_HASH_LEN { hash@.len() as int } else { DISPLAY_HASH_LEN as int }),
{
    let n = hash.unicode_len();
    let end = if n < DISPLAY_HASH_LEN { n } else { DISPLAY_HASH_LEN };
    let r = hash.substring_char(0, end);
    assert(hash@.subrange(0, end as int) =~= hash@.take(end as int));
    r
}

/// Whether a branch pattern contains a wildcard.
pub fn has_branch_wildcard(pattern: &str) -> (r: bool)
    ensures
        r == pattern@.contains('*'),
{
    contains_char(&chars_of(pattern), '*')
}

/// The pieces `parts` occur in `c` one after another, without overlapping.
pub open spec fn in_order(parts: Seq<Seq<char>>, c: Seq<char>) -> bool
    decreases parts.len(),
{
    if parts.len() == 0 {
        true
    } else {
        exists|i: int|
            0 <= i && i + parts[0].len() <= c.len() && #[trigger] c.subrange(i, i + parts[0].len())
                == parts[0] && in_order(parts.drop_first(), c.skip(i + parts[0].len()))
    }
}

/// Glob matching where `*` stands for any run of characters: `candidate`
/// starts with the text before the first `*`, ends with the text after the
/// last `*`, and holds the pieces between stars, in order, in between.
/// A pattern without `*` matches only itself.
pub open spec fn pattern_matches(pattern: Seq<char>, candidate: Seq<char>) -> bool {
    if !pattern.contains('*') {
        pattern == candidate
    } else {
        let parts = split_on(pattern, '*');
        let first = parts[0];
        let last = parts.last();
        &&& first.len() + last.len() <= candidate.len()
        &&& candidate.take(first.len() as int) == first
        &&& candidate.skip(candidate.len() - last.len()) == last
        &&& in_order(
            parts.subrange(1, parts.len() - 1),
            candidate.subrange(first.len() as int, candidate.len() - last.len()),
        )
    }
}

proof fn lemma_in_order_extend(parts: Seq<Seq<char>>, y: Seq<char>, x: Seq<char>)
    requires
        in_order(parts, x),
    ensures
        in_order(parts, y + x),
    decreases parts.len(),
{
    if parts.len() > 0 {
        let i = choose|i: int|
            0 <= i && i + parts[0].len() <= x.len() && #[trigger] x.subrange(i, i + parts[0].len())
                == parts[0] && in_order(parts.drop_first(), x.skip(i + parts[0].len()));
        let j = y.len() + i;
        assert((y + x).subrange(j, j + parts[0].len()) =~= x.subrange(i, i + parts[0].len()));
        assert((y + x).skip(j + parts[0].len()) =~= x.skip(i + parts[0].len()));
    }
}

proof fn lemma_in_order_greedy(parts: Seq<Seq<char>>, x: Seq<char>, a: int)
    requires
        parts.len() > 0,
        0 <= a,
        a + parts[0].len() <= x.len(),
        x.subrange(a, a + parts[0].len()) == parts[0],
        forall|j: int|
            0 <= j < a && j + parts[0].len() <= x.len() ==> #[trigger] x.subrange(j, j + parts[0].len())
                != parts[0],
    ensures
        in_order(parts, x) == in_order(parts.drop_first(), x.skip(a + parts[0].len())),
{
    let p = parts[0];
    if in_order(parts, x) {
        let i = choose|i: int|
            0 <= i && i + p.len() <= x.len() && #[trigger] x.subrange(i, i + p.len()) == p
                && in_order(parts.drop_first(), x.skip(i + p.len()));
        assert(i >= a);
        let y = x.subrange(a + p.len(), i + p.len());
        lemma_in_order_extend(parts.drop_first(), y, x.skip(i + p.len()));
        assert(y + x.skip(i + p.len()) =~= x.skip(a + p.len()));
    }
    if in_order(parts.drop_first(), x.skip(a + p.len())) {
        assert(x.subrange(a, a + p.len()) == p);
    }
}

proof fn lemma_in_order_no_occurrence(parts: Seq<Seq<char>>, x: Seq<char>)
    requires
        parts.len() > 0,
        forall|j: int|
            0 <= j && j + parts[0].len() <= x.len() ==> #[trigger] x.subrange(j, j + parts[0].len())
                != parts[0],
    ensures
        !in_order(parts, x),
{
}

proof fn lemma_in_order_empty_first(parts: Seq<Seq<char>>, x: Seq<char>)
    requires
        parts.len() > 0,
        parts[0].len() == 0,
    ensures
        in_order(parts, x) == in_order(parts.drop_first(), x),
{
    if in_order(parts, x) {
        let i = choose|i: int|
            0 <= i && i + parts[0].len() <= x.len() && #[trigger] x.subrange(i, i + parts[0].len())
                == parts[0] && in_order(parts.drop_first(), x.skip(i + parts[0].len()));
        lemma_in_order_extend(parts.drop_first(), x.take(i), x.skip(i));
        assert(x.take(i) + x.skip(i) =~= x);
    }
    if in_order(parts.drop_first(), x) {
        assert(x.subrange(0int, 0int + parts[0].len()) =~= parts[0]);
        assert(x.skip(0int + parts[0].len()) =~= x);
    }
}

proof fn lemma_split_two_parts(s: Seq<char>, sep: char)
    requires
        s.contains(sep),
    ensures
        split_on(s, sep).len() >= 2,
    decreases s.len(),
{
    lemma_split_on_nonempty(s.drop_last(), sep);
    if s.last() != sep {
        let k = choose|k: int| 0 <= k < s.len() && s[k] == sep;
        assert(s.drop_last()[k] == sep);
        lemma_split_two_parts(s.drop_last(), sep);
    }
}

proof fn lemma_split_without_separator(s: Seq<char>, sep: char)
    requires
        !s.contains(sep),
    ensures
        split_on(s, sep) == seq![s],
    decreases s.len(),
{
    if s.len() == 0 {
        assert(s =~= Seq::<char>::empty());
    } else {
        assert(!s.drop_last().contains(sep)) by {
            if s.drop_last().contains(sep) {
                let k = choose|k: int| 0 <= k < s.drop_last().len() && s.drop_last()[k] == sep;
                assert(s[k] == sep);
            }
        }
        lemma_split_without_separator(s.drop_last(), sep);
        assert(s.last() != sep) by {
            assert(s[s.len() - 1] == s.last());
        }
        assert(s.drop_last().push(s.last()) =~= s);
    }
}

/// A pattern made of a star-free prefix and one trailing `*` picks up exactly
/// the candidates that start with that prefix.
pub proof fn law_trailing_star_matches_prefix(prefix: Seq<char>, candidate: Seq<char>)
    requires
        !prefix.contains('*'),
    ensures
        pattern_matches(prefix.push('*'), candidate) == (prefix.len() <= candidate.len()
            && candidate.take(prefix.len() as int) == prefix),
{
    let pattern = prefix.push('*');
    assert(pattern[prefix.len() as int] == '*');
    assert(pattern.drop_last() =~= prefix);
    lemma_split_without_separator(prefix, '*');
    let parts = split_on(pattern, '*');
    assert(parts =~= seq![prefix, Seq::<char>::empty()]);
    assert(candidate.skip(candidate.len() - 0) =~= Seq::<char>::empty());
    assert(parts.subrange(1, parts.len() - 1) =~= Seq::<Seq<char>>::empty());
}

/// The leftmost occurrence of `part` in `s` at or after `from`.
fn find_from(s: &Vec<char>, from: usize, part: &Vec<char>) -> (r: Option<usize>)
    requires
        from <= s.len(),
    ensures
        match r {
            Some(at) => {
                &&& from <= at
                &&& at + part.len() <= s.len()
                &&& s@.subrange(at as int, at + part.len()) == part@
                &&& forall|j: int|
                    from <= j < at && j + part.len() <= s.len() ==> #[trigger] s@.subrange(
                        j,
                        j + part.len(),
                    ) != part@
            },
            None => forall|j: int|
                from <= j && j + part.len() <= s.len() ==> #[trigger] s@.subrange(j, j + part.len())
                    != part@,
        },
{
    if part.len() > s.len() {
        return None;
    }
    let last_start = s.len() - part.len();
    if from > last_start {
        return None;
    }
    let mut at: usize = from;
    loop
        invariant
            from <= at <= last_start,
            last_start == s.len() - part.len(),
            forall|j: int|
                from <= j < at && j + part.len() <= s.len() ==> #[trigger] s@.subrange(
                    j,
                    j + part.len(),
                ) != part@,
        decreases last_start - at,
    {
        if matches_at(s, at, part) {
            return Some(at);
        }
        if at == last_start {
            return None;
        }
        at = at + 1;
    }
}

/// Whether `candidate` matches the branch `pattern`, in which `*` stands for
/// any run of characters.
pub fn branch_pattern_matches(pattern: &str, candidate: &str) -> (r: bool)
    ensures
        r == pattern_matches(pattern@, candidate@),
{
    let p = chars_of(pattern);
    let c = chars_of(candidate);
    if !contains_char(&p, '*') {
        return chars_equal(&p, &c);
    }
    let parts = split_chars(&p, '*');
    let ghost pv = parts@.map_values(|q: Vec<char>| q@);
    proof {
        lemma_split_two_parts(p@, '*');
    }
    let k = parts.len() - 1;
    let first_len = parts[0].len();
    let last_len = parts[k].len();
    let ghost cv = c@;
    let ghost e: int = cv.len() - last_len;
    let ghost mids = pv.subrange(1, k as int);
    let ghost goal = first_len <= e && in_order(mids, cv.subrange(first_len as int, e));
    assert(pv[0] == parts@[0]@);
    assert(pv.last() == parts@[k as int]@);
    if first_len > c.len() || last_len > c.len() - first_len {
        return false;
    }
    proof {
        assert(pattern_matches(pattern@, candidate@) == (cv.take(first_len as int) == pv[0] && goal
            && cv.skip(e) == pv.last()));
        assert(cv.take(first_len as int) =~= cv.subrange(0, first_len as int));
    }
    if !matches_at(&c, 0, &parts[0]) {
        return false;
    }
    let mut pos: usize = first_len;
    let mut idx: usize = 1;
    assert(pv.subrange(1, k as int) =~= mids);
    while idx < k
        invariant
            1 <= idx <= k,
            k == parts.len() - 1,
            pv == parts@.map_values(|q: Vec<char>| q@),
            cv == c@,
            e == cv.len() - last_len,
            mids == pv.subrange(1, k as int),
            first_len <= pos <= c.len(),
            first_len + last_len <= c.len(),
            pattern_matches(pattern@, candidate@) == (goal && cv.skip(e) == pv.last()),
            pv.last() == parts@[k as int]@,
            goal == (first_len <= e && in_order(mids, cv.subrange(first_len as int, e))),
            goal == (pos <= e && in_order(pv.subrange(idx as int, k as int), cv.subrange(pos as int, e))),
        decreases k - idx,
    {
        let ghost rest = pv.subrange(idx as int, k as int);
        assert(rest[0] == pv[idx as int]);
        assert(rest.drop_first() =~= pv.subrange(idx + 1, k as int));
        assert(pv[idx as int] == parts@[idx as int]@);
        if parts[idx].len() > 0 {
            match find_from(&c, pos, &parts[idx]) {
                None => {
                    proof {
                        if pos <= e {
                            let x = cv.subrange(pos as int, e);
                            assert forall|j: int| 0 <= j && j + rest[0].len() <= x.len() implies #[trigger] x.subrange(j, j + rest[0].len()) != rest[0] by {
                                assert(x.subrange(j, j + rest[0].len()) =~= cv.subrange(pos + j, pos + j + rest[0].len()));
                            }
                            lemma_in_order_no_occurrence(rest, x);
                        }
                    }
                    return false;
                },
                Some(at) => {
                    proof {
                        let plen = rest[0].len();
                        if pos <= e {
                            let x = cv.subrange(pos as int, e);
                            if at + plen <= e {
                                let a = at - pos;
                                assert(x.subrange(a, a + plen) =~= cv.subrange(at as int, at + plen));
                                assert forall|j: int| 0 <= j < a && j + plen <= x.len() implies #[trigger] x.subrange(j, j + plen) != rest[0] by {
                                    assert(x.subrange(j, j + plen) =~= cv.subrange(pos + j, pos + j + plen));
                                }
                                lemma_in_order_greedy(rest, x, a);
                                assert(x.skip(a + plen) =~= cv.subrange(at + plen, e));
                            } else {
                                assert forall|j: int| 0 <= j && j + plen <= x.len() implies #[trigger] x.subrange(j, j + plen) != rest[0] by {
                                    assert(x.subrange(j, j + plen) =~= cv.subrange(pos + j, pos + j + plen));
                                }
                                lemma_in_order_no_occurrence(rest, x);
                            }
                        }
                    }
                    pos = at + parts[idx].len();
                },
            }
        } else {
            proof {
                if pos <= e {
                    lemma_in_order_empty_first(rest, cv.subrange(pos as int, e));
                }
            }
        }
        idx = idx + 1;
    }
    assert(pv.subrange(k as int, k as int) =~= Seq::<Seq<char>>::empty());
    assert(in_order(pv.subrange(k as int, k as int), cv.subrange(pos as int, e)));
    if last_len == 0 {
        assert(cv.skip(cv.len() - 0) =~= Seq::<char>::empty());
        assert(pv.last() =~= Seq::<char>::empty());
        return true;
    }
    if pos > c.len() - last_len {
        return false;
    }
    let tail = matches_at(&c, c.len() - last_len, &parts[k]);
    assert(cv.subrange(cv.len() - last_len, cv.len() as int) =~= cv.skip(cv.len() - last_len));
    tail
}

/// A configured branch that the remote does not have.
#[derive(Debug)]
pub struct BranchNotFound {
    /// The configured name, trimmed.
    pub branch: String,
}

/// `acc` with every remote branch from `remote[..j]` that matches `pattern`
/// added, as an ordered list of distinct names.
pub open spec fn insert_matches(acc: Seq<Seq<char>>, remote: Seq<String>, pattern: Seq<char>, j: int) -> Seq<Seq<char>>
    decreases j,
{
    if j <= 0 || j > remote.len() {
        acc
    } else {
        let before = insert_matches(acc, remote, pattern, j - 1);
        if pattern_matches(pattern, remote[j - 1]@) {
            insert_name(before, remote[j - 1]@)
        } else {
            before
        }
    }
}

/// The branches that `configured[..k]` select among the remote branches,
/// as an ordered list of distinct names: a blank entry selects nothing, a
/// pattern with `*` every remote branch it matches, and a plain name itself,
/// which the remote must have.
pub open spec fn spec_resolve(remote: Seq<String>, configured: Seq<String>, k: int) -> Result<Seq<Seq<char>>, Seq<char>>
    decreases k,
{
    if k <= 0 || k > configured.len() {
        Ok(seq![])
    } else {
        match spec_resolve(remote, configured, k - 1) {
            Err(e) => Err(e),
            Ok(acc) => {
                let p = trim(configured[k - 1]@);
                if p.len() == 0 {
                    Ok(acc)
                } else if p.contains('*') {
                    Ok(insert_matches(acc, remote, p, remote.len() as int))
                } else if exists|i: int| 0 <= i < remote.len() && #[trigger] remote[i]@ == p {
                    Ok(insert_name(acc, p))
                } else {
                    Err(p)
                }
            },
        }
    }
}

proof fn lemma_resolve_err_stays(remote: Seq<String>, configured: Seq<String>, k: int, e: Seq<char>)
    requires
        1 <= k <= configured.len(),
        spec_resolve(remote, configured, k) == Err::<Seq<Seq<char>>, Seq<char>>(e),
    ensures
        spec_resolve(remote, configured, configured.len() as int) == Err::<Seq<Seq<char>>, Seq<char>>(e),
    decreases configured.len() - k,
{
    if k < configured.len() {
        lemma_resolve_err_stays(remote, configured, k + 1, e);
    }
}

fn to_strings(v: &Vec<Vec<char>>) -> (r: Vec<String>)
    ensures
        r@.map_values(|s: String| s@) == v@.map_values(|c: Vec<char>| c@),
{
    let mut r: Vec<String> = Vec::new();
    let mut i: usize = 0;
    while i < v.len()
        invariant
            i <= v.len(),
            r@.map_values(|s: String| s@) == v@.take(i as int).map_values(|c: Vec<char>| c@),
        decreases v.len() - i,
    {
        let ghost before = r@.map_values(|s: String| s@);
        let s = string_from_chars(&v[i], 0, v[i].len());
        assert(v@[i as int]@.subrange(0, v@[i as int]@.len() as int) =~= v@[i as int]@);
        r.push(s);
        assert(r@.map_values(|s: String| s@) =~= before.push(v@[i as int]@));
        assert(v@.take(i + 1) =~= v@.take(i as int).push(v@[i as int]));
        assert(v@.take(i + 1).map_values(|c: Vec<char>| c@) =~= v@.take(i as int).map_values(|c: Vec<char>| c@).push(v@[i as int]@));
        i = i + 1;
    }
    assert(v@.take(v.len() as int) =~= v@);
    r
}

impl GitManager {
    /// Resolves the configured branch entries against the remote's branch
    /// names: wildcard patterns pick up every matching branch, plain names
    /// must exist; the result is sorted and free of repeats.
    pub fn resolve_branch_patterns(&self, remote_branches: &Vec<String>, configured: &Vec<String>) -> (r: Result<Vec<String>, BranchNotFound>)
        ensures
            match spec_resolve(remote_branches@, configured@, configured.len() as int) {
                Ok(names) => r matches Ok(v) && v@.map_values(|s: String| s@) == names,
                Err(p) => r matches Err(e) && e.branch@ == p,
            },
    {
        let mut acc: Vec<Vec<char>> = Vec::new();
        let mut k: usize = 0;
        assert(acc@.map_values(|c: Vec<char>| c@) =~= Seq::<Seq<char>>::empty());
        while k < configured.len()
            invariant
                k <= configured.len(),
                spec_resolve(remote_branches@, configured@, k as int) == Ok::<Seq<Seq<char>>, Seq<char>>(acc@.map_values(|c: Vec<char>| c@)),
            decreases configured.len() - k,
        {
            let raw = chars_of(configured[k].as_str());
            let p = crate::text::trim_chars(&raw, 0);
            assert(raw@.skip(0) =~= raw@);
            if p.len() == 0 {
                k = k + 1;
                continue;
            }
            let pattern = string_from_chars(&p, 0, p.len());
            assert(p@.subrange(0, p@.len() as int) =~= p@);
            if contains_char(&p, '*') {
                let ghost start = acc@.map_values(|c: Vec<char>| c@);
                let mut j: usize = 0;
                while j < remote_branches.len()
                    invariant
                        j <= remote_branches.len(),
                        pattern@ == p@,
                        acc@.map_values(|c: Vec<char>| c@) == insert_matches(start, remote_branches@, p@, j as int),
                    decreases remote_branches.len() - j,
                {
                    if branch_pattern_matches(pattern.as_str(), remote_branches[j].as_str()) {
                        let name = chars_of(remote_branches[j].as_str());
                        crate::scheduler::insert_name_exec(&mut acc, name);
                    }
                    j = j + 1;
                }
            } else {
                let mut found = false;
                let mut j: usize = 0;
                while j < remote_branches.len()
                    invariant
                        j <= remote_branches.len(),
                        found == exists|i: int| 0 <= i < j && #[trigger] remote_branches@[i]@ == p@,
                    decreases remote_branches.len() - j,
                {
                    let name = chars_of(remote_branches[j].as_str());
                    if chars_equal(&name, &p) {
                        found = true;
                    }
                    j = j + 1;
                }
                if !found {
                    proof {
                        lemma_resolve_err_stays(remote_branches@, configured@, k + 1, p@);
                    }
                    return Err(BranchNotFound { branch: pattern });
                }
                crate::scheduler::insert_name_exec(&mut acc, p);
            }
            k = k + 1;
        }
        Ok(to_strings(&acc))
    }
}

/// The local name of a remote-tracking branch of `origin`: `origin/<name>`
/// gives `<name>`, except `origin/HEAD`.
pub open spec fn origin_name(r: Seq<char>) -> Option<Seq<char>> {
    if r != "origin/HEAD"@ && r.len() >= 7 && r.take(7) == "origin/"@ {
        Some(r.skip(7))
    } else {
        None
    }
}

/// The local names of `origin`'s branches among `refs[..j]`, as an ordered
/// list of distinct names.
pub open spec fn spec_remote_names(refs: Seq<String>, j: int) -> Seq<Seq<char>>
    decreases j,
{
    if j <= 0 || j > refs.len() {
        seq![]
    } else {
        let before = spec_remote_names(refs, j - 1);
        match origin_name(refs[j - 1]@) {
            Some(n) => insert_name(before, n),
            None => before,
        }
    }
}

impl GitManager {
    /// The names of `origin`'s branches among the remote-tracking branch
    /// names `refs` (such as `origin/main`), without the prefix and without
    /// `origin/HEAD`, sorted and free of repeats.
    pub fn remote_branch_names(&self, refs: &Vec<String>) -> (r: Vec<String>)
        ensures
            r@.map_values(|s: String| s@) == spec_remote_names(refs@, refs.len() as int),
    {
        let head = chars_of("origin/HEAD");
        let prefix = chars_of("origin/");
        proof {
            reveal_strlit("origin/");
        }
        let mut acc: Vec<Vec<char>> = Vec::new();
        let mut j: usize = 0;
        assert(acc@.map_values(|c: Vec<char>| c@) =~= Seq::<Seq<char>>::empty());
        while j < refs.len()
            invariant
                j <= refs.len(),
                head@ == "origin/HEAD"@,
                prefix@ == "origin/"@,
                prefix@.len() == 7,
                acc@.map_values(|c: Vec<char>| c@) == spec_remote_names(refs@, j as int),
            decreases refs.len() - j,
        {
            let name = chars_of(refs[j].as_str());
            if !chars_equal(&name, &head) && name.len() >= 7 && matches_at(&name, 0, &prefix) {
                assert(name@.subrange(0, 7) =~= name@.take(7));
                let local = string_from_chars(&name, 7, name.len());
                let local_chars = chars_of(local.as_str());
                assert(name@.subrange(7, name@.len() as int) =~= name@.skip(7));
                crate::scheduler::insert_name_exec(&mut acc, local_chars);
            } else {
                proof {
                    if name@.len() >= 7 && name@.take(7) == "origin/"@ {
                        assert(name@.subrange(0, 7) =~= name@.take(7));
                    }
                }
            }
            j = j + 1;
        }
        to_strings(&acc)
    }
}

proof fn lemma_remote_names_ordered(refs: Seq<String>, j: int)
    requires
        0 <= j <= refs.len(),
    ensures
        strictly_ordered(spec_remote_names(refs, j)),
        forall|x: Seq<char>| #[trigger] spec_remote_names(refs, j).contains(x) <==> exists|i: int|
            0 <= i < j && origin_name(#[trigger] refs[i]@) == Some(x),
    decreases j,
{
    if j > 0 {
        lemma_remote_names_ordered(refs, j - 1);
        let before = spec_remote_names(refs, j - 1);
        if let Some(n) = origin_name(refs[j - 1]@) {
            lemma_insert_name_sorted(before, n);
        }
        assert forall|x: Seq<char>| #[trigger] spec_remote_names(refs, j).contains(x) <==> exists|i: int|
            0 <= i < j && origin_name(#[trigger] refs[i]@) == Some(x) by {
            if exists|i: int| 0 <= i < j && origin_name(#[trigger] refs[i]@) == Some(x) {
                let i = choose|i: int| 0 <= i < j && origin_name(#[trigger] refs[i]@) == Some(x);
                if i < j - 1 {
                    assert(before.contains(x));
                }
            }
            if before.contains(x) {
                let i = choose|i: int| 0 <= i < j - 1 && origin_name(#[trigger] refs[i]@) == Some(x);
                assert(0 <= i < j && origin_name(refs[i]@) == Some(x));
            }
        }
    }
}

/// The branch names read from the remote come out in dictionary order, each
/// once: exactly the names `n` for which some reference is `origin/n`, other
/// than `origin/HEAD`.
pub proof fn law_remote_names_are_ordered_and_complete(refs: Seq<String>)
    ensures
        strictly_ordered(spec_remote_names(refs, refs.len() as int)),
        forall|x: Seq<char>| #[trigger] spec_remote_names(refs, refs.len() as int).contains(x) <==> exists|i: int|
            0 <= i < refs.len() && origin_name(#[trigger] refs[i]@) == Some(x),
{
    lemma_remote_names_ordered(refs, refs.len() as int);
}

/// Whether a remote branch among `remote[..j]` is called `x` and matches
/// `pattern`.
pub open spec fn matched_remote(remote: Seq<String>, pattern: Seq<char>, j: int, x: Seq<char>) -> bool {
    exists|i: int| 0 <= i < j && i < remote.len() && #[trigger] remote[i]@ == x && pattern_matches(pattern, x)
}

/// Whether the configured entry `p` (already trimmed) selects branch `x`: a
/// wildcard entry selects the remote branches it matches, a plain entry the
/// branch it names.
pub open spec fn selects(remote: Seq<String>, p: Seq<char>, x: Seq<char>) -> bool {
    &&& p.len() > 0
    &&& if p.contains('*') {
        matched_remote(remote, p, remote.len() as int, x)
    } else {
        p == x
    }
}

/// Whether one of the entries `configured[..k]` selects branch `x`.
pub open spec fn selected_by(remote: Seq<String>, configured: Seq<String>, k: int, x: Seq<char>) -> bool {
    exists|c: int| 0 <= c < k && c < configured.len() && #[trigger] selects(remote, trim(configured[c]@), x)
}

proof fn lemma_insert_matches_sorted(acc: Seq<Seq<char>>, remote: Seq<String>, pattern: Seq<char>, j: int)
    requires
        strictly_ordered(acc),
        0 <= j <= remote.len(),
    ensures
        strictly_ordered(insert_matches(acc, remote, pattern, j)),
        forall|x: Seq<char>| #[trigger] insert_matches(acc, remote, pattern, j).contains(x) <==> (acc.contains(x)
            || matched_remote(remote, pattern, j, x)),
    decreases j,
{
    if j > 0 {
        lemma_insert_matches_sorted(acc, remote, pattern, j - 1);
        let before = insert_matches(acc, remote, pattern, j - 1);
        if pattern_matches(pattern, remote[j - 1]@) {
            lemma_insert_name_sorted(before, remote[j - 1]@);
        }
        assert forall|x: Seq<char>| #[trigger] insert_matches(acc, remote, pattern, j).contains(x) <==> (acc.contains(x)
            || matched_remote(remote, pattern, j, x)) by {
            if matched_remote(remote, pattern, j, x) {
                let i = choose|i: int| 0 <= i < j && i < remote.len() && #[trigger] remote[i]@ == x && pattern_matches(pattern, x);
                if i < j - 1 {
                    assert(matched_remote(remote, pattern, j - 1, x));
                }
            }
            if matched_remote(remote, pattern, j - 1, x) {
                let i = choose|i: int| 0 <= i < j - 1 && i < remote.len() && #[trigger] remote[i]@ == x && pattern_matches(pattern, x);
                assert(0 <= i < j && i < remote.len() && remote[i]@ == x && pattern_matches(pattern, x));
            }
        }
    }
}

proof fn lemma_resolve_ordered(remote: Seq<String>, configured: Seq<String>, k: int)
    requires
        0 <= k <= configured.len(),
    ensures
        spec_resolve(remote, configured, k) matches Ok(names) ==> {
            &&& strictly_ordered(names)
            &&& forall|x: Seq<char>| #[trigger] names.contains(x) <==> selected_by(remote, configured, k, x)
        },
    decreases k,
{
    if k > 0 {
        lemma_resolve_ordered(remote, configured, k - 1);
        match spec_resolve(remote, configured, k - 1) {
            Err(_) => {},
            Ok(acc) => {
                let p = trim(configured[k - 1]@);
                if p.len() > 0 {
                    if p.contains('*') {
                        lemma_insert_matches_sorted(acc, remote, p, remote.len() as int);
                    } else if exists|i: int| 0 <= i < remote.len() && #[trigger] remote[i]@ == p {
                        lemma_insert_name_sorted(acc, p);
                    }
                }
                if let Ok(names) = spec_resolve(remote, configured, k) {
                    assert forall|x: Seq<char>| #[trigger] names.contains(x) <==> selected_by(remote, configured, k, x) by {
                        if selected_by(remote, configured, k, x) {
                            let c = choose|c: int| 0 <= c < k && c < configured.len() && #[trigger] selects(remote, trim(configured[c]@), x);
                            if c < k - 1 {
                                assert(selected_by(remote, configured, k - 1, x));
                            }
                        }
                        if selected_by(remote, configured, k - 1, x) {
                            let c = choose|c: int| 0 <= c < k - 1 && c < configured.len() && #[trigger] selects(remote, trim(configured[c]@), x);
                            assert(0 <= c < k && c < configured.len() && selects(remote, trim(configured[c]@), x));
                        }
                        if selects(remote, p, x) {
                            assert(selects(remote, trim(configured[k - 1]@), x));
                        }
                    }
                }
            },
        }
    }
}

/// The branches that the configured entries select come out in dictionary
/// order, each once: exactly the branches that a plain entry names or that
/// a wildcard entry matches among the remote branches.
pub proof fn law_resolved_branches_are_ordered_selection(remote: Seq<String>, configured: Seq<String>)
    ensures
        spec_resolve(remote, configured, configured.len() as int) matches Ok(names) ==> {
            &&& strictly_ordered(names)
            &&& forall|x: Seq<char>| #[trigger] names.contains(x) <==> selected_by(remote, configured, configured.len() as int, x)
        },
{
    lemma_resolve_ordered(remote, configured, configured.len() as int);
}

/// Whether a tag marks a release: it starts with `v` or `V`, or mentions
/// `release`.
pub open spec fn spec_is_release_tag(tag: Seq<char>) -> bool {
    (tag.len() > 0 && (tag[0] == 'v' || tag[0] == 'V')) || exists|i: int|
        0 <= i && i + 7 <= tag.len() && #[trigger] tag.subrange(i, i + 7) == "release"@
}

/// Whether a tag marks a release.
pub fn is_release_tag(tag: &str) -> (r: bool)
    ensures
        r == spec_is_release_tag(tag@),
{
    let v = chars_of(tag);
    if v.len() > 0 && (v[0] == 'v' || v[0] == 'V') {
        return true;
    }
    let word = chars_of("release");
    proof {
        reveal_strlit("release");
    }
    let mut i: usize = 0;
    while i < v.len() && 7 <= v.len() - i
        invariant
            v@ == tag@,
            word@ == "release"@,
            word@.len() == 7,
            forall|j: int| 0 <= j < i && j + 7 <= v.len() ==> #[trigger] v@.subrange(j, j + 7) != "release"@,
        decreases v.len() - i,
    {
        if matches_at(&v, i, &word) {
            return true;
        }
        i = i + 1;
    }
    false
}

/// The first line of a commit message, as `str::lines` yields it: up to the
/// first line feed, without a carriage return just before it; empty for an
/// empty message.
pub open spec fn spec_first_line(message: Seq<char>) -> Seq<char> {
    if message.contains('\n') {
        let i = choose|i: int| 0 <= i < message.len() && message[i] == '\n' && forall|j: int| 0 <= j < i ==> message[j] != '\n';
        if i > 0 && message[i - 1] == '\r' {
            message.take(i - 1)
        } else {
            message.take(i)
        }
    } else {
        message
    }
}

/// The summary line of a commit message.
pub fn first_line(message: &str) -> (r: String)
    ensures
        r@ == spec_first_line(message@),
{
    let v = chars_of(message);
    let mut i: usize = 0;
    while i < v.len() && v[i] != '\n'
        invariant
            i <= v.len(),
            v@ == message@,
            forall|j: int| 0 <= j < i ==> v@[j] != '\n',
        decreases v.len() - i,
    {
        i = i + 1;
    }
    if i == v.len() {
        assert(!message@.contains('\n'));
        assert(v@.subrange(0, i as int) =~= v@);
        return string_from_chars(&v, 0, i);
    }
    proof {
        assert(message@.contains('\n')) by {
            assert(message@[i as int] == '\n');
        }
        let c = choose|c: int| 0 <= c < message@.len() && message@[c] == '\n' && forall|j: int| 0 <= j < c ==> message@[j] != '\n';
        assert(c == i) by {
            if c < i {
                assert(v@[c] != '\n');
            } else if c > i {
                assert(message@[i as int] != '\n');
            }
        }
    }
    let end = if i > 0 && v[i - 1] == '\r' { i - 1 } else { i };
    assert(v@.subrange(0, end as int) =~= message@.take(end as int));
    string_from_chars(&v, 0, end)
}

/// Where the commits to test start: the first commit whose hash starts with
/// `since` or whose tag is `since`; the first commit when nothing is given.
pub open spec fn commit_is_start(hash: Seq<char>, tag: Option<Seq<char>>, since: Seq<char>) -> bool {
    (since.len() <= hash.len() && hash.take(since.len() as int) == since) || tag == Some(since)
}

/// The position of the first commit to test, oldest first, or `None` when a
/// start is given that no commit matches.
pub fn start_position(hashes: &Vec<String>, tags: &Vec<Option<String>>, since: Option<&str>) -> (r: Option<usize>)
    requires
        hashes.len() == tags.len(),
    ensures
        match since {
            None => r == Some(0usize),
            Some(s) => match r {
                Some(i) => i < hashes.len() && commit_is_start(hashes@[i as int]@, opt_str_view(tags@[i as int]), s@)
                    && forall|j: int| 0 <= j < i ==> !commit_is_start(#[trigger] hashes@[j]@, opt_str_view(tags@[j]), s@),
                None => forall|j: int| 0 <= j < hashes.len() ==> !commit_is_start(#[trigger] hashes@[j]@, opt_str_view(tags@[j]), s@),
            },
        },
{
    let start = match since {
        None => return Some(0),
        Some(s) => s,
    };
    let want = chars_of(start);
    let mut i: usize = 0;
    while i < hashes.len()
        invariant
            i <= hashes.len(),
            hashes.len() == tags.len(),
            want@ == start@,
            since == Some(start),
            forall|j: int| 0 <= j < i ==> !commit_is_start(#[trigger] hashes@[j]@, opt_str_view(tags@[j]), start@),
        decreases hashes.len() - i,
    {
        let h = chars_of(hashes[i].as_str());
        let prefix = matches_at(&h, 0, &want);
        assert(prefix == (want@.len() <= h@.len() && h@.take(want@.len() as int) == want@)) by {
            if want@.len() <= h@.len() {
                assert(h@.subrange(0, want@.len() as int) =~= h@.take(want@.len() as int));
            }
        }
        let tagged = match &tags[i] {
            Some(t) => crate::codec::same_text(t.as_str(), start),
            None => false,
        };
        if prefix || tagged {
            return Some(i);
        }
        i = i + 1;
    }
    None
}

/// Whether `more` bytes of patch text still fit after the `used` ones.
pub fn patch_has_room(used: usize, more: usize) -> (r: bool)
    ensures
        r == (used + more <= MAX_PATCH_BYTES),
{
    used <= MAX_PATCH_BYTES && more <= MAX_PATCH_BYTES - used
}

} // verus!
