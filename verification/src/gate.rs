//! Release gates: the matches a gate plays, and how its progress is told.
use vstd::prelude::*;
use crate::config::{Config, GateOpponentConfig};
use crate::text::{chars_of, contains_char, decimal, matches_at, push_decimal};

verus! {

/// The outcome of a release gate.
#[derive(Debug, Clone, Copy, PartialEq, Eq, Structural)]
pub enum GateVerdict {
    Pass,
    Fail,
    Tie,
}

/// How far a running gate has got.
pub struct GateRunProgress {
    pub completed_matches: u32,
    pub total_matches: u32,
    pub message: String,
}

/// The text `<completed> / <total> matches complete`.
pub open spec fn progress_text(completed: nat, total: nat) -> Seq<char> {
    decimal(completed) + " / "@ + decimal(total) + " matches complete"@
}

impl GateRunProgress {
    /// The progress after `completed_matches` of `total_matches` matches.
    pub fn new(completed_matches: u32, total_matches: u32) -> (r: Self)
        ensures
            r.completed_matches == completed_matches,
            r.total_matches == total_matches,
            r.message@ == progress_text(completed_matches as nat, total_matches as nat),
    {
        let mut message = String::new();
        push_decimal(&mut message, completed_matches as u64);
        message.append(" / ");
        push_decimal(&mut message, total_matches as u64);
        message.append(" matches complete");
        GateRunProgress { completed_matches, total_matches, message }
    }
}

/// One match of a gate.
#[derive(Debug, Clone, Copy, PartialEq, Eq, Structural)]
pub enum GateTaskKind {
    /// The candidate against the profile's opponent at this position.
    CandidateVsOpponent(usize),
    /// The baseline against the profile's opponent at this position.
    BaselineVsOpponent(usize),
    /// The candidate against the baseline.
    HeadToHead,
}

/// A match of a gate and the configured opponent it is played against.
#[derive(Debug, Clone, Copy, PartialEq, Eq, Structural)]
pub struct GateTask {
    pub kind: GateTaskKind,
    pub opponent: Option<usize>,
}

/// The first configured opponent called `name`.
pub open spec fn first_opponent(known: Seq<GateOpponentConfig>, name: Seq<char>, k: int) -> Option<int>
    decreases known.len() - k,
{
    if k < 0 || k >= known.len() {
        None
    } else if known[k].name@ == name {
        Some(k)
    } else {
        first_opponent(known, name, k + 1)
    }
}

/// The matches of a gate against the opponents `names[k..]`: for each, the
/// candidate and then the baseline against it.
pub open spec fn spec_gate_tasks(names: Seq<String>, known: Seq<GateOpponentConfig>, k: int) -> Result<Seq<GateTask>, usize>
    decreases names.len() - k,
{
    if k < 0 || k >= names.len() {
        Ok(seq![])
    } else {
        match first_opponent(known, names[k]@, 0) {
            None => Err(k as usize),
            Some(o) => match spec_gate_tasks(names, known, k + 1) {
                Err(e) => Err(e),
                Ok(rest) => Ok(seq![
                    GateTask { kind: GateTaskKind::CandidateVsOpponent(k as usize), opponent: Some(o as usize) },
                    GateTask { kind: GateTaskKind::BaselineVsOpponent(k as usize), opponent: Some(o as usize) },
                ] + rest),
            },
        }
    }
}

proof fn lemma_first_opponent_named(known: Seq<GateOpponentConfig>, name: Seq<char>, k: int)
    requires
        0 <= k,
    ensures
        first_opponent(known, name, k) matches Some(o) ==> k <= o < known.len() && known[o].name@ == name,
    decreases known.len() - k,
{
    if k < known.len() && known[k].name@ != name {
        lemma_first_opponent_named(known, name, k + 1);
    }
}

/// The two matches of a gate against opponent `m` of the profile, found
/// at `t[2 * i]` and `t[2 * i + 1]`.
pub open spec fn plays_opponent(t: Seq<GateTask>, i: int, m: int, names: Seq<String>, known: Seq<GateOpponentConfig>) -> bool {
    &&& t[2 * i].kind == GateTaskKind::CandidateVsOpponent(m as usize)
    &&& t[2 * i + 1].kind == GateTaskKind::BaselineVsOpponent(m as usize)
    &&& t[2 * i].opponent == t[2 * i + 1].opponent
    &&& t[2 * i].opponent matches Some(o) && o < known.len() && known[o as int].name@ == names[m]@
}

proof fn lemma_gate_tasks_shape(names: Seq<String>, known: Seq<GateOpponentConfig>, k: int)
    requires
        0 <= k <= names.len(),
        known.len() <= usize::MAX,
    ensures
        spec_gate_tasks(names, known, k) matches Ok(t) ==> {
            &&& t.len() == 2 * (names.len() - k)
            &&& forall|i: int| 0 <= i < names.len() - k ==> #[trigger] plays_opponent(t, i, i + k, names, known)
        },
    decreases names.len() - k,
{
    if k < names.len() {
        lemma_gate_tasks_shape(names, known, k + 1);
        lemma_first_opponent_named(known, names[k]@, 0);
        match first_opponent(known, names[k]@, 0) {
            None => {},
            Some(o) => match spec_gate_tasks(names, known, k + 1) {
                Err(_) => {},
                Ok(rest) => {
                    let pair = seq![
                        GateTask { kind: GateTaskKind::CandidateVsOpponent(k as usize), opponent: Some(o as usize) },
                        GateTask { kind: GateTaskKind::BaselineVsOpponent(k as usize), opponent: Some(o as usize) },
                    ];
                    let t = pair + rest;
                    assert(spec_gate_tasks(names, known, k) == Ok::<Seq<GateTask>, usize>(t));
                    assert forall|i: int| 0 <= i < names.len() - k implies #[trigger] plays_opponent(t, i, i + k, names, known) by {
                        if i == 0 {
                            assert(t[0] == pair[0]);
                            assert(t[1] == pair[1]);
                        } else {
                            assert(plays_opponent(rest, i - 1, (i - 1) + (k + 1), names, known));
                            assert(t[2 * i] == rest[2 * (i - 1)]);
                            assert(t[2 * i + 1] == rest[2 * (i - 1) + 1]);
                        }
                    }
                },
            },
        }
    }
}

/// A gate plays every opponent of its profile twice, in the profile's order:
/// first with the candidate, then with the baseline, both against the same
/// configured opponent of that name; then the candidate against the
/// baseline. In all it plays twice as many matches as the profile has
/// opponents, and one more.
pub proof fn law_gate_plays_each_opponent_with_both_sides(names: Seq<String>, known: Seq<GateOpponentConfig>)
    requires
        known.len() <= usize::MAX,
    ensures
        spec_gate_tasks(names, known, 0) matches Ok(t) ==> {
            &&& t.len() == 2 * names.len()
            &&& forall|m: int| 0 <= m < names.len() ==> #[trigger] plays_opponent(t, m, m, names, known)
            &&& t.push(GateTask { kind: GateTaskKind::HeadToHead, opponent: None }).len() == 2 * names.len() + 1
        },
{
    lemma_gate_tasks_shape(names, known, 0);
    if let Ok(t) = spec_gate_tasks(names, known, 0) {
        assert forall|m: int| 0 <= m < names.len() implies #[trigger] plays_opponent(t, m, m, names, known) by {
            assert(plays_opponent(t, m, m + 0, names, known));
        }
    }
}

fn find_opponent(known: &Vec<GateOpponentConfig>, name: &String) -> (r: Option<usize>)
    ensures
        match first_opponent(known@, name@, 0) {
            Some(o) => r == Some(o as usize),
            None => r is None,
        },
{
    let mut i: usize = 0;
    while i < known.len()
        invariant
            i <= known.len(),
            first_opponent(known@, name@, 0) == first_opponent(known@, name@, i as int),
        decreases known.len() - i,
    {
        if known[i].name.eq(name) {
            return Some(i);
        }
        i = i + 1;
    }
    None
}

/// The matches a gate plays: the candidate and the baseline each against
/// every opponent of the profile, in order, then the candidate against the
/// baseline. An opponent name that no configured opponent has is refused,
/// by its position.
pub fn gate_tasks(opponent_names: &Vec<String>, opponents: &Vec<GateOpponentConfig>) -> (r: Result<Vec<GateTask>, usize>)
    ensures
        match spec_gate_tasks(opponent_names@, opponents@, 0) {
            Err(e) => r == Err::<Vec<GateTask>, usize>(e),
            Ok(t) => r matches Ok(v) && v@ == t.push(GateTask { kind: GateTaskKind::HeadToHead, opponent: None }),
        },
{
    let mut tasks: Vec<GateTask> = Vec::new();
    let mut i: usize = 0;
    while i < opponent_names.len()
        invariant
            i <= opponent_names.len(),
            match spec_gate_tasks(opponent_names@, opponents@, 0) {
                Err(e) => match spec_gate_tasks(opponent_names@, opponents@, i as int) {
                    Err(e2) => e2 == e,
                    Ok(_) => false,
                },
                Ok(t) => match spec_gate_tasks(opponent_names@, opponents@, i as int) {
                    Ok(rest) => t == tasks@ + rest,
                    Err(_) => false,
                },
            },
        decreases opponent_names.len() - i,
    {
        match find_opponent(opponents, &opponent_names[i]) {
            None => return Err(i),
            Some(o) => {
                let ghost before = tasks@;
                tasks.push(GateTask { kind: GateTaskKind::CandidateVsOpponent(i), opponent: Some(o) });
                tasks.push(GateTask { kind: GateTaskKind::BaselineVsOpponent(i), opponent: Some(o) });
                proof {
                    let pair = seq![
                        GateTask { kind: GateTaskKind::CandidateVsOpponent(i), opponent: Some(o) },
                        GateTask { kind: GateTaskKind::BaselineVsOpponent(i), opponent: Some(o) },
                    ];
                    assert(tasks@ =~= before + pair);
                    match spec_gate_tasks(opponent_names@, opponents@, i + 1) {
                        Ok(rest) => {
                            assert(before + (pair + rest) =~= tasks@ + rest);
                        },
                        Err(_) => {},
                    }
                }
            },
        }
        i = i + 1;
    }
    tasks.push(GateTask { kind: GateTaskKind::HeadToHead, opponent: None });
    proof {
        match spec_gate_tasks(opponent_names@, opponents@, 0) {
            Ok(t) => {
                assert(t =~= tasks@.drop_last());
            },
            Err(_) => {},
        }
    }
    Ok(tasks)
}

/// The number of matches a gate plays against `opponents` opponents.
pub fn gate_total_matches(opponents: usize) -> (r: u32)
    requires
        opponents * 2 + 1 <= u32::MAX,
    ensures
        r == opponents * 2 + 1,
{
    (opponents as u32) * 2 + 1
}

/// The position of the first gate profile called `profile_name`.
pub fn resolve_gate_profile(config: &Config, profile_name: &str) -> (r: Option<usize>)
    ensures
        match r {
            Some(i) => i < config.gate.profiles.len() && config.gate.profiles@[i as int].name@ == profile_name@
                && forall|j: int| 0 <= j < i ==> #[trigger] config.gate.profiles@[j].name@ != profile_name@,
            None => forall|j: int| 0 <= j < config.gate.profiles.len() ==> #[trigger] config.gate.profiles@[j].name@ != profile_name@,
        },
{
    let mut i: usize = 0;
    while i < config.gate.profiles.len()
        invariant
            i <= config.gate.profiles.len(),
            forall|j: int| 0 <= j < i ==> #[trigger] config.gate.profiles@[j].name@ != profile_name@,
        decreases config.gate.profiles.len() - i,
    {
        if crate::codec::same_text(config.gate.profiles[i].name.as_str(), profile_name) {
            return Some(i);
        }
        i = i + 1;
    }
    None
}

/// Whether a name asked for may be served out of the gates
/// directory: no `/` or `\` in it, and it ends in `.json`.
pub open spec fn spec_gate_file_name_ok(name: Seq<char>) -> bool {
    &&& !name.contains('/')
    &&& !name.contains('\\')
    &&& name.len() >= 5
    &&& name.skip(name.len() - 5) == ".json"@
}

/// Whether a name asked for may be served out of the gates
/// directory.
pub fn gate_file_name_ok(name: &str) -> (r: bool)
    ensures
        r == spec_gate_file_name_ok(name@),
{
    let v = chars_of(name);
    let suffix = chars_of(".json");
    proof {
        reveal_strlit(".json");
    }
    if contains_char(&v, '/') || contains_char(&v, '\\') || v.len() < 5 {
        return false;
    }
    let ok = matches_at(&v, v.len() - 5, &suffix);
    assert(v@.subrange(v.len() - 5, v.len() as int) =~= v@.skip(v.len() - 5));
    ok
}

} // verus!
