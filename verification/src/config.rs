//! Configuration records and the rules that a configuration must satisfy.
use vstd::prelude::*;
use crate::text::{chars_equal, chars_of, contains_char, split_chars, split_on, string_from_chars, trim, trim_chars};
use std::collections::BTreeMap;

verus! {

/// Settings of the web dashboard.
pub struct ServerConfig {
    pub web_port: u16,
    pub web_host: String,
    /// Optional bearer token required for protected dashboard routes.
    /// Required when web_host is not loopback.
    pub admin_token: Option<String>,
}

impl Default for ServerConfig {
    fn default() -> (r: Self)
        ensures
            r.web_port == 8877,
            r.web_host@ == seq!['1', '2', '7', '.', '0', '.', '0', '.', '1'],
            r.admin_token is None,
    {
        let host = "127.0.0.1";
        proof {
            reveal_strlit("127.0.0.1");
        }
        ServerConfig { web_port: 8877, web_host: host.to_owned(), admin_token: None }
    }
}

/// A time control as configured.
pub struct TimeControlConfig {
    pub base_ms: u64,
    pub increment_ms: u64,
    pub nodes: Option<u64>,
}

impl Default for TimeControlConfig {
    fn default() -> (r: Self)
        ensures
            r.base_ms == 10_000,
            r.increment_ms == 100,
            r.nodes is None,
    {
        TimeControlConfig { base_ms: 10_000, increment_ms: 100, nodes: None }
    }
}

/// Where and how training data is produced.
pub struct TrainingConfig {
    pub output_dir: String,
    pub selfplay_games: u32,
    pub collect_from_tests: bool,
    pub regression_min_depth: u32,
    pub selfplay_depth: u32,
    pub idle_selfplay: bool,
    pub idle_batch_games: u32,
}

impl Default for TrainingConfig {
    fn default() -> (r: Self)
        ensures
            r.output_dir@ == seq!['.', 'c', 'r', 'u', 'c', 'i', 'b', 'l', 'e', '/', 't', 'r', 'a', 'i', 'n', 'i', 'n', 'g'],
            r.selfplay_games == 100,
            r.collect_from_tests,
            r.regression_min_depth == 10,
            r.selfplay_depth == 10,
            !r.idle_selfplay,
            r.idle_batch_games == 1,
    {
        let dir = ".crucible/training";
        proof {
            reveal_strlit(".crucible/training");
        }
        TrainingConfig {
            output_dir: dir.to_owned(),
            selfplay_games: 100,
            collect_from_tests: true,
            regression_min_depth: 10,
            selfplay_depth: 10,
            idle_selfplay: false,
            idle_batch_games: 1,
        }
    }
}

/// How test matches are run. The SPRT bounds, which are real numbers, are
/// held and judged outside this record; only their game minimum is here.
pub struct TestingConfig {
    pub concurrency: u32,
    pub time_control: TimeControlConfig,
    pub sprt_min_games: u32,
    pub opening_book: Option<String>,
    pub max_games: u32,
    pub progression_games: Option<u32>,
    pub hash_mb: u32,
    pub engine_threads: u32,
    pub poll_interval_seconds: u64,
}

impl Default for TestingConfig {
    fn default() -> (r: Self)
        ensures
            r.concurrency == 1,
            r.time_control.base_ms == 10_000,
            r.time_control.increment_ms == 100,
            r.time_control.nodes is None,
            r.sprt_min_games == 16,
            r.opening_book is None,
            r.max_games == 10_000,
            r.progression_games is None,
            r.hash_mb == 16,
            r.engine_threads == 1,
            r.poll_interval_seconds == 60,
    {
        TestingConfig {
            concurrency: 1,
            time_control: TimeControlConfig::default(),
            sprt_min_games: 16,
            opening_book: None,
            max_games: 10_000,
            progression_games: None,
            hash_mb: 16,
            engine_threads: 1,
            poll_interval_seconds: 60,
        }
    }
}

/// A fixed opponent of release gates.
pub struct GateOpponentConfig {
    pub name: String,
    pub binary_path: String,
    pub options: BTreeMap<String, String>,
}

/// A release-gate profile; its minimum score delta, a real number, is held
/// outside this record.
pub struct GateProfileConfig {
    pub name: String,
    pub opponents: Vec<String>,
    pub games_per_opponent: u32,
    pub time_control: Option<TimeControlConfig>,
    pub opening_book: Option<String>,
}

/// Release-gate opponents and profiles.
pub struct GateConfig {
    pub opponents: Vec<GateOpponentConfig>,
    pub profiles: Vec<GateProfileConfig>,
}

/// An engine to track.
pub struct EngineConfig {
    pub name: String,
    pub repo: String,
    pub branches: Vec<String>,
    pub experimental_branches: Vec<String>,
    pub build_cmd: String,
    pub binary_path: String,
    /// Start testing from this commit/tag (default: test everything).
    pub start_from: Option<String>,
}

impl Default for GateConfig {
    fn default() -> (r: Self)
        ensures
            r.opponents.len() == 0,
            r.profiles.len() == 0,
    {
        GateConfig { opponents: Vec::new(), profiles: Vec::new() }
    }
}

/// The whole configuration, apart from the real-valued SPRT and gate bounds.
pub struct Config {
    pub data_dir: String,
    pub server: ServerConfig,
    pub testing: TestingConfig,
    pub training: TrainingConfig,
    pub gate: GateConfig,
    pub engines: Vec<EngineConfig>,
}

impl Default for Config {
    fn default() -> (r: Self)
        ensures
            r.data_dir@ == seq!['.', 'c', 'r', 'u', 'c', 'i', 'b', 'l', 'e'],
            r.server.web_port == 8877,
            r.server.admin_token is None,
            r.testing.concurrency == 1,
            r.testing.max_games == 10_000,
            r.testing.progression_games is None,
            r.training.selfplay_games == 100,
            r.gate.opponents.len() == 0,
            r.gate.profiles.len() == 0,
            r.engines.len() == 0,
    {
        let dir = ".crucible";
        proof {
            reveal_strlit(".crucible");
        }
        Config {
            data_dir: dir.to_owned(),
            server: ServerConfig::default(),
            testing: TestingConfig::default(),
            training: TrainingConfig::default(),
            gate: GateConfig::default(),
            engines: Vec::new(),
        }
    }
}

/// What is known of the parts of a configuration that are judged outside
/// this library: the real-valued SPRT bounds and whether the web host is a
/// loopback address.
#[derive(Debug, Clone, Copy, PartialEq, Eq, Structural)]
pub struct ConfigChecks {
    /// `elo0 < elo1`.
    pub sprt_elo_ordered: bool,
    /// `0 < alpha < 1`.
    pub sprt_alpha_in_range: bool,
    /// `0 < beta < 1`.
    pub sprt_beta_in_range: bool,
    /// The web host names this machine.
    pub web_host_is_loopback: bool,
}

/// Why an engine name was refused.
#[derive(Debug, Clone, Copy, PartialEq, Eq, Structural)]
pub enum EngineNameError {
    Empty,
    SurroundingWhitespace,
    NotSingleComponent,
}

/// Why an engine binary path was refused.
#[derive(Debug, Clone, Copy, PartialEq, Eq, Structural)]
pub enum BinaryPathError {
    Empty,
    SurroundingWhitespace,
    Backslash,
    Absolute,
    SpecialComponent,
}

/// Why a configuration was refused. Indices count gate profiles, their
/// opponents, and engines, from zero.
#[derive(Debug, Clone, Copy, PartialEq, Eq, Structural)]
pub enum ConfigError {
    ZeroConcurrency,
    ZeroMaxGames,
    ProgressionGamesTooFew,
    ProgressionGamesOdd,
    ZeroHashMb,
    ZeroEngineThreads,
    ZeroPollInterval,
    ZeroSelfplayGames,
    ZeroRegressionMinDepth,
    ZeroSelfplayDepth,
    ZeroIdleBatchGames,
    EmptyOpponentName,
    EmptyProfileName(usize),
    ProfileWithoutOpponents(usize),
    ProfileZeroGames(usize),
    ProfileOddGames(usize),
    ProfileUnknownOpponent(usize, usize),
    ProfileTimeControlEmpty(usize),
    ProfileZeroNodes(usize),
    TimeControlEmpty,
    ZeroNodes,
    InvalidEngineName(usize, EngineNameError),
    InvalidBinaryPath(usize, BinaryPathError),
    EmptyRepo(usize),
    EmptyBuildCmd(usize),
    NoBranches(usize),
    SprtEloOrder,
    SprtAlpha,
    SprtBeta,
    ZeroSprtMinGames,
    EmptyAdminToken,
    PlaceholderAdminToken,
    AdminTokenRequired,
}

/// Whether `s` is empty or all white space.
pub fn is_blank(s: &str) -> (r: bool)
    ensures
        r == (trim(s@).len() == 0),
{
    let v = chars_of(s);
    let t = trim_chars(&v, 0);
    assert(v@.skip(0) =~= v@);
    t.len() == 0
}

/// Whether `s` has no white space at either end.
fn is_trimmed(s: &str) -> (r: bool)
    ensures
        r == (s@ == trim(s@)),
{
    let v = chars_of(s);
    let t = trim_chars(&v, 0);
    assert(v@.skip(0) =~= v@);
    chars_equal(&v, &t)
}

/// The single-component names that a path reads as something other than a
/// plain file name: `.` and `..`.
pub open spec fn is_dot_name(s: Seq<char>) -> bool {
    s == seq!['.'] || s == seq!['.', '.']
}

/// The verdict on an engine name: it must be non-blank, without white space
/// at either end, and a single plain path component.
pub open spec fn spec_engine_name_check(name: Seq<char>) -> Result<(), EngineNameError> {
    if trim(name).len() == 0 {
        Err(EngineNameError::Empty)
    } else if name != trim(name) {
        Err(EngineNameError::SurroundingWhitespace)
    } else if name.contains('/') || name.contains('\\') || is_dot_name(name) {
        Err(EngineNameError::NotSingleComponent)
    } else {
        Ok(())
    }
}

fn is_dot_name_exec(v: &Vec<char>) -> (r: bool)
    ensures
        r == is_dot_name(v@),
{
    let one = v.len() == 1 && v[0] == '.';
    let two = v.len() == 2 && v[0] == '.' && v[1] == '.';
    proof {
        if one {
            assert(v@ =~= seq!['.']);
        }
        if two {
            assert(v@ =~= seq!['.', '.']);
        }
    }
    one || two
}

/// Checks that an engine name can name its directory.
pub fn validate_engine_name(name: &str) -> (r: Result<(), EngineNameError>)
    ensures
        r == spec_engine_name_check(name@),
{
    if is_blank(name) {
        return Err(EngineNameError::Empty);
    }
    if !is_trimmed(name) {
        return Err(EngineNameError::SurroundingWhitespace);
    }
    let v = chars_of(name);
    if contains_char(&v, '/') || contains_char(&v, '\\') || is_dot_name_exec(&v) {
        return Err(EngineNameError::NotSingleComponent);
    }
    Ok(())
}

/// The verdict on an engine binary path: non-blank, without white space at
/// either end, with `/` separators only, relative, and made of plain
/// components only. A `.` is allowed only where the path reader drops it,
/// after the first component.
pub open spec fn spec_binary_path_check(path: Seq<char>) -> Result<(), BinaryPathError> {
    let pieces = split_on(path, '/');
    if trim(path).len() == 0 {
        Err(BinaryPathError::Empty)
    } else if path != trim(path) {
        Err(BinaryPathError::SurroundingWhitespace)
    } else if path.contains('\\') {
        Err(BinaryPathError::Backslash)
    } else if path[0] == '/' {
        Err(BinaryPathError::Absolute)
    } else if pieces[0] == seq!['.'] || exists|i: int|
        0 <= i < pieces.len() && #[trigger] pieces[i] == seq!['.', '.'] {
        Err(BinaryPathError::SpecialComponent)
    } else {
        Ok(())
    }
}

/// Checks that an engine binary path stays inside its repository.
pub fn validate_engine_binary_path(binary_path: &str) -> (r: Result<(), BinaryPathError>)
    ensures
        r == spec_binary_path_check(binary_path@),
{
    if is_blank(binary_path) {
        return Err(BinaryPathError::Empty);
    }
    if !is_trimmed(binary_path) {
        return Err(BinaryPathError::SurroundingWhitespace);
    }
    let v = chars_of(binary_path);
    if contains_char(&v, '\\') {
        return Err(BinaryPathError::Backslash);
    }
    if v[0] == '/' {
        return Err(BinaryPathError::Absolute);
    }
    let pieces = split_chars(&v, '/');
    let ghost pv = pieces@.map_values(|p: Vec<char>| p@);
    proof {
        crate::text::lemma_split_on_nonempty(v@, '/');
    }
    assert(pv[0] == pieces@[0]@);
    if pieces[0].len() == 1 && pieces[0][0] == '.' {
        assert(pv[0] =~= seq!['.']);
        return Err(BinaryPathError::SpecialComponent);
    }
    assert(pv[0] != seq!['.']) by {
        if pv[0] == seq!['.'] {
            assert(pv[0].len() == 1 && pv[0][0] == '.');
        }
    }
    let mut i: usize = 0;
    while i < pieces.len()
        invariant
            i <= pieces.len(),
            pv == pieces@.map_values(|p: Vec<char>| p@),
            pv == split_on(binary_path@, '/'),
            trim(binary_path@).len() != 0,
            binary_path@ == trim(binary_path@),
            !binary_path@.contains('\\'),
            binary_path@[0] != '/',
            pv[0] != seq!['.'],
            forall|j: int| 0 <= j < i ==> #[trigger] pv[j] != seq!['.', '.'],
        decreases pieces.len() - i,
    {
        let p = &pieces[i];
        assert(pv[i as int] == p@);
        if p.len() == 2 && p[0] == '.' && p[1] == '.' {
            assert(pv[i as int] =~= seq!['.', '.']);
            return Err(BinaryPathError::SpecialComponent);
        }
        assert(pv[i as int] != seq!['.', '.']) by {
            if pv[i as int] == seq!['.', '.'] {
                assert(p@.len() == 2 && p@[0] == '.' && p@[1] == '.');
            }
        }
        i = i + 1;
    }
    Ok(())
}

/// `part` appended to `base` as a path component: a `/` is put between them
/// unless `base` is empty or already ends with one.
pub open spec fn path_join(base: Seq<char>, part: Seq<char>) -> Seq<char> {
    if base.len() == 0 {
        part
    } else if base.last() == '/' {
        base + part
    } else {
        base + seq!['/'] + part
    }
}

/// Appends the relative component `part` to the path `base`.
pub fn join_path(base: &str, part: &str) -> (r: String)
    ensures
        r@ == path_join(base@, part@),
{
    let v = chars_of(base);
    let mut s = base.to_owned();
    if v.len() > 0 && v[v.len() - 1] != '/' {
        crate::text::push_char(&mut s, '/');
    }
    s.append(part);
    proof {
        if v.len() > 0 {
            assert(v@.last() == v@[v.len() - 1]);
        }
    }
    s
}

pub open spec fn repos_dir_name() -> Seq<char> {
    seq!['r', 'e', 'p', 'o', 's']
}

/// The directory that holds the checkout of engine `engine_name`:
/// `<data_dir>/repos/<engine_name>`, for a valid engine name.
pub fn engine_repo_path(data_dir: &str, engine_name: &str) -> (r: Result<String, EngineNameError>)
    ensures
        match spec_engine_name_check(engine_name@) {
            Err(e) => r == Err::<String, EngineNameError>(e),
            Ok(_) => r matches Ok(p) && p@ == path_join(path_join(data_dir@, repos_dir_name()), engine_name@),
        },
{
    validate_engine_name(engine_name)?;
    let repos = "repos";
    proof {
        reveal_strlit("repos");
    }
    let root = join_path(data_dir, repos);
    Ok(join_path(root.as_str(), engine_name))
}

/// The non-empty components of a path.
pub open spec fn path_parts(p: Seq<char>) -> Seq<Seq<char>> {
    split_on(p, '/').filter(|c: Seq<char>| c.len() > 0)
}

/// Whether the resolved path `target` lies inside the resolved directory
/// `root`, component by component.
pub open spec fn path_within(target: Seq<char>, root: Seq<char>) -> bool {
    &&& (target.len() > 0 && target[0] == '/') == (root.len() > 0 && root[0] == '/')
    &&& path_parts(root).len() <= path_parts(target).len()
    &&& path_parts(target).take(path_parts(root).len() as int) == path_parts(root)
}

/// Why an engine's data directory may not be deleted.
#[derive(Debug, Clone, Copy, PartialEq, Eq, Structural)]
pub enum StoragePathError {
    OutsideRepos,
}

fn nonempty_parts(p: &Vec<char>) -> (r: Vec<Vec<char>>)
    ensures
        r@.map_values(|c: Vec<char>| c@) == path_parts(p@),
{
    let pieces = split_chars(p, '/');
    let ghost pv = pieces@.map_values(|c: Vec<char>| c@);
    let mut r: Vec<Vec<char>> = Vec::new();
    let mut i: usize = 0;
    assert(pv.take(0) =~= Seq::<Seq<char>>::empty());
    while i < pieces.len()
        invariant
            i <= pieces.len(),
            pv == pieces@.map_values(|c: Vec<char>| c@),
            pv == split_on(p@, '/'),
            r@.map_values(|c: Vec<char>| c@) == pv.take(i as int).filter(|c: Seq<char>| c.len() > 0),
        decreases pieces.len() - i,
    {
        let ghost before = r@.map_values(|c: Vec<char>| c@);
        let ghost prefix = pv.take(i as int);
        assert(pv.take(i + 1) =~= prefix.push(pv[i as int]));
        proof {
            reveal(Seq::filter);
            assert(pv.take(i + 1).drop_last() =~= prefix);
            assert(pv.take(i + 1).last() == pv[i as int]);
        }
        if pieces[i].len() > 0 {
            let piece = pieces[i].clone();
            r.push(piece);
            assert(r@.map_values(|c: Vec<char>| c@) =~= before.push(pv[i as int]));
        }
        i = i + 1;
    }
    assert(pv.take(pieces.len() as int) =~= pv);
    r
}

/// Checks that the resolved engine directory `local_path` lies inside the
/// resolved repository directory `repos_root`, before it is deleted.
pub fn validate_engine_storage_path(repos_root: &str, local_path: &str) -> (r: Result<(), StoragePathError>)
    ensures
        r is Ok == path_within(local_path@, repos_root@),
{
    let root = chars_of(repos_root);
    let target = chars_of(local_path);
    let root_abs = root.len() > 0 && root[0] == '/';
    let target_abs = target.len() > 0 && target[0] == '/';
    if root_abs != target_abs {
        return Err(StoragePathError::OutsideRepos);
    }
    let rp = nonempty_parts(&root);
    let tp = nonempty_parts(&target);
    let ghost rv = rp@.map_values(|c: Vec<char>| c@);
    let ghost tv = tp@.map_values(|c: Vec<char>| c@);
    if rp.len() > tp.len() {
        return Err(StoragePathError::OutsideRepos);
    }
    let mut i: usize = 0;
    while i < rp.len()
        invariant
            i <= rp.len() <= tp.len(),
            rv == rp@.map_values(|c: Vec<char>| c@),
            tv == tp@.map_values(|c: Vec<char>| c@),
            rv == path_parts(repos_root@),
            tv == path_parts(local_path@),
            forall|j: int| 0 <= j < i ==> rv[j] == tv[j],
        decreases rp.len() - i,
    {
        if !chars_equal(&rp[i], &tp[i]) {
            assert(tv.take(rv.len() as int)[i as int] != rv[i as int]);
            return Err(StoragePathError::OutsideRepos);
        }
        i = i + 1;
    }
    assert(tv.take(rv.len() as int) =~= rv);
    Ok(())
}

/// `c` with ASCII capitals made lower case.
pub open spec fn ascii_lower(c: char) -> char {
    if 'A' <= c && c <= 'Z' {
        ((c as u32) + 32) as char
    } else {
        c
    }
}

/// The example values that an admin token must not keep.
pub open spec fn placeholder_tokens() -> Seq<Seq<char>> {
    seq![
        "change-me"@,
        "changeme"@,
        "change_me"@,
        "replace-me"@,
        "replace_me"@,
        "replace-this-with-a-random-token"@,
        "change-this-to-a-secure-random-string"@,
        "paste-generated-token-here"@,
    ]
}

/// Whether a token, trimmed and in lower case, is one of the placeholders.
pub open spec fn spec_token_is_placeholder(token: Seq<char>) -> bool {
    placeholder_tokens().contains(trim(token).map_values(|c: char| ascii_lower(c)))
}

fn lower_chars(v: &Vec<char>) -> (r: Vec<char>)
    ensures
        r@ == v@.map_values(|c: char| ascii_lower(c)),
{
    let mut r: Vec<char> = Vec::new();
    let mut i: usize = 0;
    while i < v.len()
        invariant
            i <= v.len(),
            r@ == v@.take(i as int).map_values(|c: char| ascii_lower(c)),
        decreases v.len() - i,
    {
        let c = v[i];
        let l = if 'A' <= c && c <= 'Z' {
            char_from_u32_lower(c)
        } else {
            c
        };
        r.push(l);
        assert(v@.take(i + 1) =~= v@.take(i as int).push(c));
        assert(r@ =~= v@.take(i + 1).map_values(|c: char| ascii_lower(c)));
        i = i + 1;
    }
    assert(v@.take(v.len() as int) =~= v@);
    r
}

/// The lower-case letter for the ASCII capital `c`.
fn char_from_u32_lower(c: char) -> (r: char)
    requires
        'A' <= c && c <= 'Z',
    ensures
        r == ascii_lower(c),
{
    let code: u8 = (c as u8) + 32;
    code as char
}

/// Whether the characters `v` spell `lit`.
fn eq_literal(v: &Vec<char>, lit: &str) -> (r: bool)
    ensures
        r == (v@ == lit@),
{
    let l = chars_of(lit);
    chars_equal(v, &l)
}

/// Whether `token` is one of the example values from the documentation.
pub fn token_is_placeholder(token: &str) -> (r: bool)
    ensures
        r == spec_token_is_placeholder(token@),
{
    let v = chars_of(token);
    let t = trim_chars(&v, 0);
    assert(v@.skip(0) =~= v@);
    let normalized = lower_chars(&t);
    let found = eq_literal(&normalized, "change-me") || eq_literal(&normalized, "changeme")
        || eq_literal(&normalized, "change_me") || eq_literal(&normalized, "replace-me")
        || eq_literal(&normalized, "replace_me") || eq_literal(
        &normalized,
        "replace-this-with-a-random-token",
    ) || eq_literal(&normalized, "change-this-to-a-secure-random-string") || eq_literal(
        &normalized,
        "paste-generated-token-here",
    );
    proof {
        let x = normalized@;
        let ps = placeholder_tokens();
        if ps.contains(x) {
            let j = choose|j: int| 0 <= j < ps.len() && ps[j] == x;
            assert(j == 0 || j == 1 || j == 2 || j == 3 || j == 4 || j == 5 || j == 6 || j == 7);
        }
        if found {
            if x == "change-me"@ {
                assert(ps[0] == x);
            } else if x == "changeme"@ {
                assert(ps[1] == x);
            } else if x == "change_me"@ {
                assert(ps[2] == x);
            } else if x == "replace-me"@ {
                assert(ps[3] == x);
            } else if x == "replace_me"@ {
                assert(ps[4] == x);
            } else if x == "replace-this-with-a-random-token"@ {
                assert(ps[5] == x);
            } else if x == "change-this-to-a-secure-random-string"@ {
                assert(ps[6] == x);
            } else {
                assert(ps[7] == x);
            }
        }
    }
    found
}

/// Whether some gate opponent is called `name`.
pub open spec fn opponent_known(known: Seq<GateOpponentConfig>, name: Seq<char>) -> bool {
    exists|i: int| 0 <= i < known.len() && #[trigger] known[i].name@ == name
}

/// The first name of `names` from position `k` on that no opponent has.
pub open spec fn first_unknown(names: Seq<String>, known: Seq<GateOpponentConfig>, k: int) -> Option<int>
    decreases names.len() - k,
{
    if k < 0 || k >= names.len() {
        None
    } else if !opponent_known(known, names[k]@) {
        Some(k)
    } else {
        first_unknown(names, known, k + 1)
    }
}

/// What is wrong with a time control, if anything: it must set a positive
/// base time or a node limit, and a node limit must be positive.
pub open spec fn time_control_problem(tc: &TimeControlConfig) -> Option<bool> {
    if tc.base_ms == 0 && tc.nodes is None {
        Some(true)
    } else if tc.nodes == Some(0u64) {
        Some(false)
    } else {
        None
    }
}

/// The first problem of gate profile `idx`.
pub open spec fn profile_error(p: &GateProfileConfig, idx: int, known: Seq<GateOpponentConfig>) -> Option<ConfigError> {
    if trim(p.name@).len() == 0 {
        Some(ConfigError::EmptyProfileName(idx as usize))
    } else if p.opponents.len() == 0 {
        Some(ConfigError::ProfileWithoutOpponents(idx as usize))
    } else if p.games_per_opponent == 0 {
        Some(ConfigError::ProfileZeroGames(idx as usize))
    } else if p.games_per_opponent % 2 != 0 {
        Some(ConfigError::ProfileOddGames(idx as usize))
    } else if first_unknown(p.opponents@, known, 0) is Some {
        Some(ConfigError::ProfileUnknownOpponent(idx as usize, first_unknown(p.opponents@, known, 0)->0 as usize))
    } else {
        match p.time_control {
            None => None,
            Some(tc) => match time_control_problem(&tc) {
                Some(true) => Some(ConfigError::ProfileTimeControlEmpty(idx as usize)),
                Some(false) => Some(ConfigError::ProfileZeroNodes(idx as usize)),
                None => None,
            },
        }
    }
}

/// The first problem among the release profiles at position `i` and later.
pub open spec fn first_profile_error(ps: Seq<GateProfileConfig>, known: Seq<GateOpponentConfig>, i: int) -> Option<ConfigError>
    decreases ps.len() - i,
{
    if i < 0 || i >= ps.len() {
        None
    } else {
        match profile_error(&ps[i], i, known) {
            Some(e) => Some(e),
            None => first_profile_error(ps, known, i + 1),
        }
    }
}

/// The first problem of engine `idx`.
pub open spec fn engine_error(e: &EngineConfig, idx: int) -> Option<ConfigError> {
    match spec_engine_name_check(e.name@) {
        Err(n) => Some(ConfigError::InvalidEngineName(idx as usize, n)),
        Ok(_) => match spec_binary_path_check(e.binary_path@) {
            Err(b) => Some(ConfigError::InvalidBinaryPath(idx as usize, b)),
            Ok(_) => if trim(e.repo@).len() == 0 {
                Some(ConfigError::EmptyRepo(idx as usize))
            } else if trim(e.build_cmd@).len() == 0 {
                Some(ConfigError::EmptyBuildCmd(idx as usize))
            } else if e.branches.len() == 0 && e.experimental_branches.len() == 0 {
                Some(ConfigError::NoBranches(idx as usize))
            } else {
                None
            },
        },
    }
}

/// The first problem among the engines from position `i` on.
pub open spec fn first_engine_error(es: Seq<EngineConfig>, i: int) -> Option<ConfigError>
    decreases es.len() - i,
{
    if i < 0 || i >= es.len() {
        None
    } else {
        match engine_error(&es[i], i) {
            Some(e) => Some(e),
            None => first_engine_error(es, i + 1),
        }
    }
}

impl Config {
    /// The first rule that the configuration breaks, in the order in which
    /// they are checked, or `Ok` if it breaks none.
    pub open spec fn spec_validate(&self, checks: ConfigChecks) -> Result<(), ConfigError> {
        let t = &self.testing;
        let tr = &self.training;
        if t.concurrency == 0 {
            Err(ConfigError::ZeroConcurrency)
        } else if t.max_games == 0 {
            Err(ConfigError::ZeroMaxGames)
        } else if t.progression_games is Some && t.progression_games->0 < 2 {
            Err(ConfigError::ProgressionGamesTooFew)
        } else if t.progression_games is Some && t.progression_games->0 % 2 != 0 {
            Err(ConfigError::ProgressionGamesOdd)
        } else if t.hash_mb == 0 {
            Err(ConfigError::ZeroHashMb)
        } else if t.engine_threads == 0 {
            Err(ConfigError::ZeroEngineThreads)
        } else if t.poll_interval_seconds == 0 {
            Err(ConfigError::ZeroPollInterval)
        } else if tr.selfplay_games == 0 {
            Err(ConfigError::ZeroSelfplayGames)
        } else if tr.regression_min_depth == 0 {
            Err(ConfigError::ZeroRegressionMinDepth)
        } else if tr.selfplay_depth == 0 {
            Err(ConfigError::ZeroSelfplayDepth)
        } else if tr.idle_batch_games == 0 {
            Err(ConfigError::ZeroIdleBatchGames)
        } else if exists|i: int| 0 <= i < self.gate.opponents.len() && trim(#[trigger] self.gate.opponents@[i].name@).len() == 0 {
            Err(ConfigError::EmptyOpponentName)
        } else if first_profile_error(self.gate.profiles@, self.gate.opponents@, 0) is Some {
            Err(first_profile_error(self.gate.profiles@, self.gate.opponents@, 0)->0)
        } else if t.time_control.base_ms == 0 && t.time_control.nodes is None {
            Err(ConfigError::TimeControlEmpty)
        } else if t.time_control.nodes == Some(0u64) {
            Err(ConfigError::ZeroNodes)
        } else if first_engine_error(self.engines@, 0) is Some {
            Err(first_engine_error(self.engines@, 0)->0)
        } else if !checks.sprt_elo_ordered {
            Err(ConfigError::SprtEloOrder)
        } else if !checks.sprt_alpha_in_range {
            Err(ConfigError::SprtAlpha)
        } else if !checks.sprt_beta_in_range {
            Err(ConfigError::SprtBeta)
        } else if t.sprt_min_games == 0 {
            Err(ConfigError::ZeroSprtMinGames)
        } else if self.server.admin_token is Some && trim(self.server.admin_token->0@).len() == 0 {
            Err(ConfigError::EmptyAdminToken)
        } else if self.server.admin_token is Some && spec_token_is_placeholder(self.server.admin_token->0@) {
            Err(ConfigError::PlaceholderAdminToken)
        } else if !checks.web_host_is_loopback && self.server.admin_token is None {
            Err(ConfigError::AdminTokenRequired)
        } else {
            Ok(())
        }
    }

    /// Checks the configuration, given what is known of its real-valued
    /// bounds and its web host; the first broken rule is reported.
    pub fn validate(&self, checks: ConfigChecks) -> (r: Result<(), ConfigError>)
        ensures
            r == self.spec_validate(checks),
    {
        let t = &self.testing;
        let tr = &self.training;
        if t.concurrency == 0 {
            return Err(ConfigError::ZeroConcurrency);
        }
        if t.max_games == 0 {
            return Err(ConfigError::ZeroMaxGames);
        }
        if let Some(games) = t.progression_games {
            if games < 2 {
                return Err(ConfigError::ProgressionGamesTooFew);
            }
            if games % 2 != 0 {
                return Err(ConfigError::ProgressionGamesOdd);
            }
        }
        if t.hash_mb == 0 {
            return Err(ConfigError::ZeroHashMb);
        }
        if t.engine_threads == 0 {
            return Err(ConfigError::ZeroEngineThreads);
        }
        if t.poll_interval_seconds == 0 {
            return Err(ConfigError::ZeroPollInterval);
        }
        if tr.selfplay_games == 0 {
            return Err(ConfigError::ZeroSelfplayGames);
        }
        if tr.regression_min_depth == 0 {
            return Err(ConfigError::ZeroRegressionMinDepth);
        }
        if tr.selfplay_depth == 0 {
            return Err(ConfigError::ZeroSelfplayDepth);
        }
        if tr.idle_batch_games == 0 {
            return Err(ConfigError::ZeroIdleBatchGames);
        }
        if any_blank_opponent(&self.gate.opponents) {
            return Err(ConfigError::EmptyOpponentName);
        }
        if let Some(e) = self.first_profile_problem() {
            return Err(e);
        }
        if t.time_control.base_ms == 0 && t.time_control.nodes.is_none() {
            return Err(ConfigError::TimeControlEmpty);
        }
        if t.time_control.nodes == Some(0u64) {
            return Err(ConfigError::ZeroNodes);
        }
        if let Some(e) = self.first_engine_problem() {
            return Err(e);
        }
        if !checks.sprt_elo_ordered {
            return Err(ConfigError::SprtEloOrder);
        }
        if !checks.sprt_alpha_in_range {
            return Err(ConfigError::SprtAlpha);
        }
        if !checks.sprt_beta_in_range {
            return Err(ConfigError::SprtBeta);
        }
        if t.sprt_min_games == 0 {
            return Err(ConfigError::ZeroSprtMinGames);
        }
        if let Some(token) = &self.server.admin_token {
            if is_blank(token.as_str()) {
                return Err(ConfigError::EmptyAdminToken);
            }
            if token_is_placeholder(token.as_str()) {
                return Err(ConfigError::PlaceholderAdminToken);
            }
        }
        if !checks.web_host_is_loopback && self.server.admin_token.is_none() {
            return Err(ConfigError::AdminTokenRequired);
        }
        Ok(())
    }

    fn first_profile_problem(&self) -> (r: Option<ConfigError>)
        ensures
            r == first_profile_error(self.gate.profiles@, self.gate.opponents@, 0),
    {
        let profiles = &self.gate.profiles;
        let mut i: usize = 0;
        while i < profiles.len()
            invariant
                i <= profiles.len(),
                profiles@ == self.gate.profiles@,
                first_profile_error(profiles@, self.gate.opponents@, 0) == first_profile_error(profiles@, self.gate.opponents@, i as int),
            decreases profiles.len() - i,
        {
            let found = profile_problem(&profiles[i], i, &self.gate.opponents);
            if found.is_some() {
                assert(first_profile_error(profiles@, self.gate.opponents@, i as int) == found);
                return found;
            }
            i = i + 1;
        }
        None
    }

    fn first_engine_problem(&self) -> (r: Option<ConfigError>)
        ensures
            r == first_engine_error(self.engines@, 0),
    {
        let engines = &self.engines;
        let mut i: usize = 0;
        while i < engines.len()
            invariant
                i <= engines.len(),
                engines@ == self.engines@,
                first_engine_error(engines@, 0) == first_engine_error(engines@, i as int),
            decreases engines.len() - i,
        {
            let found = engine_problem(&engines[i], i);
            if found.is_some() {
                assert(first_engine_error(engines@, i as int) == found);
                return found;
            }
            i = i + 1;
        }
        None
    }
}

fn any_blank_opponent(opponents: &Vec<GateOpponentConfig>) -> (r: bool)
    ensures
        r == exists|i: int| 0 <= i < opponents.len() && trim(#[trigger] opponents@[i].name@).len() == 0,
{
    let mut i: usize = 0;
    while i < opponents.len()
        invariant
            i <= opponents.len(),
            forall|j: int| 0 <= j < i ==> trim(#[trigger] opponents@[j].name@).len() != 0,
        decreases opponents.len() - i,
    {
        if is_blank(opponents[i].name.as_str()) {
            assert(trim(opponents@[i as int].name@).len() == 0);
            return true;
        }
        i = i + 1;
    }
    false
}

fn opponent_is_known(known: &Vec<GateOpponentConfig>, name: &String) -> (r: bool)
    ensures
        r == opponent_known(known@, name@),
{
    let target = chars_of(name.as_str());
    let mut i: usize = 0;
    while i < known.len()
        invariant
            i <= known.len(),
            target@ == name@,
            forall|j: int| 0 <= j < i ==> #[trigger] known@[j].name@ != name@,
        decreases known.len() - i,
    {
        let candidate = chars_of(known[i].name.as_str());
        if chars_equal(&candidate, &target) {
            assert(known@[i as int].name@ == name@);
            return true;
        }
        i = i + 1;
    }
    false
}

fn profile_problem(p: &GateProfileConfig, idx: usize, known: &Vec<GateOpponentConfig>) -> (r: Option<ConfigError>)
    ensures
        r == profile_error(p, idx as int, known@),
{
    if is_blank(p.name.as_str()) {
        return Some(ConfigError::EmptyProfileName(idx));
    }
    if p.opponents.len() == 0 {
        return Some(ConfigError::ProfileWithoutOpponents(idx));
    }
    if p.games_per_opponent == 0 {
        return Some(ConfigError::ProfileZeroGames(idx));
    }
    if p.games_per_opponent % 2 != 0 {
        return Some(ConfigError::ProfileOddGames(idx));
    }
    let mut k: usize = 0;
    while k < p.opponents.len()
        invariant
            k <= p.opponents.len(),
            trim(p.name@).len() != 0,
            p.opponents.len() > 0,
            p.games_per_opponent != 0,
            p.games_per_opponent % 2 == 0,
            first_unknown(p.opponents@, known@, 0) == first_unknown(p.opponents@, known@, k as int),
        decreases p.opponents.len() - k,
    {
        if !opponent_is_known(known, &p.opponents[k]) {
            return Some(ConfigError::ProfileUnknownOpponent(idx, k));
        }
        k = k + 1;
    }
    match &p.time_control {
        None => None,
        Some(tc) => {
            if tc.base_ms == 0 && tc.nodes.is_none() {
                Some(ConfigError::ProfileTimeControlEmpty(idx))
            } else if tc.nodes == Some(0u64) {
                Some(ConfigError::ProfileZeroNodes(idx))
            } else {
                None
            }
        },
    }
}

fn engine_problem(e: &EngineConfig, idx: usize) -> (r: Option<ConfigError>)
    ensures
        r == engine_error(e, idx as int),
{
    if let Err(n) = validate_engine_name(e.name.as_str()) {
        return Some(ConfigError::InvalidEngineName(idx, n));
    }
    if let Err(b) = validate_engine_binary_path(e.binary_path.as_str()) {
        return Some(ConfigError::InvalidBinaryPath(idx, b));
    }
    if is_blank(e.repo.as_str()) {
        return Some(ConfigError::EmptyRepo(idx));
    }
    if is_blank(e.build_cmd.as_str()) {
        return Some(ConfigError::EmptyBuildCmd(idx));
    }
    if e.branches.len() == 0 && e.experimental_branches.len() == 0 {
        return Some(ConfigError::NoBranches(idx));
    }
    None
}

/// What a configured web host names, before any address is parsed.
pub enum WebHost {
    /// The name `localhost`, in any letter case.
    Localhost,
    /// An address to be read as an IP address: the host without surrounding
    /// white space and without the square brackets of an IPv6 literal.
    Address(String),
}

/// The address text of a trimmed host: without `[` and `]` when it has both.
pub open spec fn unbracketed(h: Seq<char>) -> Seq<char> {
    if h.len() >= 2 && h[0] == '[' && h.last() == ']' {
        h.subrange(1, h.len() - 1)
    } else {
        h
    }
}

/// What `host` names: `localhost` in any letter case, or an address text.
pub open spec fn spec_web_host(host: Seq<char>) -> Option<Seq<char>> {
    let h = trim(host);
    if h.map_values(|c: char| ascii_lower(c)) == "localhost"@ {
        None
    } else {
        Some(unbracketed(h))
    }
}

/// Classifies a configured web host; an address still has to be checked for
/// being a loopback address.
pub fn classify_web_host(host: &str) -> (r: WebHost)
    ensures
        match spec_web_host(host@) {
            None => r is Localhost,
            Some(a) => r matches WebHost::Address(s) && s@ == a,
        },
{
    let v = chars_of(host);
    let h = trim_chars(&v, 0);
    assert(v@.skip(0) =~= v@);
    let lower = lower_chars(&h);
    if eq_literal(&lower, "localhost") {
        return WebHost::Localhost;
    }
    if h.len() >= 2 && h[0] == '[' && h[h.len() - 1] == ']' {
        assert(h@.last() == h@[h.len() - 1]);
        WebHost::Address(crate::text::string_from_chars(&h, 1, h.len() - 1))
    } else {
        WebHost::Address(crate::text::string_from_chars(&h, 0, h.len()))
    }
}

/// The names of `names`, each trimmed, the empty ones left out, in order.
pub open spec fn clean_names(names: Seq<Seq<char>>) -> Seq<Seq<char>>
    decreases names.len(),
{
    if names.len() == 0 {
        seq![]
    } else {
        let rest = clean_names(names.drop_last());
        let t = trim(names.last());
        if t.len() == 0 {
            rest
        } else {
            rest.push(t)
        }
    }
}

fn clean_char_lists(parts: &Vec<Vec<char>>) -> (r: Vec<String>)
    ensures
        r@.map_values(|s: String| s@) == clean_names(parts@.map_values(|p: Vec<char>| p@)),
{
    let mut r: Vec<String> = Vec::new();
    let mut k: usize = 0;
    assert(parts@.map_values(|p: Vec<char>| p@).take(0) =~= Seq::<Seq<char>>::empty());
    assert(r@.map_values(|s: String| s@) =~= Seq::<Seq<char>>::empty());
    while k < parts.len()
        invariant
            k <= parts.len(),
            r@.map_values(|s: String| s@) == clean_names(parts@.map_values(|p: Vec<char>| p@).take(k as int)),
        decreases parts.len() - k,
    {
        let ghost pv = parts@.map_values(|p: Vec<char>| p@);
        let ghost before = r@.map_values(|s: String| s@);
        assert(pv.take(k + 1).drop_last() =~= pv.take(k as int));
        assert(pv.take(k + 1).last() == parts@[k as int]@);
        assert(parts@[k as int]@.skip(0) =~= parts@[k as int]@);
        let t = trim_chars(&parts[k], 0);
        if t.len() > 0 {
            let name = string_from_chars(&t, 0, t.len());
            assert(t@.subrange(0, t@.len() as int) =~= t@);
            r.push(name);
            assert(r@.map_values(|s: String| s@) =~= before.push(t@));
        }
        k = k + 1;
    }
    assert(parts@.map_values(|p: Vec<char>| p@).take(parts.len() as int) =~= parts@.map_values(|p: Vec<char>| p@));
    r
}

/// The branch names of a comma-separated list such as `main, dev`: each
/// trimmed, the empty ones left out.
pub fn split_branch_list(value: &str) -> (r: Vec<String>)
    ensures
        r@.map_values(|s: String| s@) == clean_names(split_on(value@, ',')),
{
    let parts = split_chars(&chars_of(value), ',');
    clean_char_lists(&parts)
}

/// Branch names as a form submits them: each trimmed, the empty ones left
/// out.
pub fn clean_branch_names(names: &Vec<String>) -> (r: Vec<String>)
    ensures
        r@.map_values(|s: String| s@) == clean_names(names@.map_values(|s: String| s@)),
{
    let mut parts: Vec<Vec<char>> = Vec::new();
    let mut k: usize = 0;
    while k < names.len()
        invariant
            k <= names.len(),
            parts@.map_values(|p: Vec<char>| p@) == names@.map_values(|s: String| s@).take(k as int),
        decreases names.len() - k,
    {
        let ghost before = parts@.map_values(|p: Vec<char>| p@);
        let c = chars_of(names[k].as_str());
        parts.push(c);
        assert(parts@.map_values(|p: Vec<char>| p@) =~= before.push(names@[k as int]@));
        assert(names@.map_values(|s: String| s@).take(k + 1) =~= names@.map_values(|s: String| s@).take(k as int).push(names@[k as int]@));
        k = k + 1;
    }
    assert(names@.map_values(|s: String| s@).take(names.len() as int) =~= names@.map_values(|s: String| s@));
    clean_char_lists(&parts)
}

/// Whether an engine form is complete: it names the engine, its repository,
/// build command and binary (none of them blank), and at least one branch or
/// experimental branch.
pub fn engine_form_complete(
    name: &str,
    repo: &str,
    build_cmd: &str,
    binary_path: &str,
    branches: &Vec<String>,
    experimental_branches: &Vec<String>,
) -> (r: bool)
    ensures
        r == (trim(name@).len() > 0 && trim(repo@).len() > 0 && trim(build_cmd@).len() > 0 && trim(binary_path@).len() > 0
            && (branches.len() > 0 || experimental_branches.len() > 0)),
{
    !is_blank(name) && !is_blank(repo) && !is_blank(build_cmd) && !is_blank(binary_path) && (branches.len() > 0
        || experimental_branches.len() > 0)
}

/// A start reference as a form submits it: trimmed, and none when blank.
pub fn clean_start_from(value: Option<&str>) -> (r: Option<String>)
    ensures
        match value {
            Some(v) => if trim(v@).len() > 0 {
                r matches Some(s) && s@ == trim(v@)
            } else {
                r is None
            },
            None => r is None,
        },
{
    match value {
        None => None,
        Some(v) => {
            let c = chars_of(v);
            let t = trim_chars(&c, 0);
            assert(c@.skip(0) =~= c@);
            if t.len() == 0 {
                None
            } else {
                assert(t@.subrange(0, t@.len() as int) =~= t@);
                Some(string_from_chars(&t, 0, t.len()))
            }
        },
    }
}

} // verus!
