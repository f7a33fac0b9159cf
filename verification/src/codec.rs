//! How the job store spells the library's enumerations, and how it reads
//! them back.
use vstd::prelude::*;
use crate::text::chars_of;
use crate::types::{BisectStatus, BuildStatus, GameResult, HuntPhase, JobType, SprtResult, TestStatus};

verus! {

/// A stored value that names no variant of its enumeration.
#[derive(Debug, Clone, Copy, PartialEq, Eq, Structural)]
pub enum InvalidEnum {
    BuildStatus,
    TestStatus,
    JobType,
    SprtResult,
    BisectStatus,
    HuntPhase,
}

/// A stored enumeration value without the double quotes that older rows
/// wrap it in: the quotes go only when both are there.
pub open spec fn spec_normalize(s: Seq<char>) -> Seq<char> {
    if s.len() >= 2 && s[0] == '"' && s.last() == '"' {
        s.subrange(1, s.len() - 1)
    } else {
        s
    }
}

/// Strips the double quotes around a stored enumeration value.
pub fn normalize_db_enum(value: &str) -> (r: &str)
    ensures
        r@ == spec_normalize(value@),
{
    let n = value.unicode_len();
    if n >= 2 && value.get_char(0) == '"' && value.get_char(n - 1) == '"' {
        proof {
            assert(value@.last() == value@[n - 1]);
        }
        value.substring_char(1, n - 1)
    } else {
        proof {
            if value@.len() >= 2 && value@[0] == '"' && value@.last() == '"' {
                assert(value@.last() == value@[n - 1]);
            }
        }
        value
    }
}

/// Whether two strings have the same characters.
pub fn same_text(a: &str, b: &str) -> (r: bool)
    ensures
        r == (a@ == b@),
{
    let x = chars_of(a);
    let y = chars_of(b);
    crate::text::chars_equal(&x, &y)
}

/// The stored name of a `BuildStatus`.
pub open spec fn build_status_name(v: BuildStatus) -> Seq<char> {
    match v {
        BuildStatus::Pending => "Pending"@,
        BuildStatus::Building => "Building"@,
        BuildStatus::Success => "Success"@,
        BuildStatus::Failed => "Failed"@,
    }
}

/// The stored name of a `BuildStatus`.
pub fn encode_build_status(value: BuildStatus) -> (r: &'static str)
    ensures
        r@ == build_status_name(value),
{
    match value {
        BuildStatus::Pending => "Pending",
        BuildStatus::Building => "Building",
        BuildStatus::Success => "Success",
        BuildStatus::Failed => "Failed",
    }
}

/// The `BuildStatus` that a stored value names.
pub open spec fn spec_decode_build_status(value: Seq<char>) -> Result<BuildStatus, InvalidEnum> {
    let s = spec_normalize(value);
    if s == "Pending"@ {
        Ok(BuildStatus::Pending)
    } else if s == "Building"@ {
        Ok(BuildStatus::Building)
    } else if s == "Success"@ {
        Ok(BuildStatus::Success)
    } else if s == "Failed"@ {
        Ok(BuildStatus::Failed)
    } else {
        Err(InvalidEnum::BuildStatus)
    }
}

/// Reads a stored `BuildStatus`.
pub fn decode_build_status(value: &str) -> (r: Result<BuildStatus, InvalidEnum>)
    ensures
        r == spec_decode_build_status(value@),
{
    let s = normalize_db_enum(value);
    if same_text(s, "Pending") {
        Ok(BuildStatus::Pending)
    } else if same_text(s, "Building") {
        Ok(BuildStatus::Building)
    } else if same_text(s, "Success") {
        Ok(BuildStatus::Success)
    } else if same_text(s, "Failed") {
        Ok(BuildStatus::Failed)
    } else {
        Err(InvalidEnum::BuildStatus)
    }
}

/// Reading back the stored name of any `BuildStatus` gives that value.
pub proof fn law_build_status_round_trip(v: BuildStatus)
    ensures
        spec_decode_build_status(build_status_name(v)) == Ok::<BuildStatus, InvalidEnum>(v),
{
    reveal_strlit("Pending");
    reveal_strlit("Building");
    reveal_strlit("Success");
    reveal_strlit("Failed");
    match v {
        BuildStatus::Pending => {
            assert(spec_normalize("Pending"@) == "Pending"@);
        },
        BuildStatus::Building => {
            assert(spec_normalize("Building"@) == "Building"@);
        },
        BuildStatus::Success => {
            assert(spec_normalize("Success"@) == "Success"@);
            assert("Success"@[0] != "Pending"@[0]);
        },
        BuildStatus::Failed => {
            assert(spec_normalize("Failed"@) == "Failed"@);
        },
    }
}

/// The stored name of a `TestStatus`.
pub open spec fn test_status_name(v: TestStatus) -> Seq<char> {
    match v {
        TestStatus::Queued => "Queued"@,
        TestStatus::Running => "Running"@,
        TestStatus::Completed => "Completed"@,
        TestStatus::Cancelled => "Cancelled"@,
        TestStatus::Failed => "Failed"@,
    }
}

/// The stored name of a `TestStatus`.
pub fn encode_test_status(value: TestStatus) -> (r: &'static str)
    ensures
        r@ == test_status_name(value),
{
    match value {
        TestStatus::Queued => "Queued",
        TestStatus::Running => "Running",
        TestStatus::Completed => "Completed",
        TestStatus::Cancelled => "Cancelled",
        TestStatus::Failed => "Failed",
    }
}

/// The `TestStatus` that a stored value names.
pub open spec fn spec_decode_test_status(value: Seq<char>) -> Result<TestStatus, InvalidEnum> {
    let s = spec_normalize(value);
    if s == "Queued"@ {
        Ok(TestStatus::Queued)
    } else if s == "Running"@ {
        Ok(TestStatus::Running)
    } else if s == "Completed"@ {
        Ok(TestStatus::Completed)
    } else if s == "Cancelled"@ {
        Ok(TestStatus::Cancelled)
    } else if s == "Failed"@ {
        Ok(TestStatus::Failed)
    } else {
        Err(InvalidEnum::TestStatus)
    }
}

/// Reads a stored `TestStatus`.
pub fn decode_test_status(value: &str) -> (r: Result<TestStatus, InvalidEnum>)
    ensures
        r == spec_decode_test_status(value@),
{
    let s = normalize_db_enum(value);
    if same_text(s, "Queued") {
        Ok(TestStatus::Queued)
    } else if same_text(s, "Running") {
        Ok(TestStatus::Running)
    } else if same_text(s, "Completed") {
        Ok(TestStatus::Completed)
    } else if same_text(s, "Cancelled") {
        Ok(TestStatus::Cancelled)
    } else if same_text(s, "Failed") {
        Ok(TestStatus::Failed)
    } else {
        Err(InvalidEnum::TestStatus)
    }
}

/// Reading back the stored name of any `TestStatus` gives that value.
pub proof fn law_test_status_round_trip(v: TestStatus)
    ensures
        spec_decode_test_status(test_status_name(v)) == Ok::<TestStatus, InvalidEnum>(v),
{
    reveal_strlit("Queued");
    reveal_strlit("Running");
    reveal_strlit("Completed");
    reveal_strlit("Cancelled");
    reveal_strlit("Failed");
    match v {
        TestStatus::Queued => {
            assert(spec_normalize("Queued"@) == "Queued"@);
        },
        TestStatus::Running => {
            assert(spec_normalize("Running"@) == "Running"@);
        },
        TestStatus::Completed => {
            assert(spec_normalize("Completed"@) == "Completed"@);
        },
        TestStatus::Cancelled => {
            assert(spec_normalize("Cancelled"@) == "Cancelled"@);
            assert("Cancelled"@[1] != "Completed"@[1]);
        },
        TestStatus::Failed => {
            assert(spec_normalize("Failed"@) == "Failed"@);
            assert("Failed"@[0] != "Queued"@[0]);
        },
    }
}

/// The stored name of a `JobType`.
pub open spec fn job_type_name(v: JobType) -> Seq<char> {
    match v {
        JobType::Sequential => "Sequential"@,
        JobType::Baseline => "Baseline"@,
        JobType::Bisect => "Bisect"@,
        JobType::Manual => "Manual"@,
    }
}

/// The stored name of a `JobType`.
pub fn encode_job_type(value: JobType) -> (r: &'static str)
    ensures
        r@ == job_type_name(value),
{
    match value {
        JobType::Sequential => "Sequential",
        JobType::Baseline => "Baseline",
        JobType::Bisect => "Bisect",
        JobType::Manual => "Manual",
    }
}

/// The `JobType` that a stored value names.
pub open spec fn spec_decode_job_type(value: Seq<char>) -> Result<JobType, InvalidEnum> {
    let s = spec_normalize(value);
    if s == "Sequential"@ {
        Ok(JobType::Sequential)
    } else if s == "Baseline"@ {
        Ok(JobType::Baseline)
    } else if s == "Bisect"@ {
        Ok(JobType::Bisect)
    } else if s == "Manual"@ {
        Ok(JobType::Manual)
    } else {
        Err(InvalidEnum::JobType)
    }
}

/// Reads a stored `JobType`.
pub fn decode_job_type(value: &str) -> (r: Result<JobType, InvalidEnum>)
    ensures
        r == spec_decode_job_type(value@),
{
    let s = normalize_db_enum(value);
    if same_text(s, "Sequential") {
        Ok(JobType::Sequential)
    } else if same_text(s, "Baseline") {
        Ok(JobType::Baseline)
    } else if same_text(s, "Bisect") {
        Ok(JobType::Bisect)
    } else if same_text(s, "Manual") {
        Ok(JobType::Manual)
    } else {
        Err(InvalidEnum::JobType)
    }
}

/// Reading back the stored name of any `JobType` gives that value.
pub proof fn law_job_type_round_trip(v: JobType)
    ensures
        spec_decode_job_type(job_type_name(v)) == Ok::<JobType, InvalidEnum>(v),
{
    reveal_strlit("Sequential");
    reveal_strlit("Baseline");
    reveal_strlit("Bisect");
    reveal_strlit("Manual");
    match v {
        JobType::Sequential => {
            assert(spec_normalize("Sequential"@) == "Sequential"@);
        },
        JobType::Baseline => {
            assert(spec_normalize("Baseline"@) == "Baseline"@);
        },
        JobType::Bisect => {
            assert(spec_normalize("Bisect"@) == "Bisect"@);
        },
        JobType::Manual => {
            assert(spec_normalize("Manual"@) == "Manual"@);
            assert("Manual"@[0] != "Bisect"@[0]);
        },
    }
}

/// The stored name of a `SprtResult`.
pub open spec fn sprt_result_name(v: SprtResult) -> Seq<char> {
    match v {
        SprtResult::Inconclusive => "Inconclusive"@,
        SprtResult::H1Accepted => "H1Accepted"@,
        SprtResult::H0Accepted => "H0Accepted"@,
        SprtResult::FixedGames => "FixedGames"@,
    }
}

/// The stored name of a `SprtResult`.
pub fn encode_sprt_result(value: SprtResult) -> (r: &'static str)
    ensures
        r@ == sprt_result_name(value),
{
    match value {
        SprtResult::Inconclusive => "Inconclusive",
        SprtResult::H1Accepted => "H1Accepted",
        SprtResult::H0Accepted => "H0Accepted",
        SprtResult::FixedGames => "FixedGames",
    }
}

/// The `SprtResult` that a stored value names.
pub open spec fn spec_decode_sprt_result(value: Seq<char>) -> Result<SprtResult, InvalidEnum> {
    let s = spec_normalize(value);
    if s == "Inconclusive"@ {
        Ok(SprtResult::Inconclusive)
    } else if s == "H1Accepted"@ {
        Ok(SprtResult::H1Accepted)
    } else if s == "H0Accepted"@ {
        Ok(SprtResult::H0Accepted)
    } else if s == "FixedGames"@ {
        Ok(SprtResult::FixedGames)
    } else {
        Err(InvalidEnum::SprtResult)
    }
}

/// Reads a stored `SprtResult`.
pub fn decode_sprt_result(value: &str) -> (r: Result<SprtResult, InvalidEnum>)
    ensures
        r == spec_decode_sprt_result(value@),
{
    let s = normalize_db_enum(value);
    if same_text(s, "Inconclusive") {
        Ok(SprtResult::Inconclusive)
    } else if same_text(s, "H1Accepted") {
        Ok(SprtResult::H1Accepted)
    } else if same_text(s, "H0Accepted") {
        Ok(SprtResult::H0Accepted)
    } else if same_text(s, "FixedGames") {
        Ok(SprtResult::FixedGames)
    } else {
        Err(InvalidEnum::SprtResult)
    }
}

/// Reading back the stored name of any `SprtResult` gives that value.
pub proof fn law_sprt_result_round_trip(v: SprtResult)
    ensures
        spec_decode_sprt_result(sprt_result_name(v)) == Ok::<SprtResult, InvalidEnum>(v),
{
    reveal_strlit("Inconclusive");
    reveal_strlit("H1Accepted");
    reveal_strlit("H0Accepted");
    reveal_strlit("FixedGames");
    match v {
        SprtResult::Inconclusive => {
            assert(spec_normalize("Inconclusive"@) == "Inconclusive"@);
        },
        SprtResult::H1Accepted => {
            assert(spec_normalize("H1Accepted"@) == "H1Accepted"@);
        },
        SprtResult::H0Accepted => {
            assert(spec_normalize("H0Accepted"@) == "H0Accepted"@);
            assert("H0Accepted"@[1] != "H1Accepted"@[1]);
        },
        SprtResult::FixedGames => {
            assert(spec_normalize("FixedGames"@) == "FixedGames"@);
            assert("FixedGames"@[0] != "H1Accepted"@[0]);
            assert("FixedGames"@[0] != "H0Accepted"@[0]);
        },
    }
}

/// The stored name of a `BisectStatus`.
pub open spec fn bisect_status_name(v: BisectStatus) -> Seq<char> {
    match v {
        BisectStatus::Running => "Running"@,
        BisectStatus::Found => "Found"@,
        BisectStatus::Failed => "Failed"@,
    }
}

/// The stored name of a `BisectStatus`.
pub fn encode_bisect_status(value: BisectStatus) -> (r: &'static str)
    ensures
        r@ == bisect_status_name(value),
{
    match value {
        BisectStatus::Running => "Running",
        BisectStatus::Found => "Found",
        BisectStatus::Failed => "Failed",
    }
}

/// The `BisectStatus` that a stored value names.
pub open spec fn spec_decode_bisect_status(value: Seq<char>) -> Result<BisectStatus, InvalidEnum> {
    let s = spec_normalize(value);
    if s == "Running"@ {
        Ok(BisectStatus::Running)
    } else if s == "Found"@ {
        Ok(BisectStatus::Found)
    } else if s == "Failed"@ {
        Ok(BisectStatus::Failed)
    } else {
        Err(InvalidEnum::BisectStatus)
    }
}

/// Reads a stored `BisectStatus`.
pub fn decode_bisect_status(value: &str) -> (r: Result<BisectStatus, InvalidEnum>)
    ensures
        r == spec_decode_bisect_status(value@),
{
    let s = normalize_db_enum(value);
    if same_text(s, "Running") {
        Ok(BisectStatus::Running)
    } else if same_text(s, "Found") {
        Ok(BisectStatus::Found)
    } else if same_text(s, "Failed") {
        Ok(BisectStatus::Failed)
    } else {
        Err(InvalidEnum::BisectStatus)
    }
}

/// Reading back the stored name of any `BisectStatus` gives that value.
pub proof fn law_bisect_status_round_trip(v: BisectStatus)
    ensures
        spec_decode_bisect_status(bisect_status_name(v)) == Ok::<BisectStatus, InvalidEnum>(v),
{
    reveal_strlit("Running");
    reveal_strlit("Found");
    reveal_strlit("Failed");
    match v {
        BisectStatus::Running => {
            assert(spec_normalize("Running"@) == "Running"@);
        },
        BisectStatus::Found => {
            assert(spec_normalize("Found"@) == "Found"@);
        },
        BisectStatus::Failed => {
            assert(spec_normalize("Failed"@) == "Failed"@);
        },
    }
}

/// The stored name of a `HuntPhase`.
pub open spec fn hunt_phase_name(v: HuntPhase) -> Seq<char> {
    match v {
        HuntPhase::Sampling => "Sampling"@,
        HuntPhase::Scanning => "Scanning"@,
        HuntPhase::Confirming => "Confirming"@,
        HuntPhase::Found => "Found"@,
        HuntPhase::Failed => "Failed"@,
    }
}

/// The stored name of a `HuntPhase`.
pub fn encode_hunt_phase(value: HuntPhase) -> (r: &'static str)
    ensures
        r@ == hunt_phase_name(value),
{
    match value {
        HuntPhase::Sampling => "Sampling",
        HuntPhase::Scanning => "Scanning",
        HuntPhase::Confirming => "Confirming",
        HuntPhase::Found => "Found",
        HuntPhase::Failed => "Failed",
    }
}

/// The `HuntPhase` that a stored value names.
pub open spec fn spec_decode_hunt_phase(value: Seq<char>) -> Result<HuntPhase, InvalidEnum> {
    let s = spec_normalize(value);
    if s == "Sampling"@ {
        Ok(HuntPhase::Sampling)
    } else if s == "Scanning"@ {
        Ok(HuntPhase::Scanning)
    } else if s == "Confirming"@ {
        Ok(HuntPhase::Confirming)
    } else if s == "Found"@ {
        Ok(HuntPhase::Found)
    } else if s == "Failed"@ {
        Ok(HuntPhase::Failed)
    } else {
        Err(InvalidEnum::HuntPhase)
    }
}

/// Reads a stored `HuntPhase`.
pub fn decode_hunt_phase(value: &str) -> (r: Result<HuntPhase, InvalidEnum>)
    ensures
        r == spec_decode_hunt_phase(value@),
{
    let s = normalize_db_enum(value);
    if same_text(s, "Sampling") {
        Ok(HuntPhase::Sampling)
    } else if same_text(s, "Scanning") {
        Ok(HuntPhase::Scanning)
    } else if same_text(s, "Confirming") {
        Ok(HuntPhase::Confirming)
    } else if same_text(s, "Found") {
        Ok(HuntPhase::Found)
    } else if same_text(s, "Failed") {
        Ok(HuntPhase::Failed)
    } else {
        Err(InvalidEnum::HuntPhase)
    }
}

/// Reading back the stored name of any `HuntPhase` gives that value.
pub proof fn law_hunt_phase_round_trip(v: HuntPhase)
    ensures
        spec_decode_hunt_phase(hunt_phase_name(v)) == Ok::<HuntPhase, InvalidEnum>(v),
{
    reveal_strlit("Sampling");
    reveal_strlit("Scanning");
    reveal_strlit("Confirming");
    reveal_strlit("Found");
    reveal_strlit("Failed");
    match v {
        HuntPhase::Sampling => {
            assert(spec_normalize("Sampling"@) == "Sampling"@);
        },
        HuntPhase::Scanning => {
            assert(spec_normalize("Scanning"@) == "Scanning"@);
            assert("Scanning"@[1] != "Sampling"@[1]);
        },
        HuntPhase::Confirming => {
            assert(spec_normalize("Confirming"@) == "Confirming"@);
        },
        HuntPhase::Found => {
            assert(spec_normalize("Found"@) == "Found"@);
        },
        HuntPhase::Failed => {
            assert(spec_normalize("Failed"@) == "Failed"@);
        },
    }
}

/// The stored name of a `GameResult`.
pub open spec fn game_result_name(v: GameResult) -> Seq<char> {
    match v {
        GameResult::WhiteWin => "WhiteWin"@,
        GameResult::BlackWin => "BlackWin"@,
        GameResult::Draw => "Draw"@,
    }
}

/// The stored name of a `GameResult`.
pub fn encode_game_result(value: GameResult) -> (r: &'static str)
    ensures
        r@ == game_result_name(value),
{
    match value {
        GameResult::WhiteWin => "WhiteWin",
        GameResult::BlackWin => "BlackWin",
        GameResult::Draw => "Draw",
    }
}

} // verus!
