//! Priority levels of test jobs (higher = more urgent).
use vstd::prelude::*;

verus! {

pub const BISECT: i32 = 1000;
pub const MANUAL: i32 = 900;
pub const BRANCH_HEAD: i32 = 800;
pub const TAGGED_RELEASE: i32 = 700;
pub const RECENT_COMMIT: i32 = 500;
pub const BACKFILL: i32 = 100;

} // verus!
