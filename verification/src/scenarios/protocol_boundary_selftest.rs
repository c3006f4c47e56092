//! The harness against itself: the same load from one thread and from
//! several, to tell the client's own limits from those of the validator.
use crate::suite::Tier;
use vstd::prelude::*;

verus! {

/// How many times the median latency of several threads that of one thread
/// must be to be blamed on the client.
pub const ARTIFACT_P50_RATIO: u64 = 5;

/// The suite.
pub struct ProtocolBoundarySelftest;

impl ProtocolBoundarySelftest {
    /// The name that the suite reports under.
    pub fn name(&self) -> (r: &'static str)
        ensures
            r@ == "redline/protocol_boundary_selftest"@,
    {
        "redline/protocol_boundary_selftest"
    }
}

/// The size of a run.
#[derive(Clone, Copy, Debug)]
pub struct Profile {
    pub name: &'static str,
    pub payers: usize,
    pub accounts: usize,
    pub threads: usize,
    pub warmup: u64,
    pub iterations: u64,
    pub rate: u32,
    pub concurrency: usize,
    pub expect_artifact: bool,
}

/// The size of a run at each tier that the suite offers.
pub open spec fn profile_of(tier: Tier) -> Option<Profile> {
    match tier {
        Tier::Lite => Some(
            Profile {
                name: "lite",
                payers: 16,
                accounts: 16,
                threads: 4,
                warmup: 200,
                iterations: 2_000,
                rate: 400,
                concurrency: 64,
                expect_artifact: false,
            },
        ),
        Tier::Full => Some(
            Profile {
                name: "full",
                payers: 64,
                accounts: 64,
                threads: 8,
                warmup: 2_000,
                iterations: 25_000,
                rate: 2_500,
                concurrency: 512,
                expect_artifact: true,
            },
        ),
        Tier::Soak => None,
        Tier::Deep => None,
    }
}

/// The size of a run at `tier`, if the suite offers it.
pub fn profile(tier: Tier) -> (r: Option<Profile>)
    ensures
        r == profile_of(tier),
{
    match tier {
        Tier::Lite => Some(
            Profile {
                name: "lite",
                payers: 16,
                accounts: 16,
                threads: 4,
                warmup: 200,
                iterations: 2_000,
                rate: 400,
                concurrency: 64,
                expect_artifact: false,
            },
        ),
        Tier::Full => Some(
            Profile {
                name: "full",
                payers: 64,
                accounts: 64,
                threads: 8,
                warmup: 2_000,
                iterations: 25_000,
                rate: 2_500,
                concurrency: 512,
                expect_artifact: true,
            },
        ),
        Tier::Soak => None,
        Tier::Deep => None,
    }
}

/// A cell of the run: how many threads send, and the id after which its
/// transactions begin.
#[derive(Clone, Copy, Debug, PartialEq, Eq, Structural)]
pub struct Cell {
    pub threads: usize,
    pub id_offset: u64,
}

/// The cells of a run, one thread first.
pub fn cells(profile: &Profile) -> (r: Vec<Cell>)
    requires
        profile.warmup + profile.iterations <= u64::MAX,
    ensures
        r@ == seq![
            Cell { threads: 1, id_offset: profile.warmup },
            Cell {
                threads: profile.threads,
                id_offset: (profile.warmup + profile.iterations) as u64,
            },
        ],
{
    vec![
        Cell { threads: 1, id_offset: profile.warmup },
        Cell { threads: profile.threads, id_offset: profile.warmup + profile.iterations },
    ]
}

/// No transaction is sent twice: the ids of the warmup and of the two cells
/// are all different.
pub proof fn cells_share_no_id(profile: Profile, warm: int, first: int, second: int)
    requires
        1 <= warm <= profile.warmup,
        1 <= first <= profile.iterations,
        1 <= second <= profile.iterations,
    ensures
        warm < profile.warmup + first < profile.warmup + profile.iterations + second,
{
}

/// What the medians of the two cells say.
#[derive(Clone, Copy, Debug, PartialEq, Eq, Structural)]
pub struct Verdict {
    /// The latency of one thread is that of the client.
    pub artifact_detected: bool,
    /// It was expected to be, and is not.
    pub missing: bool,
    /// It was expected not to be, and is.
    pub unexpected: bool,
}

/// A median that is at least one.
pub open spec fn at_least_one(p50: u32) -> int {
    if p50 == 0 {
        1
    } else {
        p50 as int
    }
}

/// Compares the medians of the two cells.
pub fn judge(single_p50: u32, multi_p50: u32, expect_artifact: bool) -> (r: Verdict)
    ensures
        r.artifact_detected == (at_least_one(single_p50) >= ARTIFACT_P50_RATIO * at_least_one(
            multi_p50,
        )),
        r.missing == (expect_artifact && !r.artifact_detected),
        r.unexpected == (!expect_artifact && r.artifact_detected),
        r.missing || r.unexpected <==> r.artifact_detected != expect_artifact,
        !(r.missing && r.unexpected),
{
    let single: u64 = if single_p50 == 0 {
        1
    } else {
        single_p50 as u64
    };
    let multi: u64 = if multi_p50 == 0 {
        1
    } else {
        multi_p50 as u64
    };
    let artifact_detected: bool = single >= ARTIFACT_P50_RATIO * multi;
    Verdict {
        artifact_detected,
        missing: expect_artifact && !artifact_detected,
        unexpected: !expect_artifact && artifact_detected,
    }
}

} // verus!
