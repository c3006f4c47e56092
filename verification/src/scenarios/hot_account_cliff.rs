//! Writes confined to fewer and fewer accounts: at which size of the hot set
//! latency falls off a cliff.
use crate::suite::Tier;
use vstd::prelude::*;

verus! {

/// How many times the median of the widest cell a healthy cell may take.
pub const FLAT_FACTOR: u64 = 3;

/// How many times the median of the widest cell a cell takes beyond the cliff.
pub const CLIFF_FACTOR: u64 = 5;

/// The median latency up to which a cell is healthy in any case.
pub const HEALTHY_P50_US: u64 = 15_000;

/// The size of a hot set from which on it should be healthy.
pub const WIDE: u8 = 16;

/// The suite.
pub struct HotAccountCliff;

impl HotAccountCliff {
    /// The name that the suite reports under.
    pub fn name(&self) -> (r: &'static str)
        ensures
            r@ == "redline/hot_account_cliff"@,
    {
        "redline/hot_account_cliff"
    }
}

/// The size of a run.
#[derive(Clone, Copy, Debug)]
pub struct Profile {
    pub name: &'static str,
    pub payers: usize,
    pub threads: usize,
    pub warmup: u64,
    pub iterations: u64,
    pub rate: u32,
    pub concurrency: usize,
}

/// The size of a run at each tier that the suite offers.
pub open spec fn profile_of(tier: Tier) -> Option<Profile> {
    match tier {
        Tier::Lite => Some(
            Profile {
                name: "lite",
                payers: 8,
                threads: 4,
                warmup: 1_000,
                iterations: 10_000,
                rate: 2_000,
                concurrency: 512,
            },
        ),
        Tier::Full => Some(
            Profile {
                name: "full",
                payers: 32,
                threads: 8,
                warmup: 10_000,
                iterations: 100_000,
                rate: 14_000,
                concurrency: 2_048,
            },
        ),
        Tier::Soak => None,
        Tier::Deep => None,
    }
}

/// The size of a run at `tier`, if the suite offers it.
pub fn profile(tier: Tier) -> (r: Option<Profile>)
    ensures
        r == profile_of(tier),
{
    match tier {
        Tier::Lite => Some(
            Profile {
                name: "lite",
                payers: 8,
                threads: 4,
                warmup: 1_000,
                iterations: 10_000,
                rate: 2_000,
                concurrency: 512,
            },
        ),
        Tier::Full => Some(
            Profile {
                name: "full",
                payers: 32,
                threads: 8,
                warmup: 10_000,
                iterations: 100_000,
                rate: 14_000,
                concurrency: 2_048,
            },
        ),
        Tier::Soak => None,
        Tier::Deep => None,
    }
}

/// The sizes of the hot sets at a tier, the widest first.
pub fn hot_sets(tier: Tier) -> (r: Option<Vec<u8>>)
    ensures
        match tier {
            Tier::Lite => r is Some && r->0@ == seq![16u8, 4],
            Tier::Full => r is Some && r->0@ == seq![32u8, 16, 8, 4],
            _ => r is None,
        },
{
    match tier {
        Tier::Lite => Some(vec![16u8, 4]),
        Tier::Full => Some(vec![32u8, 16, 8, 4]),
        _ => None,
    }
}

/// The accounts that the widest hot set needs.
pub fn pool_size(cells: &[u8]) -> (r: Option<u8>)
    ensures
        match r {
            Some(most) => cells@.contains(most) && forall|i: int|
                0 <= i < cells@.len() ==> cells@[i] <= most,
            None => cells@.len() == 0,
        },
{
    if cells.len() == 0 {
        return None;
    }
    let mut most: u8 = cells[0];
    let mut i: usize = 1;
    while i < cells.len()
        invariant
            1 <= i <= cells@.len(),
            cells@.contains(most),
            forall|j: int| 0 <= j < i ==> cells@[j] <= most,
        decreases cells@.len() - i,
    {
        if cells[i] > most {
            most = cells[i];
            assert(cells@[i as int] == most);
        }
        i = i + 1;
    }
    Some(most)
}

/// The id after which the warmup of a cell begins.
pub open spec fn warmup_after(profile: Profile, cell: int) -> int {
    cell * (profile.warmup + profile.iterations)
}

/// The ids after which the warmup and the measured part of a cell begin.
pub fn cell_offsets(profile: &Profile, cell: u64) -> (r: (u64, u64))
    requires
        warmup_after(*profile, cell + 1) <= u64::MAX,
    ensures
        r.0 == warmup_after(*profile, cell as int),
        r.1 == warmup_after(*profile, cell as int) + profile.warmup,
{
    let ghost span = profile.warmup + profile.iterations;
    assert((cell + 1) * span == cell * span + span) by (nonlinear_arith);
    assert(cell * span >= 0) by (nonlinear_arith)
        requires
            span >= 0,
    ;
    let first: u64 = cell * (profile.warmup + profile.iterations);
    (first, first + profile.warmup)
}

/// No transaction is sent twice: the ids of a cell come before those of the
/// next.
pub proof fn cells_share_no_id(profile: Profile, cell: int, warm: int, measured: int)
    requires
        0 <= cell,
        1 <= warm <= profile.warmup,
        1 <= measured <= profile.iterations,
    ensures
        warmup_after(profile, cell) < warmup_after(profile, cell) + warm < warmup_after(
            profile,
            cell,
        ) + profile.warmup + measured <= warmup_after(profile, cell + 1),
{
    let span = profile.warmup + profile.iterations;
    assert((cell + 1) * span == cell * span + span) by (nonlinear_arith);
}

/// The median latency of a cell.
#[derive(Clone, Copy, Debug)]
pub struct CellResult {
    pub hot: u8,
    pub p50_us: u32,
}

/// Whether the widest cell is healthy; if it is not, the sweep measures the
/// harness.
pub fn baseline_healthy(baseline: &CellResult) -> (r: bool)
    ensures
        r == (baseline.p50_us <= HEALTHY_P50_US),
{
    baseline.p50_us as u64 <= HEALTHY_P50_US
}

/// Whether a wide cell is slower than it should be.
pub open spec fn not_flat(cell: CellResult, baseline: CellResult) -> bool {
    &&& cell.hot >= WIDE
    &&& cell.p50_us > baseline.p50_us * FLAT_FACTOR
    &&& cell.p50_us > HEALTHY_P50_US
}

/// Whether a wide cell is slower than it should be.
pub fn is_not_flat(cell: &CellResult, baseline: &CellResult) -> (r: bool)
    ensures
        r == not_flat(*cell, *baseline),
{
    cell.hot >= WIDE && cell.p50_us as u64 > baseline.p50_us as u64 * FLAT_FACTOR
        && cell.p50_us as u64 > HEALTHY_P50_US
}

/// Whether a cell lies beyond the cliff.
pub open spec fn past_cliff(cell: CellResult, baseline: CellResult) -> bool {
    cell.p50_us > baseline.p50_us * CLIFF_FACTOR
}

/// The widest hot set beyond the cliff, if there is a cliff.
pub fn cliff(cells: &[CellResult]) -> (r: Option<u8>)
    requires
        cells@.len() > 0,
    ensures
        match r {
            Some(hot) => exists|i: int|
                0 <= i < cells@.len() && #[trigger] past_cliff(cells@[i], cells@[0])
                    && cells@[i].hot == hot && forall|j: int|
                    0 <= j < i ==> !#[trigger] past_cliff(cells@[j], cells@[0]),
            None => forall|i: int|
                0 <= i < cells@.len() ==> !#[trigger] past_cliff(cells@[i], cells@[0]),
        },
{
    let mut i: usize = 0;
    while i < cells.len()
        invariant
            i <= cells@.len(),
            cells@.len() > 0,
            forall|j: int| 0 <= j < i ==> !#[trigger] past_cliff(cells@[j], cells@[0]),
        decreases cells@.len() - i,
    {
        if cells[i].p50_us as u64 > cells[0].p50_us as u64 * CLIFF_FACTOR {
            assert(past_cliff(cells@[i as int], cells@[0]));
            return Some(cells[i].hot);
        }
        i = i + 1;
    }
    None
}

/// The widest cell is never beyond the cliff that is measured from it.
pub proof fn baseline_is_not_past_the_cliff(baseline: CellResult)
    ensures
        !past_cliff(baseline, baseline),
{
}

/// A cell is past the cliff where its median is more than five times that of
/// the first cell. A slower cell stays past it, and against a slower first cell
/// fewer cells are past it.
pub proof fn the_cliff_is_five_times_the_baseline(
    cell: CellResult,
    slower: CellResult,
    baseline: CellResult,
)
    requires
        slower.p50_us >= cell.p50_us,
    ensures
        past_cliff(cell, baseline) <==> cell.p50_us > 5 * baseline.p50_us,
        past_cliff(cell, baseline) ==> past_cliff(slower, baseline),
        past_cliff(baseline, slower) ==> past_cliff(baseline, cell),
{
}

/// Only a wide cell is held to be flat: one with sixteen hot accounts or more
/// is not where its median is over fifteen milliseconds and over three times
/// that of the first cell.
pub proof fn wide_cells_have_to_be_flat(cell: CellResult, baseline: CellResult)
    ensures
        not_flat(cell, baseline) <==> {
            &&& cell.hot >= 16
            &&& cell.p50_us > 15_000
            &&& cell.p50_us > 3 * baseline.p50_us
        },
        cell.hot >= 16 && cell.p50_us > 15_000 && past_cliff(cell, baseline) ==> not_flat(
            cell,
            baseline,
        ),
{
}

/// The first cell warms up from the first id on, and every cell begins where
/// the one before ends.
pub proof fn cells_follow_each_other(profile: Profile, cell: int)
    ensures
        warmup_after(profile, 0) == 0,
        warmup_after(profile, cell + 1) == warmup_after(profile, cell) + profile.warmup
            + profile.iterations,
{
    let span = profile.warmup + profile.iterations;
    assert((cell + 1) * span == cell * span + span) by (nonlinear_arith);
}

} // verus!
