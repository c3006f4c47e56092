//! Reads over a working set that does not fit into the validator's cache of
//! monitored accounts: what is evicted must be fetched again, one for one.
use crate::chain::Pubkey;
use crate::suite::Tier;
use crate::text::{decimal, push_decimal};
use vstd::prelude::*;
use vstd::string::StringExecFns;

verus! {

/// The bytes of an account of the working set.
pub const ACCOUNT_SPACE: u32 = 2048;

/// The median latency from which on the first cell is reported as slow.
pub const SLOW_US: u64 = 1_000_000;

/// The suite.
pub struct CloneLruChurn;

impl CloneLruChurn {
    /// The name that the suite reports under.
    pub fn name(&self) -> (r: &'static str)
        ensures
            r@ == "redline/clone_lru_churn"@,
    {
        "redline/clone_lru_churn"
    }
}

/// The size of a run.
#[derive(Clone, Copy, Debug)]
pub struct Profile {
    pub name: &'static str,
    pub working_set: usize,
    pub prep_payers: usize,
    pub closure_cap: usize,
    pub ladder: [usize; 3],
    pub warmup: u64,
    pub iterations: u64,
    pub rate: u32,
    pub concurrency: usize,
}

/// The size of a run at each tier that the suite offers.
pub open spec fn profile_of(tier: Tier) -> Option<Profile> {
    match tier {
        Tier::Lite => Some(
            Profile {
                name: "lite",
                working_set: 400,
                prep_payers: 4,
                closure_cap: 800,
                ladder: [360, 200, 50],
                warmup: 300,
                iterations: 800,
                rate: 200,
                concurrency: 64,
            },
        ),
        Tier::Full => Some(
            Profile {
                name: "full",
                working_set: 1_000,
                prep_payers: 10,
                closure_cap: 1_500,
                ladder: [900, 500, 125],
                warmup: 1_000,
                iterations: 3_000,
                rate: 200,
                concurrency: 64,
            },
        ),
        Tier::Soak => None,
        Tier::Deep => None,
    }
}

/// The size of a run at `tier`, if the suite offers it.
pub fn profile(tier: Tier) -> (r: Option<Profile>)
    ensures
        r == profile_of(tier),
{
    match tier {
        Tier::Lite => Some(
            Profile {
                name: "lite",
                working_set: 400,
                prep_payers: 4,
                closure_cap: 800,
                ladder: [360, 200, 50],
                warmup: 300,
                iterations: 800,
                rate: 200,
                concurrency: 64,
            },
        ),
        Tier::Full => Some(
            Profile {
                name: "full",
                working_set: 1_000,
                prep_payers: 10,
                closure_cap: 1_500,
                ladder: [900, 500, 125],
                warmup: 1_000,
                iterations: 3_000,
                rate: 200,
                concurrency: 64,
            },
        ),
        Tier::Soak => None,
        Tier::Deep => None,
    }
}

/// A seed scattered over all 64-bit numbers.
pub open spec fn scattered(seed: u64) -> u64 {
    let a = ((seed * 0x9E37_79B9_7F4A_7C15) % 0x1_0000_0000_0000_0000) as u64 | 1;
    let b = a ^ (a << 13);
    let c = b ^ (b >> 7);
    c ^ (c << 17)
}

/// The account that a seed picks.
pub fn pick_account(pool: &[Pubkey], seed: u64) -> (r: Pubkey)
    requires
        pool@.len() > 0,
    ensures
        r == pool@[scattered(seed) as int % pool@.len() as int],
{
    let mut state: u64 = seed.wrapping_mul(0x9E37_79B9_7F4A_7C15) | 1;
    state = state ^ (state << 13);
    state = state ^ (state >> 7);
    state = state ^ (state << 17);
    assert(state == scattered(seed));
    pool[(state % pool.len() as u64) as usize]
}

/// No seed is scattered to zero, from which the shifts could not get away.
pub proof fn scattering_never_gives_zero(seed: u64)
    ensures
        scattered(seed) != 0,
{
    let a = ((seed * 0x9E37_79B9_7F4A_7C15) % 0x1_0000_0000_0000_0000) as u64;
    assert(a | 1 != 0) by (bit_vector);
    let b = a | 1;
    assert(b ^ (b << 13) != 0) by (bit_vector)
        requires
            b != 0,
    ;
    let c = b ^ (b << 13);
    assert(c ^ (c >> 7) != 0) by (bit_vector)
        requires
            c != 0,
    ;
    let d = c ^ (c >> 7);
    assert(d ^ (d << 17) != 0) by (bit_vector)
        requires
            d != 0,
    ;
}

/// A cell of the run: how many accounts the validator may monitor in it, and
/// whether all of the working set fits.
#[derive(Debug)]
pub struct Cell {
    pub name: String,
    pub cap: usize,
    pub closure: bool,
}

/// The cells of a run: first one in which all fits, then those of the ladder.
pub fn cells(profile: &Profile) -> (r: Vec<Cell>)
    ensures
        r@.len() == 4,
        r@[0].name@ == "closure"@,
        r@[0].cap == profile.closure_cap,
        r@[0].closure,
        forall|i: int|
            1 <= i < 4 ==> {
                let cell = #[trigger] r@[i];
                &&& cell.name@ == "cap"@ + decimal(profile.ladder@[i - 1] as nat)
                &&& cell.cap == profile.ladder@[i - 1]
                &&& !cell.closure
            },
{
    let mut out: Vec<Cell> = Vec::new();
    out.push(
        Cell { name: String::from_str("closure"), cap: profile.closure_cap, closure: true },
    );
    let mut i: usize = 0;
    while i < 3
        invariant
            i <= 3,
            out@.len() == i + 1,
            out@[0].name@ == "closure"@,
            out@[0].cap == profile.closure_cap,
            out@[0].closure,
            forall|j: int|
                1 <= j < i + 1 ==> {
                    let cell = #[trigger] out@[j];
                    &&& cell.name@ == "cap"@ + decimal(profile.ladder@[j - 1] as nat)
                    &&& cell.cap == profile.ladder@[j - 1]
                    &&& !cell.closure
                },
        decreases 3 - i,
    {
        let cap: usize = profile.ladder[i];
        let mut name: String = String::from_str("cap");
        push_decimal(&mut name, cap as u64);
        out.push(Cell { name, cap, closure: false });
        i = i + 1;
    }
    out
}

/// The working set fits into the first cell and into none of the others.
pub proof fn only_the_first_cell_holds_the_working_set(tier: Tier, i: int)
    requires
        profile_of(tier) is Some,
        0 <= i < 3,
    ensures
        profile_of(tier)->0.closure_cap >= profile_of(tier)->0.working_set,
        profile_of(tier)->0.ladder@[i] < profile_of(tier)->0.working_set,
{
}

/// Whether the counters of evictions and fetches have come to rest between
/// two readings.
pub fn settled(
    evicted_before: Option<u64>,
    evicted: Option<u64>,
    fetched_before: Option<u64>,
    fetched: Option<u64>,
) -> (r: bool)
    ensures
        r == (evicted_before == evicted && fetched_before == fetched),
{
    evicted_before == evicted && fetched_before == fetched
}

/// What was measured in a cell.
#[derive(Clone, Copy, Debug)]
pub struct CellOutcome {
    pub delivered: u64,
    pub failed: u64,
    pub p50_us: u64,
    pub evictions: u64,
    pub fetches_found: Option<u64>,
}

/// What a run can be faulted for.
#[derive(Clone, Copy, Debug, PartialEq, Eq, Structural)]
pub enum ChurnFault {
    /// Reads failed in the first cell.
    ClosureFailed,
    /// Accounts were evicted although all fit.
    ClosureEvicted,
    /// A cell delivered nothing.
    NothingDelivered { cell: usize },
    /// Nothing was evicted although not all fit.
    NoEvictions { cell: usize },
    /// What was fetched again is not what was evicted.
    LeftLockstep { cell: usize },
}

/// Whether as many accounts were fetched again as were evicted.
pub open spec fn in_lockstep(fetched: int, evicted: int) -> bool {
    fetched == evicted
}

/// What a cell in which not all fits is faulted for.
pub open spec fn churn_fault(cell: CellOutcome, index: usize) -> Option<ChurnFault> {
    if cell.delivered == 0 {
        Some(ChurnFault::NothingDelivered { cell: index })
    } else if cell.evictions == 0 {
        Some(ChurnFault::NoEvictions { cell: index })
    } else if cell.fetches_found is Some && !in_lockstep(
        cell.fetches_found->0 as int,
        cell.evictions as int,
    ) {
        Some(ChurnFault::LeftLockstep { cell: index })
    } else {
        None
    }
}

/// The first fault of the cells from `index` on.
pub open spec fn first_churn_fault(cells: Seq<CellOutcome>, index: int) -> Option<ChurnFault>
    decreases cells.len() - index,
{
    if index >= cells.len() {
        None
    } else if churn_fault(cells[index], index as usize) is Some {
        churn_fault(cells[index], index as usize)
    } else {
        first_churn_fault(cells, index + 1)
    }
}

/// What a run is faulted for.
pub open spec fn run_fault(cells: Seq<CellOutcome>) -> Option<ChurnFault> {
    if cells[0].failed != 0 {
        Some(ChurnFault::ClosureFailed)
    } else if cells[0].evictions != 0 {
        Some(ChurnFault::ClosureEvicted)
    } else {
        first_churn_fault(cells, 1)
    }
}

/// Whether as many accounts were fetched again as were evicted.
pub fn lockstep(fetched: u64, evicted: u64) -> (r: bool)
    ensures
        r == in_lockstep(fetched as int, evicted as int),
{
    fetched == evicted
}

/// Holds the cells of a run against each other. A run that is accepted says
/// whether the first cell was slow.
pub fn check_cells(cells: &[CellOutcome]) -> (r: Result<bool, ChurnFault>)
    requires
        cells@.len() > 0,
    ensures
        match r {
            Ok(slow) => run_fault(cells@) is None && slow == (cells@[0].p50_us >= SLOW_US),
            Err(fault) => run_fault(cells@) == Some(fault),
        },
{
    if cells[0].failed != 0 {
        return Err(ChurnFault::ClosureFailed);
    }
    if cells[0].evictions != 0 {
        return Err(ChurnFault::ClosureEvicted);
    }
    let mut i: usize = 1;
    while i < cells.len()
        invariant
            1 <= i <= cells@.len(),
            run_fault(cells@) == first_churn_fault(cells@, i as int),
        decreases cells@.len() - i,
    {
        let cell: CellOutcome = cells[i];
        if cell.delivered == 0 {
            return Err(ChurnFault::NothingDelivered { cell: i });
        }
        if cell.evictions == 0 {
            return Err(ChurnFault::NoEvictions { cell: i });
        }
        if let Some(fetched) = cell.fetches_found {
            if !lockstep(fetched, cell.evictions) {
                return Err(ChurnFault::LeftLockstep { cell: i });
            }
        }
        i = i + 1;
    }
    Ok(cells[0].p50_us >= SLOW_US)
}

/// A run is accepted exactly where the first cell failed nothing and evicted
/// nothing, and every other cell delivered something, evicted something and,
/// as far as that was counted, fetched as often as it evicted.
pub proof fn what_makes_a_run_good(cells: Seq<CellOutcome>)
    requires
        0 < cells.len() <= usize::MAX,
    ensures
        run_fault(cells) is None <==> {
            &&& cells[0].failed == 0
            &&& cells[0].evictions == 0
            &&& forall|i: int|
                1 <= i < cells.len() ==> (#[trigger] cells[i]).delivered > 0 && cells[i].evictions
                    > 0 && (cells[i].fetches_found matches Some(fetched) ==> fetched
                    == cells[i].evictions)
        },
        run_fault(cells) == Some(ChurnFault::ClosureFailed) <==> cells[0].failed != 0,
        run_fault(cells) == Some(ChurnFault::ClosureEvicted) <==> cells[0].failed == 0
            && cells[0].evictions != 0,
{
    lemma_first_fault(cells, 1);
}

/// A fault of a later cell names the first cell that has one, and what is wrong
/// with it.
pub proof fn the_first_bad_cell_is_named(cells: Seq<CellOutcome>, at: int)
    requires
        1 <= at < cells.len() <= usize::MAX,
        cells[0].failed == 0,
        cells[0].evictions == 0,
        forall|i: int|
            1 <= i < at ==> (#[trigger] cells[i]).delivered > 0 && cells[i].evictions > 0 && (
            cells[i].fetches_found matches Some(fetched) ==> fetched == cells[i].evictions),
    ensures
        cells[at].delivered == 0 ==> run_fault(cells) == Some(
            ChurnFault::NothingDelivered { cell: at as usize },
        ),
        cells[at].delivered > 0 && cells[at].evictions == 0 ==> run_fault(cells) == Some(
            ChurnFault::NoEvictions { cell: at as usize },
        ),
        cells[at].delivered > 0 && cells[at].evictions > 0 && (
        cells[at].fetches_found matches Some(fetched) && fetched != cells[at].evictions)
            ==> run_fault(cells) == Some(ChurnFault::LeftLockstep { cell: at as usize }),
{
    lemma_skip_good_cells(cells, 1, at);
}

/// Cells without a fault are passed over.
proof fn lemma_skip_good_cells(cells: Seq<CellOutcome>, from: int, to: int)
    requires
        0 <= from <= to <= cells.len() <= usize::MAX,
        forall|i: int|
            from <= i < to ==> (#[trigger] cells[i]).delivered > 0 && cells[i].evictions > 0 && (
            cells[i].fetches_found matches Some(fetched) ==> fetched == cells[i].evictions),
    ensures
        first_churn_fault(cells, from) == first_churn_fault(cells, to),
    decreases to - from,
{
    if from < to {
        assert(cells[from].delivered > 0);
        lemma_skip_good_cells(cells, from + 1, to);
    }
}

/// Where no cell from one on has a fault there is none, and a fault is not one
/// of the first cell.
proof fn lemma_first_fault(cells: Seq<CellOutcome>, from: int)
    requires
        0 <= from,
        cells.len() <= usize::MAX,
    ensures
        first_churn_fault(cells, from) is None <==> forall|i: int|
            from <= i < cells.len() ==> (#[trigger] cells[i]).delivered > 0 && cells[i].evictions
                > 0 && (cells[i].fetches_found matches Some(fetched) ==> fetched
                == cells[i].evictions),
        first_churn_fault(cells, from) != Some(ChurnFault::ClosureFailed),
        first_churn_fault(cells, from) != Some(ChurnFault::ClosureEvicted),
    decreases cells.len() - from,
{
    if from < cells.len() {
        lemma_first_fault(cells, from + 1);
        if churn_fault(cells[from], from as usize) is Some {
            assert(!(cells[from].delivered > 0 && cells[from].evictions > 0 && (
            cells[from].fetches_found matches Some(fetched) ==> fetched == cells[from].evictions)));
        }
    }
}

} // verus!
