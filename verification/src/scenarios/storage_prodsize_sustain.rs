//! Load on a ledger of production size: two equal windows after a fill, at the
//! cadence of production and at one with frequent snapshots.
use crate::suite::Tier;
use vstd::prelude::*;

verus! {

/// The slots of a superblock in production.
pub const PROD_SUPERBLOCK_SLOTS: u64 = 72_000;

/// The size of the accounts database.
pub const DATABASE_SIZE_BYTES: u64 = 3_221_225_472;

/// The size of its index.
pub const INDEX_SIZE_BYTES: u64 = 268_435_456;

/// The suite.
pub struct StorageProdsizeSustain;

impl StorageProdsizeSustain {
    /// The name that the suite reports under.
    pub fn name(&self) -> (r: &'static str)
        ensures
            r@ == "redline/storage_prodsize_sustain"@,
    {
        "redline/storage_prodsize_sustain"
    }
}

/// The size of a run.
#[derive(Clone, Copy, Debug)]
pub struct Profile {
    pub name: &'static str,
    pub payers: usize,
    pub accounts: usize,
    pub fill: u64,
    pub window: u64,
    pub rate: u32,
    pub concurrency: usize,
    pub frequent_superblock_slots: u64,
}

/// The size of a run at each tier that the suite offers.
pub open spec fn profile_of(tier: Tier) -> Option<Profile> {
    match tier {
        Tier::Lite => Some(
            Profile {
                name: "lite",
                payers: 8,
                accounts: 16,
                fill: 2_000,
                window: 2_000,
                rate: 200,
                concurrency: 64,
                frequent_superblock_slots: 150,
            },
        ),
        Tier::Full => Some(
            Profile {
                name: "full",
                payers: 32,
                accounts: 64,
                fill: 60_000,
                window: 30_000,
                rate: 1_000,
                concurrency: 256,
                frequent_superblock_slots: 400,
            },
        ),
        Tier::Soak => None,
        Tier::Deep => None,
    }
}

/// The size of a run at `tier`, if the suite offers it.
pub fn profile(tier: Tier) -> (r: Option<Profile>)
    ensures
        r == profile_of(tier),
{
    match tier {
        Tier::Lite => Some(
            Profile {
                name: "lite",
                payers: 8,
                accounts: 16,
                fill: 2_000,
                window: 2_000,
                rate: 200,
                concurrency: 64,
                frequent_superblock_slots: 150,
            },
        ),
        Tier::Full => Some(
            Profile {
                name: "full",
                payers: 32,
                accounts: 64,
                fill: 60_000,
                window: 30_000,
                rate: 1_000,
                concurrency: 256,
                frequent_superblock_slots: 400,
            },
        ),
        Tier::Soak => None,
        Tier::Deep => None,
    }
}

/// The two cells of a run.
#[derive(Clone, Copy, Debug, PartialEq, Eq, Structural)]
pub enum Cadence {
    Production,
    FrequentSnapshot,
}

impl Cadence {
    /// The name of the cell.
    pub fn label(self) -> (r: &'static str)
        ensures
            r@ == match self {
                Cadence::Production => "prod_cadence"@,
                Cadence::FrequentSnapshot => "frequent_snapshot"@,
            },
    {
        match self {
            Cadence::Production => "prod_cadence",
            Cadence::FrequentSnapshot => "frequent_snapshot",
        }
    }

    /// The slots of a superblock in the cell.
    pub fn superblock_slots(self, profile: &Profile) -> (r: u64)
        ensures
            r == match self {
                Cadence::Production => PROD_SUPERBLOCK_SLOTS,
                Cadence::FrequentSnapshot => profile.frequent_superblock_slots,
            },
    {
        match self {
            Cadence::Production => PROD_SUPERBLOCK_SLOTS,
            Cadence::FrequentSnapshot => profile.frequent_superblock_slots,
        }
    }
}

/// The id after which a window begins: the windows follow the fill, one after
/// the other.
pub open spec fn window_after(profile: Profile, window: int) -> int {
    profile.fill + window * profile.window
}

/// The ids after which the two windows begin.
pub fn window_starts(profile: &Profile) -> (r: [u64; 2])
    requires
        profile.fill + 2 * profile.window <= u64::MAX,
    ensures
        r@ == seq![window_after(*profile, 0) as u64, window_after(*profile, 1) as u64],
{
    let r: [u64; 2] = [profile.fill, profile.fill + profile.window];
    assert(r@ =~= seq![window_after(*profile, 0) as u64, window_after(*profile, 1) as u64]);
    r
}

/// No transaction is sent twice: the ids of the fill and of the two windows
/// are all different.
pub proof fn windows_share_no_id(profile: Profile, window: int, id: int, iteration: int)
    requires
        0 <= window,
        1 <= iteration <= profile.window,
        1 <= id <= window_after(profile, window),
    ensures
        window_after(profile, window) + iteration != id,
        window_after(profile, window) + iteration <= window_after(profile, window + 1),
{
    assert(window_after(profile, window + 1) == window_after(profile, window) + profile.window)
        by (nonlinear_arith)
        requires
            window_after(profile, window + 1) == profile.fill + (window + 1) * profile.window,
            window_after(profile, window) == profile.fill + window * profile.window,
    ;
}

/// What was measured in a cell.
#[derive(Clone, Copy, Debug)]
pub struct CellOutcome {
    pub fill_growth_bytes: u64,
    pub failed: [u64; 2],
    pub p50_us: [u32; 2],
}

/// What a run can be faulted for.
#[derive(Clone, Copy, Debug, PartialEq, Eq, Structural)]
pub enum SustainFault {
    /// The fill did not grow the storage.
    NoGrowth { cell: usize },
    /// Deliveries failed in a window.
    Failed { cell: usize, window: usize },
}

/// What a cell is faulted for.
pub open spec fn cell_fault(cell: CellOutcome, index: usize) -> Option<SustainFault> {
    if cell.fill_growth_bytes == 0 {
        Some(SustainFault::NoGrowth { cell: index })
    } else if cell.failed@[0] != 0 {
        Some(SustainFault::Failed { cell: index, window: 0 })
    } else if cell.failed@[1] != 0 {
        Some(SustainFault::Failed { cell: index, window: 1 })
    } else {
        None
    }
}

/// Whether the median latency grew by more than half across the windows.
pub open spec fn drifted(cell: CellOutcome) -> bool {
    let a = if cell.p50_us@[0] == 0 {
        1
    } else {
        cell.p50_us@[0] as int
    };
    2 * cell.p50_us@[1] > 3 * a
}

/// The first fault of the cells from `index` on.
pub open spec fn first_fault(cells: Seq<CellOutcome>, index: int) -> Option<SustainFault>
    decreases cells.len() - index,
{
    if index >= cells.len() {
        None
    } else if cell_fault(cells[index], index as usize) is Some {
        cell_fault(cells[index], index as usize)
    } else {
        first_fault(cells, index + 1)
    }
}

/// Holds the cells of a run against what is required of them. A run that is
/// accepted says of each cell whether its latency drifted.
pub fn check_cells(cells: &[CellOutcome]) -> (r: Result<Vec<bool>, SustainFault>)
    ensures
        match r {
            Ok(drifts) => first_fault(cells@, 0) is None && drifts@.len() == cells@.len() && forall|
                i: int,
            |
                0 <= i < cells@.len() ==> #[trigger] drifts@[i] == drifted(cells@[i]),
            Err(fault) => first_fault(cells@, 0) == Some(fault),
        },
{
    let mut drifts: Vec<bool> = Vec::new();
    let mut i: usize = 0;
    while i < cells.len()
        invariant
            i <= cells@.len(),
            first_fault(cells@, 0) == first_fault(cells@, i as int),
            drifts@.len() == i,
            forall|j: int| 0 <= j < i ==> #[trigger] drifts@[j] == drifted(cells@[j]),
        decreases cells@.len() - i,
    {
        let cell: CellOutcome = cells[i];
        if cell.fill_growth_bytes == 0 {
            return Err(SustainFault::NoGrowth { cell: i });
        }
        if cell.failed[0] != 0 {
            return Err(SustainFault::Failed { cell: i, window: 0 });
        }
        if cell.failed[1] != 0 {
            return Err(SustainFault::Failed { cell: i, window: 1 });
        }
        let a: u64 = if cell.p50_us[0] == 0 {
            1
        } else {
            cell.p50_us[0] as u64
        };
        drifts.push(2 * cell.p50_us[1] as u64 > 3 * a);
        i = i + 1;
    }
    Ok(drifts)
}

/// A run is accepted exactly where every cell grew the storage and failed
/// nothing in either window.
pub proof fn what_makes_a_run_good(cells: Seq<CellOutcome>, from: int)
    requires
        0 <= from,
        cells.len() <= usize::MAX,
    ensures
        first_fault(cells, from) is None <==> forall|i: int|
            from <= i < cells.len() ==> (#[trigger] cells[i]).fill_growth_bytes > 0
                && cells[i].failed@[0] == 0 && cells[i].failed@[1] == 0,
    decreases cells.len() - from,
{
    if from < cells.len() {
        what_makes_a_run_good(cells, from + 1);
        if cell_fault(cells[from], from as usize) is Some {
            assert(!(cells[from].fill_growth_bytes > 0 && cells[from].failed@[0] == 0
                && cells[from].failed@[1] == 0));
        }
    }
}

/// The fault that is reported is of the first cell that has one: missing
/// growth, or else failures in the first window that has any.
pub proof fn the_first_bad_cell_is_named(cells: Seq<CellOutcome>, from: int, at: int)
    requires
        0 <= from <= at < cells.len() <= usize::MAX,
        forall|i: int|
            from <= i < at ==> (#[trigger] cells[i]).fill_growth_bytes > 0 && cells[i].failed@[0]
                == 0 && cells[i].failed@[1] == 0,
    ensures
        cells[at].fill_growth_bytes == 0 ==> first_fault(cells, from) == Some(
            SustainFault::NoGrowth { cell: at as usize },
        ),
        cells[at].fill_growth_bytes > 0 && cells[at].failed@[0] > 0 ==> first_fault(cells, from)
            == Some(SustainFault::Failed { cell: at as usize, window: 0 }),
        cells[at].fill_growth_bytes > 0 && cells[at].failed@[0] == 0 && cells[at].failed@[1] > 0
            ==> first_fault(cells, from) == Some(
            SustainFault::Failed { cell: at as usize, window: 1 },
        ),
    decreases at - from,
{
    if from < at {
        assert(cells[from].fill_growth_bytes > 0);
        the_first_bad_cell_is_named(cells, from + 1, at);
    }
}

/// A cell drifts where its second median is more than one and a half times
/// its first: never where it is as fast or faster, and all the more where it
/// is slower still.
pub proof fn drift_is_half_again_as_slow(cell: CellOutcome, slower: CellOutcome)
    requires
        slower.p50_us@[0] == cell.p50_us@[0],
        slower.p50_us@[1] >= cell.p50_us@[1],
    ensures
        cell.p50_us@[0] > 0 ==> (drifted(cell) <==> cell.p50_us@[1] * 2 > cell.p50_us@[0] * 3),
        cell.p50_us@[0] == 0 ==> (drifted(cell) <==> cell.p50_us@[1] >= 2),
        cell.p50_us@[1] <= cell.p50_us@[0] ==> !drifted(cell),
        drifted(cell) ==> drifted(slower),
{
}

/// The first window begins behind the fill, and every window where the one
/// before ends.
pub proof fn windows_follow_the_fill(profile: Profile, window: int)
    ensures
        window_after(profile, 0) == profile.fill,
        window_after(profile, window + 1) == window_after(profile, window) + profile.window,
{
    assert((window + 1) * profile.window == window * profile.window + profile.window)
        by (nonlinear_arith);
}

} // verus!
