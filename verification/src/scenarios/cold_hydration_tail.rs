//! The first touch of an account against the second, and bursts of reads of
//! accounts that the validator has not seen.
use crate::chain::{key, metas_of, Pubkey, SolanaInstruction};
use crate::redline::builders::read_accounts_data;
use crate::redline::instruction::Instruction;
use crate::redline::ID;
use crate::suite::Tier;
use vstd::prelude::*;

verus! {

/// The bytes of an account.
pub const ACCOUNT_SPACE: u32 = 2048;

/// A delivery that takes longer is slow.
pub const SLOW_NANOS: u128 = 100_000_000;

/// How many times the median of a second touch that of a first one must be.
pub const MIN_COLD_WARM_RATIO: u64 = 10;

/// Second touches must stay below this.
pub const WARM_P95_US: u32 = 100_000;

/// The suite.
pub struct ColdHydrationTail;

impl ColdHydrationTail {
    /// The name that the suite reports under.
    pub fn name(&self) -> (r: &'static str)
        ensures
            r@ == "redline/cold_hydration_tail"@,
    {
        "redline/cold_hydration_tail"
    }
}

/// The size of a run.
#[derive(Clone, Copy, Debug)]
pub struct Profile {
    pub name: &'static str,
    pub cold_accounts: usize,
    pub burst_accounts: usize,
    pub burst_payers: usize,
    pub burst_concurrency: usize,
    pub prep_payers: usize,
}

/// The size of a run at each tier that the suite offers.
pub open spec fn profile_of(tier: Tier) -> Option<Profile> {
    match tier {
        Tier::Lite => Some(
            Profile {
                name: "lite",
                cold_accounts: 32,
                burst_accounts: 128,
                burst_payers: 8,
                burst_concurrency: 128,
                prep_payers: 4,
            },
        ),
        Tier::Full => Some(
            Profile {
                name: "full",
                cold_accounts: 64,
                burst_accounts: 512,
                burst_payers: 16,
                burst_concurrency: 256,
                prep_payers: 8,
            },
        ),
        Tier::Soak => None,
        Tier::Deep => None,
    }
}

/// The size of a run at `tier`, if the suite offers it.
pub fn profile(tier: Tier) -> (r: Option<Profile>)
    ensures
        r == profile_of(tier),
{
    match tier {
        Tier::Lite => Some(
            Profile {
                name: "lite",
                cold_accounts: 32,
                burst_accounts: 128,
                burst_payers: 8,
                burst_concurrency: 128,
                prep_payers: 4,
            },
        ),
        Tier::Full => Some(
            Profile {
                name: "full",
                cold_accounts: 64,
                burst_accounts: 512,
                burst_payers: 16,
                burst_concurrency: 256,
                prep_payers: 8,
            },
        ),
        Tier::Soak => None,
        Tier::Deep => None,
    }
}

/// How many accounts a run needs: those touched one by one, those of the
/// bursts, and one that is only used to warm up.
pub fn account_count(profile: &Profile) -> (r: usize)
    requires
        profile.cold_accounts + profile.burst_accounts + 1 <= usize::MAX,
    ensures
        r == profile.cold_accounts + profile.burst_accounts + 1,
{
    profile.cold_accounts + profile.burst_accounts + 1
}

/// The accounts of a run by what they are used for.
#[derive(Debug)]
pub struct Pools {
    pub cold: Vec<Pubkey>,
    pub prewarm: Pubkey,
    pub burst_cold: Vec<Pubkey>,
    pub burst_warm: Vec<Pubkey>,
}

/// The accounts from `from` to `to`.
fn copy_range(all: &[Pubkey], from: usize, to: usize) -> (r: Vec<Pubkey>)
    requires
        from <= to <= all@.len(),
    ensures
        r@ == all@.subrange(from as int, to as int),
{
    let mut out: Vec<Pubkey> = Vec::new();
    let mut i: usize = from;
    while i < to
        invariant
            from <= i <= to,
            to <= all@.len(),
            out@ == all@.subrange(from as int, i as int),
        decreases to - i,
    {
        out.push(all[i]);
        i = i + 1;
        assert(out@ =~= all@.subrange(from as int, i as int));
    }
    out
}

/// Divides the accounts of a run: first those touched one by one, then the one
/// to warm up with, and the rest in two halves.
pub fn split_pools(all: &[Pubkey], cold_accounts: usize) -> (r: Pools)
    requires
        cold_accounts < all@.len(),
    ensures
        ({
            let first = cold_accounts + 1;
            let middle = first + (all@.len() - first) / 2;
            &&& r.cold@ == all@.take(cold_accounts as int)
            &&& r.prewarm == all@[cold_accounts as int]
            &&& r.burst_cold@ == all@.subrange(first, middle)
            &&& r.burst_warm@ == all@.skip(middle)
        }),
{
    assert(all.len() == all@.len());
    let first: usize = cold_accounts + 1;
    let middle: usize = first + (all.len() - first) / 2;
    let r = Pools {
        cold: copy_range(all, 0, cold_accounts),
        prewarm: all[cold_accounts],
        burst_cold: copy_range(all, first, middle),
        burst_warm: copy_range(all, middle, all.len()),
    };
    assert(r.cold@ =~= all@.take(cold_accounts as int));
    assert(r.burst_warm@ =~= all@.skip(middle as int));
    r
}

/// No account is used twice: the parts of a run make up all of its accounts,
/// one after the other.
pub proof fn pools_partition_the_accounts(all: Seq<Pubkey>, cold_accounts: int)
    requires
        0 <= cold_accounts < all.len(),
    ensures
        ({
            let first = cold_accounts + 1;
            let middle = first + (all.len() - first) / 2;
            all == all.take(cold_accounts) + seq![all[cold_accounts]] + all.subrange(first, middle)
                + all.skip(middle)
        }),
{
    let first = cold_accounts + 1;
    let middle = first + (all.len() - first) / 2;
    assert(all =~= all.take(cold_accounts) + seq![all[cold_accounts]] + all.subrange(first, middle)
        + all.skip(middle));
}

/// Whether an account came back whole.
pub fn is_hydrated(data_len: Option<usize>) -> (r: bool)
    ensures
        r == (data_len == Some(ACCOUNT_SPACE as usize)),
{
    match data_len {
        Some(n) => n == ACCOUNT_SPACE as usize,
        None => false,
    }
}

/// A median that is at least one.
pub open spec fn at_least_one(p50: u32) -> int {
    if p50 == 0 {
        1
    } else {
        p50 as int
    }
}

/// What the two touches can be faulted for.
#[derive(Clone, Copy, Debug, PartialEq, Eq, Structural)]
pub enum TouchFault {
    /// Second touches are not enough faster.
    NoCollapse,
    /// Second touches are slow.
    SlowWarm,
}

/// Compares first touches with second ones.
pub fn check_touches(cold_p50: u32, warm_p50: u32, warm_p95: u32) -> (r: Result<(), TouchFault>)
    ensures
        r == if at_least_one(cold_p50) < MIN_COLD_WARM_RATIO * at_least_one(warm_p50) {
            Err::<(), TouchFault>(TouchFault::NoCollapse)
        } else if warm_p95 >= WARM_P95_US {
            Err(TouchFault::SlowWarm)
        } else {
            Ok(())
        },
        warm_p50 > 0 && cold_p50 > 0 ==> (r is Ok <==> cold_p50 >= MIN_COLD_WARM_RATIO * warm_p50
            && warm_p95 < WARM_P95_US),
        r == Err::<(), _>(TouchFault::SlowWarm) ==> warm_p95 >= WARM_P95_US,
{
    let cold: u64 = if cold_p50 == 0 {
        1
    } else {
        cold_p50 as u64
    };
    let warm: u64 = if warm_p50 == 0 {
        1
    } else {
        warm_p50 as u64
    };
    if cold < MIN_COLD_WARM_RATIO * warm {
        return Err(TouchFault::NoCollapse);
    }
    if warm_p95 >= WARM_P95_US {
        return Err(TouchFault::SlowWarm);
    }
    Ok(())
}

/// The read of a burst with this id: one account, in turn.
pub fn burst_request(pool: &[Pubkey], id: u64) -> (r: SolanaInstruction)
    requires
        pool@.len() > 0,
        1 <= id <= usize::MAX,
    ensures
        r.is(
            key(ID),
            metas_of(seq![pool@[(id - 1) % (pool@.len() as int)]], false, false),
            (Instruction::ReadAccountsData { id }).encoding(),
        ),
{
    assert(pool.len() == pool@.len());
    let account = pool[(id as usize - 1) % pool.len()];
    let accounts: Vec<Pubkey> = vec![account];
    assert(accounts@ =~= seq![account]);
    read_accounts_data(id, accounts.as_slice())
}

/// The read that warms up what all reads depend on.
pub fn prewarm_request(account: Pubkey) -> (r: SolanaInstruction)
    ensures
        r.is(
            key(ID),
            metas_of(seq![account], false, false),
            (Instruction::ReadAccountsData { id: 0 }).encoding(),
        ),
{
    let accounts: Vec<Pubkey> = vec![account];
    assert(accounts@ =~= seq![account]);
    read_accounts_data(0, accounts.as_slice())
}

/// Whether a delivery was slow.
pub fn is_slow(elapsed_nanos: u128) -> (r: bool)
    ensures
        r == (elapsed_nanos > SLOW_NANOS),
{
    elapsed_nanos > SLOW_NANOS
}

/// What was measured in a burst.
#[derive(Clone, Copy, Debug)]
pub struct BurstOutcome {
    pub failed: u64,
    pub slow: u64,
}

/// What the bursts can be faulted for.
#[derive(Clone, Copy, Debug, PartialEq, Eq, Structural)]
pub enum BurstFault {
    ColdFailed,
    WarmFailed,
}

/// Holds the two bursts against each other. If they are accepted, says whether
/// the warm one had more slow deliveries.
pub fn check_bursts(cold: &BurstOutcome, warm: &BurstOutcome) -> (r: Result<bool, BurstFault>)
    ensures
        r == if cold.failed != 0 {
            Err::<bool, BurstFault>(BurstFault::ColdFailed)
        } else if warm.failed != 0 {
            Err(BurstFault::WarmFailed)
        } else {
            Ok(warm.slow > cold.slow)
        },
        r is Ok <==> cold.failed == 0 && warm.failed == 0,
        r == Err::<bool, _>(BurstFault::ColdFailed) <==> cold.failed > 0,
{
    if cold.failed != 0 {
        return Err(BurstFault::ColdFailed);
    }
    if warm.failed != 0 {
        return Err(BurstFault::WarmFailed);
    }
    Ok(warm.slow > cold.slow)
}

} // verus!
