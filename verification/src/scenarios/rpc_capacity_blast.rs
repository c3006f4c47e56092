//! As many requests as the server takes: all of them must be served.
use crate::chain::{key, metas_of, Pubkey, SolanaInstruction};
use crate::redline::builders::simple_byte_set;
use crate::redline::instruction::Instruction;
use crate::redline::ID;
use crate::suite::Tier;
use vstd::prelude::*;

verus! {

/// The requests in a second below which something is broken.
pub const CATASTROPHIC_RPS_FLOOR: u64 = 1_000;

/// The suite.
pub struct RpcCapacityBlast;

impl RpcCapacityBlast {
    /// The name that the suite reports under.
    pub fn name(&self) -> (r: &'static str)
        ensures
            r@ == "redline/rpc_capacity_blast"@,
    {
        "redline/rpc_capacity_blast"
    }
}

/// The size of a run.
#[derive(Clone, Copy, Debug)]
pub struct Profile {
    pub name: &'static str,
    pub payers: usize,
    pub accounts: usize,
    pub threads: usize,
    pub requests: u64,
    pub offered: u32,
    pub concurrency: usize,
}

/// The size of a run at each tier that the suite offers.
pub open spec fn profile_of(tier: Tier) -> Option<Profile> {
    match tier {
        Tier::Lite => Some(
            Profile {
                name: "lite",
                payers: 8,
                accounts: 16,
                threads: 4,
                requests: 10_000,
                offered: 10_000,
                concurrency: 512,
            },
        ),
        Tier::Full => Some(
            Profile {
                name: "full",
                payers: 16,
                accounts: 64,
                threads: 8,
                requests: 50_000,
                offered: 50_000,
                concurrency: 2_048,
            },
        ),
        Tier::Soak => None,
        Tier::Deep => None,
    }
}

/// The size of a run at `tier`, if the suite offers it.
pub fn profile(tier: Tier) -> (r: Option<Profile>)
    ensures
        r == profile_of(tier),
{
    match tier {
        Tier::Lite => Some(
            Profile {
                name: "lite",
                payers: 8,
                accounts: 16,
                threads: 4,
                requests: 10_000,
                offered: 10_000,
                concurrency: 512,
            },
        ),
        Tier::Full => Some(
            Profile {
                name: "full",
                payers: 16,
                accounts: 64,
                threads: 8,
                requests: 50_000,
                offered: 50_000,
                concurrency: 2_048,
            },
        ),
        Tier::Soak => None,
        Tier::Deep => None,
    }
}

/// The write with this id: one account, in turn.
pub fn request(pool: &[Pubkey], id: u64) -> (r: SolanaInstruction)
    requires
        pool@.len() > 0,
        id <= usize::MAX,
    ensures
        r.is(
            key(ID),
            metas_of(seq![pool@[id as int % pool@.len() as int]], false, true),
            (Instruction::SimpleByteSet { id }).encoding(),
        ),
{
    assert(pool.len() == pool@.len());
    let account = pool[id as usize % pool.len()];
    let accounts: Vec<Pubkey> = vec![account];
    assert(accounts@ =~= seq![account]);
    simple_byte_set(id, accounts.as_slice())
}

/// What a run can be faulted for.
#[derive(Clone, Copy, Debug, PartialEq, Eq, Structural)]
pub enum BlastFault {
    /// Requests failed.
    Failed,
    /// The validator processed fewer transactions.
    NotProcessed,
    /// Transactions failed on the validator.
    FailedOnValidator,
}

/// Whether requests were delivered at a rate below the floor.
pub open spec fn below_floor(delivered: u64, wall_nanos: u128) -> bool {
    delivered * 1_000_000_000 < CATASTROPHIC_RPS_FLOOR * wall_nanos
}

/// Holds a run against what is required of it. A run that is accepted says
/// whether its rate was catastrophic.
pub fn check_blast(
    failed: u64,
    delivered: u64,
    wall_nanos: u128,
    requests: u64,
    processed: Option<u64>,
    failed_txs: Option<u64>,
) -> (r: Result<bool, BlastFault>)
    requires
        CATASTROPHIC_RPS_FLOOR * wall_nanos <= u128::MAX,
    ensures
        r == if failed != 0 {
            Err::<bool, BlastFault>(BlastFault::Failed)
        } else if processed matches Some(n) && n < requests {
            Err(BlastFault::NotProcessed)
        } else if failed_txs matches Some(n) && n != 0 {
            Err(BlastFault::FailedOnValidator)
        } else {
            Ok(below_floor(delivered, wall_nanos))
        },
        r is Ok <==> failed == 0 && (processed matches Some(n) ==> n >= requests) && (
        failed_txs matches Some(n) ==> n == 0),
        r == Err::<bool, _>(BlastFault::Failed) <==> failed > 0,
{
    if failed != 0 {
        return Err(BlastFault::Failed);
    }
    if let Some(n) = processed {
        if n < requests {
            return Err(BlastFault::NotProcessed);
        }
    }
    if let Some(n) = failed_txs {
        if n != 0 {
            return Err(BlastFault::FailedOnValidator);
        }
    }
    Ok(delivered as u128 * 1_000_000_000 < CATASTROPHIC_RPS_FLOOR as u128 * wall_nanos)
}

/// The floor is a thousand deliveries in a second: over whole seconds it is
/// missed where fewer than a thousand for each were delivered. Delivering more
/// or faster does not fall below it.
pub proof fn the_floor_is_a_thousand_per_second(
    delivered: u64,
    seconds: u64,
    more: u64,
    wall_nanos: u128,
)
    requires
        more >= delivered,
    ensures
        below_floor(delivered, (seconds * 1_000_000_000) as u128) <==> delivered < 1_000 * seconds,
        below_floor(more, wall_nanos) ==> below_floor(delivered, wall_nanos),
        below_floor(delivered, wall_nanos) ==> wall_nanos > 0,
{
}

} // verus!
