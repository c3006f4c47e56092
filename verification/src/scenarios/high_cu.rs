//! Transactions that compute little against transactions that compute much,
//! at the same offered rate.
use crate::bytes::{le64, read_u64};
use crate::chain::{key, metas_of, Pubkey, SolanaInstruction};
use crate::hash::chained;
use crate::redline::builders::expensive_hash_compute;
use crate::redline::instruction::Instruction;
use crate::redline::{HASH_OFFSET, HASH_SIZE, ID, ID_OFFSET, ID_SIZE};
use crate::scenarios::conflict_ordering::HASH_INIT;
use crate::scenarios::executor_saturation::{holds_heavy_chain, slot_of};
use crate::suite::Tier;
use vstd::prelude::*;

verus! {

/// The rounds of a light chain.
pub const LIGHT_ITERS: u32 = 1;

/// The rounds of a heavy chain.
pub const HEAVY_ITERS: u32 = 20;

/// The suite.
pub struct HighCu;

impl HighCu {
    /// The name that the suite reports under.
    pub fn name(&self) -> (r: &'static str)
        ensures
            r@ == "redline/high_cu"@,
    {
        "redline/high_cu"
    }
}

/// The size of a run.
#[derive(Clone, Copy, Debug)]
pub struct Profile {
    pub name: &'static str,
    pub payers: usize,
    pub accounts: u8,
    pub warmup: u64,
    pub iterations: u64,
    pub rate: u32,
    pub concurrency: usize,
}

/// The size of a run at each tier that the suite offers.
pub open spec fn profile_of(tier: Tier) -> Option<Profile> {
    match tier {
        Tier::Lite => Some(
            Profile {
                name: "lite",
                payers: 8,
                accounts: 16,
                warmup: 100,
                iterations: 1,
                rate: 200,
                concurrency: 64,
            },
        ),
        Tier::Full => Some(
            Profile {
                name: "full",
                payers: 32,
                accounts: 64,
                warmup: 2_000,
                iterations: 20_000,
                rate: 1_000,
                concurrency: 256,
            },
        ),
        Tier::Soak => None,
        Tier::Deep => None,
    }
}

/// The size of a run at `tier`, if the suite offers it.
pub fn profile(tier: Tier) -> (r: Option<Profile>)
    ensures
        r == profile_of(tier),
{
    match tier {
        Tier::Lite => Some(
            Profile {
                name: "lite",
                payers: 8,
                accounts: 16,
                warmup: 100,
                iterations: 1,
                rate: 200,
                concurrency: 64,
            },
        ),
        Tier::Full => Some(
            Profile {
                name: "full",
                payers: 32,
                accounts: 64,
                warmup: 2_000,
                iterations: 20_000,
                rate: 1_000,
                concurrency: 256,
            },
        ),
        Tier::Soak => None,
        Tier::Deep => None,
    }
}

/// A cell of the run: its name, the rounds of its chains and the id after
/// which its transactions begin.
#[derive(Clone, Copy, Debug)]
pub struct Cell {
    pub label: &'static str,
    pub iters: u32,
    pub offset: u64,
}

/// The ids that a cell takes: those of its warmup and those measured.
pub open spec fn cell_span(profile: Profile) -> int {
    profile.warmup + profile.iterations
}

/// The cells of a run, the light one first.
pub fn cells(profile: &Profile) -> (r: [Cell; 2])
    requires
        cell_span(*profile) <= u64::MAX,
    ensures
        r@ == seq![
            Cell { label: "light", iters: LIGHT_ITERS, offset: 0 },
            Cell { label: "heavy", iters: HEAVY_ITERS, offset: cell_span(*profile) as u64 },
        ],
{
    let r: [Cell; 2] = [
        Cell { label: "light", iters: LIGHT_ITERS, offset: 0 },
        Cell { label: "heavy", iters: HEAVY_ITERS, offset: profile.warmup + profile.iterations },
    ];
    assert(r@ =~= seq![r@[0], r@[1]]);
    r
}

/// The transaction of an iteration after `offset`: a hash chain on the account
/// whose turn it is.
pub fn request(accounts: &[Pubkey], offset: u64, iteration: u64, iters: u32) -> (r:
    SolanaInstruction)
    requires
        1 <= iteration,
        offset + iteration <= usize::MAX,
        accounts@.len() > 0,
    ensures
        ({
            let id = (offset + iteration) as u64;
            r.is(
                key(ID),
                metas_of(seq![accounts@[(id - 1) % (accounts@.len() as int)]], false, true),
                (Instruction::ExpensiveHashCompute { id, init: key(HASH_INIT), iters }).encoding(),
            )
        }),
{
    assert(accounts.len() == accounts@.len());
    let id: u64 = offset + iteration;
    let target = accounts[slot_of(id, accounts.len())];
    let targets: Vec<Pubkey> = vec![target];
    assert(targets@ =~= seq![target]);
    expensive_hash_compute(id, Pubkey::new(HASH_INIT), iters, targets.as_slice())
}

/// Whether every write of the measured transactions was accounted for: seen,
/// or overtaken by a later one.
pub fn all_accounted(observed: usize, superseded: usize, iterations: u64) -> (r: bool)
    ensures
        r == (observed + superseded == iterations),
{
    observed as u128 + superseded as u128 == iterations as u128
}

/// Whether `id` is the last of the ids from `first` to `end` whose turn falls
/// on the account at `index` of `pool`.
pub open spec fn is_last_turn(id: int, first: int, end: int, pool: int, index: int) -> bool {
    &&& first <= id <= end
    &&& (id - 1) % pool == index
    &&& forall|later: int| id < later <= end ==> #[trigger] ((later - 1) % pool) != index
}

/// The last id, of those from `first` to `end`, whose turn falls on the
/// account at `index` of `pool`, if there is any.
pub fn last_turn(first: u64, end: u64, pool: u64, index: u64) -> (r: Option<u64>)
    requires
        1 <= first,
        1 <= end,
        index < pool,
    ensures
        match r {
            Some(id) => is_last_turn(
                id as int,
                first as int,
                end as int,
                pool as int,
                index as int,
            ),
            None => forall|id: int|
                first <= id <= end ==> #[trigger] ((id - 1) % (pool as int)) != index,
        },
{
    let end_index: u64 = (end - 1) % pool;
    let back: u64 = if end_index >= index {
        end_index - index
    } else {
        pool - (index - end_index)
    };
    proof {
        lemma_turns(end as int, pool as int, index as int, back as int);
    }
    if end < back || end - back < first {
        return None;
    }
    Some(end - back)
}

/// The turn before `end` that falls on `index` is `back` ids before it, and
/// none in between does.
proof fn lemma_turns(end: int, pool: int, index: int, back: int)
    requires
        1 <= end,
        0 <= index < pool,
        back == if (end - 1) % pool >= index {
            (end - 1) % pool - index
        } else {
            pool - (index - (end - 1) % pool)
        },
    ensures
        0 <= back < pool,
        (end - back - 1) % pool == index,
        forall|later: int| end - back < later <= end ==> #[trigger] ((later - 1) % pool) != index,
{
    let q = (end - 1) / pool;
    let e = (end - 1) % pool;
    vstd::arithmetic::div_mod::lemma_fundamental_div_mod(end - 1, pool);
    assert(0 <= e < pool) by {
        vstd::arithmetic::div_mod::lemma_mod_bound(end - 1, pool);
    }
    let k = if e >= index {
        q
    } else {
        q - 1
    };
    assert(end - back - 1 == pool * k + index) by (nonlinear_arith)
        requires
            end - 1 == pool * q + e,
            e >= index ==> back == e - index && k == q,
            e < index ==> back == pool - (index - e) && k == q - 1,
    ;
    vstd::arithmetic::div_mod::lemma_mod_multiples_vanish(k, index, pool);
    vstd::arithmetic::div_mod::lemma_small_mod(index as nat, pool as nat);
    assert forall|later: int| end - back < later <= end implies #[trigger] ((later - 1) % pool)
        != index by {
        let d = later - (end - back);
        if (later - 1) % pool == index {
            let j = (later - 1) / pool;
            vstd::arithmetic::div_mod::lemma_fundamental_div_mod(later - 1, pool);
            assert(false) by (nonlinear_arith)
                requires
                    later - 1 == pool * j + index,
                    end - back - 1 == pool * k + index,
                    d == later - (end - back),
                    0 < d < pool,
            ;
        }
    }
}

/// Whether an account holds this id and the end of the heavy hash chain.
pub fn holds_last_write(data: &[u8], last_id: u64) -> (r: bool)
    requires
        data@.len() >= HASH_OFFSET + HASH_SIZE,
    ensures
        r == (data@.subrange(ID_OFFSET as int, ID_OFFSET + ID_SIZE) == le64(last_id)
            && data@.subrange(HASH_OFFSET as int, HASH_OFFSET + HASH_SIZE) == chained(
            HASH_INIT@,
            HEAVY_ITERS as nat,
        )),
{
    proof {
        crate::bytes::lemma_le64();
    }
    let id: u64 = read_u64(data, ID_OFFSET);
    id == last_id && holds_heavy_chain(data, HEAVY_ITERS)
}

} // verus!
