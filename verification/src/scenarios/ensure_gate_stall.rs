//! Reads of sampled accounts through a validator that may or may not hold all
//! of them: what missing accounts cost before execution.
use crate::chain::{key, metas_of, Pubkey, SolanaInstruction};
use crate::redline::builders::read_accounts_data;
use crate::redline::instruction::Instruction;
use crate::redline::ID;
use crate::suite::Tier;
use vstd::prelude::*;

verus! {

/// The bytes of an account of the working set.
pub const ACCOUNT_SPACE: u32 = 2048;

/// The accounts that a transaction reads.
pub const READ_WIDTH: usize = 4;

/// The median latency from which on the healthy cell is reported as slow.
pub const SLOW_US: u64 = 1_000_000;

/// The suite.
pub struct EnsureGateStall;

impl EnsureGateStall {
    /// The name that the suite reports under.
    pub fn name(&self) -> (r: &'static str)
        ensures
            r@ == "redline/ensure_gate_stall"@,
    {
        "redline/ensure_gate_stall"
    }
}

/// The size of a run.
#[derive(Clone, Copy, Debug)]
pub struct Profile {
    pub name: &'static str,
    pub working_set: usize,
    pub prep_payers: usize,
    pub healthy_cap: usize,
    pub thrash_cap: usize,
    pub healthy_iterations: u64,
    pub thrash_iterations: u64,
    pub rate: u32,
    pub concurrency: usize,
}

/// The size of a run at each tier that the suite offers.
pub open spec fn profile_of(tier: Tier) -> Option<Profile> {
    match tier {
        Tier::Lite => Some(
            Profile {
                name: "lite",
                working_set: 600,
                prep_payers: 6,
                healthy_cap: 2_000,
                thrash_cap: 100,
                healthy_iterations: 1_500,
                thrash_iterations: 128,
                rate: 200,
                concurrency: 64,
            },
        ),
        Tier::Full => Some(
            Profile {
                name: "full",
                working_set: 1_000,
                prep_payers: 10,
                healthy_cap: 3_000,
                thrash_cap: 125,
                healthy_iterations: 4_000,
                thrash_iterations: 256,
                rate: 200,
                concurrency: 64,
            },
        ),
        Tier::Soak => None,
        Tier::Deep => None,
    }
}

/// The size of a run at `tier`, if the suite offers it.
pub fn profile(tier: Tier) -> (r: Option<Profile>)
    ensures
        r == profile_of(tier),
{
    match tier {
        Tier::Lite => Some(
            Profile {
                name: "lite",
                working_set: 600,
                prep_payers: 6,
                healthy_cap: 2_000,
                thrash_cap: 100,
                healthy_iterations: 1_500,
                thrash_iterations: 128,
                rate: 200,
                concurrency: 64,
            },
        ),
        Tier::Full => Some(
            Profile {
                name: "full",
                working_set: 1_000,
                prep_payers: 10,
                healthy_cap: 3_000,
                thrash_cap: 125,
                healthy_iterations: 4_000,
                thrash_iterations: 256,
                rate: 200,
                concurrency: 64,
            },
        ),
        Tier::Soak => None,
        Tier::Deep => None,
    }
}

/// The number after `state` in the sequence that places are drawn from.
pub open spec fn next_state(state: u64) -> u64 {
    let a = state ^ (state << 13);
    let b = a ^ (a >> 7);
    b ^ (b << 17)
}

/// The number that the sequence of a seed has reached after some draws.
pub open spec fn state_after(seed: u64, draws: nat) -> u64
    decreases draws,
{
    if draws == 0 {
        ((seed * 0x9E37_79B9_7F4A_7C15) % 0x1_0000_0000_0000_0000) as u64 | 1
    } else {
        next_state(state_after(seed, (draws - 1) as nat))
    }
}

/// The places that some draws choose: each draw that gives a new place adds
/// it, until `width` places are chosen.
pub open spec fn chosen(seed: u64, len: int, width: int, draws: nat) -> Seq<usize>
    decreases draws,
{
    if draws == 0 {
        Seq::empty()
    } else {
        let before = chosen(seed, len, width, (draws - 1) as nat);
        let place = (state_after(seed, draws) as int % len) as usize;
        if before.len() >= width || before.contains(place) {
            before
        } else {
            before.push(place)
        }
    }
}

/// Once enough places are chosen, no draw changes them.
proof fn lemma_chosen_stays(seed: u64, len: int, width: int, draws: nat, more: nat)
    requires
        draws <= more,
        chosen(seed, len, width, draws).len() >= width,
    ensures
        chosen(seed, len, width, more) == chosen(seed, len, width, draws),
    decreases more - draws,
{
    if draws < more {
        lemma_chosen_stays(seed, len, width, draws, (more - 1) as nat);
    }
}

/// No place is chosen twice, all of them are in the pool, and there are never
/// more than asked for.
pub proof fn chosen_places_differ(seed: u64, len: int, width: int, draws: nat)
    requires
        0 < len <= usize::MAX,
        0 <= width,
    ensures
        chosen(seed, len, width, draws).no_duplicates(),
        chosen(seed, len, width, draws).len() <= width,
        forall|i: int|
            0 <= i < chosen(seed, len, width, draws).len() ==> (#[trigger] chosen(
                seed,
                len,
                width,
                draws,
            )[i]) < len,
    decreases draws,
{
    if draws > 0 {
        chosen_places_differ(seed, len, width, (draws - 1) as nat);
        assert(0 <= state_after(seed, draws) as int % len < len) by (nonlinear_arith)
            requires
                len > 0,
        ;
    }
}

/// Whether a list holds a place.
fn holds(places: &[usize], place: usize) -> (r: bool)
    ensures
        r == places@.contains(place),
{
    let mut i: usize = 0;
    while i < places.len()
        invariant
            i <= places@.len(),
            forall|j: int| 0 <= j < i ==> places@[j] != place,
        decreases places@.len() - i,
    {
        if places[i] == place {
            return true;
        }
        i = i + 1;
    }
    false
}

/// The accounts at some places.
pub open spec fn at_places(pool: Seq<Pubkey>, places: Seq<usize>) -> Seq<Pubkey> {
    Seq::new(places.len(), |i: int| pool[places[i] as int])
}

/// Samples `width` different places of a pool; `None` if that many have not
/// come up after as many draws as a 64-bit number can count, which is the
/// whole sequence.
pub fn sample_accounts(pool: &[Pubkey], seed: u64, width: usize) -> (r: Option<Vec<Pubkey>>)
    requires
        0 < pool@.len(),
        width <= pool@.len(),
    ensures
        ({
            let places = chosen(seed, pool@.len() as int, width as int, u64::MAX as nat);
            match r {
                Some(accounts) => places.len() == width && accounts@ == at_places(pool@, places),
                None => places.len() < width,
            }
        }),
{
    let len: usize = pool.len();
    let mut state: u64 = seed.wrapping_mul(0x9E37_79B9_7F4A_7C15) | 1;
    let mut places: Vec<usize> = Vec::new();
    let mut draws: u64 = 0;
    while places.len() < width && draws < u64::MAX
        invariant
            len == pool@.len(),
            0 < len,
            places@ == chosen(seed, len as int, width as int, draws as nat),
            places@.len() <= width,
            state == state_after(seed, draws as nat),
        decreases u64::MAX - draws,
    {
        state = state ^ (state << 13);
        state = state ^ (state >> 7);
        state = state ^ (state << 17);
        draws = draws + 1;
        let index: usize = (state % len as u64) as usize;
        if !holds(places.as_slice(), index) {
            places.push(index);
        }
    }
    proof {
        chosen_places_differ(seed, len as int, width as int, draws as nat);
        if places@.len() == width {
            lemma_chosen_stays(seed, len as int, width as int, draws as nat, u64::MAX as nat);
        }
    }
    if places.len() < width {
        return None;
    }
    let mut accounts: Vec<Pubkey> = Vec::new();
    let mut i: usize = 0;
    while i < places.len()
        invariant
            i <= places@.len(),
            forall|j: int| 0 <= j < places@.len() ==> (#[trigger] places@[j]) < pool@.len(),
            accounts@ == at_places(pool@, places@).take(i as int),
        decreases places@.len() - i,
    {
        accounts.push(pool[places[i]]);
        i = i + 1;
        assert(accounts@ =~= at_places(pool@, places@).take(i as int));
    }
    assert(accounts@ =~= at_places(pool@, places@));
    Some(accounts)
}

/// The transaction with this id: it reads four accounts that the id samples.
pub fn request(pool: &[Pubkey], id: u64) -> (r: Option<SolanaInstruction>)
    requires
        READ_WIDTH <= pool@.len(),
    ensures
        ({
            let places = chosen(id, pool@.len() as int, READ_WIDTH as int, u64::MAX as nat);
            match r {
                Some(ix) => places.len() == READ_WIDTH && ix.is(
                    key(ID),
                    metas_of(at_places(pool@, places), false, false),
                    (Instruction::ReadAccountsData { id }).encoding(),
                ),
                None => places.len() < READ_WIDTH,
            }
        }),
{
    match sample_accounts(pool, id, READ_WIDTH) {
        Some(accounts) => Some(read_accounts_data(id, accounts.as_slice())),
        None => None,
    }
}

/// A cell of the run: how many accounts the validator may monitor in it, how
/// many transactions are sent, and whether all accounts are touched before.
#[derive(Clone, Copy, Debug)]
pub struct Cell {
    pub name: &'static str,
    pub cap: usize,
    pub iterations: u64,
    pub prewarm: bool,
}

/// The cells of a run: one in which all accounts fit, and one in which they do
/// not.
pub fn cells(profile: &Profile) -> (r: [Cell; 2])
    ensures
        r@ == seq![
            Cell {
                name: "healthy",
                cap: profile.healthy_cap,
                iterations: profile.healthy_iterations,
                prewarm: true,
            },
            Cell {
                name: "thrash",
                cap: profile.thrash_cap,
                iterations: profile.thrash_iterations,
                prewarm: false,
            },
        ],
{
    let r: [Cell; 2] = [
        Cell {
            name: "healthy",
            cap: profile.healthy_cap,
            iterations: profile.healthy_iterations,
            prewarm: true,
        },
        Cell {
            name: "thrash",
            cap: profile.thrash_cap,
            iterations: profile.thrash_iterations,
            prewarm: false,
        },
    ];
    assert(r@ =~= seq![r@[0], r@[1]]);
    r
}

/// What was measured in a cell.
#[derive(Clone, Copy, Debug)]
pub struct CellOutcome {
    pub delivered: u64,
    pub failed: u64,
    pub p50_us: u64,
    pub evictions: u64,
}

/// What a run can be faulted for.
#[derive(Clone, Copy, Debug, PartialEq, Eq, Structural)]
pub enum StallFault {
    /// Requests failed in the healthy cell.
    HealthyFailed,
    /// Accounts were evicted although all fit.
    HealthyEvicted,
    /// The other cell delivered nothing.
    NothingDelivered,
    /// Nothing was evicted although not all fit.
    NoEvictions,
}

/// Holds the two cells against what is required of them. A run that is
/// accepted says whether the healthy cell was slow.
pub fn check_cells(healthy: &CellOutcome, thrash: &CellOutcome) -> (r: Result<bool, StallFault>)
    ensures
        r == if healthy.failed != 0 {
            Err::<bool, StallFault>(StallFault::HealthyFailed)
        } else if healthy.evictions != 0 {
            Err(StallFault::HealthyEvicted)
        } else if thrash.delivered == 0 {
            Err(StallFault::NothingDelivered)
        } else if thrash.evictions == 0 {
            Err(StallFault::NoEvictions)
        } else {
            Ok(healthy.p50_us >= SLOW_US)
        },
        r is Ok <==> healthy.failed == 0 && healthy.evictions == 0 && thrash.delivered > 0
            && thrash.evictions > 0,
        r == Ok::<bool, StallFault>(true) ==> healthy.p50_us >= 1_000_000,
        r == Ok::<bool, StallFault>(false) ==> healthy.p50_us < 1_000_000,
{
    if healthy.failed != 0 {
        return Err(StallFault::HealthyFailed);
    }
    if healthy.evictions != 0 {
        return Err(StallFault::HealthyEvicted);
    }
    if thrash.delivered == 0 {
        return Err(StallFault::NothingDelivered);
    }
    if thrash.evictions == 0 {
        return Err(StallFault::NoEvictions);
    }
    Ok(healthy.p50_us >= SLOW_US)
}

/// Every chosen place was drawn: it is the remainder of one of the states, and
/// the first of them decides the first place.
pub proof fn chosen_places_were_drawn(seed: u64, len: int, width: int, draws: nat, i: int)
    requires
        0 < len <= usize::MAX,
        0 <= i < chosen(seed, len, width, draws).len(),
    ensures
        exists|k: nat|
            1 <= k <= draws && chosen(seed, len, width, draws)[i] == #[trigger] state_after(seed, k)
                as int % len,
        i == 0 ==> chosen(seed, len, width, draws)[0] == state_after(seed, 1) as int % len,
    decreases draws,
{
    if draws > 0 {
        let fewer = (draws - 1) as nat;
        let before = chosen(seed, len, width, fewer);
        assert(0 <= state_after(seed, draws) as int % len < len) by {
            vstd::arithmetic::div_mod::lemma_mod_bound(state_after(seed, draws) as int, len);
        }
        if i < before.len() {
            chosen_places_were_drawn(seed, len, width, fewer, i);
            let k = choose|k: nat|
                1 <= k <= fewer && before[i] == #[trigger] state_after(seed, k) as int % len;
            assert(1 <= k <= draws && chosen(seed, len, width, draws)[i] == state_after(
                seed,
                k,
            ) as int % len);
        } else {
            assert(chosen(seed, len, width, draws)[i] == state_after(seed, draws) as int % len);
            if i == 0 && draws >= 2 {
                lemma_some_are_chosen(seed, len, width, draws);
            }
        }
    }
}

/// Once a place is to be chosen, one is.
proof fn lemma_some_are_chosen(seed: u64, len: int, width: int, draws: nat)
    requires
        draws >= 2,
        width > 0 || chosen(seed, len, width, draws).len() > 0,
    ensures
        chosen(seed, len, width, (draws - 1) as nat).len() > 0,
    decreases draws,
{
    reveal_with_fuel(chosen, 3);
    if draws > 2 {
        if width <= 0 {
            lemma_none_are_chosen(seed, len, width, draws);
        }
        lemma_some_are_chosen(seed, len, width, (draws - 1) as nat);
    }
}

/// Where nothing is to be chosen, nothing is.
proof fn lemma_none_are_chosen(seed: u64, len: int, width: int, draws: nat)
    requires
        width <= 0,
    ensures
        chosen(seed, len, width, draws).len() == 0,
    decreases draws,
{
    if draws > 0 {
        lemma_none_are_chosen(seed, len, width, (draws - 1) as nat);
    }
}

/// A drawn place is chosen unless the choice was already complete.
pub proof fn drawn_places_are_chosen(seed: u64, len: int, width: int, draws: nat, k: nat)
    requires
        0 < len <= usize::MAX,
        1 <= k <= draws,
        chosen(seed, len, width, draws).len() < width,
    ensures
        chosen(seed, len, width, draws).contains((state_after(seed, k) as int % len) as usize),
    decreases draws,
{
    let before = chosen(seed, len, width, (draws - 1) as nat);
    let now = chosen(seed, len, width, draws);
    if k < draws {
        drawn_places_are_chosen(seed, len, width, (draws - 1) as nat, k);
        let place = (state_after(seed, k) as int % len) as usize;
        let i = choose|i: int| 0 <= i < before.len() && before[i] == place;
        assert(now[i] == place);
    } else if !before.contains((state_after(seed, k) as int % len) as usize) {
        assert(now[before.len() as int] == (state_after(seed, k) as int % len) as usize);
    }
}

/// The first state of a seed is the number that scatters reads in a churn.
pub proof fn the_first_state_scatters(seed: u64)
    ensures
        state_after(seed, 1) == crate::scenarios::clone_lru_churn::scattered(seed),
{
    reveal_with_fuel(state_after, 2);
}

} // verus!
