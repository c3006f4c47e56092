//! How fast commits drain: wide commits over accounts that were never
//! committed before, against commits over the same sets again and again.
use crate::chain::{key, Pubkey, SolanaInstruction};
use crate::redline::builders::{commit_accounts, committing};
use crate::redline::instruction::Instruction;
use crate::redline::ID;
use crate::suite::Tier;
use vstd::prelude::*;

verus! {

/// The accounts of a commit.
pub const COMMIT_WIDTH: usize = 8;

/// The bytes of an account.
pub const ACCOUNT_SPACE: u32 = 40;

/// The sets that are committed again and again.
pub const CONTRAST_SETS: usize = 30;

/// How often each of them is committed.
pub const ROUNDS: usize = 3;

/// The id after which the first round over these sets begins.
pub const CONTRAST_WARMUP_ID: u64 = 1_000_000;

/// The id after which the measured rounds begin.
pub const CONTRAST_ID: u64 = 2_000_000;

/// The outstanding intents from which on the queue was under pressure.
pub const PRESSURED: u64 = 50;

/// The busy executors from which on they were saturated.
pub const SATURATED: u64 = 40;

/// The suite.
pub struct CommitThroughputCeiling;

impl CommitThroughputCeiling {
    /// The name that the suite reports under.
    pub fn name(&self) -> (r: &'static str)
        ensures
            r@ == "redline/commit_throughput_ceiling"@,
    {
        "redline/commit_throughput_ceiling"
    }
}

/// The size of a run.
#[derive(Clone, Copy, Debug)]
pub struct Profile {
    pub name: &'static str,
    pub fresh_commits: u64,
    pub prep_payers: usize,
    pub rate: u32,
    pub concurrency: usize,
    pub drain_cap_secs: u64,
    pub monitor_window_secs: u64,
    pub contrast: bool,
    pub deep_backlog: bool,
}

/// The size of a run at each tier that the suite offers.
pub open spec fn profile_of(tier: Tier) -> Option<Profile> {
    match tier {
        Tier::Lite => Some(
            Profile {
                name: "lite",
                fresh_commits: 12,
                prep_payers: 6,
                rate: 2,
                concurrency: 8,
                drain_cap_secs: 240,
                monitor_window_secs: 5,
                contrast: false,
                deep_backlog: false,
            },
        ),
        Tier::Full => Some(
            Profile {
                name: "full",
                fresh_commits: 25,
                prep_payers: 6,
                rate: 2,
                concurrency: 8,
                drain_cap_secs: 180,
                monitor_window_secs: 5,
                contrast: false,
                deep_backlog: false,
            },
        ),
        Tier::Soak => None,
        Tier::Deep => Some(
            Profile {
                name: "deep",
                fresh_commits: 150,
                prep_payers: 12,
                rate: 2,
                concurrency: 8,
                drain_cap_secs: 900,
                monitor_window_secs: 10,
                contrast: true,
                deep_backlog: true,
            },
        ),
    }
}

/// The size of a run at `tier`, if the suite offers it.
pub fn profile(tier: Tier) -> (r: Option<Profile>)
    ensures
        r == profile_of(tier),
{
    match tier {
        Tier::Lite => Some(
            Profile {
                name: "lite",
                fresh_commits: 12,
                prep_payers: 6,
                rate: 2,
                concurrency: 8,
                drain_cap_secs: 240,
                monitor_window_secs: 5,
                contrast: false,
                deep_backlog: false,
            },
        ),
        Tier::Full => Some(
            Profile {
                name: "full",
                fresh_commits: 25,
                prep_payers: 6,
                rate: 2,
                concurrency: 8,
                drain_cap_secs: 180,
                monitor_window_secs: 5,
                contrast: false,
                deep_backlog: false,
            },
        ),
        Tier::Soak => None,
        Tier::Deep => Some(
            Profile {
                name: "deep",
                fresh_commits: 150,
                prep_payers: 12,
                rate: 2,
                concurrency: 8,
                drain_cap_secs: 900,
                monitor_window_secs: 10,
                contrast: true,
                deep_backlog: true,
            },
        ),
    }
}

/// How many accounts are needed for the commits over fresh ones.
pub fn pool_size(profile: &Profile) -> (r: usize)
    requires
        profile.fresh_commits * COMMIT_WIDTH <= usize::MAX,
    ensures
        r == profile.fresh_commits * COMMIT_WIDTH,
{
    profile.fresh_commits as usize * COMMIT_WIDTH
}

/// The set at `index`: as many accounts in a row as a commit has.
pub open spec fn set_at(pool: Seq<Pubkey>, index: int) -> Seq<Pubkey> {
    pool.subrange(index * COMMIT_WIDTH, index * COMMIT_WIDTH + COMMIT_WIDTH)
}

/// The set at `index`.
fn copy_set(pool: &[Pubkey], index: usize) -> (r: Vec<Pubkey>)
    requires
        index * COMMIT_WIDTH + COMMIT_WIDTH <= pool@.len(),
    ensures
        r@ == set_at(pool@, index as int),
{
    assert(pool.len() == pool@.len());
    let first: usize = index * COMMIT_WIDTH;
    let mut out: Vec<Pubkey> = Vec::new();
    let mut i: usize = 0;
    while i < COMMIT_WIDTH
        invariant
            i <= COMMIT_WIDTH,
            first == index * COMMIT_WIDTH,
            first + COMMIT_WIDTH <= pool@.len(),
            pool@.len() <= usize::MAX,
            out@ == set_at(pool@, index as int).take(i as int),
        decreases COMMIT_WIDTH - i,
    {
        out.push(pool[first + i]);
        i = i + 1;
        assert(out@ =~= set_at(pool@, index as int).take(i as int));
    }
    assert(out@ =~= set_at(pool@, index as int));
    out
}

/// The sets of a pool, one after the other; accounts at its end that do not
/// make up a set are left out.
pub fn fresh_sets(pool: &[Pubkey]) -> (r: Vec<Vec<Pubkey>>)
    ensures
        r@.len() == pool@.len() as int / COMMIT_WIDTH as int,
        forall|i: int| 0 <= i < r@.len() ==> (#[trigger] r@[i])@ == set_at(pool@, i),
{
    assert(pool.len() == pool@.len());
    let count: usize = pool.len() / COMMIT_WIDTH;
    let mut out: Vec<Vec<Pubkey>> = Vec::new();
    let mut i: usize = 0;
    while i < count
        invariant
            i <= count,
            count == pool@.len() as int / COMMIT_WIDTH as int,
            out@.len() == i,
            forall|j: int| 0 <= j < i ==> (#[trigger] out@[j])@ == set_at(pool@, j),
        decreases count - i,
    {
        out.push(copy_set(pool, i));
        i = i + 1;
    }
    out
}

/// The sets of the commits over the same accounts: they take turns.
pub fn contrast_sets(pool: &[Pubkey], commits: usize) -> (r: Vec<Vec<Pubkey>>)
    requires
        pool@.len() >= CONTRAST_SETS * COMMIT_WIDTH,
    ensures
        r@.len() == commits,
        forall|i: int|
            0 <= i < commits ==> (#[trigger] r@[i])@ == set_at(pool@, i % CONTRAST_SETS as int),
{
    let mut out: Vec<Vec<Pubkey>> = Vec::new();
    let mut i: usize = 0;
    while i < commits
        invariant
            i <= commits,
            pool@.len() >= CONTRAST_SETS * COMMIT_WIDTH,
            out@.len() == i,
            forall|j: int|
                0 <= j < i ==> (#[trigger] out@[j])@ == set_at(pool@, j % CONTRAST_SETS as int),
        decreases commits - i,
    {
        out.push(copy_set(pool, i % CONTRAST_SETS));
        i = i + 1;
    }
    out
}

/// No account is committed twice over fresh sets: the places of two of them
/// are different.
pub proof fn fresh_sets_share_no_account(one: int, other: int, a: int, b: int)
    requires
        0 <= one < other,
        0 <= a < COMMIT_WIDTH,
        0 <= b < COMMIT_WIDTH,
    ensures
        one * COMMIT_WIDTH + a < other * COMMIT_WIDTH + b,
{
}

/// In every run of as many commits as there are sets, each set has its turn
/// once.
pub proof fn contrast_sets_take_turns(first: int, set: int)
    requires
        0 <= first,
        0 <= set < CONTRAST_SETS,
    ensures
        exists|commit: int|
            first <= commit < first + CONTRAST_SETS && #[trigger] (commit % CONTRAST_SETS as int)
                == set,
        forall|one: int, other: int|
            first <= one < first + CONTRAST_SETS && first <= other < first + CONTRAST_SETS
                && #[trigger] (one % CONTRAST_SETS as int) == set && #[trigger] (other
                % CONTRAST_SETS as int) == set ==> one == other,
{
    let turn = first % 30;
    let commit = if turn <= set {
        first - turn + set
    } else {
        first - turn + 30 + set
    };
    assert(commit % CONTRAST_SETS as int == set);
}

/// The commit of an iteration, counted from one: the set with that number,
/// under an id that follows `first_id`.
pub fn commit_request(sets: &[Vec<Pubkey>], payer: Pubkey, first_id: u64, iteration: u64) -> (r:
    SolanaInstruction)
    requires
        1 <= iteration <= sets@.len(),
        first_id + iteration <= u64::MAX,
    ensures
        r.is(
            key(ID),
            committing(payer, sets@[iteration - 1]@),
            (Instruction::CommitAccounts { id: (first_id + iteration) as u64 }).encoding(),
        ),
{
    commit_accounts(first_id + iteration, payer, sets[(iteration - 1) as usize].as_slice())
}

/// A reading that counts as zero where there is none.
pub open spec fn reading(value: Option<u64>) -> u64 {
    match value {
        Some(n) => n,
        None => 0,
    }
}

/// A reading that counts as zero where there is none.
fn read(value: Option<u64>) -> (r: u64)
    ensures
        r == reading(value),
{
    match value {
        Some(n) => n,
        None => 0,
    }
}

/// Whether the committor has nothing left to do.
pub fn is_quiet(backlog: Option<u64>, intents: Option<u64>, executed: Option<u64>) -> (r: bool)
    ensures
        r == (reading(backlog) == 0 && reading(intents) <= reading(executed)),
        r ==> (backlog matches Some(n) ==> n == 0),
        backlog is None && intents is None ==> r,
        r && intents is Some ==> executed is Some || intents == Some(0u64),
{
    read(backlog) == 0 && read(intents) <= read(executed)
}

/// How far the intents have drained.
#[derive(Clone, Copy, Debug, PartialEq, Eq, Structural)]
pub enum Drain {
    /// All of them.
    Full { drained: u64 },
    /// Time is up, and only so many have.
    Partial { drained: u64 },
    /// Not all of them yet.
    Waiting,
}

/// How far the intents have drained, from the number that had been executed
/// before and the number that has been by now.
pub fn drain_step(executed_before: u64, expected: u64, executed_now: Option<u64>, late: bool) -> (r:
    Drain)
    ensures
        r == if reading(executed_now) >= executed_before + expected {
            Drain::Full { drained: expected }
        } else if late {
            Drain::Partial {
                drained: if reading(executed_now) >= executed_before {
                    (reading(executed_now) - executed_before) as u64
                } else {
                    0
                },
            }
        } else {
            Drain::Waiting
        },
        r is Full <==> (executed_now matches Some(n) && n - executed_before >= expected) || (
        executed_before == 0 && expected == 0),
        r is Waiting ==> !late,
{
    let now: u64 = read(executed_now);
    if now >= executed_before && now - executed_before >= expected {
        return Drain::Full { drained: expected };
    }
    if !late {
        return Drain::Waiting;
    }
    Drain::Partial {
        drained: if now >= executed_before {
            now - executed_before
        } else {
            0
        },
    }
}

/// What a run can be faulted for.
#[derive(Clone, Copy, Debug, PartialEq, Eq, Structural)]
pub enum DrainFault {
    /// Nothing drained.
    NothingDrained,
    /// Intents failed.
    FailedIntents { failed: u64 },
    /// No lookup table was used.
    NoLookupTables,
}

/// Holds what drained against what is required of it.
pub fn check_drain(drained: u64, failed_intents: Option<u64>, lookup_tables: Option<u64>) -> (r:
    Result<(), DrainFault>)
    ensures
        r == if drained == 0 {
            Err::<(), DrainFault>(DrainFault::NothingDrained)
        } else if reading(failed_intents) != 0 {
            Err(DrainFault::FailedIntents { failed: reading(failed_intents) })
        } else if lookup_tables == Some(0u64) {
            Err(DrainFault::NoLookupTables)
        } else {
            Ok(())
        },
        r is Ok <==> drained > 0 && (failed_intents matches Some(n) ==> n == 0) && lookup_tables
            != Some(0u64),
{
    if drained == 0 {
        return Err(DrainFault::NothingDrained);
    }
    let failed: u64 = read(failed_intents);
    if failed != 0 {
        return Err(DrainFault::FailedIntents { failed });
    }
    match lookup_tables {
        Some(0) => Err(DrainFault::NoLookupTables),
        _ => Ok(()),
    }
}

/// What is remarked of a run that builds up a deep backlog.
#[derive(Clone, Copy, Debug, PartialEq, Eq, Structural)]
pub enum DeepRemarks {
    /// Intents drain faster than a queue of them would let them.
    PastTheBand,
    /// They drain slowly; each of these says that the queue behind them was
    /// not what it should have been.
    Convoy { not_pressured: bool, unsaturated: bool, not_overloaded: bool },
}

/// Whether intents drained at a rate below 0.8 in a second.
pub open spec fn drains_slowly(drained: u64, wall_nanos: u128) -> bool {
    drained * 10_000_000_000 < 8 * wall_nanos
}

/// What is remarked of a run that builds up a deep backlog.
pub fn deep_remarks(
    drained: u64,
    wall_nanos: u128,
    outstanding_peak: u64,
    busy_peak: u64,
    overload: bool,
) -> (r: DeepRemarks)
    requires
        8 * wall_nanos <= u128::MAX,
    ensures
        r == if drains_slowly(drained, wall_nanos) {
            DeepRemarks::Convoy {
                not_pressured: outstanding_peak <= PRESSURED,
                unsaturated: busy_peak < SATURATED,
                not_overloaded: !overload,
            }
        } else {
            DeepRemarks::PastTheBand
        },
{
    if (drained as u128) * 10_000_000_000 < 8 * wall_nanos {
        DeepRemarks::Convoy {
            not_pressured: outstanding_peak <= PRESSURED,
            unsaturated: busy_peak < SATURATED,
            not_overloaded: !overload,
        }
    } else {
        DeepRemarks::PastTheBand
    }
}

/// A set is eight accounts in a row: the first set begins the pool, and every
/// set where the one before ends.
pub proof fn sets_are_eight_in_a_row(pool: Seq<Pubkey>, index: int, position: int)
    requires
        0 <= index,
        8 * index + 8 <= pool.len(),
        0 <= position < 8,
    ensures
        set_at(pool, index).len() == 8,
        set_at(pool, index)[position] == pool[8 * index + position],
{
}

/// Intents drain slowly below eight in ten seconds. More drained intents, or
/// less time for as many, are never slower.
pub proof fn slow_is_below_eight_in_ten_seconds(
    drained: u64,
    tens: u64,
    more: u64,
    wall_nanos: u128,
)
    requires
        more >= drained,
    ensures
        drains_slowly(drained, (tens * 10_000_000_000) as u128) <==> drained < 8 * tens,
        drains_slowly(more, wall_nanos) ==> drains_slowly(drained, wall_nanos),
{
}

} // verus!
