//! A validator restarted under load: whatever it had confirmed must still be
//! there, and everything else must come to an end.
use crate::chain::{key, metas_of, Pubkey, SolanaInstruction};
use crate::bytes::from_le64;
use crate::redline::builders::expensive_hash_compute_at;
use crate::redline::instruction::Instruction;
use crate::redline::{ID, ID_OFFSET, ID_SIZE};
use crate::scenarios::common::TxStatus;
use crate::scenarios::conflict_ordering::HASH_INIT;
use crate::suite::{account_update_id, Tier};
use crate::text::{
    after_first, contains_bytes, first_at, first_digits, following, holds_bytes, run_of_digits,
    stands_at, what_follows_comes_behind_the_first,
};
use vstd::prelude::*;

verus! {

/// The rounds of a hash chain.
pub const HASH_ITERS: u32 = 1;

/// The signal that cannot be caught.
pub const SIGKILL: i32 = 9;

/// The slots of a superblock.
pub const SUPERBLOCK_SLOTS: u64 = 100;

/// The time of a block in milliseconds.
pub const BLOCKTIME_MS: u64 = 50;

/// How the log names the replay of the ledger: `"ledger_replay"`, in quotes.
pub const REPLAY_STEP: [u8; 15] = [
    34, 108, 101, 100, 103, 101, 114, 95, 114, 101, 112, 108, 97, 121, 34,
];

/// How the log names the processing of the ledger: `"maybe_process_ledger"`,
/// in quotes.
pub const LEDGER_TIMING_ANCHOR: [u8; 22] = [
    34, 109, 97, 121, 98, 101, 95, 112, 114, 111, 99, 101, 115, 115, 95, 108, 101, 100, 103, 101, 114, 34,
];

/// How the log names a duration: `duration_ms`.
pub const DURATION: [u8; 11] = [
    100, 117, 114, 97, 116, 105, 111, 110, 95, 109, 115,
];

/// The suite.
pub struct RestartUnderLoad;

impl RestartUnderLoad {
    /// The name that the suite reports under.
    pub fn name(&self) -> (r: &'static str)
        ensures
            r@ == "redline/restart_under_load"@,
    {
        "redline/restart_under_load"
    }
}

/// The size of a run.
#[derive(Clone, Copy, Debug)]
pub struct Profile {
    pub name: &'static str,
    pub lanes: usize,
    pub fill: usize,
    pub resume_timeout_secs: u64,
}

/// The size of a run at each tier that the suite offers.
pub open spec fn profile_of(tier: Tier) -> Option<Profile> {
    match tier {
        Tier::Lite => Some(
            Profile {
                name: "lite",
                lanes: 32,
                fill: 3_000,
                resume_timeout_secs: 60,
            },
        ),
        Tier::Full => Some(
            Profile {
                name: "full",
                lanes: 64,
                fill: 30_000,
                resume_timeout_secs: 90,
            },
        ),
        Tier::Soak => None,
        Tier::Deep => Some(
            Profile {
                name: "deep",
                lanes: 96,
                fill: 120_000,
                resume_timeout_secs: 120,
            },
        ),
    }
}

/// The size of a run at `tier`, if the suite offers it.
pub fn profile(tier: Tier) -> (r: Option<Profile>)
    ensures
        r == profile_of(tier),
{
    match tier {
        Tier::Lite => Some(
            Profile {
                name: "lite",
                lanes: 32,
                fill: 3_000,
                resume_timeout_secs: 60,
            },
        ),
        Tier::Full => Some(
            Profile {
                name: "full",
                lanes: 64,
                fill: 30_000,
                resume_timeout_secs: 90,
            },
        ),
        Tier::Soak => None,
        Tier::Deep => Some(
            Profile {
                name: "deep",
                lanes: 96,
                fill: 120_000,
                resume_timeout_secs: 120,
            },
        ),
    }
}

/// How the validator is stopped.
#[derive(Clone, Copy, Debug, PartialEq, Eq, Structural)]
pub enum Mode {
    Graceful,
    Sigkill,
}

impl Mode {
    /// The name of the mode.
    pub fn label(self) -> (r: &'static str)
        ensures
            r@ == match self {
                Mode::Graceful => "graceful"@,
                Mode::Sigkill => "sigkill"@,
            },
    {
        match self {
            Mode::Graceful => "graceful",
            Mode::Sigkill => "sigkill",
        }
    }

    /// Whether the validator gets no chance to clean up.
    pub fn hard_kill(self) -> (r: bool)
        ensures
            r == (self == Mode::Sigkill),
    {
        match self {
            Mode::Graceful => false,
            Mode::Sigkill => true,
        }
    }
}

/// What became of a transaction.
#[derive(Clone, Copy, Debug, PartialEq, Eq, Structural)]
pub enum Outcome {
    Unresolved,
    Rejected,
    Confirmed,
    Failed,
    Dropped,
}

/// A transaction that was sent on a lane.
#[derive(Clone, Copy, Debug, PartialEq, Eq, Structural)]
pub struct Record {
    pub id: u64,
    pub lane: usize,
    pub outcome: Outcome,
}

/// How many transactions came to which end.
#[derive(Clone, Copy, Debug, PartialEq, Eq, Structural)]
pub struct Tally {
    pub confirmed: usize,
    pub failed: usize,
    pub unresolved: usize,
    pub rejected: usize,
    pub dropped: usize,
}

/// How many transactions came to this end.
pub open spec fn count_of(records: Seq<Record>, outcome: Outcome) -> nat
    decreases records.len(),
{
    if records.len() == 0 {
        0
    } else {
        count_of(records.drop_last(), outcome) + if records.last().outcome == outcome {
            1nat
        } else {
            0nat
        }
    }
}

/// Every transaction came to one end.
pub proof fn outcomes_add_up(records: Seq<Record>)
    ensures
        count_of(records, Outcome::Confirmed) + count_of(records, Outcome::Failed) + count_of(
            records,
            Outcome::Unresolved,
        ) + count_of(records, Outcome::Rejected) + count_of(records, Outcome::Dropped)
            == records.len(),
    decreases records.len(),
{
    if records.len() > 0 {
        outcomes_add_up(records.drop_last());
    }
}

impl Tally {
    /// Counts some transactions.
    pub fn of(records: &[Record]) -> (r: Tally)
        ensures
            r.confirmed == count_of(records@, Outcome::Confirmed),
            r.failed == count_of(records@, Outcome::Failed),
            r.unresolved == count_of(records@, Outcome::Unresolved),
            r.rejected == count_of(records@, Outcome::Rejected),
            r.dropped == count_of(records@, Outcome::Dropped),
    {
        let mut tally = Tally { confirmed: 0, failed: 0, unresolved: 0, rejected: 0, dropped: 0 };
        let mut i: usize = 0;
        assert(records.len() == records@.len());
        while i < records.len()
            invariant
                i <= records@.len(),
                records@.len() <= usize::MAX,
                tally.confirmed == count_of(records@.take(i as int), Outcome::Confirmed),
                tally.failed == count_of(records@.take(i as int), Outcome::Failed),
                tally.unresolved == count_of(records@.take(i as int), Outcome::Unresolved),
                tally.rejected == count_of(records@.take(i as int), Outcome::Rejected),
                tally.dropped == count_of(records@.take(i as int), Outcome::Dropped),
            decreases records@.len() - i,
        {
            proof {
                outcomes_add_up(records@.take(i as int));
                assert(records@.take(i as int + 1).drop_last() =~= records@.take(i as int));
            }
            match records[i].outcome {
                Outcome::Confirmed => {
                    tally.confirmed = tally.confirmed + 1;
                },
                Outcome::Failed => {
                    tally.failed = tally.failed + 1;
                },
                Outcome::Unresolved => {
                    tally.unresolved = tally.unresolved + 1;
                },
                Outcome::Rejected => {
                    tally.rejected = tally.rejected + 1;
                },
                Outcome::Dropped => {
                    tally.dropped = tally.dropped + 1;
                },
            }
            i = i + 1;
        }
        assert(records@.take(i as int) =~= records@);
        tally
    }
}

/// The digits of the duration that a log gives for a step: those that follow
/// the first mention of a duration after the first mention of the step.
pub open spec fn timing_digits(log: Seq<u8>, step: Seq<u8>) -> Option<Seq<u8>> {
    match following(log, step) {
        Some(rest) => match following(rest, DURATION@) {
            Some(tail) => if run_of_digits(tail).len() > 0 {
                Some(run_of_digits(tail))
            } else {
                None
            },
            None => None,
        },
        None => None,
    }
}

/// The digits of the milliseconds that a log gives for a step.
pub fn timing_ms(log: &[u8], step: &[u8]) -> (r: Option<Vec<u8>>)
    ensures
        match r {
            Some(digits) => timing_digits(log@, step@) == Some(digits@),
            None => timing_digits(log@, step@) is None,
        },
{
    match after_first(log, step) {
        Some(rest) => match after_first(rest, DURATION.as_slice()) {
            Some(tail) => {
                let digits: Vec<u8> = first_digits(tail);
                if digits.len() > 0 {
                    Some(digits)
                } else {
                    None
                }
            },
            None => None,
        },
        None => None,
    }
}

/// Whether the ledger was replayed, if the log says anything of it.
pub fn replay_ran(log: &[u8]) -> (r: Option<bool>)
    ensures
        r == if holds_bytes(log@, LEDGER_TIMING_ANCHOR@) {
            Some(holds_bytes(log@, REPLAY_STEP@))
        } else {
            None
        },
{
    if contains_bytes(log, LEDGER_TIMING_ANCHOR.as_slice()) {
        Some(contains_bytes(log, REPLAY_STEP.as_slice()))
    } else {
        None
    }
}

/// The transaction of a lane with this id.
pub fn request(account: Pubkey, id: u64) -> (r: SolanaInstruction)
    ensures
        r.is(
            key(ID),
            metas_of(seq![account], false, true),
            (Instruction::ExpensiveHashCompute { id, init: key(HASH_INIT), iters: HASH_ITERS })
                .encoding(),
        ),
{
    let accounts: Vec<Pubkey> = vec![account];
    assert(accounts@ =~= seq![account]);
    expensive_hash_compute_at(
        Pubkey::new(ID),
        id,
        Pubkey::new(HASH_INIT),
        HASH_ITERS,
        accounts.as_slice(),
    )
}

/// What a look at a transaction says while its lane waits for it; `over` if
/// the lane is stopped or time is up. `None` to look again.
pub open spec fn seen(status: Option<TxStatus>, over: bool) -> Option<Outcome> {
    match status {
        Some(TxStatus { failed: Some(_), .. }) => Some(Outcome::Failed),
        Some(TxStatus { confirmed: true, .. }) => Some(Outcome::Confirmed),
        _ => if over {
            Some(Outcome::Unresolved)
        } else {
            None
        },
    }
}

/// What a look at a transaction says while its lane waits for it.
pub fn await_status(status: Option<TxStatus>, over: bool) -> (r: Option<Outcome>)
    ensures
        r == seen(status, over),
{
    if let Some(found) = status {
        if found.failed.is_some() {
            return Some(Outcome::Failed);
        }
        if found.confirmed {
            return Some(Outcome::Confirmed);
        }
    }
    if over {
        Some(Outcome::Unresolved)
    } else {
        None
    }
}

/// Whether an outcome is still open after a restart.
pub open spec fn is_open(outcome: Outcome) -> bool {
    outcome == Outcome::Unresolved || outcome == Outcome::Rejected
}

/// Whether an outcome is still open after a restart.
pub fn needs_resolving(outcome: Outcome) -> (r: bool)
    ensures
        r == is_open(outcome),
{
    match outcome {
        Outcome::Unresolved | Outcome::Rejected => true,
        _ => false,
    }
}

/// What a look at the ledger says of a transaction whose end is open: `found`
/// is whether it is there, and whether it succeeded. `None` to look again.
pub fn resolve(found: Option<bool>, late: bool) -> (r: Option<Outcome>)
    ensures
        r == match found {
            Some(true) => Some(Outcome::Confirmed),
            Some(false) => Some(Outcome::Failed),
            None => if late {
                Some(Outcome::Dropped)
            } else {
                None
            },
        },
        r matches Some(outcome) ==> !is_open(outcome),
{
    match found {
        Some(true) => Some(Outcome::Confirmed),
        Some(false) => Some(Outcome::Failed),
        None => if late {
            Some(Outcome::Dropped)
        } else {
            None
        },
    }
}

/// Whether a lane confirmed this transaction.
pub open spec fn confirmed_on(record: Record, lane: int) -> bool {
    record.outcome == Outcome::Confirmed && record.lane == lane
}

/// Whether this is the last id that a lane confirmed.
pub open spec fn is_last_confirmed(expected: Option<u64>, records: Seq<Record>, lane: int) -> bool {
    match expected {
        Some(id) => {
            &&& exists|i: int|
                0 <= i < records.len() && #[trigger] confirmed_on(records[i], lane)
                    && records[i].id == id
            &&& forall|i: int|
                0 <= i < records.len() && #[trigger] confirmed_on(records[i], lane)
                    ==> records[i].id <= id
        },
        None => forall|i: int|
            0 <= i < records.len() ==> !#[trigger] confirmed_on(records[i], lane),
    }
}

/// The last id that each lane confirmed.
pub fn expected_ids(records: &[Record], lanes: usize) -> (r: Vec<Option<u64>>)
    requires
        forall|i: int| 0 <= i < records@.len() ==> (#[trigger] records@[i]).lane < lanes,
    ensures
        r@.len() == lanes,
        forall|lane: int|
            0 <= lane < lanes ==> is_last_confirmed(#[trigger] r@[lane], records@, lane),
{
    let mut expected: Vec<Option<u64>> = Vec::new();
    let mut k: usize = 0;
    while k < lanes
        invariant
            k <= lanes,
            expected@.len() == k,
            forall|lane: int| 0 <= lane < k ==> (#[trigger] expected@[lane]) is None,
        decreases lanes - k,
    {
        expected.push(None);
        k = k + 1;
    }
    let mut i: usize = 0;
    while i < records.len()
        invariant
            i <= records@.len(),
            expected@.len() == lanes,
            forall|j: int| 0 <= j < records@.len() ==> (#[trigger] records@[j]).lane < lanes,
            forall|lane: int|
                0 <= lane < lanes ==> is_last_confirmed(
                    #[trigger] expected@[lane],
                    records@.take(i as int),
                    lane,
                ),
        decreases records@.len() - i,
    {
        let record: Record = records[i];
        let ghost before = expected@;
        if record.outcome == Outcome::Confirmed {
            let later: bool = match expected[record.lane] {
                Some(current) => record.id > current,
                None => true,
            };
            if later {
                expected.set(record.lane, Some(record.id));
            }
        }
        proof {
            let past = records@.take(i as int);
            let now = records@.take(i as int + 1);
            assert forall|lane: int| 0 <= lane < lanes implies is_last_confirmed(
                #[trigger] expected@[lane],
                now,
                lane,
            ) by {
                assert(is_last_confirmed(before[lane], past, lane));
                assert(now[i as int] == record);
                assert forall|j: int| 0 <= j < i implies now[j] == past[j] by {}
                if let Some(id) = before[lane] {
                    let j = choose|j: int|
                        0 <= j < past.len() && #[trigger] confirmed_on(past[j], lane)
                            && past[j].id == id;
                    assert(confirmed_on(now[j], lane));
                }
                if confirmed_on(record, lane) {
                    assert(confirmed_on(now[i as int], lane));
                }
                assert forall|j: int|
                    0 <= j < now.len() && #[trigger] confirmed_on(now[j], lane) && j < i implies
                    confirmed_on(past[j], lane) by {}
            }
        }
        i = i + 1;
    }
    assert(records@.take(i as int) =~= records@);
    expected
}

/// What the state of a lane can be faulted for.
#[derive(Clone, Copy, Debug, PartialEq, Eq, Structural)]
pub enum StateFault {
    /// The account is too small to hold an id.
    TooShort,
    /// The account holds another id.
    WrongId { found: u64 },
}

/// Holds the account of a lane against the last id that the lane confirmed.
pub fn check_account(data: &[u8], expected_id: u64) -> (r: Result<(), StateFault>)
    ensures
        r == if data@.len() < ID_OFFSET + ID_SIZE {
            Err::<(), StateFault>(StateFault::TooShort)
        } else {
            let found = from_le64(data@.subrange(ID_OFFSET as int, ID_OFFSET + ID_SIZE));
            if found != expected_id {
                Err(StateFault::WrongId { found })
            } else {
                Ok(())
            }
        },
        r is Ok <==> data@.len() >= 40 && from_le64(data@.subrange(32, 40)) == expected_id,
        r == Err::<(), _>(StateFault::TooShort) <==> data@.len() < 40,
{
    match account_update_id(data) {
        None => Err(StateFault::TooShort),
        Some(found) => if found != expected_id {
            Err(StateFault::WrongId { found })
        } else {
            Ok(())
        },
    }
}

/// The places of the confirmed transactions.
pub open spec fn confirmed_places(records: Seq<Record>) -> Seq<usize>
    decreases records.len(),
{
    if records.len() == 0 {
        Seq::empty()
    } else {
        let before = confirmed_places(records.drop_last());
        if records.last().outcome == Outcome::Confirmed {
            before.push((records.len() - 1) as usize)
        } else {
            before
        }
    }
}

/// The places of the confirmed transactions, all of which are looked up after
/// a restart.
pub fn sampled(records: &[Record]) -> (r: Vec<usize>)
    ensures
        r@ == confirmed_places(records@),
{
    let mut places: Vec<usize> = Vec::new();
    let mut i: usize = 0;
    while i < records.len()
        invariant
            i <= records@.len(),
            places@ == confirmed_places(records@.take(i as int)),
        decreases records@.len() - i,
    {
        assert(records@.take(i as int + 1).drop_last() =~= records@.take(i as int));
        if records[i].outcome == Outcome::Confirmed {
            places.push(i);
        }
        i = i + 1;
    }
    assert(records@.take(i as int) =~= records@);
    places
}

/// Every confirmed transaction is looked up after a restart, and nothing else.
pub proof fn every_confirmed_transaction_is_looked_up(records: Seq<Record>, place: int)
    requires
        0 <= place < records.len() <= usize::MAX,
    ensures
        confirmed_places(records).contains(place as usize) <==> records[place].outcome
            == Outcome::Confirmed,
    decreases records.len(),
{
    let before = records.drop_last();
    let last = (records.len() - 1) as usize;
    let places = confirmed_places(before);
    lemma_places_are_earlier(before);
    if place < last {
        every_confirmed_transaction_is_looked_up(before, place);
    }
    if records.last().outcome == Outcome::Confirmed {
        let more = places.push(last);
        assert(more[places.len() as int] == last);
        if places.contains(place as usize) {
            let at = choose|at: int| 0 <= at < places.len() && places[at] == place as usize;
            assert(more[at] == place as usize);
        }
    }
}

/// The places of transactions lie among them.
proof fn lemma_places_are_earlier(records: Seq<Record>)
    requires
        records.len() <= usize::MAX,
    ensures
        forall|i: int|
            0 <= i < confirmed_places(records).len() ==> (#[trigger] confirmed_places(records)[i])
                < records.len(),
    decreases records.len(),
{
    if records.len() > 0 {
        let before = records.drop_last();
        lemma_places_are_earlier(before);
        assert forall|i: int| 0 <= i < confirmed_places(records).len() implies (
        #[trigger] confirmed_places(records)[i]) < records.len() by {
            if i < confirmed_places(before).len() {
                assert(confirmed_places(records)[i] == confirmed_places(before)[i]);
            }
        }
    }
}

/// Whether the ledger still holds a confirmed transaction: it finds it, and
/// without an error.
pub fn still_confirmed(found: Option<bool>) -> (r: bool)
    ensures
        r == (found == Some(true)),
{
    match found {
        Some(succeeded) => succeeded,
        None => false,
    }
}

/// How a restart went.
#[derive(Clone, Copy, Debug, PartialEq, Eq, Structural)]
pub struct RestartTiming {
    pub needed_sigkill: bool,
    pub exit_code: Option<i32>,
    pub exit_signal: Option<i32>,
    pub slot_before: Option<u64>,
    pub slot_after: Option<u64>,
}

/// What a restart can be faulted for.
#[derive(Clone, Copy, Debug, PartialEq, Eq, Structural)]
pub enum ExitFault {
    /// It had to be killed.
    NotGraceful,
    /// It did not exit cleanly.
    NotClean,
    /// It did not die of the signal.
    NotKilled,
    /// It did not reopen its database.
    SlotCollapsed,
}

/// What a restart is faulted for.
pub open spec fn exit_fault(mode: Mode, timing: RestartTiming) -> Option<ExitFault> {
    if mode == Mode::Graceful && timing.needed_sigkill {
        Some(ExitFault::NotGraceful)
    } else if mode == Mode::Graceful && timing.exit_code != Some(0i32) {
        Some(ExitFault::NotClean)
    } else if mode == Mode::Sigkill && timing.exit_signal != Some(SIGKILL) {
        Some(ExitFault::NotKilled)
    } else if timing.slot_before is Some && timing.slot_after is Some && timing.slot_after->0
        < timing.slot_before->0 / 2 {
        Some(ExitFault::SlotCollapsed)
    } else {
        None
    }
}

/// Holds a restart against what is required of it.
pub fn check_exit(mode: Mode, timing: &RestartTiming) -> (r: Result<(), ExitFault>)
    ensures
        match r {
            Ok(_) => exit_fault(mode, *timing) is None,
            Err(fault) => exit_fault(mode, *timing) == Some(fault),
        },
{
    match mode {
        Mode::Graceful => {
            if timing.needed_sigkill {
                return Err(ExitFault::NotGraceful);
            }
            match timing.exit_code {
                Some(0) => {},
                _ => {
                    return Err(ExitFault::NotClean);
                },
            }
        },
        Mode::Sigkill => {
            match timing.exit_signal {
                Some(9) => {},
                _ => {
                    return Err(ExitFault::NotKilled);
                },
            }
        },
    }
    if let (Some(before), Some(after)) = (timing.slot_before, timing.slot_after) {
        if after < before / 2 {
            return Err(ExitFault::SlotCollapsed);
        }
    }
    Ok(())
}

/// What a run can be faulted for besides.
#[derive(Clone, Copy, Debug, PartialEq, Eq, Structural)]
pub enum LoadFault {
    /// The fill did not grow the database.
    NoGrowth,
    /// Nothing was confirmed before the restart.
    NothingConfirmed,
    /// Some transactions have no end after the restart.
    StillOpen,
    /// The resumed load confirmed nothing.
    NothingResumed,
    /// The resumed load did not drain cleanly.
    ResumeNotClean,
}

/// Holds the fill against what is required of it.
pub fn check_fill(fill_growth: u64, at_kill: &Tally) -> (r: Result<(), LoadFault>)
    ensures
        r == if fill_growth == 0 {
            Err::<(), LoadFault>(LoadFault::NoGrowth)
        } else if at_kill.confirmed == 0 {
            Err(LoadFault::NothingConfirmed)
        } else {
            Ok(())
        },
        r is Ok <==> fill_growth > 0 && at_kill.confirmed > 0,
{
    if fill_growth == 0 {
        return Err(LoadFault::NoGrowth);
    }
    if at_kill.confirmed == 0 {
        return Err(LoadFault::NothingConfirmed);
    }
    Ok(())
}

/// Whether every transaction has come to its end.
pub fn check_resolved(resolved: &Tally) -> (r: Result<(), LoadFault>)
    ensures
        r == if resolved.unresolved != 0 || resolved.rejected != 0 {
            Err::<(), LoadFault>(LoadFault::StillOpen)
        } else {
            Ok(())
        },
        r is Ok <==> resolved.unresolved == 0 && resolved.rejected == 0,
{
    if resolved.unresolved != 0 || resolved.rejected != 0 {
        Err(LoadFault::StillOpen)
    } else {
        Ok(())
    }
}

/// Holds the resumed load against what is required of it.
pub fn check_resume(resume: &Tally) -> (r: Result<(), LoadFault>)
    ensures
        r == if resume.confirmed == 0 {
            Err::<(), LoadFault>(LoadFault::NothingResumed)
        } else if resume.unresolved != 0 || resume.rejected != 0 || resume.dropped != 0
            || resume.failed != 0 {
            Err(LoadFault::ResumeNotClean)
        } else {
            Ok(())
        },
        r is Ok <==> resume.confirmed > 0 && resume.unresolved == 0 && resume.rejected == 0
            && resume.dropped == 0 && resume.failed == 0,
        r == Err::<(), _>(LoadFault::NothingResumed) <==> resume.confirmed == 0,
{
    if resume.confirmed == 0 {
        return Err(LoadFault::NothingResumed);
    }
    if resume.unresolved != 0 || resume.rejected != 0 || resume.dropped != 0 || resume.failed
        != 0 {
        return Err(LoadFault::ResumeNotClean);
    }
    Ok(())
}

/// A restart by signal is accepted exactly where the process died of signal 9
/// and, as far as both slots are known, the slot afterwards is at least half
/// of the one before. How it exited otherwise does not matter.
pub proof fn a_kill_is_known_by_its_signal(timing: RestartTiming)
    ensures
        exit_fault(Mode::Sigkill, timing) is None <==> timing.exit_signal == Some(9i32) && (
        timing.slot_before matches Some(before) ==> timing.slot_after matches Some(after) ==> 2
            * after + 1 >= before),
        exit_fault(Mode::Sigkill, timing) == Some(ExitFault::NotKilled) <==> timing.exit_signal
            != Some(9i32),
        exit_fault(Mode::Sigkill, timing) == Some(ExitFault::SlotCollapsed) <==> {
            &&& timing.exit_signal == Some(9i32)
            &&& timing.slot_before matches Some(before) && timing.slot_after matches Some(after)
                && 2 * after + 1 < before
        },
{
}

/// Two restarts by signal that differ in their exit codes only, and in whether
/// the signal was a last resort, are judged alike.
pub proof fn a_kill_has_no_exit_code(
    timing: RestartTiming,
    exit_code: Option<i32>,
    needed_sigkill: bool,
)
    ensures
        exit_fault(Mode::Sigkill, RestartTiming { exit_code, needed_sigkill, ..timing })
            == exit_fault(Mode::Sigkill, timing),
{
}

/// A graceful restart is accepted exactly where the process did not have to be
/// killed and exited with code zero, and the slot did not collapse. A process
/// that had to be killed is faulted for that, whatever its code.
pub proof fn a_graceful_exit_is_clean(timing: RestartTiming, exit_signal: Option<i32>)
    ensures
        exit_fault(Mode::Graceful, timing) is None <==> !timing.needed_sigkill && timing.exit_code
            == Some(0i32) && (timing.slot_before matches Some(before)
            ==> timing.slot_after matches Some(after) ==> 2 * after + 1 >= before),
        exit_fault(Mode::Graceful, timing) == Some(ExitFault::NotGraceful)
            <==> timing.needed_sigkill,
        exit_fault(Mode::Graceful, timing) == Some(ExitFault::NotClean) <==> !timing.needed_sigkill
            && timing.exit_code != Some(0i32),
        exit_fault(Mode::Graceful, RestartTiming { exit_signal, ..timing }) == exit_fault(
            Mode::Graceful,
            timing,
        ),
{
}

/// Outcomes are counted record by record: one record counts for its own
/// outcome and for no other, and two lists count what each of them counts.
pub proof fn outcomes_are_counted_one_by_one(
    one: Seq<Record>,
    other: Seq<Record>,
    record: Record,
    outcome: Outcome,
)
    ensures
        count_of(one + other, outcome) == count_of(one, outcome) + count_of(other, outcome),
        count_of(one.push(record), outcome) == count_of(one, outcome) + if record.outcome
            == outcome {
            1nat
        } else {
            0nat
        },
        count_of(Seq::empty(), outcome) == 0,
    decreases other.len(),
{
    assert(one.push(record).drop_last() =~= one);
    if other.len() == 0 {
        assert(one + other =~= one);
    } else {
        outcomes_are_counted_one_by_one(one, other.drop_last(), record, outcome);
        assert((one + other).drop_last() =~= one + other.drop_last());
        assert((one + other).last() == other.last());
    }
}

/// A transaction with an error has failed even where it is confirmed. One that
/// is neither stays open until the time is over.
pub proof fn a_status_settles_the_outcome(status: Option<TxStatus>, over: bool)
    ensures
        seen(status, over) == Some(Outcome::Failed) <==> (status matches Some(s)
            && s.failed is Some),
        seen(status, over) == Some(Outcome::Confirmed) <==> (status matches Some(s)
            && s.failed is None && s.confirmed),
        seen(status, over) is None ==> !over,
        seen(status, over) == Some(Outcome::Unresolved) ==> over && (status matches Some(s) ==> {
            s.failed is None && !s.confirmed
        }),
        seen(status, over) is None || seen(status, over) == Some(Outcome::Failed) || seen(
            status,
            over,
        ) == Some(Outcome::Confirmed) || seen(status, over) == Some(Outcome::Unresolved),
{
}

/// Confirmed transactions are looked up in the order in which they were sent,
/// each of them once.
pub proof fn confirmed_transactions_are_looked_up_in_order(records: Seq<Record>)
    requires
        records.len() <= usize::MAX,
    ensures
        forall|i: int, j: int|
            0 <= i < j < confirmed_places(records).len() ==> #[trigger] confirmed_places(records)[i]
                < #[trigger] confirmed_places(records)[j],
    decreases records.len(),
{
    if records.len() > 0 {
        confirmed_transactions_are_looked_up_in_order(records.drop_last());
        lemma_places_are_earlier(records.drop_last());
        let before = confirmed_places(records.drop_last());
        let places = confirmed_places(records);
        assert forall|i: int, j: int| 0 <= i < j < places.len() implies #[trigger] places[i]
            < #[trigger] places[j] by {
            assert(places[i] == before[i]);
            if j < before.len() {
                assert(places[j] == before[j]);
            }
        }
    }
}

/// The duration of a step is read behind the first place that names the step:
/// the first digits behind the word that announces it.
pub proof fn a_duration_follows_its_step(log: Seq<u8>, step: Seq<u8>, at: int, from: int)
    requires
        first_at(log, step, at),
        first_at(log.skip(at + step.len()), DURATION@, from),
    ensures
        ({
            let tail = log.skip(at + step.len() + from + 11);
            let digits = run_of_digits(tail);
            timing_digits(log, step) == if digits.len() > 0 {
                Some(digits)
            } else {
                None
            }
        }),
{
    what_follows_comes_behind_the_first(log, step, at);
    let rest = log.skip(at + step.len());
    what_follows_comes_behind_the_first(rest, DURATION@, from);
    assert(DURATION@.len() == 11);
    assert(rest.skip(from + 11) =~= log.skip(at + step.len() + from + 11));
}

/// A step that the log does not name, or names without a duration behind it,
/// has none.
pub proof fn no_step_no_duration(log: Seq<u8>, step: Seq<u8>)
    ensures
        !holds_bytes(log, step) ==> timing_digits(log, step) is None,
        timing_digits(log, step) matches Some(digits) ==> digits.len() > 0,
{
    if !holds_bytes(log, step) {
        assert forall|at: int| !first_at(log, step, at) by {
            assert(!stands_at(log, step, at));
        }
    }
}

/// There is one last confirmed id on a lane, if there is any: the largest of
/// those that were confirmed there, whatever else was sent.
pub proof fn the_last_confirmed_id_is_one(
    one: Option<u64>,
    other: Option<u64>,
    records: Seq<Record>,
    lane: int,
    i: int,
)
    requires
        is_last_confirmed(one, records, lane),
        is_last_confirmed(other, records, lane),
        0 <= i < records.len(),
    ensures
        one == other,
        records[i].outcome == Outcome::Confirmed && records[i].lane == lane ==> (one matches Some(
            id,
        ) && id >= records[i].id),
        records[i].outcome != Outcome::Confirmed ==> !confirmed_on(records[i], lane),
{
    if records[i].outcome == Outcome::Confirmed && records[i].lane == lane {
        assert(confirmed_on(records[i], lane));
    }
    if let Some(id) = one {
        let k = choose|k: int|
            0 <= k < records.len() && #[trigger] confirmed_on(records[k], lane) && records[k].id
                == id;
        assert(confirmed_on(records[k], lane));
    }
    if let Some(id) = other {
        let k = choose|k: int|
            0 <= k < records.len() && #[trigger] confirmed_on(records[k], lane) && records[k].id
                == id;
        assert(confirmed_on(records[k], lane));
    }
}

/// What is still open was not answered, or was rejected before it was sent on.
pub proof fn only_two_outcomes_are_open(outcome: Outcome)
    ensures
        !is_open(outcome) <==> outcome == Outcome::Confirmed || outcome == Outcome::Failed
            || outcome == Outcome::Dropped,
{
}

} // verus!
