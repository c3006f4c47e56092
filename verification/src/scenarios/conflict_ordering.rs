//! Chains of conflicting transactions beside independent work: whatever the
//! executors do, every pair of accounts must end at the fold of the order in
//! which its transactions were accepted.
use crate::bytes::{
    append_bytes, from_le64, joined, le32, le64, read_u64, same_bytes, u32_bytes,
};
use crate::chain::{key, metas_of, AccountMeta, Pubkey, SolanaInstruction};
use crate::hash::{chained, fold_hash, folded, hash_bytes, hash_chain, sha256};
use crate::ids::COMPUTE_BUDGET_ID;
use crate::redline::builders::{expensive_hash_compute, hash_fold};
use crate::redline::instruction::Instruction;
use crate::redline::{HASH_OFFSET, HASH_SIZE, ID, ID_OFFSET, ID_SIZE};
use crate::suite::{on_thread, thread_payers, Tier};
use crate::text::{decimal, push_decimal};
use vstd::prelude::*;
use vstd::slice::slice_subrange;
use vstd::string::StringExecFns;

verus! {

/// Accounts that are prepared at a time.
pub const PREP_CHUNK: usize = 32;

/// The longest time without progress under load, in milliseconds.
pub const STALL_BOUND_MS: u64 = 10_000;

/// The compute limit of a heavy transaction.
pub const CU_LIMIT: u32 = 1_400_000;

/// Unconfirmed transactions of the open load.
pub const OPEN_CONCURRENCY: usize = 128;

/// Lanes of the bounded load for every executor.
pub const LANES_PER_EXECUTOR: usize = 12;

/// Executors that the suite needs.
pub const MIN_EXECUTORS: u64 = 2;

/// Transactions of a chain.
pub const STEPS: u64 = 3;

/// Payers of a pair, one for every step.
pub const PAYERS_PER_PAIR: usize = 3;

/// The start of every independent hash chain.
pub const HASH_INIT: [u8; 32] = [
    7, 7, 7, 7, 7, 7, 7, 7, 7, 7, 7, 7, 7, 7, 7, 7, 7, 7, 7, 7, 7, 7, 7, 7, 7, 7, 7, 7, 7, 7, 7, 7,
];

/// The suite.
pub struct ConflictOrdering;

impl ConflictOrdering {
    /// The name that the suite reports under.
    pub fn name(&self) -> (r: &'static str)
        ensures
            r@ == "redline/conflict_ordering"@,
    {
        "redline/conflict_ordering"
    }
}

/// The size of a run.
#[derive(Clone, Copy, Debug)]
pub struct Profile {
    pub name: &'static str,
    pub pairs: usize,
    pub chains: u64,
    pub batches: usize,
    pub heavy_iters: u32,
    pub independent_accounts: usize,
    pub independent_iters: u32,
    pub driver_threads: usize,
    pub phase_span_secs: u64,
}

/// The size of a run at each tier that the suite offers.
pub open spec fn profile_of(tier: Tier) -> Option<Profile> {
    match tier {
        Tier::Lite => Some(
            Profile {
                name: "lite",
                pairs: 8,
                chains: 40,
                batches: 3,
                heavy_iters: 180,
                independent_accounts: 256,
                independent_iters: 180,
                driver_threads: 4,
                phase_span_secs: 4,
            },
        ),
        Tier::Full => Some(
            Profile {
                name: "full",
                pairs: 32,
                chains: 200,
                batches: 5,
                heavy_iters: 180,
                independent_accounts: 512,
                independent_iters: 180,
                driver_threads: 8,
                phase_span_secs: 10,
            },
        ),
        Tier::Soak => Some(
            Profile {
                name: "soak",
                pairs: 64,
                chains: 400,
                batches: 12,
                heavy_iters: 180,
                independent_accounts: 1024,
                independent_iters: 180,
                driver_threads: 8,
                phase_span_secs: 20,
            },
        ),
        Tier::Deep => None,
    }
}

/// The size of a run at `tier`, if the suite offers it.
pub fn profile(tier: Tier) -> (r: Option<Profile>)
    ensures
        r == profile_of(tier),
{
    match tier {
        Tier::Lite => Some(
            Profile {
                name: "lite",
                pairs: 8,
                chains: 40,
                batches: 3,
                heavy_iters: 180,
                independent_accounts: 256,
                independent_iters: 180,
                driver_threads: 4,
                phase_span_secs: 4,
            },
        ),
        Tier::Full => Some(
            Profile {
                name: "full",
                pairs: 32,
                chains: 200,
                batches: 5,
                heavy_iters: 180,
                independent_accounts: 512,
                independent_iters: 180,
                driver_threads: 8,
                phase_span_secs: 10,
            },
        ),
        Tier::Soak => Some(
            Profile {
                name: "soak",
                pairs: 64,
                chains: 400,
                batches: 12,
                heavy_iters: 180,
                independent_accounts: 1024,
                independent_iters: 180,
                driver_threads: 8,
                phase_span_secs: 20,
            },
        ),
        Tier::Deep => None,
    }
}

/// A transaction of a chain: on the first account, on both, or on the second.
#[derive(Clone, Copy, Debug, PartialEq, Eq, Hash, Structural)]
pub enum Step {
    X,
    Y,
    Z,
}

impl Step {
    /// Where the step stands in its chain.
    pub open spec fn place(self) -> int {
        match self {
            Step::X => 0,
            Step::Y => 1,
            Step::Z => 2,
        }
    }

    /// The step at a place in its chain.
    pub open spec fn at(place: int) -> Step {
        if place == 0 {
            Step::X
        } else if place == 1 {
            Step::Y
        } else {
            Step::Z
        }
    }

    /// The steps of a chain, in the order in which they are sent.
    pub fn all() -> (r: [Step; 3])
        ensures
            r@ == seq![Step::X, Step::Y, Step::Z],
    {
        [Step::X, Step::Y, Step::Z]
    }

    /// Where the step stands in its chain.
    pub fn index(self) -> (r: usize)
        ensures
            r == self.place(),
    {
        match self {
            Step::X => 0,
            Step::Y => 1,
            Step::Z => 2,
        }
    }

    /// The step and the accounts it works on.
    pub fn label(self) -> (r: &'static str)
        ensures
            r@ == match self {
                Step::X => "X(A)"@,
                Step::Y => "Y(A,B)"@,
                Step::Z => "Z(B)"@,
            },
    {
        match self {
            Step::X => "X(A)",
            Step::Y => "Y(A,B)",
            Step::Z => "Z(B)",
        }
    }
}

/// The step of a chain that does the heavy work.
pub fn heavy_step(chain: u64) -> (r: Step)
    ensures
        r == Step::at(chain as int % 3),
{
    let place: u64 = chain % STEPS;
    if place == 0 {
        Step::X
    } else if place == 1 {
        Step::Y
    } else {
        Step::Z
    }
}

/// Any three chains in a row put the heavy work on each of the steps once.
pub proof fn heavy_step_rotates(chain: int, step: Step)
    requires
        chain >= 0,
    ensures
        exists|k: int| chain <= k < chain + 3 && Step::at(#[trigger] (k % 3)) == step,
        Step::at(chain % 3) != Step::at((chain + 1) % 3),
        Step::at(chain % 3) != Step::at((chain + 2) % 3),
        Step::at((chain + 1) % 3) != Step::at((chain + 2) % 3),
{
    let place = step.place();
    let k = chain + (place - chain % 3 + 3) % 3;
    assert(k % 3 == place);
    assert(Step::at(k % 3) == step);
}

/// The pairs and the chains of each that ids are given to.
#[derive(Clone, Copy, Debug)]
pub struct ChainSpace {
    pub pairs: u64,
    pub chains: u64,
}

impl ChainSpace {
    /// The id of a step: steps are numbered from one on, chain by chain, pair
    /// by pair and batch by batch.
    pub open spec fn number(self, batch: int, pair: int, chain: int, step: Step) -> int {
        ((batch * self.pairs + pair) * self.chains + chain) * 3 + step.place() + 1
    }

    /// The id of a step.
    pub fn step_id(&self, batch: u64, pair: u64, chain: u64, step: Step) -> (r: u64)
        requires
            self.number(batch as int, pair as int, chain as int, step) <= u64::MAX,
        ensures
            r == self.number(batch as int, pair as int, chain as int, step),
    {
        proof {
            let first = batch * self.pairs;
            let second = (first + pair) * self.chains;
            assert(0 <= first) by (nonlinear_arith)
                requires
                    first == batch * self.pairs,
            ;
            assert(0 <= second) by (nonlinear_arith)
                requires
                    second == (first + pair) * self.chains,
                    first >= 0,
            ;
            if self.chains == 0 {
                assert(second == 0) by (nonlinear_arith)
                    requires
                        second == (first + pair) * self.chains,
                        self.chains == 0,
                ;
            } else {
                assert(second >= first + pair) by (nonlinear_arith)
                    requires
                        second == (first + pair) * self.chains,
                        first >= 0,
                        self.chains >= 1,
                ;
            }
        }
        if self.chains == 0 {
            assert(self.number(batch as int, pair as int, chain as int, step) == chain * 3
                + step.place() + 1) by (nonlinear_arith)
                requires
                    self.chains == 0,
                    self.number(batch as int, pair as int, chain as int, step) == ((batch
                        * self.pairs + pair) * self.chains + chain) * 3 + step.place() + 1,
            ;
            return chain * STEPS + step.index() as u64 + 1;
        }
        let ordinal: u64 = (batch * self.pairs + pair) * self.chains + chain;
        ordinal * STEPS + step.index() as u64 + 1
    }
}

/// Digits of a mixed-radix number are determined by the number.
proof fn lemma_radix(n: int, a: int, b: int, c: int, d: int)
    by (nonlinear_arith)
    requires
        0 <= b < n,
        0 <= d < n,
        a * n + b == c * n + d,
    ensures
        a == c,
        b == d,
{
}

/// No two steps share an id.
pub proof fn step_ids_are_unique(
    space: ChainSpace,
    batch: int,
    pair: int,
    chain: int,
    step: Step,
    other_batch: int,
    other_pair: int,
    other_chain: int,
    other_step: Step,
)
    requires
        0 <= batch,
        0 <= other_batch,
        0 <= pair < space.pairs,
        0 <= other_pair < space.pairs,
        0 <= chain < space.chains,
        0 <= other_chain < space.chains,
        space.number(batch, pair, chain, step) == space.number(
            other_batch,
            other_pair,
            other_chain,
            other_step,
        ),
    ensures
        batch == other_batch,
        pair == other_pair,
        chain == other_chain,
        step == other_step,
{
    let a = batch * space.pairs + pair;
    let c = other_batch * space.pairs + other_pair;
    lemma_radix(
        3,
        a * space.chains + chain,
        step.place(),
        c * space.chains + other_chain,
        other_step.place(),
    );
    lemma_radix(space.chains as int, a, chain, c, other_chain);
    lemma_radix(space.pairs as int, batch, pair, other_batch, other_pair);
}

/// The ids ascend by batch, then by pair, then by chain, then by step, and so
/// within a pair in the order in which its steps are sent.
pub proof fn step_ids_follow_the_accepted_order(
    space: ChainSpace,
    batch: int,
    pair: int,
    chain: int,
    step: Step,
    later_batch: int,
    later_pair: int,
    later_chain: int,
    later_step: Step,
)
    requires
        0 <= batch,
        0 <= pair < space.pairs,
        0 <= later_pair < space.pairs,
        0 <= chain < space.chains,
        0 <= later_chain < space.chains,
        batch < later_batch || (batch == later_batch && (pair < later_pair || (pair == later_pair
            && (chain < later_chain || (chain == later_chain && step.place()
            < later_step.place()))))),
    ensures
        space.number(batch, pair, chain, step) < space.number(
            later_batch,
            later_pair,
            later_chain,
            later_step,
        ),
{
    let n = space.pairs as int;
    let m = space.chains as int;
    let a = batch * n + pair;
    let c = later_batch * n + later_pair;
    if batch < later_batch {
        assert(batch * n + n <= later_batch * n) by (nonlinear_arith)
            requires
                batch + 1 <= later_batch,
                n >= 1,
        ;
    }
    if a < c {
        assert(c * m + later_chain >= a * m + chain + 1) by (nonlinear_arith)
            requires
                c >= a + 1,
                0 <= chain < m,
                0 <= later_chain,
        ;
    }
}

/// Splits the chains of a batch over its two phases.
pub fn phase_ranges(chains: u64) -> (r: [(u64, u64); 2])
    ensures
        r@ == seq![
            (0u64, ((chains + 1) / 2) as u64),
            (((chains + 1) / 2) as u64, chains),
        ],
{
    let split: u64 = chains / 2 + chains % 2;
    assert(split == (chains + 1) / 2);
    [(0, split), (split, chains)]
}

/// The two phases take all chains between them, without overlap, and each
/// gets at least one of two or more.
pub proof fn phases_partition_the_chains(chains: int, chain: int)
    requires
        0 <= chain < chains,
    ensures
        ({
            let split = (chains + 1) / 2;
            &&& (0 <= chain < split) != (split <= chain < chains)
            &&& chains >= 2 ==> 1 <= split && split + 1 <= chains
        }),
{
}

/// What a pair of accounts holds according to the accepted transactions.
#[derive(Clone, Copy, Debug, PartialEq, Eq)]
pub struct PairModel {
    pub a: [u8; 32],
    pub b: [u8; 32],
    pub a_id: u64,
    pub b_id: u64,
}

/// The hashes and ids of a pair.
#[verifier::ext_equal]
pub struct PairState {
    pub a: Seq<u8>,
    pub b: Seq<u8>,
    pub a_id: u64,
    pub b_id: u64,
}

impl View for PairModel {
    type V = PairState;

    open spec fn view(&self) -> PairState {
        PairState { a: self.a@, b: self.b@, a_id: self.a_id, b_id: self.b_id }
    }
}

impl PairState {
    /// The pair after one step: the step reads the hashes of its accounts and
    /// leaves their fold, and its id, in each of them.
    pub open spec fn after(self, step: Step, id: u64, iters: nat) -> PairState {
        match step {
            Step::X => PairState {
                a: folded(id, seq![self.a], iters),
                a_id: id,
                ..self
            },
            Step::Y => PairState {
                a: folded(id, seq![self.a, self.b], iters),
                b: folded(id, seq![self.a, self.b], iters),
                a_id: id,
                b_id: id,
            },
            Step::Z => PairState { b: folded(id, seq![self.b], iters), b_id: id, ..self },
        }
    }
}

impl Default for PairModel {
    /// Two blank accounts.
    fn default() -> (r: PairModel)
        ensures
            r.a@ == Seq::new(32, |i: int| 0u8),
            r.b@ == Seq::new(32, |i: int| 0u8),
            r.a_id == 0,
            r.b_id == 0,
    {
        let r = PairModel { a: [0u8; 32], b: [0u8; 32], a_id: 0, b_id: 0 };
        assert(r.a@ =~= Seq::new(32, |i: int| 0u8));
        assert(r.b@ =~= Seq::new(32, |i: int| 0u8));
        r
    }
}

impl PairModel {
    /// Takes one accepted step into account.
    pub fn apply(&mut self, step: Step, id: u64, iters: u32)
        ensures
            final(self)@ == old(self)@.after(step, id, iters as nat),
    {
        match step {
            Step::X => {
                let read: [[u8; 32]; 1] = [self.a];
                assert(hash_bytes(read@) =~= seq![self.a@]);
                self.a = fold_hash(id, read.as_slice(), iters);
                self.a_id = id;
            },
            Step::Y => {
                let read: [[u8; 32]; 2] = [self.a, self.b];
                assert(hash_bytes(read@) =~= seq![self.a@, self.b@]);
                let merged: [u8; 32] = fold_hash(id, read.as_slice(), iters);
                self.a = merged;
                self.b = merged;
                self.a_id = id;
                self.b_id = id;
            },
            Step::Z => {
                let read: [[u8; 32]; 1] = [self.b];
                assert(hash_bytes(read@) =~= seq![self.b@]);
                self.b = fold_hash(id, read.as_slice(), iters);
                self.b_id = id;
            },
        }
    }
}

/// The order of an X and a Z does not matter: they share no account.
pub proof fn x_and_z_commute(pair: PairState, x_id: u64, x_iters: nat, z_id: u64, z_iters: nat)
    ensures
        pair.after(Step::X, x_id, x_iters).after(Step::Z, z_id, z_iters) == pair.after(
            Step::Z,
            z_id,
            z_iters,
        ).after(Step::X, x_id, x_iters),
{
}

/// The order of a Y and an X does matter: whichever comes last names itself
/// as the last update of the first account. The same holds of a Y and a Z and
/// the second account.
pub proof fn conflicting_steps_do_not_commute(pair: PairState, one: u64, other: u64, iters: nat)
    requires
        one != other,
    ensures
        pair.after(Step::X, one, iters).after(Step::Y, other, iters) != pair.after(
            Step::Y,
            other,
            iters,
        ).after(Step::X, one, iters),
        pair.after(Step::Z, one, iters).after(Step::Y, other, iters) != pair.after(
            Step::Y,
            other,
            iters,
        ).after(Step::Z, one, iters),
{
    assert(pair.after(Step::X, one, iters).after(Step::Y, other, iters).a_id == other);
    assert(pair.after(Step::Y, other, iters).after(Step::X, one, iters).a_id == one);
    assert(pair.after(Step::Z, one, iters).after(Step::Y, other, iters).b_id == other);
    assert(pair.after(Step::Y, other, iters).after(Step::Z, one, iters).b_id == one);
}

/// The accounts that a step works on.
pub fn step_accounts(a: Pubkey, b: Pubkey, step: Step) -> (r: Vec<Pubkey>)
    ensures
        r@ == match step {
            Step::X => seq![a],
            Step::Y => seq![a, b],
            Step::Z => seq![b],
        },
{
    match step {
        Step::X => vec![a],
        Step::Y => vec![a, b],
        Step::Z => vec![b],
    }
}

/// The data of a compute limit.
pub open spec fn limit_data(limit: u32) -> Seq<u8> {
    seq![2u8] + le32(limit)
}

/// Sets the compute limit of a transaction.
pub fn compute_unit_limit(limit: u32) -> (r: SolanaInstruction)
    ensures
        r.is(key(COMPUTE_BUDGET_ID), Seq::empty(), limit_data(limit)),
{
    let mut data: Vec<u8> = vec![2u8];
    append_bytes(&mut data, u32_bytes(limit).as_slice());
    assert(data@ =~= limit_data(limit));
    let accounts: Vec<AccountMeta> = Vec::new();
    assert(accounts@ =~= Seq::empty());
    SolanaInstruction { program_id: Pubkey::new(COMPUTE_BUDGET_ID), accounts, data }
}

/// The transaction of a step: a fold, with a compute limit in front of it if
/// the step is heavy.
pub fn chain_ixs(id: u64, iters: u32, accounts: &[Pubkey]) -> (r: Vec<SolanaInstruction>)
    ensures
        r@.len() == if iters > 0 {
            2int
        } else {
            1int
        },
        iters > 0 ==> r@[0].is(key(COMPUTE_BUDGET_ID), Seq::empty(), limit_data(CU_LIMIT)),
        r@.last().is(
            key(ID),
            metas_of(accounts@, false, true),
            (Instruction::HashFold { id, iters }).encoding(),
        ),
{
    let fold = hash_fold(id, iters, accounts);
    if iters > 0 {
        vec![compute_unit_limit(CU_LIMIT), fold]
    } else {
        vec![fold]
    }
}

/// The transaction of independent work: a hash chain under a compute limit.
pub fn independent_ixs(id: u64, account: Pubkey, iters: u32) -> (r: Vec<SolanaInstruction>)
    ensures
        r@.len() == 2,
        r@[0].is(key(COMPUTE_BUDGET_ID), Seq::empty(), limit_data(CU_LIMIT)),
        r@[1].is(
            key(ID),
            metas_of(seq![account], false, true),
            (Instruction::ExpensiveHashCompute { id, init: key(HASH_INIT), iters }).encoding(),
        ),
{
    let accounts: Vec<Pubkey> = vec![account];
    assert(accounts@ =~= seq![account]);
    vec![
        compute_unit_limit(CU_LIMIT),
        expensive_hash_compute(id, Pubkey::new(HASH_INIT), iters, accounts.as_slice()),
    ]
}

/// How the independent work is offered.
#[derive(Clone, Copy, Debug, PartialEq, Eq, Structural)]
pub enum LoadMode {
    /// A fixed number of lanes with one unconfirmed transaction each.
    Bounded { lanes: usize },
    /// As much as a number of unconfirmed transactions allows.
    Open { concurrency: usize },
}

/// What a load mode is described as.
pub open spec fn shape_text(mode: LoadMode) -> Seq<char> {
    match mode {
        LoadMode::Bounded { lanes } => decimal(lanes as nat)
            + " lanes, one unconfirmed high-cu tx each (ready queue deep, sequencer intake never throttled)"@,
        LoadMode::Open { concurrency } => "open loop at concurrency "@ + decimal(
            concurrency as nat,
        ) + " (sequencer channel full, pending-work bound engaged)"@,
    }
}

impl LoadMode {
    /// What a phase under this load puts to the test.
    pub fn label(self) -> (r: &'static str)
        ensures
            r@ == match self {
                LoadMode::Bounded { .. } => "contention"@,
                LoadMode::Open { .. } => "backpressure"@,
            },
    {
        match self {
            LoadMode::Bounded { .. } => "contention",
            LoadMode::Open { .. } => "backpressure",
        }
    }

    /// The load in words.
    pub fn shape(self) -> (r: String)
        ensures
            r@ == shape_text(self),
    {
        match self {
            LoadMode::Bounded { lanes } => {
                let mut out: String = String::new();
                push_decimal(&mut out, lanes as u64);
                out.append(
                    " lanes, one unconfirmed high-cu tx each (ready queue deep, sequencer intake never throttled)",
                );
                assert(out@ =~= shape_text(self));
                out
            },
            LoadMode::Open { concurrency } => {
                let mut out: String = String::from_str("open loop at concurrency ");
                push_decimal(&mut out, concurrency as u64);
                out.append(" (sequencer channel full, pending-work bound engaged)");
                out
            },
        }
    }
}

/// What the drivers of a load delivered.
#[derive(Debug)]
pub struct LoadTally {
    pub delivered: u64,
    pub failed: u64,
    pub first_error: Option<String>,
    pub wall_us: u64,
}

impl LoadTally {
    /// A tally of nothing.
    pub fn empty() -> (r: LoadTally)
        ensures
            r.delivered == 0,
            r.failed == 0,
            r.first_error is None,
            r.wall_us == 0,
    {
        LoadTally { delivered: 0, failed: 0, first_error: None, wall_us: 0 }
    }

    /// Adds the tally of another driver: counts add up, the error that was
    /// there first stays, and the longer wall time counts.
    pub fn merge(&mut self, other: LoadTally)
        requires
            old(self).delivered + other.delivered <= u64::MAX,
            old(self).failed + other.failed <= u64::MAX,
        ensures
            final(self).delivered == old(self).delivered + other.delivered,
            final(self).failed == old(self).failed + other.failed,
            final(self).first_error == if old(self).first_error is None {
                other.first_error
            } else {
                old(self).first_error
            },
            final(self).wall_us == if old(self).wall_us >= other.wall_us {
                old(self).wall_us
            } else {
                other.wall_us
            },
    {
        self.delivered = self.delivered + other.delivered;
        self.failed = self.failed + other.failed;
        if self.first_error.is_none() {
            self.first_error = other.first_error;
        }
        if self.wall_us < other.wall_us {
            self.wall_us = other.wall_us;
        }
    }
}

/// What the first `n` tallies delivered.
pub open spec fn total_delivered(tallies: Seq<LoadTally>, n: int) -> int
    decreases n,
{
    if n <= 0 {
        0
    } else {
        total_delivered(tallies, n - 1) + tallies[n - 1].delivered
    }
}

/// What failed in the first `n` tallies.
pub open spec fn total_failed(tallies: Seq<LoadTally>, n: int) -> int
    decreases n,
{
    if n <= 0 {
        0
    } else {
        total_failed(tallies, n - 1) + tallies[n - 1].failed
    }
}

/// The totals grow with the number of tallies.
proof fn lemma_totals_grow(tallies: Seq<LoadTally>, m: int, n: int)
    requires
        m <= n,
    ensures
        total_delivered(tallies, m) <= total_delivered(tallies, n),
        total_failed(tallies, m) <= total_failed(tallies, n),
    decreases n,
{
    if m < n && n > 0 {
        lemma_totals_grow(tallies, m, n - 1);
    }
}

/// Whether `first` is the error of the first tally that has one.
pub open spec fn first_error_of(tallies: Seq<LoadTally>, n: int) -> Option<String>
    decreases n,
{
    if n <= 0 {
        None
    } else if first_error_of(tallies, n - 1) is Some {
        first_error_of(tallies, n - 1)
    } else {
        tallies[n - 1].first_error
    }
}

/// The longest wall time of the first `n` tallies.
pub open spec fn longest_wall(tallies: Seq<LoadTally>, n: int) -> u64
    decreases n,
{
    if n <= 0 {
        0
    } else if longest_wall(tallies, n - 1) >= tallies[n - 1].wall_us {
        longest_wall(tallies, n - 1)
    } else {
        tallies[n - 1].wall_us
    }
}

/// Joins the tallies of all drivers; there is none when no driver ran.
pub fn join_load(tallies: Vec<LoadTally>) -> (r: Option<LoadTally>)
    requires
        total_delivered(tallies@, tallies@.len() as int) <= u64::MAX,
        total_failed(tallies@, tallies@.len() as int) <= u64::MAX,
    ensures
        match r {
            None => tallies@.len() == 0,
            Some(all) => {
                let n = tallies@.len() as int;
                &&& n > 0
                &&& all.delivered == total_delivered(tallies@, n)
                &&& all.failed == total_failed(tallies@, n)
                &&& all.first_error == first_error_of(tallies@, n)
                &&& all.wall_us == longest_wall(tallies@, n)
            },
        },
{
    if tallies.len() == 0 {
        return None;
    }
    let ghost all_tallies = tallies@;
    let ghost n = tallies@.len() as int;
    let mut rest: Vec<LoadTally> = tallies;
    let mut merged: LoadTally = LoadTally::empty();
    let ghost mut done: int = 0;
    while rest.len() > 0
        invariant
            n == all_tallies.len(),
            0 <= done,
            done + rest@.len() == n,
            rest@ == all_tallies.skip(done),
            total_delivered(all_tallies, n) <= u64::MAX,
            total_failed(all_tallies, n) <= u64::MAX,
            merged.delivered == total_delivered(all_tallies, done),
            merged.failed == total_failed(all_tallies, done),
            merged.first_error == first_error_of(all_tallies, done),
            merged.wall_us == longest_wall(all_tallies, done),
        decreases rest@.len(),
    {
        let next: LoadTally = rest.remove(0);
        proof {
            assert(next == all_tallies[done]);
            lemma_totals_grow(all_tallies, done + 1, n);
        }
        merged.merge(next);
        proof {
            done = done + 1;
        }
        assert(rest@ =~= all_tallies.skip(done));
    }
    Some(merged)
}

/// The driver threads of a load: as many as wanted, but never more than there
/// are accounts, and at least one.
pub fn load_threads(wanted: usize, accounts: usize) -> (r: usize)
    ensures
        r == if wanted < 1 || accounts <= 1 {
            1
        } else if wanted > accounts {
            accounts
        } else {
            wanted
        },
        1 <= r,
        wanted >= 1 ==> r <= wanted,
        accounts >= 1 ==> r <= accounts,
        r == 1 || r == wanted || r == accounts,
{
    let most: usize = if accounts < 1 {
        1
    } else {
        accounts
    };
    if wanted < 1 {
        1
    } else if wanted > most {
        most
    } else {
        wanted
    }
}

/// The accounts that may be used under a load, and the unconfirmed
/// transactions of each driver thread.
pub fn load_limits(mode: LoadMode, accounts: usize, threads: usize) -> (r: (usize, usize))
    requires
        threads > 0,
    ensures
        match mode {
            LoadMode::Bounded { lanes } => r.0 == if lanes < accounts {
                lanes
            } else {
                accounts
            } && r.1 == 0,
            LoadMode::Open { concurrency } => r.0 == accounts && r.1 == if concurrency / threads
                >= 1 {
                concurrency / threads
            } else {
                1
            },
        },
{
    match mode {
        LoadMode::Bounded { lanes } => {
            if lanes < accounts {
                (lanes, 0)
            } else {
                (accounts, 0)
            }
        },
        LoadMode::Open { concurrency } => {
            let each: usize = concurrency / threads;
            if each >= 1 {
                (accounts, each)
            } else {
                (accounts, 1)
            }
        },
    }
}

/// The lanes of one driver thread: every `threads`-th usable account.
pub fn load_lanes(usable: usize, threads: usize, thread: usize) -> (r: Vec<usize>)
    requires
        threads > 0,
    ensures
        forall|k: int| 0 <= k < r@.len() ==> (#[trigger] r@[k]) < usable && on_thread(
            r@[k] as int,
            threads as int,
            thread as int,
        ),
        forall|i: int, j: int| 0 <= i < j < r@.len() ==> r@[i] < r@[j],
        forall|p: usize|
            p < usable && on_thread(p as int, threads as int, thread as int) ==> r@.contains(p),
{
    thread_payers(usable, threads, thread)
}

/// One reading of the engine's gauges.
#[derive(Clone, Copy, Debug)]
pub struct Reading {
    pub busy: Option<u64>,
    pub blocked: Option<u64>,
    pub txs: Option<u64>,
    pub at_ms: u64,
}

/// What the readings of a phase add up to.
#[derive(Clone, Copy, Debug, PartialEq, Eq, Structural)]
pub struct Samples {
    pub busy_sum: u64,
    pub busy_max: u64,
    pub blocked_max: u64,
    pub count: u64,
    pub last_txs: Option<u64>,
    pub last_progress_ms: u64,
    pub max_stall_ms: u64,
}

/// The larger of two numbers.
pub open spec fn larger(a: u64, b: u64) -> u64 {
    if a >= b {
        a
    } else {
        b
    }
}

impl Samples {
    /// No reading yet at `now_ms`.
    pub fn start(now_ms: u64) -> (r: Samples)
        ensures
            r == (Samples {
                busy_sum: 0,
                busy_max: 0,
                blocked_max: 0,
                count: 0,
                last_txs: None,
                last_progress_ms: now_ms,
                max_stall_ms: 0,
            }),
    {
        Samples {
            busy_sum: 0,
            busy_max: 0,
            blocked_max: 0,
            count: 0,
            last_txs: None,
            last_progress_ms: now_ms,
            max_stall_ms: 0,
        }
    }

    /// Whether a reading shows more transactions than the one before.
    pub open spec fn progressed(self, txs: u64) -> bool {
        match self.last_txs {
            None => true,
            Some(last) => txs > last,
        }
    }

    /// When progress was last seen, once a reading is in.
    pub open spec fn progress_at(self, reading: Reading) -> u64 {
        match reading.txs {
            Some(txs) => if self.progressed(txs) {
                reading.at_ms
            } else {
                self.last_progress_ms
            },
            None => self.last_progress_ms,
        }
    }

    /// Takes a reading in: the busy executors are summed and counted, peaks
    /// are kept, and the time since the transaction count last rose counts as
    /// a stall.
    pub fn push(&mut self, reading: Reading)
        requires
            old(self).last_progress_ms <= reading.at_ms,
            old(self).count < u64::MAX,
            reading.busy matches Some(busy) ==> old(self).busy_sum + busy <= u64::MAX,
        ensures
            final(self).busy_sum == old(self).busy_sum + match reading.busy {
                Some(busy) => busy as int,
                None => 0,
            },
            final(self).count == old(self).count + if reading.busy is Some {
                1int
            } else {
                0
            },
            final(self).busy_max == match reading.busy {
                Some(busy) => larger(old(self).busy_max, busy),
                None => old(self).busy_max,
            },
            final(self).blocked_max == match reading.blocked {
                Some(blocked) => larger(old(self).blocked_max, blocked),
                None => old(self).blocked_max,
            },
            final(self).last_txs == if reading.txs is Some {
                reading.txs
            } else {
                old(self).last_txs
            },
            final(self).last_progress_ms == old(self).progress_at(reading),
            final(self).max_stall_ms == if reading.txs is Some {
                larger(
                    old(self).max_stall_ms,
                    (reading.at_ms - old(self).progress_at(reading)) as u64,
                )
            } else {
                old(self).max_stall_ms
            },
    {
        if let Some(busy) = reading.busy {
            self.busy_sum = self.busy_sum + busy;
            if busy > self.busy_max {
                self.busy_max = busy;
            }
            self.count = self.count + 1;
        }
        if let Some(blocked) = reading.blocked {
            if blocked > self.blocked_max {
                self.blocked_max = blocked;
            }
        }
        if let Some(txs) = reading.txs {
            let risen: bool = match self.last_txs {
                None => true,
                Some(last) => txs > last,
            };
            if risen {
                self.last_progress_ms = reading.at_ms;
            }
            self.last_txs = Some(txs);
            let stall: u64 = reading.at_ms - self.last_progress_ms;
            if stall > self.max_stall_ms {
                self.max_stall_ms = stall;
            }
        }
    }
}

/// Whether nothing is blocked, busy or pending; a gauge that is missing does
/// not count as idle.
pub fn is_idle(blocked: Option<u64>, busy: Option<u64>, pending: Option<u64>) -> (r: bool)
    ensures
        r == (blocked == Some(0u64) && busy == Some(0u64) && pending == Some(0u64)),
{
    match (blocked, busy, pending) {
        (Some(a), Some(b), Some(c)) => a == 0 && b == 0 && c == 0,
        _ => false,
    }
}

/// One step that a pair is going to send.
#[derive(Clone, Copy, Debug, PartialEq, Eq, Structural)]
pub struct PlannedStep {
    pub chain: u64,
    pub step: Step,
    pub id: u64,
    pub iters: u32,
}

/// The step at position `k` of a phase that starts with chain `first`.
pub open spec fn planned(
    space: ChainSpace,
    batch: int,
    pair: int,
    first: int,
    heavy_iters: u32,
    k: int,
) -> PlannedStep {
    let chain = first + k / 3;
    let step = Step::at(k % 3);
    PlannedStep {
        chain: chain as u64,
        step,
        id: space.number(batch, pair, chain, step) as u64,
        iters: if step == Step::at(chain % 3) {
            heavy_iters
        } else {
            0
        },
    }
}

/// The steps that a pair sends in a phase, in order.
pub fn plan_pair(
    space: &ChainSpace,
    batch: u64,
    pair: u64,
    range: (u64, u64),
    heavy_iters: u32,
) -> (r: Vec<PlannedStep>)
    requires
        range.0 <= range.1,
        range.0 < range.1 ==> space.number(batch as int, pair as int, range.1 - 1, Step::Z)
            <= u64::MAX,
        (range.1 - range.0) * 3 <= usize::MAX,
    ensures
        r@.len() == (range.1 - range.0) * 3,
        forall|k: int|
            0 <= k < r@.len() ==> #[trigger] r@[k] == planned(
                *space,
                batch as int,
                pair as int,
                range.0 as int,
                heavy_iters,
                k,
            ),
{
    let mut out: Vec<PlannedStep> = Vec::new();
    let mut chain: u64 = range.0;
    while chain < range.1
        invariant
            range.0 <= chain <= range.1,
            range.0 < range.1 ==> space.number(batch as int, pair as int, range.1 - 1, Step::Z)
                <= u64::MAX,
            out@.len() == (chain - range.0) * 3,
            forall|k: int|
                0 <= k < out@.len() ==> #[trigger] out@[k] == planned(
                    *space,
                    batch as int,
                    pair as int,
                    range.0 as int,
                    heavy_iters,
                    k,
                ),
        decreases range.1 - chain,
    {
        let heavy = heavy_step(chain);
        let ghost at = out@.len() as int;
        let x = PlannedStep {
            chain,
            step: Step::X,
            id: space.step_id(batch, pair, chain, Step::X),
            iters: if heavy == Step::X {
                heavy_iters
            } else {
                0
            },
        };
        let y = PlannedStep {
            chain,
            step: Step::Y,
            id: space.step_id(batch, pair, chain, Step::Y),
            iters: if heavy == Step::Y {
                heavy_iters
            } else {
                0
            },
        };
        let z = PlannedStep {
            chain,
            step: Step::Z,
            id: space.step_id(batch, pair, chain, Step::Z),
            iters: if heavy == Step::Z {
                heavy_iters
            } else {
                0
            },
        };
        out.push(x);
        out.push(y);
        out.push(z);
        assert(range.0 + at / 3 == chain && at % 3 == 0);
        assert(range.0 + (at + 1) / 3 == chain && (at + 1) % 3 == 1);
        assert(range.0 + (at + 2) / 3 == chain && (at + 2) % 3 == 2);
        chain = chain + 1;
    }
    out
}

/// The pair after the first `n` steps of a plan.
pub open spec fn replayed(start: PairState, steps: Seq<PlannedStep>, n: int) -> PairState
    decreases n,
{
    if n <= 0 {
        start
    } else {
        let s = steps[n - 1];
        replayed(start, steps, n - 1).after(s.step, s.id, s.iters as nat)
    }
}

/// The model after the accepted steps of a plan.
pub fn replay(start: PairModel, steps: &[PlannedStep]) -> (r: PairModel)
    ensures
        r@ == replayed(start@, steps@, steps@.len() as int),
{
    let mut model: PairModel = start;
    let mut i: usize = 0;
    while i < steps.len()
        invariant
            i <= steps@.len(),
            model@ == replayed(start@, steps@, i as int),
        decreases steps@.len() - i,
    {
        model.apply(steps[i].step, steps[i].id, steps[i].iters);
        i = i + 1;
    }
    model
}

/// Why an account of a pair does not hold what it should.
#[derive(Clone, Debug)]
pub enum AccountFault {
    /// The account is too small for the layout.
    TooShort { len: usize },
    /// The account holds another id or hash.
    Mismatch { id: u64, hash: Vec<u8> },
}

/// Whether an account holds the expected id and hash.
pub open spec fn holds(data: Seq<u8>, hash: Seq<u8>, id: u64) -> bool {
    &&& data.len() >= HASH_OFFSET + HASH_SIZE
    &&& data.subrange(HASH_OFFSET as int, HASH_OFFSET + HASH_SIZE) == hash
    &&& from_le64(data.subrange(ID_OFFSET as int, ID_OFFSET + ID_SIZE)) == id
}

/// Holds an account of a pair against what the model expects of it.
pub fn check_pair_account(data: &[u8], expected_hash: &[u8; 32], expected_id: u64) -> (r: Result<
    (),
    AccountFault,
>)
    ensures
        match r {
            Ok(_) => holds(data@, expected_hash@, expected_id),
            Err(AccountFault::TooShort { len }) => data@.len() < HASH_OFFSET + HASH_SIZE && len
                == data@.len(),
            Err(AccountFault::Mismatch { id, hash }) => {
                &&& data@.len() >= HASH_OFFSET + HASH_SIZE
                &&& !holds(data@, expected_hash@, expected_id)
                &&& id == from_le64(data@.subrange(ID_OFFSET as int, ID_OFFSET + ID_SIZE))
                &&& hash@ == data@.subrange(HASH_OFFSET as int, HASH_OFFSET + HASH_SIZE)
            },
        },
{
    if data.len() < HASH_OFFSET + HASH_SIZE {
        return Err(AccountFault::TooShort { len: data.len() });
    }
    let hash = slice_subrange(data, HASH_OFFSET, HASH_OFFSET + HASH_SIZE);
    let id: u64 = read_u64(data, ID_OFFSET);
    if same_bytes(hash, expected_hash.as_slice()) && id == expected_id {
        Ok(())
    } else {
        Err(AccountFault::Mismatch { id, hash: crate::bytes::copy_bytes(hash) })
    }
}

/// Whether an independent account holds the end of its hash chain.
pub fn holds_independent_chain(data: &[u8], iters: u32) -> (r: bool)
    requires
        data@.len() >= HASH_OFFSET + HASH_SIZE,
    ensures
        r == (data@.subrange(HASH_OFFSET as int, HASH_OFFSET + HASH_SIZE) == chained(
            HASH_INIT@,
            iters as nat,
        )),
{
    let expected: [u8; 32] = hash_chain(HASH_INIT, iters);
    same_bytes(
        slice_subrange(data, HASH_OFFSET, HASH_OFFSET + HASH_SIZE),
        expected.as_slice(),
    )
}

/// The lanes that keep a number of executors contended.
pub open spec fn lanes_of(executors: int, accounts: int) -> int {
    if accounts < 1 || executors == 0 {
        1
    } else if executors * LANES_PER_EXECUTOR <= accounts {
        executors * LANES_PER_EXECUTOR
    } else {
        accounts
    }
}

/// The lanes of the contention phases: a fixed number for every executor
/// seen, within the accounts there are, and at least one.
pub fn contention_lanes(executors: usize, accounts: usize) -> (r: usize)
    requires
        executors * LANES_PER_EXECUTOR <= usize::MAX,
    ensures
        r == lanes_of(executors as int, accounts as int),
{
    let wanted: usize = executors * LANES_PER_EXECUTOR;
    let lanes: usize = if wanted <= accounts {
        wanted
    } else {
        accounts
    };
    if lanes < 1 {
        1
    } else {
        lanes
    }
}

/// Why a calibration is refused.
#[derive(Clone, Copy, Debug, PartialEq, Eq, Structural)]
pub enum CalibrationFault {
    /// A delivery failed.
    Failed,
    /// Too few executors were busy at once.
    FewExecutors,
}

/// Judges the calibration that precedes the batches, and gives the lanes that
/// keep the executors contended.
pub fn check_calibration(failed: u64, executors: u64, accounts: usize) -> (r: Result<
    usize,
    CalibrationFault,
>)
    requires
        executors * LANES_PER_EXECUTOR <= usize::MAX,
    ensures
        r == if failed != 0 {
            Err::<usize, CalibrationFault>(CalibrationFault::Failed)
        } else if executors < MIN_EXECUTORS {
            Err(CalibrationFault::FewExecutors)
        } else {
            Ok(lanes_of(executors as int, accounts as int) as usize)
        },
        r is Ok <==> failed == 0 && executors >= 2,
        r == Err::<usize, _>(CalibrationFault::Failed) <==> failed > 0,
{
    if failed != 0 {
        return Err(CalibrationFault::Failed);
    }
    if executors < MIN_EXECUTORS {
        return Err(CalibrationFault::FewExecutors);
    }
    Ok(contention_lanes(executors as usize, accounts))
}

/// What one phase of a batch came to.
#[derive(Clone, Copy, Debug, PartialEq, Eq, Structural)]
pub struct PhaseOutcome {
    pub chains: u64,
    pub chain_txs: u64,
    pub delivered: u64,
    pub samples: Samples,
}

/// The chains of a phase and the transactions that all pairs send in it.
pub fn phase_counts(range: (u64, u64), pairs: u64) -> (r: (u64, u64))
    requires
        range.0 <= range.1,
        (range.1 - range.0) * 3 * pairs <= u64::MAX,
        (range.1 - range.0) * 3 <= u64::MAX,
    ensures
        r.0 == range.1 - range.0,
        r.1 == (range.1 - range.0) * 3 * pairs,
{
    let chains: u64 = range.1 - range.0;
    (chains, chains * STEPS * pairs)
}

/// What a batch came to.
#[derive(Debug)]
pub struct BatchOutcome {
    pub phases: Vec<PhaseOutcome>,
    pub blocked: Option<u64>,
    pub busy: Option<u64>,
    pub pending: Option<u64>,
    pub drain_ms: u64,
    pub engine_txs: u64,
    pub dependencies: u64,
    pub dropped: Option<u64>,
    pub execution_failed: Option<u64>,
}

/// What a number of phases adds up to.
pub open spec fn sum_of(phases: Seq<PhaseOutcome>, part: spec_fn(PhaseOutcome) -> int) -> int
    decreases phases.len(),
{
    if phases.len() == 0 {
        0
    } else {
        sum_of(phases.drop_last(), part) + part(phases.last())
    }
}

/// The transactions of the chains of a batch.
pub open spec fn sum_chain_txs(phases: Seq<PhaseOutcome>) -> int {
    sum_of(phases, |p: PhaseOutcome| p.chain_txs as int)
}

/// The independent transactions of a batch.
pub open spec fn sum_delivered(phases: Seq<PhaseOutcome>) -> int {
    sum_of(phases, |p: PhaseOutcome| p.delivered as int)
}

/// The chains of a batch.
pub open spec fn sum_chains(phases: Seq<PhaseOutcome>) -> int {
    sum_of(phases, |p: PhaseOutcome| p.chains as int)
}

/// A sum over fewer phases is not larger.
proof fn lemma_sum_grows(phases: Seq<PhaseOutcome>, part: spec_fn(PhaseOutcome) -> int, n: int)
    requires
        0 <= n <= phases.len(),
        forall|p: PhaseOutcome| #[trigger] part(p) >= 0,
    ensures
        0 <= sum_of(phases.take(n), part) <= sum_of(phases, part),
    decreases phases.len(),
{
    if n < phases.len() {
        lemma_sum_grows(phases.drop_last(), part, n);
        assert(phases.drop_last().take(n) =~= phases.take(n));
    } else if phases.len() > 0 {
        assert(phases.take(n) =~= phases);
        lemma_sum_grows(phases.drop_last(), part, phases.len() - 1);
    } else {
        assert(phases.take(n) =~= phases);
    }
}

impl BatchOutcome {
    /// The transactions of the chains.
    pub fn chain_txs(&self) -> (r: u64)
        requires
            sum_chain_txs(self.phases@) <= u64::MAX,
        ensures
            r == sum_chain_txs(self.phases@),
    {
        let mut sum: u64 = 0;
        let mut i: usize = 0;
        let ghost part = |p: PhaseOutcome| p.chain_txs as int;
        while i < self.phases.len()
            invariant
                i <= self.phases@.len(),
                part == (|p: PhaseOutcome| p.chain_txs as int),
                sum_of(self.phases@, part) <= u64::MAX,
                sum == sum_of(self.phases@.take(i as int), part),
            decreases self.phases@.len() - i,
        {
            proof {
                lemma_sum_grows(self.phases@, part, i as int + 1);
                assert(self.phases@.take(i as int + 1).drop_last() =~= self.phases@.take(i as int));
            }
            sum = sum + self.phases[i].chain_txs;
            i = i + 1;
        }
        assert(self.phases@.take(i as int) =~= self.phases@);
        sum
    }

    /// The independent transactions.
    pub fn independent_txs(&self) -> (r: u64)
        requires
            sum_delivered(self.phases@) <= u64::MAX,
        ensures
            r == sum_delivered(self.phases@),
    {
        let mut sum: u64 = 0;
        let mut i: usize = 0;
        let ghost part = |p: PhaseOutcome| p.delivered as int;
        while i < self.phases.len()
            invariant
                i <= self.phases@.len(),
                part == (|p: PhaseOutcome| p.delivered as int),
                sum_of(self.phases@, part) <= u64::MAX,
                sum == sum_of(self.phases@.take(i as int), part),
            decreases self.phases@.len() - i,
        {
            proof {
                lemma_sum_grows(self.phases@, part, i as int + 1);
                assert(self.phases@.take(i as int + 1).drop_last() =~= self.phases@.take(i as int));
            }
            sum = sum + self.phases[i].delivered;
            i = i + 1;
        }
        assert(self.phases@.take(i as int) =~= self.phases@);
        sum
    }

    /// The chains of every pair.
    pub fn chains(&self) -> (r: u64)
        requires
            sum_chains(self.phases@) <= u64::MAX,
        ensures
            r == sum_chains(self.phases@),
    {
        let mut sum: u64 = 0;
        let mut i: usize = 0;
        let ghost part = |p: PhaseOutcome| p.chains as int;
        while i < self.phases.len()
            invariant
                i <= self.phases@.len(),
                part == (|p: PhaseOutcome| p.chains as int),
                sum_of(self.phases@, part) <= u64::MAX,
                sum == sum_of(self.phases@.take(i as int), part),
            decreases self.phases@.len() - i,
        {
            proof {
                lemma_sum_grows(self.phases@, part, i as int + 1);
                assert(self.phases@.take(i as int + 1).drop_last() =~= self.phases@.take(i as int));
            }
            sum = sum + self.phases[i].chains;
            i = i + 1;
        }
        assert(self.phases@.take(i as int) =~= self.phases@);
        sum
    }
}

/// What a batch can be faulted for. A phase is named by its place.
#[derive(Clone, Copy, Debug, PartialEq, Eq, Structural)]
pub enum BatchFault {
    /// Too few executors were busy at once.
    FewExecutors { phase: usize },
    /// Independent work ran one transaction at a time.
    Serial { phase: usize },
    /// The engine made no progress for too long.
    Stalled { phase: usize },
    /// Work was left blocked after the drain.
    Blocked,
    /// Executors were left busy after the drain.
    Busy,
    /// Transactions were left pending after the drain.
    Pending,
    /// The engine executed less than was delivered.
    Missing,
    /// Transactions were dropped before they ran.
    Dropped,
    /// Transactions ran and failed.
    Failed,
    /// The chains never met an unfinished predecessor.
    Unexercised,
}

/// What the phase at `i` can be faulted for.
pub open spec fn phase_fault(samples: Samples, i: usize) -> Option<BatchFault> {
    if samples.busy_max < MIN_EXECUTORS {
        Some(BatchFault::FewExecutors { phase: i })
    } else if samples.count == 0 || samples.busy_sum <= samples.count {
        Some(BatchFault::Serial { phase: i })
    } else if samples.max_stall_ms > STALL_BOUND_MS {
        Some(BatchFault::Stalled { phase: i })
    } else {
        None
    }
}

/// What the first phase that can be faulted is faulted for.
pub open spec fn phases_fault(phases: Seq<PhaseOutcome>, n: int) -> Option<BatchFault>
    decreases n,
{
    if n <= 0 {
        None
    } else if phases_fault(phases, n - 1) is Some {
        phases_fault(phases, n - 1)
    } else {
        phase_fault(phases[n - 1].samples, (n - 1) as usize)
    }
}

/// The first thing that a batch is faulted for, in the order of the checks.
pub open spec fn batch_fault(batch: BatchOutcome, pairs: int) -> Option<BatchFault> {
    let phases = batch.phases@;
    if phases_fault(phases, phases.len() as int) is Some {
        phases_fault(phases, phases.len() as int)
    } else if batch.blocked != Some(0u64) {
        Some(BatchFault::Blocked)
    } else if batch.busy != Some(0u64) {
        Some(BatchFault::Busy)
    } else if batch.pending != Some(0u64) {
        Some(BatchFault::Pending)
    } else if batch.engine_txs < sum_chain_txs(phases) + sum_delivered(phases) {
        Some(BatchFault::Missing)
    } else if batch.dropped matches Some(n) && n != 0 {
        Some(BatchFault::Dropped)
    } else if batch.execution_failed matches Some(n) && n != 0 {
        Some(BatchFault::Failed)
    } else if batch.dependencies < phases[0].chains * pairs {
        Some(BatchFault::Unexercised)
    } else {
        None
    }
}

/// Whether a gauge reads zero.
fn reads_zero(gauge: Option<u64>) -> (r: bool)
    ensures
        r == (gauge == Some(0u64)),
{
    match gauge {
        Some(value) => value == 0,
        None => false,
    }
}

/// Checks what a batch came to.
pub fn check_batch(batch: &BatchOutcome, pairs: u64) -> (r: Result<(), BatchFault>)
    requires
        batch.phases@.len() > 0,
        sum_chain_txs(batch.phases@) + sum_delivered(batch.phases@) <= u64::MAX,
        batch.phases@[0].chains * pairs <= u64::MAX,
    ensures
        match r {
            Ok(_) => batch_fault(*batch, pairs as int) is None,
            Err(fault) => batch_fault(*batch, pairs as int) == Some(fault),
        },
{
    let mut i: usize = 0;
    let ghost n = batch.phases@.len() as int;
    while i < batch.phases.len()
        invariant
            i <= n,
            n == batch.phases@.len(),
            phases_fault(batch.phases@, i as int) is None,
        decreases n - i,
    {
        let samples = batch.phases[i].samples;
        let fault: Option<BatchFault> = if samples.busy_max < MIN_EXECUTORS {
            Some(BatchFault::FewExecutors { phase: i })
        } else if samples.count == 0 || samples.busy_sum <= samples.count {
            Some(BatchFault::Serial { phase: i })
        } else if samples.max_stall_ms > STALL_BOUND_MS {
            Some(BatchFault::Stalled { phase: i })
        } else {
            None
        };
        if let Some(found) = fault {
            proof {
                lemma_first_fault_stays(batch.phases@, i as int + 1, n);
            }
            return Err(found);
        }
        i = i + 1;
    }
    if !reads_zero(batch.blocked) {
        return Err(BatchFault::Blocked);
    }
    if !reads_zero(batch.busy) {
        return Err(BatchFault::Busy);
    }
    if !reads_zero(batch.pending) {
        return Err(BatchFault::Pending);
    }
    proof {
        lemma_sum_grows(batch.phases@, |p: PhaseOutcome| p.chain_txs as int, n);
        lemma_sum_grows(batch.phases@, |p: PhaseOutcome| p.delivered as int, n);
        assert(batch.phases@.take(n) =~= batch.phases@);
    }
    if batch.engine_txs < batch.chain_txs() + batch.independent_txs() {
        return Err(BatchFault::Missing);
    }
    if let Some(dropped) = batch.dropped {
        if dropped != 0 {
            return Err(BatchFault::Dropped);
        }
    }
    if let Some(failed) = batch.execution_failed {
        if failed != 0 {
            return Err(BatchFault::Failed);
        }
    }
    if batch.dependencies < batch.phases[0].chains * pairs {
        return Err(BatchFault::Unexercised);
    }
    Ok(())
}

/// A fault that was found stays the first one.
proof fn lemma_first_fault_stays(phases: Seq<PhaseOutcome>, m: int, n: int)
    requires
        0 < m <= n,
        phases_fault(phases, m) is Some,
    ensures
        phases_fault(phases, n) == phases_fault(phases, m),
    decreases n,
{
    if m < n {
        lemma_first_fault_stays(phases, m, n - 1);
    }
}

/// What a run adds up to.
#[derive(Clone, Copy, Debug, PartialEq, Eq, Structural)]
pub struct Totals {
    pub chains: u64,
    pub chain_txs: u64,
    pub independent_txs: u64,
    pub engine_txs: u64,
    pub dependencies: u64,
    pub longest_stall_ms: u64,
    pub slowest_drain_ms: u64,
}

/// What a number of batches adds up to.
pub open spec fn sum_batches(batches: Seq<BatchOutcome>, part: spec_fn(BatchOutcome) -> int) -> int
    decreases batches.len(),
{
    if batches.len() == 0 {
        0
    } else {
        sum_batches(batches.drop_last(), part) + part(batches.last())
    }
}

/// The chains of a run, over all pairs.
pub open spec fn run_chains(batches: Seq<BatchOutcome>, pairs: int) -> int {
    sum_batches(batches, |b: BatchOutcome| sum_chains(b.phases@) * pairs)
}

/// The transactions of the chains of a run.
pub open spec fn run_chain_txs(batches: Seq<BatchOutcome>) -> int {
    sum_batches(batches, |b: BatchOutcome| sum_chain_txs(b.phases@))
}

/// The independent transactions of a run.
pub open spec fn run_independent_txs(batches: Seq<BatchOutcome>) -> int {
    sum_batches(batches, |b: BatchOutcome| sum_delivered(b.phases@))
}

/// The transactions that the engine executed in a run.
pub open spec fn run_engine_txs(batches: Seq<BatchOutcome>) -> int {
    sum_batches(batches, |b: BatchOutcome| b.engine_txs as int)
}

/// The ordering dependencies of a run.
pub open spec fn run_dependencies(batches: Seq<BatchOutcome>) -> int {
    sum_batches(batches, |b: BatchOutcome| b.dependencies as int)
}

/// The longest stall in the first phases of a batch.
pub open spec fn phases_stall(phases: Seq<PhaseOutcome>) -> u64
    decreases phases.len(),
{
    if phases.len() == 0 {
        0
    } else {
        larger(phases_stall(phases.drop_last()), phases.last().samples.max_stall_ms)
    }
}

/// The longest stall of a run.
pub open spec fn run_stall(batches: Seq<BatchOutcome>) -> u64
    decreases batches.len(),
{
    if batches.len() == 0 {
        0
    } else {
        larger(run_stall(batches.drop_last()), phases_stall(batches.last().phases@))
    }
}

/// The slowest drain of a run.
pub open spec fn run_drain(batches: Seq<BatchOutcome>) -> u64
    decreases batches.len(),
{
    if batches.len() == 0 {
        0
    } else {
        larger(run_drain(batches.drop_last()), batches.last().drain_ms)
    }
}

/// A sum over fewer batches is not larger.
proof fn lemma_batches_grow(batches: Seq<BatchOutcome>, part: spec_fn(BatchOutcome) -> int, n: int)
    requires
        0 <= n <= batches.len(),
        forall|b: BatchOutcome| #[trigger] part(b) >= 0,
    ensures
        0 <= sum_batches(batches.take(n), part) <= sum_batches(batches, part),
    decreases batches.len(),
{
    if n < batches.len() {
        lemma_batches_grow(batches.drop_last(), part, n);
        assert(batches.drop_last().take(n) =~= batches.take(n));
    } else if batches.len() > 0 {
        assert(batches.take(n) =~= batches);
        lemma_batches_grow(batches.drop_last(), part, batches.len() - 1);
        assert(batches.drop_last().take(batches.len() - 1) =~= batches.drop_last());
    } else {
        assert(batches.take(n) =~= batches);
    }
}

/// One batch more adds its own part, and the sum stays below that of all.
proof fn lemma_next_batch(batches: Seq<BatchOutcome>, part: spec_fn(BatchOutcome) -> int, i: int)
    requires
        0 <= i < batches.len(),
        forall|b: BatchOutcome| #[trigger] part(b) >= 0,
    ensures
        sum_batches(batches.take(i + 1), part) == sum_batches(batches.take(i), part) + part(
            batches[i],
        ),
        0 <= sum_batches(batches.take(i), part),
        sum_batches(batches.take(i + 1), part) <= sum_batches(batches, part),
{
    assert(batches.take(i + 1).drop_last() =~= batches.take(i));
    lemma_batches_grow(batches, part, i);
    lemma_batches_grow(batches, part, i + 1);
}

/// A sum over phases is not negative.
proof fn lemma_sum_positive(phases: Seq<PhaseOutcome>, part: spec_fn(PhaseOutcome) -> int)
    requires
        forall|p: PhaseOutcome| #[trigger] part(p) >= 0,
    ensures
        0 <= sum_of(phases, part),
{
    lemma_sum_grows(phases, part, phases.len() as int);
    assert(phases.take(phases.len() as int) =~= phases);
}

/// The longest stall of a batch.
fn batch_stall(phases: &[PhaseOutcome]) -> (r: u64)
    ensures
        r == phases_stall(phases@),
{
    let mut most: u64 = 0;
    let mut i: usize = 0;
    while i < phases.len()
        invariant
            i <= phases@.len(),
            most == phases_stall(phases@.take(i as int)),
        decreases phases@.len() - i,
    {
        assert(phases@.take(i as int + 1).drop_last() =~= phases@.take(i as int));
        if phases[i].samples.max_stall_ms > most {
            most = phases[i].samples.max_stall_ms;
        }
        i = i + 1;
    }
    assert(phases@.take(i as int) =~= phases@);
    most
}

/// Whether what a run adds up to can be counted.
pub open spec fn countable(batches: Seq<BatchOutcome>, pairs: int) -> bool {
    &&& forall|i: int|
        0 <= i < batches.len() ==> sum_chains((#[trigger] batches[i]).phases@) <= u64::MAX
    &&& run_chains(batches, pairs) <= u64::MAX
    &&& run_chain_txs(batches) <= u64::MAX
    &&& run_independent_txs(batches) <= u64::MAX
    &&& run_engine_txs(batches) <= u64::MAX
    &&& run_dependencies(batches) <= u64::MAX
}

/// Adds up the batches of a run.
pub fn totals(batches: &[BatchOutcome], pairs: u64) -> (r: Totals)
    requires
        countable(batches@, pairs as int),
    ensures
        r.chains == run_chains(batches@, pairs as int),
        r.chain_txs == run_chain_txs(batches@),
        r.independent_txs == run_independent_txs(batches@),
        r.engine_txs == run_engine_txs(batches@),
        r.dependencies == run_dependencies(batches@),
        r.longest_stall_ms == run_stall(batches@),
        r.slowest_drain_ms == run_drain(batches@),
{
    let mut sum = Totals {
        chains: 0,
        chain_txs: 0,
        independent_txs: 0,
        engine_txs: 0,
        dependencies: 0,
        longest_stall_ms: 0,
        slowest_drain_ms: 0,
    };
    let ghost chains = |b: BatchOutcome| sum_chains(b.phases@) * pairs as int;
    let ghost chain_txs = |b: BatchOutcome| sum_chain_txs(b.phases@);
    let ghost independent = |b: BatchOutcome| sum_delivered(b.phases@);
    let ghost engine = |b: BatchOutcome| b.engine_txs as int;
    let ghost waits = |b: BatchOutcome| b.dependencies as int;
    proof {
        assert forall|b: BatchOutcome|
            {
                &&& #[trigger] chains(b) >= 0
                &&& chain_txs(b) >= 0
                &&& independent(b) >= 0
            } by {
            lemma_sum_positive(b.phases@, |p: PhaseOutcome| p.chains as int);
            lemma_sum_positive(b.phases@, |p: PhaseOutcome| p.chain_txs as int);
            lemma_sum_positive(b.phases@, |p: PhaseOutcome| p.delivered as int);
            assert(sum_chains(b.phases@) * pairs >= 0) by (nonlinear_arith)
                requires
                    sum_chains(b.phases@) >= 0,
                    pairs >= 0,
            ;
        }
        assert forall|b: BatchOutcome| #[trigger] chain_txs(b) >= 0 by {
            assert(chains(b) >= 0);
        }
        assert forall|b: BatchOutcome| #[trigger] independent(b) >= 0 by {
            assert(chains(b) >= 0);
        }
    }
    let mut i: usize = 0;
    while i < batches.len()
        invariant
            i <= batches@.len(),
            countable(batches@, pairs as int),
            chains == (|b: BatchOutcome| sum_chains(b.phases@) * pairs as int),
            chain_txs == (|b: BatchOutcome| sum_chain_txs(b.phases@)),
            independent == (|b: BatchOutcome| sum_delivered(b.phases@)),
            engine == (|b: BatchOutcome| b.engine_txs as int),
            waits == (|b: BatchOutcome| b.dependencies as int),
            forall|b: BatchOutcome| #[trigger] chains(b) >= 0,
            forall|b: BatchOutcome| #[trigger] chain_txs(b) >= 0,
            forall|b: BatchOutcome| #[trigger] independent(b) >= 0,
            sum.chains == sum_batches(batches@.take(i as int), chains),
            sum.chain_txs == sum_batches(batches@.take(i as int), chain_txs),
            sum.independent_txs == sum_batches(batches@.take(i as int), independent),
            sum.engine_txs == sum_batches(batches@.take(i as int), engine),
            sum.dependencies == sum_batches(batches@.take(i as int), waits),
            sum.longest_stall_ms == run_stall(batches@.take(i as int)),
            sum.slowest_drain_ms == run_drain(batches@.take(i as int)),
        decreases batches@.len() - i,
    {
        let batch: &BatchOutcome = &batches[i];
        proof {
            lemma_next_batch(batches@, chains, i as int);
            lemma_next_batch(batches@, chain_txs, i as int);
            lemma_next_batch(batches@, independent, i as int);
            lemma_next_batch(batches@, engine, i as int);
            lemma_next_batch(batches@, waits, i as int);
            assert(batches@.take(i as int + 1).drop_last() =~= batches@.take(i as int));
            assert(chains(batches@[i as int]) == sum_chains(batch.phases@) * pairs);
            lemma_sum_positive(batch.phases@, |p: PhaseOutcome| p.chains as int);
        }
        let stall: u64 = batch_stall(&batch.phases);
        sum =
        Totals {
            chains: sum.chains + batch.chains() * pairs,
            chain_txs: sum.chain_txs + batch.chain_txs(),
            independent_txs: sum.independent_txs + batch.independent_txs(),
            engine_txs: sum.engine_txs + batch.engine_txs,
            dependencies: sum.dependencies + batch.dependencies,
            longest_stall_ms: if stall > sum.longest_stall_ms {
                stall
            } else {
                sum.longest_stall_ms
            },
            slowest_drain_ms: if batch.drain_ms > sum.slowest_drain_ms {
                batch.drain_ms
            } else {
                sum.slowest_drain_ms
            },
        };
        i = i + 1;
    }
    assert(batches@.take(i as int) =~= batches@);
    sum
}

/// A step on one account leaves the other alone, and a step on both leaves the
/// same in both. Either leaves its id, and begins with the digest of the id
/// and of what the accounts held, the first account first.
pub proof fn a_step_touches_its_own_accounts(pair: PairState, id: u64, iters: nat)
    ensures
        ({
            let x = pair.after(Step::X, id, iters);
            let y = pair.after(Step::Y, id, iters);
            let z = pair.after(Step::Z, id, iters);
            &&& x.b == pair.b && x.b_id == pair.b_id && x.a_id == id
            &&& z.a == pair.a && z.a_id == pair.a_id && z.b_id == id
            &&& y.a == y.b && y.a_id == id && y.b_id == id
        }),
        pair.after(Step::X, id, 0).a == sha256(le64(id) + pair.a),
        pair.after(Step::Z, id, 0).b == sha256(le64(id) + pair.b),
        pair.after(Step::Y, id, 0).a == sha256(le64(id) + (pair.a + pair.b)),
{
    reveal_with_fuel(joined, 3);
    assert(seq![pair.a].drop_last() =~= Seq::<Seq<u8>>::empty());
    assert(joined(seq![pair.a]) =~= pair.a);
    assert(seq![pair.b].drop_last() =~= Seq::<Seq<u8>>::empty());
    assert(joined(seq![pair.b]) =~= pair.b);
    assert(seq![pair.a, pair.b].drop_last() =~= seq![pair.a]);
    assert(joined(seq![pair.a, pair.b]) =~= pair.a + pair.b);
}

/// Every further round of a step digests what the rounds before left, and
/// their number.
pub proof fn a_round_digests_the_one_before(pair: PairState, step: Step, id: u64, rounds: nat)
    ensures
        ({
            let now = pair.after(step, id, rounds);
            let next = pair.after(step, id, rounds + 1);
            &&& step != Step::Z ==> next.a == sha256(now.a + le32(rounds as u32))
            &&& step != Step::X ==> next.b == sha256(now.b + le32(rounds as u32))
        }),
{
}

/// Ids begin at one and are given out without a gap: step after step, chain
/// after chain, pair after pair and batch after batch.
pub proof fn step_ids_leave_no_gap(space: ChainSpace, batch: int, pair: int, chain: int)
    ensures
        space.number(0, 0, 0, Step::X) == 1,
        space.number(batch, pair, chain, Step::Y) == space.number(batch, pair, chain, Step::X) + 1,
        space.number(batch, pair, chain, Step::Z) == space.number(batch, pair, chain, Step::Y) + 1,
        space.number(batch, pair, chain + 1, Step::X) == space.number(batch, pair, chain, Step::Z)
            + 1,
        space.number(batch, pair + 1, 0, Step::X) == space.number(
            batch,
            pair,
            space.chains - 1,
            Step::Z,
        ) + 1,
        space.number(batch + 1, 0, 0, Step::X) == space.number(
            batch,
            space.pairs - 1,
            space.chains - 1,
            Step::Z,
        ) + 1,
{
    let chains = space.chains as int;
    let pairs = space.pairs as int;
    assert((0 * pairs + 0) * chains + 0 == 0) by (nonlinear_arith);
    assert((batch * pairs + (pair + 1)) * chains + 0 == (batch * pairs + pair) * chains + (chains
        - 1) + 1) by (nonlinear_arith);
    assert(((batch + 1) * pairs + 0) * chains + 0 == (batch * pairs + (pairs - 1)) * chains + (
    chains - 1) + 1) by (nonlinear_arith);
}

/// A pair's plan goes through the steps of one chain after the other. The
/// first chain has its first step heavy, the second its second and the third
/// its third, and then it begins again. No other step is heavy.
pub proof fn plans_go_chain_by_chain(
    space: ChainSpace,
    batch: int,
    pair: int,
    first: int,
    heavy_iters: u32,
    c: int,
)
    requires
        0 <= c,
        0 <= first,
        first + c <= u64::MAX,
    ensures
        ({
            let x = planned(space, batch, pair, first, heavy_iters, 3 * c);
            let y = planned(space, batch, pair, first, heavy_iters, 3 * c + 1);
            let z = planned(space, batch, pair, first, heavy_iters, 3 * c + 2);
            let turn = (first + c) % 3;
            &&& x.chain == first + c && y.chain == first + c && z.chain == first + c
            &&& x.step == Step::X && y.step == Step::Y && z.step == Step::Z
            &&& x.iters == if turn == 0 {
                heavy_iters
            } else {
                0
            }
            &&& y.iters == if turn == 1 {
                heavy_iters
            } else {
                0
            }
            &&& z.iters == if turn == 2 {
                heavy_iters
            } else {
                0
            }
            &&& x.id == space.number(batch, pair, first + c, Step::X) as u64
            &&& y.id == space.number(batch, pair, first + c, Step::Y) as u64
            &&& z.id == space.number(batch, pair, first + c, Step::Z) as u64
        }),
{
}

/// A replay can be taken in two parts.
pub proof fn a_replay_goes_on_where_it_stopped(
    start: PairState,
    one: Seq<PlannedStep>,
    other: Seq<PlannedStep>,
    n: int,
)
    requires
        0 <= n <= other.len(),
    ensures
        replayed(start, one + other, one.len() + n) == replayed(
            replayed(start, one, one.len() as int),
            other,
            n,
        ),
        replayed(start, Seq::empty(), 0) == start,
        other.len() > 0 ==> replayed(start, other, 1) == start.after(
            other[0].step,
            other[0].id,
            other[0].iters as nat,
        ),
    decreases n,
{
    reveal_with_fuel(replayed, 2);
    if n > 0 {
        a_replay_goes_on_where_it_stopped(start, one, other, n - 1);
        assert((one + other)[one.len() + n - 1] == other[n - 1]);
    } else {
        lemma_replay_prefix(start, one, other, one.len() as int);
    }
}

/// Later steps do not matter to a replay that stops before them.
proof fn lemma_replay_prefix(
    start: PairState,
    one: Seq<PlannedStep>,
    other: Seq<PlannedStep>,
    n: int,
)
    requires
        0 <= n <= one.len(),
    ensures
        replayed(start, one + other, n) == replayed(start, one, n),
    decreases n,
{
    if n > 0 {
        lemma_replay_prefix(start, one, other, n - 1);
        assert((one + other)[n - 1] == one[n - 1]);
    }
}

/// An account is held to its last id, eight bytes behind its owner, and to the
/// hash in the next 32 bytes. What a hash was written to holds it, and no other
/// hash or id.
pub proof fn what_is_stamped_is_held(
    data: Seq<u8>,
    hash: Seq<u8>,
    id: u64,
    other_hash: Seq<u8>,
    other_id: u64,
)
    requires
        data.len() >= 72,
        hash.len() == 32,
    ensures
        holds(crate::redline::processors::stamped(data, id, hash), hash, id),
        holds(crate::redline::processors::stamped(data, id, hash), other_hash, other_id)
            ==> other_hash == hash && other_id == id,
{
    crate::bytes::lemma_le64();
    let after = crate::redline::processors::stamped(data, id, hash);
    assert(after.subrange(40, 72) =~= hash);
    assert(after.subrange(32, 40) =~= le64(id));
}

/// There are twelve lanes for every executor, as far as there are accounts for
/// them, and never none.
pub proof fn lanes_grow_with_executors(executors: int, accounts: int)
    requires
        0 <= executors,
        0 <= accounts,
    ensures
        1 <= lanes_of(executors, accounts),
        accounts >= 1 ==> lanes_of(executors, accounts) <= accounts,
        executors >= 1 && accounts >= 12 * executors ==> lanes_of(executors, accounts) == 12
            * executors,
        executors >= 1 && 1 <= accounts <= 12 * executors ==> lanes_of(executors, accounts)
            == accounts,
        executors == 0 ==> lanes_of(executors, accounts) == 1,
{
}

/// Deliveries and failures are added up over all tallies, the first error is
/// that of the first tally with one, and the longest time is at least every
/// time and one of them.
pub proof fn tallies_are_joined(tallies: Seq<LoadTally>, n: int, i: int)
    requires
        0 <= i < n <= tallies.len(),
    ensures
        total_delivered(tallies, n) == total_delivered(tallies, n - 1) + tallies[n - 1].delivered,
        total_failed(tallies, n) == total_failed(tallies, n - 1) + tallies[n - 1].failed,
        total_delivered(tallies, 0) == 0,
        total_failed(tallies, 0) == 0,
        longest_wall(tallies, n) >= tallies[i].wall_us,
        exists|j: int| 0 <= j < n && longest_wall(tallies, n) == (#[trigger] tallies[j]).wall_us,
        (forall|j: int| 0 <= j < i ==> (#[trigger] tallies[j]).first_error is None)
            && tallies[i].first_error is Some ==> first_error_of(tallies, n)
            == tallies[i].first_error,
        (forall|j: int| 0 <= j < n ==> (#[trigger] tallies[j]).first_error is None)
            ==> first_error_of(tallies, n) is None,
    decreases n,
{
    if n > 1 {
        let k = if i < n - 1 {
            i
        } else {
            0
        };
        tallies_are_joined(tallies, n - 1, k);
        let j = choose|j: int|
            0 <= j < n - 1 && longest_wall(tallies, n - 1) == (#[trigger] tallies[j]).wall_us;
        if longest_wall(tallies, n) == longest_wall(tallies, n - 1) {
            assert(longest_wall(tallies, n) == tallies[j].wall_us);
        } else {
            assert(longest_wall(tallies, n) == tallies[n - 1].wall_us);
        }
        if i == n - 1 && forall|j: int|
            0 <= j < i ==> (#[trigger] tallies[j]).first_error is None {
            assert(first_error_of(tallies, n - 1) is None);
        }
    } else {
        assert(i == 0 && n == 1);
        assert(first_error_of(tallies, 0) is None);
        assert(longest_wall(tallies, 0) == 0);
        assert(longest_wall(tallies, 1) == tallies[0].wall_us);
    }
}

/// Progress is a first reading or a higher one. Without progress the time of
/// the last stays.
pub proof fn progress_is_a_higher_reading(samples: Samples, reading: Reading)
    ensures
        samples.progress_at(reading) == reading.at_ms || samples.progress_at(reading)
            == samples.last_progress_ms,
        reading.txs is None ==> samples.progress_at(reading) == samples.last_progress_ms,
        reading.txs matches Some(txs) ==> samples.last_txs matches Some(last) ==> txs > last
            ==> samples.progress_at(reading) == reading.at_ms,
        reading.txs matches Some(txs) ==> samples.last_txs matches Some(last) ==> txs <= last
            ==> samples.progress_at(reading) == samples.last_progress_ms,
        reading.txs is Some && samples.last_txs is None ==> samples.progress_at(reading)
            == reading.at_ms,
{
}

/// Whether a phase ran as it should: at least two executors were busy at once
/// and more than one on average, and nothing stalled for over ten seconds.
pub open spec fn ran_well(samples: Samples) -> bool {
    &&& samples.busy_max >= 2
    &&& samples.count > 0
    &&& samples.busy_sum > samples.count
    &&& samples.max_stall_ms <= 10_000
}

/// A batch is accepted exactly where every phase ran as it should, nothing is
/// left over, every transaction was executed and none dropped or failed, and
/// the chains of the first phase met.
pub proof fn what_makes_a_batch_good(batch: BatchOutcome, pairs: int)
    requires
        0 < batch.phases@.len() <= usize::MAX,
    ensures
        batch_fault(batch, pairs) is None <==> {
            &&& forall|i: int|
                0 <= i < batch.phases@.len() ==> ran_well((#[trigger] batch.phases@[i]).samples)
            &&& batch.blocked == Some(0u64)
            &&& batch.busy == Some(0u64)
            &&& batch.pending == Some(0u64)
            &&& batch.engine_txs >= sum_chain_txs(batch.phases@) + sum_delivered(batch.phases@)
            &&& batch.dropped matches Some(n) ==> n == 0
            &&& batch.execution_failed matches Some(n) ==> n == 0
            &&& batch.dependencies >= batch.phases@[0].chains * pairs
        },
{
    lemma_phases(batch.phases@, batch.phases@.len() as int);
}

/// Phases have no fault exactly where all of them ran as they should.
proof fn lemma_phases(phases: Seq<PhaseOutcome>, n: int)
    requires
        0 <= n <= phases.len() <= usize::MAX,
    ensures
        phases_fault(phases, n) is None <==> forall|i: int|
            0 <= i < n ==> ran_well((#[trigger] phases[i]).samples),
    decreases n,
{
    if n > 0 {
        lemma_phases(phases, n - 1);
        assert(phase_fault(phases[n - 1].samples, (n - 1) as usize) is None <==> ran_well(
            phases[n - 1].samples,
        ));
    }
}

/// The phase that is named is the first that did not run as it should.
pub proof fn the_first_bad_phase_is_named(phases: Seq<PhaseOutcome>, at: int, n: int)
    requires
        0 <= at < n <= phases.len() <= usize::MAX,
        forall|i: int| 0 <= i < at ==> ran_well((#[trigger] phases[i]).samples),
        !ran_well(phases[at].samples),
    ensures
        phases[at].samples.busy_max < 2 ==> phases_fault(phases, n) == Some(
            BatchFault::FewExecutors { phase: at as usize },
        ),
        phases[at].samples.busy_max >= 2 && phases[at].samples.busy_sum <= phases[at].samples.count
            ==> phases_fault(phases, n) == Some(BatchFault::Serial { phase: at as usize }),
        phases[at].samples.busy_max >= 2 && phases[at].samples.count > 0
            && phases[at].samples.busy_sum > phases[at].samples.count ==> phases_fault(phases, n)
            == Some(BatchFault::Stalled { phase: at as usize }),
{
    lemma_phases(phases, at);
    lemma_first_fault_stays(phases, at + 1, n);
}

/// What a run counts is added up batch by batch, and a batch counts what its
/// phases do.
pub proof fn runs_add_up(batches: Seq<BatchOutcome>, batch: BatchOutcome, pairs: int)
    ensures
        run_chains(batches.push(batch), pairs) == run_chains(batches, pairs) + sum_chains(
            batch.phases@,
        ) * pairs,
        run_chain_txs(batches.push(batch)) == run_chain_txs(batches) + sum_chain_txs(batch.phases@),
        run_independent_txs(batches.push(batch)) == run_independent_txs(batches) + sum_delivered(
            batch.phases@,
        ),
        run_engine_txs(batches.push(batch)) == run_engine_txs(batches) + batch.engine_txs,
        run_dependencies(batches.push(batch)) == run_dependencies(batches) + batch.dependencies,
        run_engine_txs(Seq::empty()) == 0,
        run_dependencies(Seq::empty()) == 0,
        run_chains(Seq::empty(), pairs) == 0,
        run_chain_txs(Seq::empty()) == 0,
        run_independent_txs(Seq::empty()) == 0,
{
    assert(batches.push(batch).drop_last() =~= batches);
}

/// What a batch counts is added up phase by phase.
pub proof fn batches_add_up(phases: Seq<PhaseOutcome>, phase: PhaseOutcome)
    ensures
        sum_chains(phases.push(phase)) == sum_chains(phases) + phase.chains,
        sum_chain_txs(phases.push(phase)) == sum_chain_txs(phases) + phase.chain_txs,
        sum_delivered(phases.push(phase)) == sum_delivered(phases) + phase.delivered,
        sum_chains(Seq::empty()) == 0,
        sum_chain_txs(Seq::empty()) == 0,
        sum_delivered(Seq::empty()) == 0,
{
    assert(phases.push(phase).drop_last() =~= phases);
}

/// The longest stall is at least every stall of the run and, unless it is
/// zero, one of them; so is the slowest drain among the drains.
pub proof fn the_longest_is_one_of_them(batches: Seq<BatchOutcome>, i: int, j: int)
    requires
        0 <= i < batches.len(),
        0 <= j < batches[i].phases@.len(),
    ensures
        run_stall(batches) >= batches[i].phases@[j].samples.max_stall_ms,
        run_drain(batches) >= batches[i].drain_ms,
        exists|k: int| 0 <= k < batches.len() && (#[trigger] batches[k]).drain_ms == run_drain(batches),
        run_stall(batches) == 0 || exists|k: int, l: int|
            0 <= k < batches.len() && 0 <= l < batches[k].phases@.len()
                && #[trigger] batches[k].phases@[l].samples.max_stall_ms == run_stall(batches),
{
    lemma_longest(batches);
    lemma_longest_reaches(batches, i, j);
}

/// The longest stall and the slowest drain are among those of the run.
proof fn lemma_longest(batches: Seq<BatchOutcome>)
    requires
        batches.len() > 0,
    ensures
        exists|k: int| 0 <= k < batches.len() && (#[trigger] batches[k]).drain_ms == run_drain(batches),
        run_stall(batches) == 0 || exists|k: int, l: int|
            0 <= k < batches.len() && 0 <= l < batches[k].phases@.len()
                && #[trigger] batches[k].phases@[l].samples.max_stall_ms == run_stall(batches),
    decreases batches.len(),
{
    let before = batches.drop_last();
    let last = batches.len() - 1;
    lemma_longest_phase(batches[last].phases@);
    if before.len() > 0 {
        lemma_longest(before);
        let k = choose|k: int| 0 <= k < before.len() && (#[trigger] before[k]).drain_ms == run_drain(before);
        if run_drain(batches) == run_drain(before) {
            assert(batches[k].drain_ms == run_drain(batches));
        } else {
            assert(batches[last].drain_ms == run_drain(batches));
        }
    } else {
        assert(run_drain(before) == 0);
        assert(batches.last() == batches[0]);
        assert(batches[0].drain_ms == run_drain(batches));
    }
    if run_stall(batches) != 0 {
        if run_stall(batches) == run_stall(before) {
            let (k, l) = choose|k: int, l: int|
                0 <= k < before.len() && 0 <= l < before[k].phases@.len()
                    && #[trigger] before[k].phases@[l].samples.max_stall_ms == run_stall(before);
            assert(batches[k].phases@[l].samples.max_stall_ms == run_stall(batches));
        } else {
            let phases = batches[last].phases@;
            let l = choose|l: int|
                0 <= l < phases.len() && (#[trigger] phases[l]).samples.max_stall_ms
                    == phases_stall(phases);
            assert(batches[last].phases@[l].samples.max_stall_ms == run_stall(batches));
        }
    }
}

/// The longest stall of a batch is one of its phases'.
proof fn lemma_longest_phase(phases: Seq<PhaseOutcome>)
    ensures
        phases_stall(phases) == 0 || exists|l: int|
            0 <= l < phases.len() && (#[trigger] phases[l]).samples.max_stall_ms == phases_stall(
                phases,
            ),
    decreases phases.len(),
{
    if phases.len() > 0 {
        let before = phases.drop_last();
        lemma_longest_phase(before);
        if phases_stall(phases) != 0 {
            if phases_stall(phases) == phases_stall(before) {
                let l = choose|l: int|
                    0 <= l < before.len() && (#[trigger] before[l]).samples.max_stall_ms
                        == phases_stall(before);
                assert(phases[l].samples.max_stall_ms == phases_stall(phases));
            } else {
                assert(phases[phases.len() - 1].samples.max_stall_ms == phases_stall(phases));
            }
        }
    }
}

/// The longest stall and the slowest drain are at least every one of the run.
proof fn lemma_longest_reaches(batches: Seq<BatchOutcome>, i: int, j: int)
    requires
        0 <= i < batches.len(),
        0 <= j < batches[i].phases@.len(),
    ensures
        run_stall(batches) >= batches[i].phases@[j].samples.max_stall_ms,
        run_drain(batches) >= batches[i].drain_ms,
    decreases batches.len(),
{
    if i < batches.len() - 1 {
        lemma_longest_reaches(batches.drop_last(), i, j);
    } else {
        lemma_phase_reaches(batches[i].phases@, j);
    }
}

/// The longest stall of a batch is at least that of every phase.
proof fn lemma_phase_reaches(phases: Seq<PhaseOutcome>, j: int)
    requires
        0 <= j < phases.len(),
    ensures
        phases_stall(phases) >= phases[j].samples.max_stall_ms,
    decreases phases.len(),
{
    if j < phases.len() - 1 {
        lemma_phase_reaches(phases.drop_last(), j);
    }
}

} // verus!
