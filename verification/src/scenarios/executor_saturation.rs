//! Light and heavy hash chains on disjoint accounts: as many executors as
//! there are must be kept busy, and the heavy work must really be done.
use crate::bytes::same_bytes;
use crate::chain::{key, metas_of, Pubkey, SolanaInstruction};
use crate::hash::{chained, hash_chain};
use crate::ids::COMPUTE_BUDGET_ID;
use crate::redline::builders::expensive_hash_compute_at;
use crate::redline::instruction::Instruction;
use crate::redline::{HASH_OFFSET, HASH_SIZE, ID};
use crate::scenarios::conflict_ordering::{compute_unit_limit, limit_data, CU_LIMIT, HASH_INIT};
use crate::suite::{div_up, Tier};
use crate::float_text::{is_float, reads_as_float};
use crate::text::{find_bytes, first_at, stands_at};
use vstd::prelude::*;
use vstd::slice::slice_subrange;

verus! {

/// The rounds of a light chain.
pub const LIGHT_ITERS: u32 = 1;

/// How many times the compute units of a light transaction a heavy one takes.
pub const CU_CONTRAST_FLOOR: u64 = 10;

/// The suite.
pub struct ExecutorSaturation;

impl ExecutorSaturation {
    /// The name that the suite reports under.
    pub fn name(&self) -> (r: &'static str)
        ensures
            r@ == "redline/executor_saturation"@,
    {
        "redline/executor_saturation"
    }
}

/// The two cells of a run.
#[derive(Clone, Copy, Debug, PartialEq, Eq, Structural)]
pub enum CellKind {
    Light,
    Heavy,
}

impl CellKind {
    /// The name of the cell.
    pub fn label(self) -> (r: &'static str)
        ensures
            r@ == match self {
                CellKind::Light => "light"@,
                CellKind::Heavy => "heavy"@,
            },
    {
        match self {
            CellKind::Light => "light",
            CellKind::Heavy => "heavy",
        }
    }
}

/// The size of a run.
#[derive(Clone, Copy, Debug)]
pub struct Profile {
    pub name: &'static str,
    pub accounts: usize,
    pub heavy_iters: u32,
    pub threads: usize,
    pub warmup: u64,
    pub iterations: u64,
    pub heavy_iterations: u64,
    pub batch: usize,
    pub rpc_batch: usize,
    pub concurrency: usize,
    pub heavy_concurrency: usize,
}

/// The size of a run at each tier that the suite offers.
pub open spec fn profile_of(tier: Tier) -> Option<Profile> {
    match tier {
        Tier::Lite => Some(
            Profile {
                name: "lite",
                accounts: 256,
                heavy_iters: 180,
                threads: 8,
                warmup: 5_000,
                iterations: 60_000,
                heavy_iterations: 60_000,
                batch: 2_500,
                rpc_batch: 0,
                concurrency: 2_048,
                heavy_concurrency: 2_048,
            },
        ),
        Tier::Full => Some(
            Profile {
                name: "full",
                accounts: 512,
                heavy_iters: 180,
                threads: 8,
                warmup: 25_000,
                iterations: 300_000,
                heavy_iterations: 300_000,
                batch: 2_500,
                rpc_batch: 0,
                concurrency: 2_048,
                heavy_concurrency: 2_048,
            },
        ),
        Tier::Soak => Some(
            Profile {
                name: "soak",
                accounts: 512,
                heavy_iters: 180,
                threads: 16,
                warmup: 50_000,
                iterations: 1_000_000,
                heavy_iterations: 100_000,
                batch: usize::MAX,
                rpc_batch: 500,
                concurrency: 512,
                heavy_concurrency: 8,
            },
        ),
        Tier::Deep => None,
    }
}

/// The size of a run at `tier`, if the suite offers it.
pub fn profile(tier: Tier) -> (r: Option<Profile>)
    ensures
        r == profile_of(tier),
{
    match tier {
        Tier::Lite => Some(
            Profile {
                name: "lite",
                accounts: 256,
                heavy_iters: 180,
                threads: 8,
                warmup: 5_000,
                iterations: 60_000,
                heavy_iterations: 60_000,
                batch: 2_500,
                rpc_batch: 0,
                concurrency: 2_048,
                heavy_concurrency: 2_048,
            },
        ),
        Tier::Full => Some(
            Profile {
                name: "full",
                accounts: 512,
                heavy_iters: 180,
                threads: 8,
                warmup: 25_000,
                iterations: 300_000,
                heavy_iterations: 300_000,
                batch: 2_500,
                rpc_batch: 0,
                concurrency: 2_048,
                heavy_concurrency: 2_048,
            },
        ),
        Tier::Soak => Some(
            Profile {
                name: "soak",
                accounts: 512,
                heavy_iters: 180,
                threads: 16,
                warmup: 50_000,
                iterations: 1_000_000,
                heavy_iterations: 100_000,
                batch: usize::MAX,
                rpc_batch: 500,
                concurrency: 512,
                heavy_concurrency: 8,
            },
        ),
        Tier::Deep => None,
    }
}

impl Profile {
    /// The transactions of a cell.
    pub open spec fn iterations_of(&self, cell: CellKind) -> u64 {
        match cell {
            CellKind::Light => self.iterations,
            CellKind::Heavy => self.heavy_iterations,
        }
    }

    /// The transactions of a cell.
    pub fn cell_iterations(&self, cell: CellKind) -> (r: u64)
        ensures
            r == self.iterations_of(cell),
    {
        match cell {
            CellKind::Light => self.iterations,
            CellKind::Heavy => self.heavy_iterations,
        }
    }

    /// The unconfirmed transactions of a cell.
    pub fn cell_concurrency(&self, cell: CellKind) -> (r: usize)
        ensures
            r == match cell {
                CellKind::Light => self.concurrency,
                CellKind::Heavy => self.heavy_concurrency,
            },
    {
        match cell {
            CellKind::Light => self.concurrency,
            CellKind::Heavy => self.heavy_concurrency,
        }
    }

    /// How transactions are sent.
    pub fn mode(&self) -> (r: &'static str)
        ensures
            r@ == if self.rpc_batch > 0 {
                "staged backlog, batched rpc"@
            } else {
                "pre-signed burst"@
            },
    {
        if self.rpc_batch > 0 {
            "staged backlog, batched rpc"
        } else {
            "pre-signed burst"
        }
    }

    /// The last id before a cell: the warm-up comes first, then the light
    /// cell, then the heavy one.
    pub open spec fn offset_of(&self, cell: CellKind) -> int {
        match cell {
            CellKind::Light => self.warmup as int,
            CellKind::Heavy => self.warmup + self.iterations,
        }
    }

    /// The last id before a cell.
    pub fn cell_offset(&self, cell: CellKind) -> (r: u64)
        requires
            self.warmup + self.iterations <= u64::MAX,
        ensures
            r == self.offset_of(cell),
    {
        match cell {
            CellKind::Light => self.warmup,
            CellKind::Heavy => self.warmup + self.iterations,
        }
    }

    /// The rounds of a cell's chains.
    pub fn cell_iters(&self, cell: CellKind) -> (r: u32)
        ensures
            r == match cell {
                CellKind::Light => LIGHT_ITERS,
                CellKind::Heavy => self.heavy_iters,
            },
    {
        match cell {
            CellKind::Light => LIGHT_ITERS,
            CellKind::Heavy => self.heavy_iters,
        }
    }
}

/// No id of the warm-up or of the light cell is used again in the heavy cell,
/// and none of the warm-up in the light one.
pub proof fn cells_share_no_id(profile: Profile, id: int)
    ensures
        1 <= id <= profile.warmup ==> id <= profile.offset_of(CellKind::Light),
        id <= profile.offset_of(CellKind::Light) + profile.iterations ==> id <= profile.offset_of(
            CellKind::Heavy,
        ),
{
}

/// The account or payer of a transaction, in turn.
pub fn slot_of(global_id: u64, len: usize) -> (r: usize)
    requires
        1 <= global_id,
        global_id - 1 <= usize::MAX,
        len > 0,
    ensures
        r == (global_id - 1) % (len as int),
{
    (global_id - 1) as usize % len
}

/// The transaction with this id: a hash chain on its account, under a raised
/// compute limit where that is asked for.
pub fn build_ixs(accounts: &[Pubkey], global_id: u64, iters: u32, raise_budget: bool) -> (r: Vec<
    SolanaInstruction,
>)
    requires
        1 <= global_id,
        global_id - 1 <= usize::MAX,
        accounts@.len() > 0,
    ensures
        r@.len() == if raise_budget {
            2int
        } else {
            1int
        },
        raise_budget ==> r@[0].is(key(COMPUTE_BUDGET_ID), Seq::empty(), limit_data(CU_LIMIT)),
        r@.last().is(
            key(ID),
            metas_of(seq![accounts@[(global_id - 1) % (accounts@.len() as int)]], false, true),
            (Instruction::ExpensiveHashCompute { id: global_id, init: key(HASH_INIT), iters })
                .encoding(),
        ),
{
    assert(accounts.len() == accounts@.len());
    let pda = accounts[slot_of(global_id, accounts.len())];
    let targets: Vec<Pubkey> = vec![pda];
    assert(targets@ =~= seq![pda]);
    let compute = expensive_hash_compute_at(
        Pubkey::new(ID),
        global_id,
        Pubkey::new(HASH_INIT),
        iters,
        targets.as_slice(),
    );
    if raise_budget {
        vec![compute_unit_limit(CU_LIMIT), compute]
    } else {
        vec![compute]
    }
}

/// With one payer for every account, no two of as many transactions in a row
/// as there are accounts share an account or a payer, and of any two
/// transactions those on the same account are signed by the same payer.
pub proof fn transactions_in_flight_share_no_key(
    accounts: Seq<Pubkey>,
    payers: Seq<Pubkey>,
    one: int,
    other: int,
)
    requires
        accounts.len() > 0,
        payers.len() == accounts.len(),
        accounts.no_duplicates(),
        payers.no_duplicates(),
        1 <= one < other,
    ensures
        ({
            let n = accounts.len() as int;
            let a = (one - 1) % n;
            let b = (other - 1) % n;
            &&& other - one < n ==> accounts[a] != accounts[b] && payers[a] != payers[b]
            &&& accounts[a] == accounts[b] <==> payers[a] == payers[b]
        }),
{
    let n = accounts.len() as int;
    let a = (one - 1) % n;
    let b = (other - 1) % n;
    if other - one < n && a == b {
        let p = (one - 1) / n;
        let q = (other - 1) / n;
        vstd::arithmetic::div_mod::lemma_fundamental_div_mod(one - 1, n);
        vstd::arithmetic::div_mod::lemma_fundamental_div_mod(other - 1, n);
        assert(other - one == (q - p) * n) by (nonlinear_arith)
            requires
                one - 1 == n * p + a,
                other - 1 == n * q + b,
                a == b,
        ;
        assert(false) by (nonlinear_arith)
            requires
                0 < other - one < n,
                other - one == (q - p) * n,
        ;
    }
}

/// The transactions of a driver thread.
pub open spec fn thread_share(iterations: int, threads: int, thread: int) -> int {
    iterations / threads + if thread < iterations % threads {
        1int
    } else {
        0
    }
}

/// The last id before those of a driver thread.
pub open spec fn thread_first(offset: int, iterations: int, threads: int, thread: int) -> int {
    offset + thread * (iterations / threads) + if thread < iterations % threads {
        thread
    } else {
        iterations % threads
    }
}

/// One driver thread of a burst: it sends `iterations` transactions with the
/// ids behind `first_id`.
#[derive(Clone, Copy, Debug, PartialEq, Eq, Structural)]
pub struct ThreadSpan {
    pub first_id: u64,
    pub iterations: u64,
}

/// Splits a burst over driver threads as evenly as possible; a thread without
/// transactions is left out.
pub fn split_burst(offset: u64, iterations: u64, threads: usize) -> (r: Vec<ThreadSpan>)
    requires
        offset + iterations <= u64::MAX,
    ensures
        ({
            let n = if threads == 0 {
                1
            } else {
                threads as int
            };
            let used = if iterations < n {
                iterations as int
            } else {
                n
            };
            &&& r@.len() == used
            &&& forall|t: int|
                0 <= t < used ==> #[trigger] r@[t] == (ThreadSpan {
                    first_id: thread_first(offset as int, iterations as int, n, t) as u64,
                    iterations: thread_share(iterations as int, n, t) as u64,
                })
        }),
{
    let n: usize = if threads == 0 {
        1
    } else {
        threads
    };
    let base: u64 = iterations / (n as u64);
    let remainder: u64 = iterations % (n as u64);
    let mut first: u64 = offset;
    let mut spans: Vec<ThreadSpan> = Vec::new();
    let mut t: usize = 0;
    let ghost used = if iterations < n {
        iterations as int
    } else {
        n as int
    };
    proof {
        assert(iterations == n * base + remainder) by (nonlinear_arith)
            requires
                base == iterations / (n as u64),
                remainder == iterations % (n as u64),
                n > 0,
        ;
        if iterations < n {
            assert(base == 0 && remainder == iterations) by (nonlinear_arith)
                requires
                    base == iterations / (n as u64),
                    remainder == iterations % (n as u64),
                    iterations < n,
            ;
        } else {
            assert(base >= 1) by (nonlinear_arith)
                requires
                    base == iterations / (n as u64),
                    iterations >= n,
                    n > 0,
            ;
        }
        assert(0 * base == 0) by (nonlinear_arith);
    }
    while t < n
        invariant
            t <= n,
            n > 0,
            base == iterations / (n as u64),
            remainder == iterations % (n as u64),
            remainder < n,
            iterations == n * base + remainder,
            offset + iterations <= u64::MAX,
            first == thread_first(offset as int, iterations as int, n as int, t as int),
            used == if iterations < n {
                iterations as int
            } else {
                n as int
            },
            iterations < n ==> base == 0 && remainder == iterations,
            iterations >= n ==> base >= 1,
            spans@.len() == if t <= used {
                t as int
            } else {
                used
            },
            forall|k: int|
                0 <= k < spans@.len() ==> #[trigger] spans@[k] == (ThreadSpan {
                    first_id: thread_first(
                        offset as int,
                        iterations as int,
                        n as int,
                        k,
                    ) as u64,
                    iterations: thread_share(iterations as int, n as int, k) as u64,
                }),
        decreases n - t,
    {
        let extra: u64 = if (t as u64) < remainder {
            1
        } else {
            0
        };
        proof {
            assert(t * base + base <= n * base) by (nonlinear_arith)
                requires
                    t + 1 <= n,
                    base >= 0,
            ;
            assert((t + 1) * base == t * base + base) by (nonlinear_arith);
        }
        let mine: u64 = base + extra;
        if mine > 0 {
            spans.push(ThreadSpan { first_id: first, iterations: mine });
        }
        first = first + mine;
        t = t + 1;
    }
    spans
}

/// The ids of the driver threads follow on each other, and together they are
/// exactly the ids of the burst.
pub proof fn threads_cover_the_burst(offset: int, iterations: int, threads: int, thread: int)
    requires
        0 <= iterations,
        0 < threads,
        0 <= thread < threads,
    ensures
        thread_first(offset, iterations, threads, 0) == offset,
        thread_first(offset, iterations, threads, thread) + thread_share(
            iterations,
            threads,
            thread,
        ) == thread_first(offset, iterations, threads, thread + 1),
        thread_first(offset, iterations, threads, threads) == offset + iterations,
{
    let base = iterations / threads;
    assert((thread + 1) * base == thread * base + base) by (nonlinear_arith);
    assert(0 * base == 0) by (nonlinear_arith);
    assert(threads * base + iterations % threads == iterations) by (nonlinear_arith)
        requires
            base == iterations / threads,
            threads > 0,
    ;
    assert(0 <= iterations % threads < threads) by (nonlinear_arith)
        requires
            threads > 0,
    ;
}

/// The unconfirmed transactions of a driver thread: an equal part, and at
/// least one.
pub fn thread_concurrency(concurrency: usize, threads: usize) -> (r: usize)
    ensures
        ({
            let n = if threads == 0 {
                1
            } else {
                threads as int
            };
            r == if (concurrency as int) / n >= 1 {
                (concurrency as int) / n
            } else {
                1
            }
        }),
        1 <= r,
        concurrency >= 1 ==> r <= concurrency,
{
    let n: usize = if threads == 0 {
        1
    } else {
        threads
    };
    let each: usize = concurrency / n;
    if each >= 1 {
        each
    } else {
        1
    }
}

/// The requests that a number of signed transactions goes out in: one each,
/// or as many as a batch holds.
pub fn requests_for(signed: usize, rpc_batch: usize) -> (r: usize)
    ensures
        r == if rpc_batch > 0 {
            div_up(signed as int, rpc_batch as int)
        } else {
            signed as int
        },
{
    if rpc_batch > 0 {
        crate::suite::ceil_div(signed, rpc_batch)
    } else {
        signed
    }
}

/// Why the workers of a burst cannot be relied on.
#[derive(Clone, Copy, Debug, PartialEq, Eq, Structural)]
pub enum WorkerFault {
    /// A worker panicked.
    Panicked,
    /// A worker stopped without a word.
    Silent,
}

/// Whether every worker of a burst reported back.
pub fn check_workers(panicked: bool, received: usize, workers: usize) -> (r: Result<
    (),
    WorkerFault,
>)
    ensures
        r == if panicked {
            Err::<(), _>(WorkerFault::Panicked)
        } else if received != workers {
            Err(WorkerFault::Silent)
        } else {
            Ok::<(), WorkerFault>(())
        },
        r is Ok <==> !panicked && received == workers,
{
    if panicked {
        Err(WorkerFault::Panicked)
    } else if received != workers {
        Err(WorkerFault::Silent)
    } else {
        Ok(())
    }
}

/// What stands in front of the compute units in a log line.
pub const CONSUMED: [u8; 10] = [32, 99, 111, 110, 115, 117, 109, 101, 100, 32];

/// What stands between the compute units and their limit.
pub const OF: [u8; 4] = [32, 111, 102, 32];

/// What stands behind the limit.
pub const COMPUTE_UNITS: [u8; 13] = [
    99, 111, 109, 112, 117, 116, 101, 32, 117, 110, 105, 116, 115,
];

/// Whether a log line says that `cus` compute units were consumed: that text
/// stands between the first ` consumed ` and the first ` of ` behind it and is
/// a number, and `compute units` follows.
pub open spec fn line_says(line: Seq<u8>, cus: Seq<u8>) -> bool {
    exists|i: int, j: int|
        #![trigger first_at(line, CONSUMED@, i), first_at(line.skip(i + 10), OF@, j)]
        {
            let rest = line.skip(i + 10);
            &&& first_at(line, CONSUMED@, i)
            &&& first_at(rest, OF@, j)
            &&& exists|k: int| #[trigger] stands_at(rest.skip(j + 4), COMPUTE_UNITS@, k)
            &&& cus == rest.take(j)
            &&& is_float(cus)
        }
}

/// The compute units that a log line speaks of, as it writes them.
pub fn line_cus(line: &[u8]) -> (r: Option<&[u8]>)
    ensures
        match r {
            Some(cus) => line_says(line@, cus@),
            None => forall|cus: Seq<u8>| !line_says(line@, cus),
        },
{
    assert(line.len() == line@.len());
    match find_bytes(line, CONSUMED.as_slice()) {
        None => None,
        Some(i) => {
            let rest = slice_subrange(line, i + 10, line.len());
            assert(rest@ =~= line@.skip(i + 10));
            proof {
                assert forall|cus: Seq<u8>| line_says(line@, cus) implies exists|j: int|
                    #[trigger] first_at(rest@, OF@, j) && (exists|k: int| #[trigger]
                        stands_at(rest@.skip(j + 4), COMPUTE_UNITS@, k)) && is_float(
                        rest@.take(j),
                    ) by {
                    let (i2, j2) = choose|i2: int, j2: int|
                        #![trigger first_at(line@, CONSUMED@, i2), first_at(line@.skip(i2 + 10), OF@, j2)]
                        {
                            let rest = line@.skip(i2 + 10);
                            &&& first_at(line@, CONSUMED@, i2)
                            &&& first_at(rest, OF@, j2)
                            &&& exists|k: int| #[trigger]
                                stands_at(rest.skip(j2 + 4), COMPUTE_UNITS@, k)
                            &&& cus == rest.take(j2)
                            &&& is_float(cus)
                        };
                    lemma_first_is_unique(line@, CONSUMED@, i as int, i2);
                    assert(first_at(rest@, OF@, j2));
                }
            }
            match find_bytes(rest, OF.as_slice()) {
                None => None,
                Some(j) => {
                    let tail = slice_subrange(rest, j + 4, rest.len());
                    assert(tail@ =~= rest@.skip(j + 4));
                    let cus = slice_subrange(rest, 0, j);
                    assert(cus@ =~= rest@.take(j as int));
                    proof {
                        assert forall|j2: int| first_at(rest@, OF@, j2) implies j2 == j by {
                            lemma_first_is_unique(rest@, OF@, j as int, j2);
                        }
                    }
                    match find_bytes(tail, COMPUTE_UNITS.as_slice()) {
                        None => None,
                        Some(k) => {
                            if !reads_as_float(cus) {
                                return None;
                            }
                            proof {
                                assert(first_at(line@, CONSUMED@, i as int));
                                assert(first_at(line@.skip(i + 10), OF@, j as int));
                                assert(stands_at(rest@.skip(j + 4), COMPUTE_UNITS@, k as int));
                                assert(line_says(line@, cus@));
                            }
                            Some(cus)
                        },
                    }
                },
            }
        },
    }
}

/// A log line names one amount of compute units.
pub proof fn lines_name_one_amount(line: Seq<u8>, one: Seq<u8>, other: Seq<u8>)
    requires
        line_says(line, one),
        line_says(line, other),
    ensures
        one == other,
{
    let (i, j) = choose|i: int, j: int|
        #![trigger first_at(line, CONSUMED@, i), first_at(line.skip(i + 10), OF@, j)]
        first_at(line, CONSUMED@, i) && first_at(line.skip(i + 10), OF@, j) && one == line.skip(
            i + 10,
        ).take(j);
    let (i2, j2) = choose|i2: int, j2: int|
        #![trigger first_at(line, CONSUMED@, i2), first_at(line.skip(i2 + 10), OF@, j2)]
        first_at(line, CONSUMED@, i2) && first_at(line.skip(i2 + 10), OF@, j2) && other
            == line.skip(i2 + 10).take(j2);
    lemma_first_is_unique(line, CONSUMED@, i, i2);
    lemma_first_is_unique(line.skip(i + 10), OF@, j, j2);
}

/// There is one first place.
proof fn lemma_first_is_unique(hay: Seq<u8>, needle: Seq<u8>, one: int, other: int)
    requires
        first_at(hay, needle, one),
        first_at(hay, needle, other),
    ensures
        one == other,
{
    if one < other {
        assert(!stands_at(hay, needle, one));
    }
    if other < one {
        assert(!stands_at(hay, needle, other));
    }
}

/// The compute units that the first log line which speaks of any names, as it
/// writes them.
pub fn consumed_cus(logs: &[Vec<u8>]) -> (r: Option<&[u8]>)
    ensures
        match r {
            Some(cus) => exists|i: int|
                0 <= i < logs@.len() && line_says(#[trigger] logs@[i]@, cus@) && forall|j: int|
                    0 <= j < i ==> forall|other: Seq<u8>| !line_says(#[trigger] logs@[j]@, other),
            None => forall|i: int|
                0 <= i < logs@.len() ==> forall|cus: Seq<u8>|
                    !line_says(#[trigger] logs@[i]@, cus),
        },
{
    let mut i: usize = 0;
    while i < logs.len()
        invariant
            i <= logs@.len(),
            forall|j: int|
                0 <= j < i ==> forall|cus: Seq<u8>| !line_says(#[trigger] logs@[j]@, cus),
        decreases logs@.len() - i,
    {
        if let Some(cus) = line_cus(logs[i].as_slice()) {
            assert(line_says(logs@[i as int]@, cus@));
            return Some(cus);
        }
        i = i + 1;
    }
    None
}

/// What a cell came to.
#[derive(Clone, Copy, Debug)]
pub struct CellFacts {
    pub failed: u64,
    pub dropped: Option<u64>,
    pub execution_failed: Option<u64>,
    pub probe_captured: bool,
    pub probe_failed: bool,
    /// Whether the logs of the probe name compute units.
    pub cus_named: bool,
}

/// What a cell can be faulted for.
#[derive(Clone, Copy, Debug, PartialEq, Eq, Structural)]
pub enum CellFault {
    /// A transaction was not delivered.
    DeliveryFailed,
    /// Transactions were dropped before they ran.
    Dropped,
    /// Transactions ran and failed.
    ExecutionFailed,
    /// No transaction was picked as a probe.
    NoProbe,
    /// The probe failed.
    ProbeFailed,
    /// The logs of the probe name no compute units.
    NoComputeUnits,
}

/// The first thing that a cell is faulted for, in the order of the checks.
pub open spec fn cell_verdict(facts: CellFacts) -> Result<(), CellFault> {
    if facts.failed != 0 {
        Err(CellFault::DeliveryFailed)
    } else if facts.dropped matches Some(n) && n != 0 {
        Err(CellFault::Dropped)
    } else if facts.execution_failed matches Some(n) && n != 0 {
        Err(CellFault::ExecutionFailed)
    } else if !facts.probe_captured {
        Err(CellFault::NoProbe)
    } else if facts.probe_failed {
        Err(CellFault::ProbeFailed)
    } else if !facts.cus_named {
        Err(CellFault::NoComputeUnits)
    } else {
        Ok(())
    }
}

/// Checks what a cell came to.
pub fn check_cell(facts: &CellFacts) -> (r: Result<(), CellFault>)
    ensures
        r == cell_verdict(*facts),
{
    if facts.failed != 0 {
        return Err(CellFault::DeliveryFailed);
    }
    if let Some(dropped) = facts.dropped {
        if dropped != 0 {
            return Err(CellFault::Dropped);
        }
    }
    if let Some(failed) = facts.execution_failed {
        if failed != 0 {
            return Err(CellFault::ExecutionFailed);
        }
    }
    if !facts.probe_captured {
        return Err(CellFault::NoProbe);
    }
    if facts.probe_failed {
        return Err(CellFault::ProbeFailed);
    }
    if !facts.cus_named {
        return Err(CellFault::NoComputeUnits);
    }
    Ok(())
}

/// Whether an account holds the end of the heavy hash chain.
pub fn holds_heavy_chain(data: &[u8], heavy_iters: u32) -> (r: bool)
    requires
        data@.len() >= HASH_OFFSET + HASH_SIZE,
    ensures
        r == (data@.subrange(HASH_OFFSET as int, HASH_OFFSET + HASH_SIZE) == chained(
            HASH_INIT@,
            heavy_iters as nat,
        )),
{
    let expected: [u8; 32] = hash_chain(HASH_INIT, heavy_iters);
    same_bytes(slice_subrange(data, HASH_OFFSET, HASH_OFFSET + HASH_SIZE), expected.as_slice())
}

/// What the readings of the busy executors add up to.
#[derive(Clone, Copy, Debug, PartialEq, Eq, Structural)]
pub struct BusySamples {
    pub sum: u64,
    pub max: u64,
    pub count: usize,
}

/// The sum of several readings.
pub open spec fn sum_of(readings: Seq<u64>) -> int
    decreases readings.len(),
{
    if readings.len() == 0 {
        0
    } else {
        sum_of(readings.drop_last()) + readings.last()
    }
}

/// A sum over fewer readings is not larger.
proof fn lemma_sum_grows(readings: Seq<u64>, n: int)
    requires
        0 <= n <= readings.len(),
    ensures
        0 <= sum_of(readings.take(n)) <= sum_of(readings),
    decreases readings.len(),
{
    if n < readings.len() {
        lemma_sum_grows(readings.drop_last(), n);
        assert(readings.drop_last().take(n) =~= readings.take(n));
    } else {
        assert(readings.take(n) =~= readings);
        if readings.len() > 0 {
            lemma_sum_grows(readings.drop_last(), readings.len() - 1);
        }
    }
}

/// Adds up the readings of the busy executors.
pub fn busy_samples(readings: &[u64]) -> (r: BusySamples)
    requires
        sum_of(readings@) <= u64::MAX,
    ensures
        r.sum == sum_of(readings@),
        r.count == readings@.len(),
        forall|i: int| 0 <= i < readings@.len() ==> readings@[i] <= r.max,
        r.max == 0 || readings@.contains(r.max),
{
    let mut sum: u64 = 0;
    let mut max: u64 = 0;
    let mut i: usize = 0;
    while i < readings.len()
        invariant
            i <= readings@.len(),
            sum_of(readings@) <= u64::MAX,
            sum == sum_of(readings@.take(i as int)),
            forall|j: int| 0 <= j < i ==> readings@[j] <= max,
            max == 0 || exists|j: int| 0 <= j < i && readings@[j] == max,
        decreases readings@.len() - i,
    {
        proof {
            lemma_sum_grows(readings@, i as int + 1);
            assert(readings@.take(i as int + 1).drop_last() =~= readings@.take(i as int));
        }
        sum = sum + readings[i];
        if readings[i] > max {
            max = readings[i];
            assert(readings@[i as int] == max);
        }
        i = i + 1;
    }
    assert(readings@.take(i as int) =~= readings@);
    BusySamples { sum, max, count: readings.len() }
}

/// A burst is split evenly: no thread has more than one transaction more than
/// another, and earlier threads have the larger shares.
pub proof fn threads_share_evenly(iterations: int, threads: int, one: int, other: int)
    requires
        0 <= iterations,
        0 < threads,
        0 <= one <= other < threads,
    ensures
        thread_share(iterations, threads, other) <= thread_share(iterations, threads, one)
            <= thread_share(iterations, threads, other) + 1,
        threads * (thread_share(iterations, threads, one) - 1) <= iterations <= threads * (
        thread_share(iterations, threads, other) + 1),
{
    vstd::arithmetic::div_mod::lemma_fundamental_div_mod(iterations, threads);
    vstd::arithmetic::div_mod::lemma_mod_bound(iterations, threads);
    let q = iterations / threads;
    let a = thread_share(iterations, threads, one);
    let b = thread_share(iterations, threads, other);
    assert(threads * (a - 1) <= threads * q && threads * (q + 1) <= threads * (b + 1))
        by (nonlinear_arith)
        requires
            a - 1 <= q <= b,
            threads > 0,
    ;
    assert(threads * (q + 1) == threads * q + threads) by (nonlinear_arith);
}

/// A line names the amount between the first place that tells of consumption
/// and the first place behind it that tells of the limit.
pub proof fn a_line_names_what_was_consumed(front: Seq<u8>, cus: Seq<u8>, rest: Seq<u8>, k: int)
    requires
        is_float(cus),
        first_at(front + CONSUMED@ + cus + OF@ + rest, CONSUMED@, front.len() as int),
        first_at(cus + OF@ + rest, OF@, cus.len() as int),
        stands_at(rest, COMPUTE_UNITS@, k),
    ensures
        line_says(front + CONSUMED@ + cus + OF@ + rest, cus),
{
    let line = front + CONSUMED@ + cus + OF@ + rest;
    let i = front.len() as int;
    let j = cus.len() as int;
    assert(CONSUMED@.len() == 10 && OF@.len() == 4);
    let tail = line.skip(i + 10);
    assert(tail =~= cus + OF@ + rest);
    assert(tail.skip(j + 4) =~= rest);
    assert(tail.take(j) =~= cus);
    assert(first_at(line, CONSUMED@, i) && first_at(line.skip(i + 10), OF@, j));
    assert(stands_at(tail.skip(j + 4), COMPUTE_UNITS@, k));
}

/// A cell is accepted exactly where nothing failed or was dropped, as far as
/// that was counted, and a probe went through and named its compute units.
pub proof fn what_makes_a_cell_good(facts: CellFacts)
    ensures
        cell_verdict(facts) is Ok <==> {
            &&& facts.failed == 0
            &&& facts.dropped matches Some(n) ==> n == 0
            &&& facts.execution_failed matches Some(n) ==> n == 0
            &&& facts.probe_captured
            &&& !facts.probe_failed
            &&& facts.cus_named
        },
        cell_verdict(facts) == Err::<(), _>(CellFault::DeliveryFailed) <==> facts.failed > 0,
        cell_verdict(facts) == Err::<(), _>(CellFault::Dropped) ==> (facts.dropped matches Some(n)
            && n > 0),
        cell_verdict(facts) == Err::<(), _>(CellFault::ExecutionFailed) ==> (
        facts.execution_failed matches Some(n) && n > 0),
        cell_verdict(facts) == Err::<(), _>(CellFault::NoProbe) ==> !facts.probe_captured,
        cell_verdict(facts) == Err::<(), _>(CellFault::ProbeFailed) ==> facts.probe_failed,
        cell_verdict(facts) == Err::<(), _>(CellFault::NoComputeUnits) ==> !facts.cus_named,
{
}

/// Readings are added up one by one.
pub proof fn readings_add_up(one: Seq<u64>, other: Seq<u64>, reading: u64)
    ensures
        sum_of(one + other) == sum_of(one) + sum_of(other),
        sum_of(one.push(reading)) == sum_of(one) + reading,
        sum_of(Seq::empty()) == 0,
    decreases other.len(),
{
    assert(one.push(reading).drop_last() =~= one);
    if other.len() == 0 {
        assert(one + other =~= one);
    } else {
        readings_add_up(one, other.drop_last(), reading);
        assert((one + other).drop_last() =~= one + other.drop_last());
    }
}

/// The light cell comes behind the warmup, and the heavy one behind the light
/// one.
pub proof fn cells_follow_the_warmup(profile: Profile)
    ensures
        profile.offset_of(CellKind::Light) == profile.warmup,
        profile.offset_of(CellKind::Heavy) == profile.offset_of(CellKind::Light)
            + profile.iterations_of(CellKind::Light),
{
}

} // verus!
