//! How many websocket subscribers the rollup can fan updates out to: every
//! connection must see the final state of every account, and all connections
//! must see equally much.
use crate::chain::{key, metas_of, Pubkey, SolanaInstruction};
use crate::redline::instruction::Instruction;
use crate::redline::ID;
use crate::suite::{copy_base, Tier};
use vstd::prelude::*;

verus! {

/// The lag from which on a cell counts as past the cliff, in microseconds.
pub const CLIFF_P95_US: i32 = 1_000_000;

/// The suite.
pub struct WsFanoutThreshold;

impl WsFanoutThreshold {
    /// The name that the suite reports under.
    pub fn name(&self) -> (r: &'static str)
        ensures
            r@ == "redline/ws_fanout_threshold"@,
    {
        "redline/ws_fanout_threshold"
    }
}

/// The size of a run, with the connections of its three cells.
#[derive(Clone, Copy, Debug)]
pub struct Profile {
    pub name: &'static str,
    pub payers: usize,
    pub accounts: usize,
    pub ladder: (usize, usize, usize),
    pub subscriber_threads: usize,
    pub threads: usize,
    pub warmup: u64,
    pub iterations: u64,
    pub rate: u32,
    pub concurrency: usize,
}

/// The size of a run at each tier that the suite offers.
pub open spec fn profile_of(tier: Tier) -> Option<Profile> {
    match tier {
        Tier::Lite => Some(
            Profile {
                name: "lite",
                payers: 8,
                accounts: 16,
                ladder: (2, 4, 8),
                subscriber_threads: 4,
                threads: 2,
                warmup: 100,
                iterations: 600,
                rate: 200,
                concurrency: 64,
            },
        ),
        Tier::Full => Some(
            Profile {
                name: "full",
                payers: 32,
                accounts: 64,
                ladder: (16, 32, 64),
                subscriber_threads: 16,
                threads: 8,
                warmup: 10_000,
                iterations: 100_000,
                rate: 10_000,
                concurrency: 2_048,
            },
        ),
        _ => None,
    }
}

/// The size of a run at `tier`, if the suite offers it.
pub fn profile(tier: Tier) -> (r: Option<Profile>)
    ensures
        r == profile_of(tier),
{
    match tier {
        Tier::Lite => Some(
            Profile {
                name: "lite",
                payers: 8,
                accounts: 16,
                ladder: (2, 4, 8),
                subscriber_threads: 4,
                threads: 2,
                warmup: 100,
                iterations: 600,
                rate: 200,
                concurrency: 64,
            },
        ),
        Tier::Full => Some(
            Profile {
                name: "full",
                payers: 32,
                accounts: 64,
                ladder: (16, 32, 64),
                subscriber_threads: 16,
                threads: 8,
                warmup: 10_000,
                iterations: 100_000,
                rate: 10_000,
                concurrency: 2_048,
            },
        ),
        _ => None,
    }
}

/// The places in the pool that the copy with this id writes to.
pub open spec fn dest_places(len: int, id: int) -> (int, int) {
    ((copy_base(len, id) + 1) % len, (copy_base(len, id) + 2) % len)
}

/// The places in the pool that the copy with this id writes to.
pub fn shape_dests(len: usize, id: u64) -> (r: (usize, usize))
    requires
        len > 0,
        id >= 1,
        (id - 1) * 3 <= u64::MAX,
    ensures
        r.0 < len,
        r.1 < len,
        r.0 == dest_places(len as int, id as int).0,
        r.1 == dest_places(len as int, id as int).1,
{
    let b: usize = (((id - 1) * 3) % len as u64) as usize;
    let next: usize = if b + 1 == len {
        0
    } else {
        b + 1
    };
    let after: usize = if next + 1 == len {
        0
    } else {
        next + 1
    };
    assert(next == (b + 1) % (len as int) && after == (b + 2) % (len as int)) by (nonlinear_arith)
        requires
            b < len,
            next == if b + 1 == len {
                0
            } else {
                b + 1
            },
            after == if next + 1 == len {
                0
            } else {
                next + 1
            },
    ;
    assert(b == copy_base(len as int, id as int));
    (next, after)
}

/// The copy with this id and the two accounts it writes to.
pub fn shape(pool: &[Pubkey], id: u64) -> (r: (SolanaInstruction, [Pubkey; 2]))
    requires
        pool@.len() > 0,
        id >= 1,
        (id - 1) * 3 <= u64::MAX,
    ensures
        ({
            let len = pool@.len() as int;
            let (first, second) = dest_places(len, id as int);
            &&& r.1@ == seq![pool@[first], pool@[second]]
            &&& r.0.is(
                key(ID),
                metas_of(seq![pool@[copy_base(len, id as int)]], false, false) + metas_of(
                    r.1@,
                    false,
                    true,
                ),
                (Instruction::AccountDataCopy { id }).encoding(),
            )
        }),
{
    assert(pool.len() == pool@.len());
    let (first, second) = shape_dests(pool.len(), id);
    let ix = crate::suite::shape(pool, id);
    let dests: [Pubkey; 2] = [pool[first], pool[second]];
    assert(dests@ =~= seq![pool@[first as int], pool@[second as int]]);
    (ix, dests)
}

/// The ids behind `first`, up to `first + n`, that write to the account at
/// place `p`, in order; an id is listed as often as it writes there.
pub open spec fn writes_to(len: int, p: int, first: int, n: int) -> Seq<u64>
    decreases n,
{
    if n <= 0 {
        Seq::empty()
    } else {
        let id = first + n;
        let before = writes_to(len, p, first, n - 1);
        let once = if dest_places(len, id).0 == p {
            before.push(id as u64)
        } else {
            before
        };
        if dest_places(len, id).1 == p {
            once.push(id as u64)
        } else {
            once
        }
    }
}

/// For every account of a pool, the ids of a cell that write to it.
pub fn cell_expected_writes(pool_len: usize, first_id: u64, iterations: u64) -> (r: Vec<Vec<u64>>)
    requires
        pool_len > 0,
        (first_id + iterations) * 3 <= u64::MAX,
    ensures
        r@.len() == pool_len,
        forall|p: int|
            0 <= p < pool_len ==> (#[trigger] r@[p])@ == writes_to(
                pool_len as int,
                p,
                first_id as int,
                iterations as int,
            ),
{
    let mut expected: Vec<Vec<u64>> = Vec::new();
    while expected.len() < pool_len
        invariant
            expected@.len() <= pool_len,
            forall|p: int| 0 <= p < expected@.len() ==> (#[trigger] expected@[p])@.len() == 0,
        decreases pool_len - expected@.len(),
    {
        expected.push(Vec::new());
    }
    let mut n: u64 = 0;
    assert forall|p: int| 0 <= p < pool_len implies (#[trigger] expected@[p])@ == writes_to(
        pool_len as int,
        p,
        first_id as int,
        0,
    ) by {
        assert(expected@[p]@ =~= Seq::<u64>::empty());
    }
    while n < iterations
        invariant
            n <= iterations,
            pool_len > 0,
            (first_id + iterations) * 3 <= u64::MAX,
            expected@.len() == pool_len,
            forall|p: int|
                0 <= p < pool_len ==> (#[trigger] expected@[p])@ == writes_to(
                    pool_len as int,
                    p,
                    first_id as int,
                    n as int,
                ),
        decreases iterations - n,
    {
        let id: u64 = first_id + n + 1;
        let (first, second) = shape_dests(pool_len, id);
        expected[first].push(id);
        expected[second].push(id);
        n = n + 1;
    }
    expected
}

/// What the places below `p` are written between them.
pub open spec fn writes_below(len: int, p: int, first: int, n: int) -> int
    decreases p,
{
    if p <= 0 {
        0
    } else {
        writes_below(len, p - 1, first, n) + writes_to(len, p - 1, first, n).len()
    }
}

/// A cell writes twice per id: the expected writes of all accounts are twice
/// as many as the ids of the cell.
pub proof fn a_cell_writes_twice_per_id(len: int, first: int, n: int)
    requires
        len > 0,
        first >= 0,
        n >= 0,
    ensures
        writes_below(len, len, first, n) == 2 * n,
    decreases n,
{
    if n == 0 {
        lemma_no_writes(len, len, first);
    } else {
        a_cell_writes_twice_per_id(len, first, n - 1);
        let (a, b) = dest_places(len, first + n);
        assert(0 <= a < len && 0 <= b < len) by (nonlinear_arith)
            requires
                a == (copy_base(len, first + n) + 1) % len,
                b == (copy_base(len, first + n) + 2) % len,
                len > 0,
        ;
        lemma_one_more_id(len, len, first, n);
    }
}

/// No id, no writes.
proof fn lemma_no_writes(len: int, p: int, first: int)
    ensures
        writes_below(len, p, first, 0) == 0,
    decreases p,
{
    if p > 0 {
        lemma_no_writes(len, p - 1, first);
    }
}

/// One more id adds a write at each of its two places.
proof fn lemma_one_more_id(len: int, p: int, first: int, n: int)
    requires
        n > 0,
        p >= 0,
        0 <= dest_places(len, first + n).0,
        0 <= dest_places(len, first + n).1,
    ensures
        writes_below(len, p, first, n) == writes_below(len, p, first, n - 1) + if dest_places(
            len,
            first + n,
        ).0 < p {
            1int
        } else {
            0
        } + if dest_places(len, first + n).1 < p {
            1int
        } else {
            0
        },
    decreases p,
{
    if p > 0 {
        lemma_one_more_id(len, p - 1, first, n);
    }
}

/// The last id before the cell at place `cell` of the ladder.
pub open spec fn cell_offset(warmup: int, iterations: int, cell: int) -> int {
    warmup + cell * iterations
}

/// The last id before a cell.
pub fn cell_first_id(warmup: u64, iterations: u64, cell: u64) -> (r: u64)
    requires
        cell_offset(warmup as int, iterations as int, cell as int) <= u64::MAX,
    ensures
        r == cell_offset(warmup as int, iterations as int, cell as int),
{
    warmup + cell * iterations
}

/// No id of a cell is used in a later one, nor one of the warm-up in any.
pub proof fn cells_share_no_id(warmup: int, iterations: int, cell: int, later: int, id: int)
    requires
        0 <= warmup,
        0 <= iterations,
        0 <= cell < later,
        id <= cell_offset(warmup, iterations, cell) + iterations,
    ensures
        id <= cell_offset(warmup, iterations, later),
        warmup <= cell_offset(warmup, iterations, cell),
{
    assert(cell * iterations + iterations <= later * iterations) by (nonlinear_arith)
        requires
            cell + 1 <= later,
            0 <= iterations,
    ;
    assert(0 <= cell * iterations) by (nonlinear_arith)
        requires
            0 <= cell,
            0 <= iterations,
    ;
}

/// What one connection received.
#[derive(Clone, Copy, Debug, PartialEq, Eq, Structural)]
pub struct ConnReport {
    pub received: u64,
    pub over_threshold: u64,
}

/// What the connections of a cell received between them.
#[derive(Clone, Copy, Debug, PartialEq, Eq, Structural)]
pub struct Received {
    pub min: u64,
    pub max: u64,
    pub total: u64,
    pub over_threshold: u64,
}

/// What the connections received in total.
pub open spec fn sum_received(reports: Seq<ConnReport>) -> int
    decreases reports.len(),
{
    if reports.len() == 0 {
        0
    } else {
        sum_received(reports.drop_last()) + reports.last().received
    }
}

/// What came too late in total.
pub open spec fn sum_late(reports: Seq<ConnReport>) -> int
    decreases reports.len(),
{
    if reports.len() == 0 {
        0
    } else {
        sum_late(reports.drop_last()) + reports.last().over_threshold
    }
}

/// Sums over fewer connections are not larger.
proof fn lemma_sums_grow(reports: Seq<ConnReport>, n: int)
    requires
        0 <= n <= reports.len(),
    ensures
        sum_received(reports.take(n)) <= sum_received(reports),
        sum_late(reports.take(n)) <= sum_late(reports),
    decreases reports.len(),
{
    if n < reports.len() {
        lemma_sums_grow(reports.drop_last(), n);
        assert(reports.drop_last().take(n) =~= reports.take(n));
    } else {
        assert(reports.take(n) =~= reports);
    }
}

/// Adds up what the connections of a cell received. Without a connection
/// everything is zero.
pub fn gather(reports: &[ConnReport]) -> (r: Received)
    requires
        sum_received(reports@) <= u64::MAX,
        sum_late(reports@) <= u64::MAX,
    ensures
        r.total == sum_received(reports@),
        r.over_threshold == sum_late(reports@),
        reports@.len() == 0 ==> r.min == 0 && r.max == 0,
        forall|i: int|
            0 <= i < reports@.len() ==> r.min <= (#[trigger] reports@[i]).received <= r.max,
        reports@.len() > 0 ==> (exists|i: int|
            0 <= i < reports@.len() && (#[trigger] reports@[i]).received == r.min) && (exists|
            i: int,
        |
            0 <= i < reports@.len() && (#[trigger] reports@[i]).received == r.max),
{
    let mut r = Received { min: 0, max: 0, total: 0, over_threshold: 0 };
    let mut i: usize = 0;
    while i < reports.len()
        invariant
            i <= reports@.len(),
            sum_received(reports@) <= u64::MAX,
            sum_late(reports@) <= u64::MAX,
            r.total == sum_received(reports@.take(i as int)),
            r.over_threshold == sum_late(reports@.take(i as int)),
            i == 0 ==> r.min == 0 && r.max == 0,
            forall|j: int|
                0 <= j < i ==> r.min <= (#[trigger] reports@[j]).received <= r.max,
            i > 0 ==> exists|j: int| 0 <= j < i && (#[trigger] reports@[j]).received == r.min,
            i > 0 ==> exists|j: int| 0 <= j < i && (#[trigger] reports@[j]).received == r.max,
        decreases reports@.len() - i,
    {
        proof {
            lemma_sums_grow(reports@, i as int + 1);
            assert(reports@.take(i as int + 1).drop_last() =~= reports@.take(i as int));
        }
        let report = reports[i];
        let ghost before = r;
        r.total = r.total + report.received;
        r.over_threshold = r.over_threshold + report.over_threshold;
        if i == 0 || report.received < r.min {
            r.min = report.received;
        }
        if i == 0 || report.received > r.max {
            r.max = report.received;
        }
        proof {
            assert(reports@[i as int].received == report.received);
            if i > 0 {
                let j = choose|j: int|
                    0 <= j < i && (#[trigger] reports@[j]).received == before.min;
                let k = choose|k: int|
                    0 <= k < i && (#[trigger] reports@[k]).received == before.max;
                assert(reports@[j].received == before.min);
                assert(reports@[k].received == before.max);
            }
        }
        i = i + 1;
    }
    assert(reports@.take(i as int) =~= reports@);
    r
}

/// What a cell came to.
#[derive(Clone, Copy, Debug)]
pub struct CellOutcome {
    pub connections: usize,
    pub delivered: u64,
    pub missing_final: usize,
    /// The connections and accounts of which an update was missed.
    pub incomplete: usize,
    pub received_min: u64,
    pub received_max: u64,
    pub lag_p95_us: i32,
}

/// Whether the fan-out of a cell no longer holds: a connection missed a final
/// state or any other update, connections saw unequally much, or the lag is
/// too long.
pub open spec fn past_cliff(cell: CellOutcome) -> bool {
    cell.missing_final > 0 || cell.incomplete > 0 || cell.received_min != cell.received_max
        || cell.lag_p95_us >= CLIFF_P95_US
}

/// The connections of the first cell past the cliff, or zero if none is.
pub fn cliff(cells: &[CellOutcome]) -> (r: usize)
    ensures
        (exists|i: int|
            0 <= i < cells@.len() && past_cliff(#[trigger] cells@[i]) && r == cells@[i].connections
                && forall|j: int| 0 <= j < i ==> !past_cliff(#[trigger] cells@[j])) || (r == 0
            && forall|j: int| 0 <= j < cells@.len() ==> !past_cliff(#[trigger] cells@[j])),
{
    let mut i: usize = 0;
    while i < cells.len()
        invariant
            i <= cells@.len(),
            forall|j: int| 0 <= j < i ==> !past_cliff(#[trigger] cells@[j]),
        decreases cells@.len() - i,
    {
        let cell = cells[i];
        if cell.missing_final > 0 || cell.incomplete > 0 || cell.received_min != cell.received_max
            || cell.lag_p95_us >= CLIFF_P95_US {
            assert(past_cliff(cells@[i as int]));
            return cell.connections;
        }
        i = i + 1;
    }
    0
}

/// The first cell that delivered nothing, which makes a run invalid.
pub fn first_idle_cell(cells: &[CellOutcome]) -> (r: Option<usize>)
    ensures
        match r {
            None => forall|i: int| 0 <= i < cells@.len() ==> (#[trigger] cells@[i]).delivered > 0,
            Some(at) => at < cells@.len() && cells@[at as int].delivered == 0 && forall|i: int|
                0 <= i < at ==> (#[trigger] cells@[i]).delivered > 0,
        },
{
    let mut i: usize = 0;
    while i < cells.len()
        invariant
            i <= cells@.len(),
            forall|j: int| 0 <= j < i ==> (#[trigger] cells@[j]).delivered > 0,
        decreases cells@.len() - i,
    {
        if cells[i].delivered == 0 {
            return Some(i);
        }
        i = i + 1;
    }
    None
}

/// What a baseline cell is warned about: a lag past the cliff, missing final
/// states, unequal connections.
pub fn baseline_warnings(cell: &CellOutcome) -> (r: (bool, bool, bool))
    ensures
        r == (
            cell.lag_p95_us >= CLIFF_P95_US,
            cell.missing_final > 0,
            cell.received_min != cell.received_max,
        ),
{
    (
        cell.lag_p95_us >= CLIFF_P95_US,
        cell.missing_final > 0,
        cell.received_min != cell.received_max,
    )
}

/// The two destinations lie right behind the source, which moves on by three
/// with every id. In a pool of three or more the places differ.
pub proof fn destinations_lie_behind_the_source(len: int, id: int)
    requires
        0 < len,
        1 <= id,
    ensures
        0 <= copy_base(len, id) < len,
        copy_base(len, 1) == 0,
        copy_base(len, id + 1) == (copy_base(len, id) + 3) % len,
        dest_places(len, id).0 == (copy_base(len, id) + 1) % len,
        dest_places(len, id).1 == (dest_places(len, id).0 + 1) % len,
        len >= 3 ==> dest_places(len, id).0 != dest_places(len, id).1 && dest_places(len, id).0
            != copy_base(len, id) && dest_places(len, id).1 != copy_base(len, id),
{
    let base = copy_base(len, id);
    vstd::arithmetic::div_mod::lemma_mod_bound((id - 1) * 3, len);
    vstd::arithmetic::div_mod::lemma_small_mod(0, len as nat);
    vstd::arithmetic::div_mod::lemma_add_mod_noop_right(3, (id - 1) * 3, len);
    assert((id + 1 - 1) * 3 == 3 + (id - 1) * 3);
    vstd::arithmetic::div_mod::lemma_add_mod_noop_right(1, base + 1, len);
    if len >= 3 {
        if base + 1 < len {
            vstd::arithmetic::div_mod::lemma_small_mod((base + 1) as nat, len as nat);
        } else {
            vstd::arithmetic::div_mod::lemma_mod_self_0(len);
        }
        if base + 2 < len {
            vstd::arithmetic::div_mod::lemma_small_mod((base + 2) as nat, len as nat);
        } else {
            vstd::arithmetic::div_mod::lemma_mod_add_multiples_vanish(base + 2 - len, len);
            vstd::arithmetic::div_mod::lemma_small_mod((base + 2 - len) as nat, len as nat);
        }
    }
}

/// The writes that are expected at a place are the ids of the cell that have
/// it as a destination, from the earliest to the latest.
pub proof fn expected_writes_are_those_that_reach(len: int, p: int, first: int, n: int, id: u64)
    requires
        0 < len,
        0 <= first,
        0 <= n,
        first + n <= u64::MAX,
    ensures
        writes_to(len, p, first, n).contains(id) <==> first < id <= first + n && (dest_places(
            len,
            id as int,
        ).0 == p || dest_places(len, id as int).1 == p),
        forall|i: int, j: int|
            0 <= i <= j < writes_to(len, p, first, n).len() ==> #[trigger] writes_to(
                len,
                p,
                first,
                n,
            )[i] <= #[trigger] writes_to(len, p, first, n)[j],
        forall|i: int|
            0 <= i < writes_to(len, p, first, n).len() ==> #[trigger] writes_to(len, p, first, n)[i]
                <= first + n,
    decreases n,
{
    if n > 0 {
        expected_writes_are_those_that_reach(len, p, first, n - 1, id);
        let before = writes_to(len, p, first, n - 1);
        let now = writes_to(len, p, first, n);
        let last = (first + n) as u64;
        assert(now == before || now == before.push(last) || now == before.push(last).push(last));
        assert forall|x: u64| now.contains(x) <==> before.contains(x) || (x == last && now.len()
            > before.len()) by {
            if before.contains(x) {
                let i = choose|i: int| 0 <= i < before.len() && before[i] == x;
                assert(now[i] == x);
            }
            if x == last && now.len() > before.len() {
                assert(now[before.len() as int] == x);
            }
            if now.contains(x) {
                let i = choose|i: int| 0 <= i < now.len() && now[i] == x;
                if i < before.len() {
                    assert(before[i] == x);
                }
            }
        }
        assert forall|i: int| 0 <= i < now.len() implies #[trigger] now[i] <= first + n && (i
            >= before.len() ==> now[i] == last) && (i < before.len() ==> now[i] == before[i]) by {}
    }
}

/// Received and late updates are added up over the connections.
pub proof fn reports_add_up(one: Seq<ConnReport>, other: Seq<ConnReport>, report: ConnReport)
    ensures
        sum_received(one + other) == sum_received(one) + sum_received(other),
        sum_late(one + other) == sum_late(one) + sum_late(other),
        sum_received(one.push(report)) == sum_received(one) + report.received,
        sum_late(one.push(report)) == sum_late(one) + report.over_threshold,
        sum_received(Seq::empty()) == 0,
        sum_late(Seq::empty()) == 0,
    decreases other.len(),
{
    assert(one.push(report).drop_last() =~= one);
    if other.len() == 0 {
        assert(one + other =~= one);
    } else {
        reports_add_up(one, other.drop_last(), report);
        assert((one + other).drop_last() =~= one + other.drop_last());
    }
}

/// A cell holds exactly where no connection misses anything, all of them
/// receive equally much, and the lag of most is under a second.
pub proof fn what_makes_a_cell_hold(cell: CellOutcome)
    ensures
        !past_cliff(cell) <==> {
            &&& cell.missing_final == 0
            &&& cell.incomplete == 0
            &&& cell.received_min == cell.received_max
            &&& cell.lag_p95_us < 1_000_000
        },
{
}

/// The first cell begins behind the warmup, and every cell where the one
/// before ends.
pub proof fn cells_follow_the_warmup(warmup: int, iterations: int, cell: int)
    ensures
        cell_offset(warmup, iterations, 0) == warmup,
        cell_offset(warmup, iterations, cell + 1) == cell_offset(warmup, iterations, cell)
            + iterations,
{
    assert((cell + 1) * iterations == cell * iterations + iterations) by (nonlinear_arith);
}

} // verus!
