//! Connections held open by the thousand: none may be dropped, and none may
//! leave a descriptor or memory behind.
use crate::suite::Tier;
use vstd::prelude::*;

verus! {

/// How many connections are opened at once.
pub const OPEN_CONCURRENCY: usize = 64;

/// The descriptors that may be open beyond those of the connections while
/// they are held.
pub const FD_TOLERANCE: usize = 64;

/// The descriptors of the baseline that may have gone meanwhile.
pub const FD_BASELINE_SLACK: usize = 8;

/// The suite.
pub struct WsConnCapacity;

impl WsConnCapacity {
    /// The name that the suite reports under.
    pub fn name(&self) -> (r: &'static str)
        ensures
            r@ == "redline/ws_conn_capacity"@,
    {
        "redline/ws_conn_capacity"
    }
}

/// The size of a run.
#[derive(Clone, Copy, Debug)]
pub struct Profile {
    pub name: &'static str,
    pub ladder: [usize; 3],
    pub churn_ops: u64,
    pub churn_concurrency: usize,
}

/// The size of a run at each tier that the suite offers.
pub open spec fn profile_of(tier: Tier) -> Option<Profile> {
    match tier {
        Tier::Lite => Some(
            Profile {
                name: "lite",
                ladder: [100, 200, 500],
                churn_ops: 500,
                churn_concurrency: 50,
            },
        ),
        Tier::Full => Some(
            Profile {
                name: "full",
                ladder: [1_000, 2_000, 5_000],
                churn_ops: 5_000,
                churn_concurrency: 200,
            },
        ),
        Tier::Soak => None,
        Tier::Deep => None,
    }
}

/// The size of a run at `tier`, if the suite offers it.
pub fn profile(tier: Tier) -> (r: Option<Profile>)
    ensures
        r == profile_of(tier),
{
    match tier {
        Tier::Lite => Some(
            Profile {
                name: "lite",
                ladder: [100, 200, 500],
                churn_ops: 500,
                churn_concurrency: 50,
            },
        ),
        Tier::Full => Some(
            Profile {
                name: "full",
                ladder: [1_000, 2_000, 5_000],
                churn_ops: 5_000,
                churn_concurrency: 200,
            },
        ),
        Tier::Soak => None,
        Tier::Deep => None,
    }
}

/// What batches add up to.
pub open spec fn opened(batches: Seq<usize>) -> int
    decreases batches.len(),
{
    if batches.len() == 0 {
        0
    } else {
        opened(batches.drop_last()) + batches.last()
    }
}

/// The batches in which connections are opened: full ones, and a last one for
/// the rest.
pub fn batches(count: usize) -> (r: Vec<usize>)
    ensures
        opened(r@) == count,
        forall|i: int| 0 <= i < r@.len() ==> 0 < #[trigger] r@[i] <= OPEN_CONCURRENCY,
        forall|i: int| 0 <= i < r@.len() - 1 ==> #[trigger] r@[i] == OPEN_CONCURRENCY,
{
    let mut out: Vec<usize> = Vec::new();
    let mut remaining: usize = count;
    while remaining > 0
        invariant
            opened(out@) + remaining == count,
            forall|i: int| 0 <= i < out@.len() ==> 0 < #[trigger] out@[i] <= OPEN_CONCURRENCY,
            forall|i: int| 0 <= i < out@.len() - 1 ==> #[trigger] out@[i] == OPEN_CONCURRENCY,
            remaining > 0 && out@.len() > 0 ==> out@.last() == OPEN_CONCURRENCY,
        decreases remaining,
    {
        let batch: usize = if remaining < OPEN_CONCURRENCY {
            remaining
        } else {
            OPEN_CONCURRENCY
        };
        let ghost before = out@;
        out.push(batch);
        assert(out@.drop_last() =~= before);
        remaining = remaining - batch;
    }
    out
}

/// Whether the wait for descriptors to be closed is over.
pub fn settled(fds: usize, baseline: usize, late: bool) -> (r: bool)
    ensures
        r == (fds <= baseline || late),
{
    fds <= baseline || late
}

/// What was measured with some connections open.
#[derive(Clone, Copy, Debug)]
pub struct RungOutcome {
    pub connections: usize,
    pub fds_idle: usize,
    pub fds_after_close: usize,
    pub unsubscribe_failures: usize,
}

/// What a rung can be faulted for.
#[derive(Clone, Copy, Debug, PartialEq, Eq, Structural)]
pub enum RungFault {
    /// Fewer connections were held open.
    NotHeld,
    /// More descriptors were open than connections.
    TooManyDescriptors,
    /// Unsubscribing failed.
    UnsubscribeFailed,
    /// Descriptors stayed open.
    Leaked,
}

/// What a rung is faulted for.
pub open spec fn rung_fault(rung: RungOutcome, baseline: usize) -> Option<RungFault> {
    if rung.fds_idle + FD_BASELINE_SLACK < baseline + rung.connections {
        Some(RungFault::NotHeld)
    } else if rung.fds_idle > baseline + rung.connections + FD_TOLERANCE {
        Some(RungFault::TooManyDescriptors)
    } else if rung.unsubscribe_failures != 0 {
        Some(RungFault::UnsubscribeFailed)
    } else if rung.fds_after_close > baseline {
        Some(RungFault::Leaked)
    } else {
        None
    }
}

/// Holds a rung against what is required of it.
pub fn check_rung(rung: &RungOutcome, baseline: usize) -> (r: Result<(), RungFault>)
    ensures
        match r {
            Ok(_) => rung_fault(*rung, baseline) is None,
            Err(fault) => rung_fault(*rung, baseline) == Some(fault),
        },
{
    let held: u128 = baseline as u128 + rung.connections as u128;
    if rung.fds_idle as u128 + (FD_BASELINE_SLACK as u128) < held {
        return Err(RungFault::NotHeld);
    }
    if rung.fds_idle as u128 > held + FD_TOLERANCE as u128 {
        return Err(RungFault::TooManyDescriptors);
    }
    if rung.unsubscribe_failures != 0 {
        return Err(RungFault::UnsubscribeFailed);
    }
    if rung.fds_after_close > baseline {
        return Err(RungFault::Leaked);
    }
    Ok(())
}

/// What opening and closing again and again can be faulted for.
#[derive(Clone, Copy, Debug, PartialEq, Eq, Structural)]
pub enum ChurnFault {
    /// A connection failed.
    Failed,
    /// Descriptors stayed open.
    Leaked,
    /// Memory stayed allocated.
    LeakedMemory,
}

/// Holds the churn against what is required of it: nothing failed, and neither
/// descriptors nor memory are left behind.
pub fn check_churn(
    failed: u64,
    fds_after: usize,
    fds_before: usize,
    rss_after_kb: u64,
    rss_before_kb: u64,
) -> (r: Result<(), ChurnFault>)
    ensures
        r == if failed != 0 {
            Err::<(), ChurnFault>(ChurnFault::Failed)
        } else if fds_after > fds_before {
            Err(ChurnFault::Leaked)
        } else if rss_after_kb > rss_before_kb {
            Err(ChurnFault::LeakedMemory)
        } else {
            Ok(())
        },
        r is Ok <==> failed == 0 && fds_after <= fds_before && rss_after_kb <= rss_before_kb,
        r == Err::<(), _>(ChurnFault::Failed) <==> failed > 0,
{
    if failed != 0 {
        return Err(ChurnFault::Failed);
    }
    if fds_after > fds_before {
        return Err(ChurnFault::Leaked);
    }
    if rss_after_kb > rss_before_kb {
        return Err(ChurnFault::LeakedMemory);
    }
    Ok(())
}

/// A rung is accepted exactly where it holds a descriptor for every connection
/// but eight, no more than 64 on top, every subscription could be taken back,
/// and closing leaves no more than there was at first.
pub proof fn what_makes_a_rung_good(rung: RungOutcome, baseline: usize)
    ensures
        rung_fault(rung, baseline) is None <==> {
            &&& rung.fds_idle - baseline >= rung.connections - 8
            &&& rung.fds_idle - baseline <= rung.connections + 64
            &&& rung.unsubscribe_failures == 0
            &&& rung.fds_after_close <= baseline
        },
        rung_fault(rung, baseline) == Some(RungFault::NotHeld) <==> rung.fds_idle - baseline
            < rung.connections - 8,
        rung_fault(rung, baseline) == Some(RungFault::TooManyDescriptors) <==> rung.fds_idle
            - baseline > rung.connections + 64,
        rung_fault(rung, baseline) == Some(RungFault::Leaked) ==> rung.fds_after_close > baseline
            && rung.unsubscribe_failures == 0,
        rung_fault(rung, baseline) == Some(RungFault::UnsubscribeFailed)
            ==> rung.unsubscribe_failures > 0,
{
}

/// Connections are opened batch by batch, and none is counted twice.
pub proof fn batches_add_up(one: Seq<usize>, other: Seq<usize>, batch: usize)
    ensures
        opened(one + other) == opened(one) + opened(other),
        opened(one.push(batch)) == opened(one) + batch,
        opened(Seq::empty()) == 0,
    decreases other.len(),
{
    assert(one.push(batch).drop_last() =~= one);
    if other.len() == 0 {
        assert(one + other =~= one);
    } else {
        batches_add_up(one, other.drop_last(), batch);
        assert((one + other).drop_last() =~= one + other.drop_last());
    }
}

} // verus!
