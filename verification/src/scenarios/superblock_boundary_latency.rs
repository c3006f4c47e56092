//! The pause at the end of a superblock: how long blocks take there, against
//! all other blocks under one unchanged load.
use crate::suite::Tier;
use vstd::prelude::*;
use vstd::relations::{sorted_by, total_ordering};
use vstd::seq_lib::lemma_sorted_unique;

verus! {

/// The time of a block in milliseconds.
pub const BLOCKTIME_MS: u64 = 50;

/// The suite.
pub struct SuperblockBoundaryLatency;

impl SuperblockBoundaryLatency {
    /// The name that the suite reports under.
    pub fn name(&self) -> (r: &'static str)
        ensures
            r@ == "redline/superblock_boundary_latency"@,
    {
        "redline/superblock_boundary_latency"
    }
}

/// The size of a run.
#[derive(Clone, Copy, Debug)]
pub struct Profile {
    pub name: &'static str,
    pub payers: usize,
    pub accounts: usize,
    pub fill: u64,
    pub superblock_slots: u64,
    pub iterations: u64,
    pub rate: u32,
    pub concurrency: usize,
    pub min_boundaries: usize,
}

/// The size of a run at each tier that the suite offers.
pub open spec fn profile_of(tier: Tier) -> Option<Profile> {
    match tier {
        Tier::Lite => Some(
            Profile {
                name: "lite",
                payers: 8,
                accounts: 16,
                fill: 2_000,
                superblock_slots: 16,
                iterations: 6_000,
                rate: 300,
                concurrency: 64,
                min_boundaries: 8,
            },
        ),
        Tier::Full => Some(
            Profile {
                name: "full",
                payers: 16,
                accounts: 64,
                fill: 20_000,
                superblock_slots: 32,
                iterations: 55_000,
                rate: 1_000,
                concurrency: 256,
                min_boundaries: 30,
            },
        ),
        Tier::Soak => None,
        Tier::Deep => None,
    }
}

/// The size of a run at `tier`, if the suite offers it.
pub fn profile(tier: Tier) -> (r: Option<Profile>)
    ensures
        r == profile_of(tier),
{
    match tier {
        Tier::Lite => Some(
            Profile {
                name: "lite",
                payers: 8,
                accounts: 16,
                fill: 2_000,
                superblock_slots: 16,
                iterations: 6_000,
                rate: 300,
                concurrency: 64,
                min_boundaries: 8,
            },
        ),
        Tier::Full => Some(
            Profile {
                name: "full",
                payers: 16,
                accounts: 64,
                fill: 20_000,
                superblock_slots: 32,
                iterations: 55_000,
                rate: 1_000,
                concurrency: 256,
                min_boundaries: 30,
            },
        ),
        Tier::Soak => None,
        Tier::Deep => None,
    }
}

/// Whether a block followed the last block of a superblock.
#[derive(Clone, Copy, Debug, PartialEq, Eq, Structural)]
pub enum Kind {
    Normal,
    Boundary,
}

/// The time between a block and the next.
#[derive(Clone, Copy, Debug)]
pub struct Interval {
    pub kind: Kind,
    pub micros: u32,
}

/// The interval between two notices of slots, if they are of one slot and the
/// next.
pub open spec fn interval(superblock_slots: u64, earlier: (u64, u64), later: (u64, u64)) -> Option<
    Interval,
> {
    if later.0 == earlier.0 + 1 {
        Some(
            Interval {
                kind: if earlier.0 % superblock_slots == 0 {
                    Kind::Boundary
                } else {
                    Kind::Normal
                },
                micros: ((later.1 - earlier.1) as u64) as u32,
            },
        )
    } else {
        None
    }
}

/// What the notices of slots amount to so far. A notice is a slot and the
/// microsecond at which it came.
#[derive(Debug)]
pub struct SlotWatch {
    pub superblock_slots: u64,
    pub previous: Option<(u64, u64)>,
    pub intervals: Vec<Interval>,
}

impl SlotWatch {
    /// Nothing was noticed yet.
    pub fn new(superblock_slots: u64) -> (r: SlotWatch)
        ensures
            r.superblock_slots == superblock_slots,
            r.previous is None,
            r.intervals@ == Seq::<Interval>::empty(),
    {
        SlotWatch { superblock_slots, previous: None, intervals: Vec::new() }
    }

    /// Takes a notice: it is the later end of an interval if the notice before
    /// it was of the slot before it.
    pub fn notice(&mut self, slot: u64, micros: u64)
        requires
            old(self).superblock_slots > 0,
            old(self).previous matches Some(previous) ==> previous.1 <= micros,
        ensures
            final(self).superblock_slots == old(self).superblock_slots,
            final(self).previous == Some((slot, micros)),
            final(self).intervals@ == match old(self).previous {
                Some(previous) => match interval(
                    old(self).superblock_slots,
                    previous,
                    (slot, micros),
                ) {
                    Some(new) => old(self).intervals@.push(new),
                    None => old(self).intervals@,
                },
                None => old(self).intervals@,
            },
    {
        if let Some((previous_slot, arrival)) = self.previous {
            if previous_slot < u64::MAX && slot == previous_slot + 1 {
                let kind = if previous_slot % self.superblock_slots == 0 {
                    Kind::Boundary
                } else {
                    Kind::Normal
                };
                self.intervals.push(Interval { kind, micros: (micros - arrival) as u32 });
            }
        }
        self.previous = Some((slot, micros));
    }
}

/// A run of consecutive slots as long as a superblock has exactly one boundary
/// in it.
pub proof fn one_boundary_per_superblock(superblock_slots: u64, first: u64)
    requires
        superblock_slots > 0,
        first + superblock_slots <= u64::MAX,
    ensures
        exists|slot: u64|
            first <= slot < first + superblock_slots && #[trigger] (slot % superblock_slots) == 0,
        forall|one: u64, other: u64|
            first <= one < first + superblock_slots && first <= other < first + superblock_slots
                && #[trigger] (one % superblock_slots) == 0 && #[trigger] (other
                % superblock_slots) == 0 ==> one == other,
{
    let n = superblock_slots as int;
    let f = first as int;
    let slot: u64 = if first % superblock_slots == 0 {
        first
    } else {
        (f - f % n + n) as u64
    };
    assert(slot % superblock_slots == 0 && first <= slot < first + superblock_slots) by {
        if f % n != 0 {
            vstd::arithmetic::div_mod::lemma_fundamental_div_mod(f, n);
            vstd::arithmetic::div_mod::lemma_mod_multiples_vanish(f / n + 1, 0, n);
            assert(n * (f / n + 1) == n * (f / n) + n) by (nonlinear_arith);
            vstd::arithmetic::div_mod::lemma_small_mod(0, n as nat);
        }
    }
    assert forall|one: u64, other: u64|
        first <= one < first + superblock_slots && first <= other < first + superblock_slots
            && #[trigger] (one % superblock_slots) == 0 && #[trigger] (other % superblock_slots)
            == 0 implies one == other by {
        let a = one as int;
        let b = other as int;
        vstd::arithmetic::div_mod::lemma_fundamental_div_mod(a, n);
        vstd::arithmetic::div_mod::lemma_fundamental_div_mod(b, n);
        let p = a / n;
        let q = b / n;
        assert(p == q) by (nonlinear_arith)
            requires
                a == n * p,
                b == n * q,
                n > 0,
                a - b < n,
                b - a < n,
        ;
    }
}

/// The durations of the intervals of a kind.
pub open spec fn durations(intervals: Seq<Interval>, kind: Kind) -> Seq<u32>
    decreases intervals.len(),
{
    if intervals.len() == 0 {
        Seq::empty()
    } else {
        let before = durations(intervals.drop_last(), kind);
        if intervals.last().kind == kind {
            before.push(intervals.last().micros)
        } else {
            before
        }
    }
}

/// The durations of the intervals of a kind.
pub fn durations_of(intervals: &[Interval], kind: Kind) -> (r: Vec<u32>)
    ensures
        r@ == durations(intervals@, kind),
{
    let mut out: Vec<u32> = Vec::new();
    let mut i: usize = 0;
    while i < intervals.len()
        invariant
            i <= intervals@.len(),
            out@ == durations(intervals@.take(i as int), kind),
        decreases intervals@.len() - i,
    {
        assert(intervals@.take(i as int + 1).drop_last() =~= intervals@.take(i as int));
        if intervals[i].kind == kind {
            out.push(intervals[i].micros);
        }
        i = i + 1;
    }
    assert(intervals@.take(i as int) =~= intervals@);
    out
}

/// Every interval is of one of the two kinds.
pub proof fn kinds_share_the_intervals(intervals: Seq<Interval>)
    ensures
        durations(intervals, Kind::Boundary).len() + durations(intervals, Kind::Normal).len()
            == intervals.len(),
    decreases intervals.len(),
{
    if intervals.len() > 0 {
        kinds_share_the_intervals(intervals.drop_last());
    }
}

/// Durations from the shortest to the longest.
pub open spec fn ascending(samples: Seq<u32>) -> Seq<u32> {
    samples.sort_by(|a: u32, b: u32| a <= b)
}

/// The order of durations.
proof fn lemma_order()
    ensures
        total_ordering(|a: u32, b: u32| a <= b),
{
}

/// Whatever holds the same durations in order is `ascending`.
proof fn lemma_ascending(sorted: Seq<u32>, samples: Seq<u32>)
    requires
        sorted_by(sorted, |a: u32, b: u32| a <= b),
        sorted.to_multiset() == samples.to_multiset(),
    ensures
        sorted == ascending(samples),
{
    let leq = |a: u32, b: u32| a <= b;
    lemma_order();
    samples.lemma_sort_by_ensures(leq);
    lemma_sorted_unique(sorted, ascending(samples), leq);
}

/// Puts durations in order.
pub fn sort_durations(samples: &[u32]) -> (r: Vec<u32>)
    ensures
        r@ == ascending(samples@),
        r@.len() == samples@.len(),
{
    broadcast use vstd::seq_lib::group_to_multiset_ensures;

    let mut out: Vec<u32> = Vec::new();
    let mut i: usize = 0;
    assert(samples@.take(0) =~= out@);
    while i < samples.len()
        invariant
            i <= samples@.len(),
            out@.len() == i,
            forall|a: int, b: int| 0 <= a < b < out@.len() ==> out@[a] <= out@[b],
            out@.to_multiset() == samples@.take(i as int).to_multiset(),
        decreases samples@.len() - i,
    {
        broadcast use vstd::seq_lib::group_to_multiset_ensures;

        let value: u32 = samples[i];
        let mut at: usize = out.len();
        while at > 0 && out[at - 1] > value
            invariant
                at <= out@.len(),
                forall|a: int| at <= a < out@.len() ==> out@[a] > value,
            decreases at,
        {
            at = at - 1;
        }
        let ghost before = out@;
        out.insert(at, value);
        proof {
            assert(before.insert(at as int, value).to_multiset() =~= before.to_multiset().insert(
                value,
            ));
            assert(samples@.take(i as int + 1) =~= samples@.take(i as int).push(value));
            assert forall|a: int, b: int| 0 <= a < b < out@.len() implies out@[a] <= out@[b] by {
                if a < at {
                    if b > at {
                        assert(out@[b] == before[b - 1]);
                    }
                    if at > 0 {
                        assert(before[a] <= before[at as int - 1]);
                    }
                }
            }
        }
        i = i + 1;
    }
    proof {
        assert(samples@.take(i as int) =~= samples@);
        assert(sorted_by(out@, |a: u32, b: u32| a <= b));
        lemma_ascending(out@, samples@);
    }
    out
}

/// What some durations add up to.
pub open spec fn total(samples: Seq<u32>) -> int
    decreases samples.len(),
{
    if samples.len() == 0 {
        0
    } else {
        total(samples.drop_last()) + samples.last()
    }
}

/// The place, among `len` ordered durations, of the one that `percent` in a
/// hundred do not exceed: that part of the last place, rounded.
pub open spec fn rank(len: int, percent: int) -> int {
    (percent * (len - 1) + 50) / 100
}

/// What is reported of some durations.
#[derive(Clone, Copy, Debug, PartialEq, Eq, Structural)]
pub struct Timings {
    pub p50: u32,
    pub p95: u32,
    pub p99: u32,
    pub max: u32,
    pub count: usize,
    /// What the durations add up to.
    pub sum: u64,
}

/// What is to be reported of some durations.
pub open spec fn timings_of(samples: Seq<u32>) -> Timings {
    if samples.len() == 0 {
        Timings { p50: 0, p95: 0, p99: 0, max: 0, count: 0, sum: 0 }
    } else {
        let sorted = ascending(samples);
        let len = samples.len() as int;
        Timings {
            p50: sorted[rank(len, 50)],
            p95: sorted[rank(len, 95)],
            p99: sorted[rank(len, 99)],
            max: sorted[len - 1],
            count: len as usize,
            sum: total(samples) as u64,
        }
    }
}

/// Reports of some durations. Their number is limited so that they can be
/// added up.
pub fn timings(samples: &[u32]) -> (r: Timings)
    requires
        samples@.len() <= u32::MAX,
    ensures
        r == timings_of(samples@),
{
    if samples.len() == 0 {
        return Timings { p50: 0, p95: 0, p99: 0, max: 0, count: 0, sum: 0 };
    }
    let sorted: Vec<u32> = sort_durations(samples);
    let mut sum: u64 = 0;
    let mut i: usize = 0;
    while i < samples.len()
        invariant
            i <= samples@.len(),
            samples@.len() <= u32::MAX,
            sum == total(samples@.take(i as int)),
            sum <= i * 0xffff_ffff,
        decreases samples@.len() - i,
    {
        assert(samples@.take(i as int + 1).drop_last() =~= samples@.take(i as int));
        assert(i * 0xffff_ffff + 0xffff_ffff == (i + 1) * 0xffff_ffff);
        sum = sum + samples[i] as u64;
        i = i + 1;
    }
    assert(samples@.take(i as int) =~= samples@);
    let last: u64 = (samples.len() - 1) as u64;
    Timings {
        p50: sorted[((50 * last + 50) / 100) as usize],
        p95: sorted[((95 * last + 50) / 100) as usize],
        p99: sorted[((99 * last + 50) / 100) as usize],
        max: sorted[samples.len() - 1],
        count: samples.len(),
        sum,
    }
}

/// The reported durations are in order, and all of them were measured.
pub proof fn timings_are_ordered(samples: Seq<u32>)
    requires
        samples.len() > 0,
    ensures
        timings_of(samples).p50 <= timings_of(samples).p95 <= timings_of(samples).p99
            <= timings_of(samples).max,
        samples.contains(timings_of(samples).p50),
        samples.contains(timings_of(samples).max),
        forall|i: int| 0 <= i < samples.len() ==> samples[i] <= timings_of(samples).max,
{
    broadcast use vstd::seq_lib::group_to_multiset_ensures;

    let leq = |a: u32, b: u32| a <= b;
    lemma_order();
    samples.lemma_sort_by_ensures(leq);
    let sorted = ascending(samples);
    let len = samples.len() as int;
    assert(sorted.to_multiset().len() == sorted.len());
    assert(samples.to_multiset().len() == samples.len());
    assert forall|i: int, j: int| 0 <= i <= j < len implies sorted[i] <= sorted[j] by {
        if i < j {
            assert(leq(sorted[i], sorted[j]));
        }
    }
    assert(sorted.contains(sorted[rank(len, 50)]));
    assert(sorted.contains(sorted[len - 1]));
    assert forall|i: int| 0 <= i < samples.len() implies samples[i] <= timings_of(samples).max by {
        assert(samples.contains(samples[i]));
        assert(sorted.to_multiset().count(samples[i]) > 0);
        assert(sorted.contains(samples[i]));
        let j = choose|j: int| 0 <= j < sorted.len() && sorted[j] == samples[i];
        assert(sorted[j] <= sorted[len - 1]);
    }
}

/// Whether the ledger has recorded all transactions of the fill.
pub fn fill_recorded(now: Option<u64>, at_boot: Option<u64>, fill: u64) -> (r: bool)
    ensures
        r == ({
            let n = match now {
                Some(n) => n as int,
                None => 0,
            };
            let b = match at_boot {
                Some(b) => b as int,
                None => 0,
            };
            n - b >= fill
        }),
{
    let n: u64 = match now {
        Some(n) => n,
        None => 0,
    };
    let b: u64 = match at_boot {
        Some(b) => b,
        None => 0,
    };
    n >= b && n - b >= fill
}

/// The highest readings of the gauges during a run.
#[derive(Clone, Copy, Debug, PartialEq, Eq, Structural)]
pub struct Health {
    pub blocked_peak: u64,
    pub busy_peak: u64,
    pub pending_peak: u64,
    pub samples: usize,
}

/// The higher of a peak and a reading.
pub open spec fn raised(peak: u64, reading: Option<u64>) -> u64 {
    match reading {
        Some(value) => if value > peak {
            value
        } else {
            peak
        },
        None => peak,
    }
}

/// The higher of a peak and a reading.
fn raise(peak: u64, reading: Option<u64>) -> (r: u64)
    ensures
        r == raised(peak, reading),
{
    match reading {
        Some(value) => if value > peak {
            value
        } else {
            peak
        },
        None => peak,
    }
}

impl Health {
    /// Nothing was read yet.
    pub fn new() -> (r: Health)
        ensures
            r == (Health { blocked_peak: 0, busy_peak: 0, pending_peak: 0, samples: 0 }),
    {
        Health { blocked_peak: 0, busy_peak: 0, pending_peak: 0, samples: 0 }
    }

    /// Takes one reading of each gauge.
    pub fn observe(&mut self, blocked: Option<u64>, busy: Option<u64>, pending: Option<u64>)
        requires
            old(self).samples < usize::MAX,
        ensures
            final(self).blocked_peak == raised(old(self).blocked_peak, blocked),
            final(self).busy_peak == raised(old(self).busy_peak, busy),
            final(self).pending_peak == raised(old(self).pending_peak, pending),
            final(self).samples == old(self).samples + 1,
    {
        self.blocked_peak = raise(self.blocked_peak, blocked);
        self.busy_peak = raise(self.busy_peak, busy);
        self.pending_peak = raise(self.pending_peak, pending);
        self.samples = self.samples + 1;
    }
}

/// What a run can be faulted for.
#[derive(Clone, Copy, Debug, PartialEq, Eq, Structural)]
pub enum BoundaryFault {
    /// Deliveries failed.
    Failed,
    /// Too few superblocks ended during the run.
    TooFewBoundaries { observed: usize },
    /// There is nothing to compare the boundaries with.
    NoNormalBlocks,
}

/// Whether a run says something of the boundaries.
pub fn check_boundaries(failed: u64, boundaries: usize, normal: usize, min_boundaries: usize) -> (r:
    Result<(), BoundaryFault>)
    ensures
        r == if failed != 0 {
            Err::<(), BoundaryFault>(BoundaryFault::Failed)
        } else if boundaries < min_boundaries {
            Err(BoundaryFault::TooFewBoundaries { observed: boundaries })
        } else if normal == 0 {
            Err(BoundaryFault::NoNormalBlocks)
        } else {
            Ok(())
        },
        r is Ok <==> failed == 0 && boundaries >= min_boundaries && normal > 0,
        r == Err::<(), _>(BoundaryFault::Failed) <==> failed > 0,
{
    if failed != 0 {
        return Err(BoundaryFault::Failed);
    }
    if boundaries < min_boundaries {
        return Err(BoundaryFault::TooFewBoundaries { observed: boundaries });
    }
    if normal == 0 {
        return Err(BoundaryFault::NoNormalBlocks);
    }
    Ok(())
}

/// How much the storage has grown; it may have been compacted meanwhile.
pub fn storage_growth(before: u64, after: u64) -> (r: u64)
    ensures
        r == if after >= before {
            (after - before) as u64
        } else {
            0
        },
        after >= before ==> before + r == after,
        after <= before ==> r == 0,
{
    if after >= before {
        after - before
    } else {
        0
    }
}

/// How many samples are at most a value.
pub open spec fn at_most(samples: Seq<u32>, value: u32) -> nat {
    samples.filter(|x: u32| x <= value).len()
}

/// How many samples are at least a value.
pub open spec fn at_least(samples: Seq<u32>, value: u32) -> nat {
    samples.filter(|x: u32| x >= value).len()
}

/// Whether a value parts the samples at a percentage: it is one of them, the
/// samples up to it are that share of all but one, the samples from it on are
/// the rest, and either is exact but for half a sample.
pub open spec fn parts(samples: Seq<u32>, value: u32, percent: int) -> bool {
    &&& samples.contains(value)
    &&& 100 * at_most(samples, value) >= percent * (samples.len() - 1) + 50
    &&& 100 * at_least(samples, value) >= (100 - percent) * (samples.len() - 1) + 50
}

/// Whether a value stands at a percentage of the ordered samples: at the place
/// whose distance from the front is nearest to that share of the whole length.
pub open spec fn stands_at(samples: Seq<u32>, value: u32, percent: int) -> bool {
    exists|sorted: Seq<u32>, place: int|
        {
            &&& sorted.to_multiset() == samples.to_multiset()
            &&& forall|i: int, j: int| 0 <= i <= j < sorted.len() ==> sorted[i] <= sorted[j]
            &&& 0 <= place < sorted.len()
            &&& #[trigger] sorted[place] == value
            &&& -50 <= 100 * place - percent * (samples.len() - 1) <= 50
        }
}

/// The percentiles part the samples where they should: half, 95 and 99 in a
/// hundred of the samples lie up to them, and the rest lie from them on.
pub proof fn percentiles_part_the_samples(samples: Seq<u32>)
    requires
        samples.len() > 0,
    ensures
        parts(samples, timings_of(samples).p50, 50),
        parts(samples, timings_of(samples).p95, 95),
        parts(samples, timings_of(samples).p99, 99),
        stands_at(samples, timings_of(samples).p50, 50),
        stands_at(samples, timings_of(samples).p95, 95),
        stands_at(samples, timings_of(samples).p99, 99),
        parts(samples, timings_of(samples).max, 100),
        at_most(samples, timings_of(samples).max) == samples.len(),
{
    let len = samples.len() as int;
    lemma_parts(samples, rank(len, 50), 50);
    lemma_parts(samples, rank(len, 95), 95);
    lemma_parts(samples, rank(len, 99), 99);
    assert(len - 1 == rank(len, 100)) by {
        assert((100 * (len - 1) + 50) / 100 == len - 1);
    }
    lemma_parts(samples, len - 1, 100);
    samples.lemma_filter_len(|x: u32| x <= timings_of(samples).max);
}

/// A place near enough to a percentage holds what parts the samples there.
proof fn lemma_parts(samples: Seq<u32>, place: int, percent: int)
    requires
        samples.len() > 0,
        0 <= percent <= 100,
        place == rank(samples.len() as int, percent),
    ensures
        0 <= place < samples.len(),
        parts(samples, ascending(samples)[place], percent),
        stands_at(samples, ascending(samples)[place], percent),
        percent == 100 ==> at_most(samples, ascending(samples)[place]) >= samples.len(),
{
    broadcast use vstd::seq_lib::group_to_multiset_ensures;

    let leq = |a: u32, b: u32| a <= b;
    lemma_order();
    samples.lemma_sort_by_ensures(leq);
    let sorted = ascending(samples);
    let len = samples.len() as int;
    assert(sorted.to_multiset().len() == sorted.len());
    assert(samples.to_multiset().len() == samples.len());
    assert forall|i: int, j: int| 0 <= i <= j < len implies sorted[i] <= sorted[j] by {
        if i < j {
            assert(leq(sorted[i], sorted[j]));
        }
    }
    assert(0 <= percent * (len - 1) <= 100 * (len - 1)) by (nonlinear_arith)
        requires
            0 <= percent <= 100,
            len >= 1,
    ;
    assert((100 - percent) * (len - 1) == 100 * (len - 1) - percent * (len - 1))
        by (nonlinear_arith);
    let value = sorted[place];
    assert(sorted.contains(value));
    assert(samples.to_multiset().count(value) > 0);
    let low = |x: u32| x <= value;
    let high = |x: u32| x >= value;
    let front = sorted.take(place + 1);
    let back = sorted.skip(place);
    assert(sorted =~= front + sorted.skip(place + 1));
    assert(sorted =~= sorted.take(place) + back);
    Seq::filter_distributes_over_add(front, sorted.skip(place + 1), low);
    Seq::filter_distributes_over_add(sorted.take(place), back, high);
    lemma_all_kept(front, low);
    lemma_all_kept(back, high);
    lemma_filter_any_order(samples, sorted, low);
    lemma_filter_any_order(samples, sorted, high);
    assert(sorted[place] == value);
}

/// Where everything is kept, nothing is lost.
proof fn lemma_all_kept(s: Seq<u32>, kept: spec_fn(u32) -> bool)
    requires
        forall|i: int| 0 <= i < s.len() ==> kept(#[trigger] s[i]),
    ensures
        s.filter(kept) == s,
    decreases s.len(),
{
    reveal(Seq::filter);
    if s.len() > 0 {
        lemma_all_kept(s.drop_last(), kept);
        assert(s.drop_last().push(s.last()) =~= s);
    }
}

/// How many are kept does not depend on their order.
proof fn lemma_filter_any_order(one: Seq<u32>, other: Seq<u32>, kept: spec_fn(u32) -> bool)
    requires
        one.to_multiset() == other.to_multiset(),
    ensures
        one.filter(kept).len() == other.filter(kept).len(),
    decreases one.len(),
{
    broadcast use vstd::seq_lib::group_to_multiset_ensures;

    assert(one.to_multiset().len() == one.len());
    assert(other.to_multiset().len() == other.len());
    if one.len() > 0 {
        let x = one.last();
        assert(one.contains(x));
        assert(other.to_multiset().count(x) > 0);
        assert(other.contains(x));
        let j = choose|j: int| 0 <= j < other.len() && other[j] == x;
        let rest = other.remove(j);
        assert(one.remove(one.len() - 1) =~= one.drop_last());
        assert(rest.to_multiset() =~= other.to_multiset().remove(x));
        assert(one.drop_last().to_multiset() =~= one.to_multiset().remove(x));
        lemma_filter_any_order(one.drop_last(), rest, kept);
        assert(one =~= one.drop_last() + seq![x]);
        assert(other =~= other.take(j) + seq![x] + other.skip(j + 1));
        assert(rest =~= other.take(j) + other.skip(j + 1));
        Seq::filter_distributes_over_add(one.drop_last(), seq![x], kept);
        Seq::filter_distributes_over_add(other.take(j) + seq![x], other.skip(j + 1), kept);
        Seq::filter_distributes_over_add(other.take(j), seq![x], kept);
        Seq::filter_distributes_over_add(other.take(j), other.skip(j + 1), kept);
    } else {
        assert(one =~= other);
    }
}

/// The sum of timings is that of all samples, added up one by one, and the
/// count is their number. No samples give zeros throughout.
pub proof fn timings_sum_up_all_samples(one: Seq<u32>, other: Seq<u32>)
    requires
        one.len() + other.len() <= u32::MAX,
    ensures
        timings_of(one + other).sum == timings_of(one).sum + timings_of(other).sum,
        timings_of(one + other).count == one.len() + other.len(),
        one.len() == 1 ==> timings_of(one).sum == one[0] && timings_of(one).count == 1
            && timings_of(one).max == one[0],
        one.len() == 0 ==> timings_of(one).sum == 0 && timings_of(one).count == 0 && timings_of(
            one,
        ).max == 0 && timings_of(one).p50 == 0 && timings_of(one).p95 == 0 && timings_of(one).p99
            == 0,
{
    lemma_total(one, other);
    lemma_total_bound(one);
    lemma_total_bound(other);
    lemma_total_bound(one + other);
    assert((one + other).len() * 0xffff_ffff <= 0xffff_ffff * 0xffff_ffff) by (nonlinear_arith)
        requires
            0 <= (one + other).len() <= 0xffff_ffff,
    ;
    if one.len() == 1 {
        assert(total(one.drop_last()) == 0);
        timings_are_ordered(one);
        assert(one[0] == timings_of(one).max);
    }
}

/// A total can be taken in two parts.
proof fn lemma_total(one: Seq<u32>, other: Seq<u32>)
    ensures
        total(one + other) == total(one) + total(other),
    decreases other.len(),
{
    if other.len() == 0 {
        assert(one + other =~= one);
    } else {
        lemma_total(one, other.drop_last());
        assert((one + other).drop_last() =~= one + other.drop_last());
    }
}

/// A total is bounded by the number of samples.
proof fn lemma_total_bound(samples: Seq<u32>)
    ensures
        0 <= total(samples) <= samples.len() * 0xffff_ffff,
    decreases samples.len(),
{
    if samples.len() > 0 {
        lemma_total_bound(samples.drop_last());
        assert((samples.len() - 1) * 0xffff_ffff + 0xffff_ffff == samples.len() * 0xffff_ffff)
            by (nonlinear_arith);
    }
}

/// An interval lies between two slots that follow each other, lasts as long as
/// lies between their times, and belongs to a boundary exactly where the
/// earlier slot is a multiple of the superblock.
pub proof fn intervals_join_neighbours(
    superblock_slots: u64,
    earlier: (u64, u64),
    later: (u64, u64),
)
    requires
        superblock_slots > 0,
        earlier.1 <= later.1,
        later.1 - earlier.1 <= u32::MAX,
    ensures
        interval(superblock_slots, earlier, later) is Some <==> later.0 - earlier.0 == 1,
        interval(superblock_slots, earlier, later) matches Some(i) ==> {
            &&& earlier.1 + i.micros == later.1
            &&& i.kind == Kind::Boundary <==> exists|n: int|
                #[trigger] (n * superblock_slots) == earlier.0
        },
{
    if let Some(i) = interval(superblock_slots, earlier, later) {
        let slots = superblock_slots as int;
        let slot = earlier.0 as int;
        vstd::arithmetic::div_mod::lemma_fundamental_div_mod(slot, slots);
        if slot % slots == 0 {
            assert((slot / slots) * slots == slot) by (nonlinear_arith)
                requires
                    slot == slots * (slot / slots) + slot % slots,
                    slot % slots == 0,
            ;
        }
        if exists|n: int| #[trigger] (n * superblock_slots) == earlier.0 {
            let n = choose|n: int| #[trigger] (n * superblock_slots) == earlier.0;
            vstd::arithmetic::div_mod::lemma_mod_multiples_basic(n, slots);
        }
    }
}

/// Durations are told apart by kind, interval by interval, in order.
pub proof fn durations_keep_their_order(
    intervals: Seq<Interval>,
    later: Seq<Interval>,
    next: Interval,
    kind: Kind,
)
    ensures
        durations(intervals + later, kind) == durations(intervals, kind) + durations(later, kind),
        durations(intervals.push(next), kind) == if next.kind == kind {
            durations(intervals, kind).push(next.micros)
        } else {
            durations(intervals, kind)
        },
    decreases later.len(),
{
    assert(intervals.push(next).drop_last() =~= intervals);
    if later.len() == 0 {
        assert(intervals + later =~= intervals);
    } else {
        durations_keep_their_order(intervals, later.drop_last(), next, kind);
        assert((intervals + later).drop_last() =~= intervals + later.drop_last());
    }
}

/// A peak never falls, is at least every reading, and is the old peak or the
/// reading.
pub proof fn peaks_only_rise(peak: u64, reading: Option<u64>)
    ensures
        raised(peak, reading) >= peak,
        reading matches Some(value) ==> raised(peak, reading) >= value,
        raised(peak, reading) == peak || Some(raised(peak, reading)) == reading,
{
}

} // verus!
