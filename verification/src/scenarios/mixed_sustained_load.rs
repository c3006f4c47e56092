//! A long run of a fixed mix of transactions over independent lanes: every
//! transaction is sent once, in order on its lane, and the end state says so.
use crate::bytes::{from_le64, le64, lemma_le64, read_u64};
use crate::chain::{key, metas_of, writable, Pubkey, SolanaInstruction};
use crate::hash::chained;
use crate::ids::COMPUTE_BUDGET_ID;
use crate::redline::builders::{expensive_hash_compute, multi_account_read, simple_byte_set};
use crate::redline::instruction::Instruction;
use crate::redline::{DATA_OFFSET, HASH_OFFSET, HASH_SIZE, ID, ID_OFFSET, ID_SIZE};
use crate::scenarios::conflict_ordering::{compute_unit_limit, limit_data, CU_LIMIT, HASH_INIT};
use crate::scenarios::executor_saturation::holds_heavy_chain;
use crate::suite::{ceil_div, div_up, Tier, ACCOUNT_SPACE};
use vstd::arithmetic::div_mod::{
    lemma_div_pos_is_pos, lemma_fundamental_div_mod, lemma_fundamental_div_mod_converse,
    lemma_mod_bound, lemma_small_mod,
};
use vstd::prelude::*;

verus! {

/// The transactions after which the mix repeats.
pub const MIX_PERIOD: u64 = 20;

/// How many of them compute much.
pub const HIGH_CU_SLOTS: u64 = 2;

/// How many of them write.
pub const SIMPLE_SLOTS: u64 = 9;

/// How many of them read and write.
pub const READ_WRITE_SLOTS: u64 = 9;

/// The suite.
pub struct MixedSustainedLoad;

impl MixedSustainedLoad {
    /// The name that the suite reports under.
    pub fn name(&self) -> (r: &'static str)
        ensures
            r@ == "redline/mixed_sustained_load"@,
    {
        "redline/mixed_sustained_load"
    }
}

/// What a transaction does.
#[derive(Clone, Copy, Debug, PartialEq, Eq, Hash, Structural)]
pub enum Mode {
    HighCu,
    SimpleWrite,
    ReadWrite,
}

impl Mode {
    /// All modes.
    pub fn all() -> (r: [Mode; 3])
        ensures
            r@ == seq![Mode::HighCu, Mode::SimpleWrite, Mode::ReadWrite],
    {
        let r: [Mode; 3] = [Mode::HighCu, Mode::SimpleWrite, Mode::ReadWrite];
        assert(r@ =~= seq![Mode::HighCu, Mode::SimpleWrite, Mode::ReadWrite]);
        r
    }

    /// The name of the mode.
    pub fn label(self) -> (r: &'static str)
        ensures
            r@ == match self {
                Mode::HighCu => "high cu"@,
                Mode::SimpleWrite => "simple write"@,
                Mode::ReadWrite => "read write"@,
            },
    {
        match self {
            Mode::HighCu => "high cu",
            Mode::SimpleWrite => "simple write",
            Mode::ReadWrite => "read write",
        }
    }
}

/// The mode of a slot of the mix.
pub open spec fn slot_mode(slot: int) -> Mode {
    if slot < HIGH_CU_SLOTS {
        Mode::HighCu
    } else if slot < HIGH_CU_SLOTS + SIMPLE_SLOTS {
        Mode::SimpleWrite
    } else {
        Mode::ReadWrite
    }
}

/// The mode of a transaction.
pub open spec fn mode_of(id: int) -> Mode {
    slot_mode((id - 1) % MIX_PERIOD as int)
}

/// The mode of a transaction.
pub fn mode_for(id: u64) -> (r: Mode)
    requires
        id >= 1,
    ensures
        r == mode_of(id as int),
{
    let slot: u64 = (id - 1) % MIX_PERIOD;
    if slot < HIGH_CU_SLOTS {
        Mode::HighCu
    } else if slot < HIGH_CU_SLOTS + SIMPLE_SLOTS {
        Mode::SimpleWrite
    } else {
        Mode::ReadWrite
    }
}

/// How many of the first `total` transactions are of a mode.
pub open spec fn counted(mode: Mode, total: nat) -> nat
    decreases total,
{
    if total == 0 {
        0
    } else {
        counted(mode, (total - 1) as nat) + if mode_of(total as int) == mode {
            1nat
        } else {
            0nat
        }
    }
}

/// The first slot of a mode.
spec fn first_slot(mode: Mode) -> int {
    match mode {
        Mode::HighCu => 0,
        Mode::SimpleWrite => 2,
        Mode::ReadWrite => 11,
    }
}

/// The slots of a mode.
spec fn slots(mode: Mode) -> int {
    match mode {
        Mode::HighCu => 2,
        Mode::SimpleWrite => 9,
        Mode::ReadWrite => 9,
    }
}

/// The slots of a mode among the first `n` of the mix.
spec fn tail(mode: Mode, n: int) -> int {
    if n <= first_slot(mode) {
        0
    } else if n - first_slot(mode) <= slots(mode) {
        n - first_slot(mode)
    } else {
        slots(mode)
    }
}

/// Transactions of a mode counted by whole mixes and the rest.
proof fn lemma_counted(mode: Mode, total: nat)
    ensures
        counted(mode, total) == total / 20 * slots(mode) + tail(mode, (total % 20) as int),
    decreases total,
{
    if total > 0 {
        lemma_counted(mode, (total - 1) as nat);
        let before = (total - 1) as nat;
        if total % 20 == 0 {
            assert(total / 20 == before / 20 + 1);
            assert((before / 20 + 1) * slots(mode) == before / 20 * slots(mode) + slots(mode))
                by (nonlinear_arith);
        } else {
            assert(total / 20 == before / 20);
        }
    }
}

/// How many of the first `total` transactions are of a mode.
pub fn mode_count(mode: Mode, total: u64) -> (r: u64)
    ensures
        r == counted(mode, total as nat),
        r <= total,
{
    let (offset, width): (u64, u64) = match mode {
        Mode::HighCu => (0, HIGH_CU_SLOTS),
        Mode::SimpleWrite => (HIGH_CU_SLOTS, SIMPLE_SLOTS),
        Mode::ReadWrite => (HIGH_CU_SLOTS + SIMPLE_SLOTS, READ_WRITE_SLOTS),
    };
    let periods: u64 = total / MIX_PERIOD;
    let rest: u64 = total % MIX_PERIOD;
    let past: u64 = if rest > offset {
        rest - offset
    } else {
        0
    };
    let last: u64 = if past < width {
        past
    } else {
        width
    };
    proof {
        lemma_counted(mode, total as nat);
        assert(periods * width <= periods * 9) by (nonlinear_arith)
            requires
                width <= 9,
        ;
    }
    periods * width + last
}

/// Every transaction is of one of the modes: what is counted of each adds up
/// to all of them.
pub proof fn modes_add_up(total: nat)
    ensures
        counted(Mode::HighCu, total) + counted(Mode::SimpleWrite, total) + counted(
            Mode::ReadWrite,
            total,
        ) == total,
    decreases total,
{
    if total > 0 {
        modes_add_up((total - 1) as nat);
    }
}

/// Over whole mixes, one transaction in ten computes much, and the others are
/// shared evenly by the two other modes.
pub proof fn whole_mixes_hold_the_split(mixes: nat)
    ensures
        counted(Mode::HighCu, mixes * 20) * 10 == mixes * 20,
        counted(Mode::SimpleWrite, mixes * 20) * 100 == mixes * 20 * 45,
        counted(Mode::ReadWrite, mixes * 20) * 100 == mixes * 20 * 45,
{
    lemma_counted(Mode::HighCu, mixes * 20);
    lemma_counted(Mode::SimpleWrite, mixes * 20);
    lemma_counted(Mode::ReadWrite, mixes * 20);
}

/// The lane of a transaction.
pub open spec fn lane(id: int, lanes: int) -> int {
    (id - 1) % lanes
}

/// The transaction of a round on a lane.
pub open spec fn on_lane(round: int, lane: int, lanes: int) -> int {
    round * lanes + lane + 1
}

/// The lane of a transaction.
pub fn lane_of(id: u64, lanes: u64) -> (r: u64)
    requires
        id >= 1,
        lanes >= 1,
    ensures
        r == lane(id as int, lanes as int),
        r < lanes,
{
    (id - 1) % lanes
}

/// The transaction of a round on a lane.
pub fn id_for(round: u64, lane: u64, lanes: u64) -> (r: u64)
    requires
        on_lane(round as int, lane as int, lanes as int) <= u64::MAX,
    ensures
        r == on_lane(round as int, lane as int, lanes as int),
{
    proof {
        assert(0 <= round * lanes) by (nonlinear_arith);
    }
    round * lanes + lane + 1
}

/// Every transaction is the one of its round on its lane, and of no other
/// round or lane.
pub proof fn ids_are_rounds_on_lanes(id: int, round: int, place: int, lanes: int)
    requires
        lanes > 0,
        id >= 1,
        0 <= place < lanes,
        0 <= round,
    ensures
        on_lane((id - 1) / lanes, lane(id, lanes), lanes) == id,
        lane(on_lane(round, place, lanes), lanes) == place,
        (on_lane(round, place, lanes) - 1) / lanes == round,
{
    lemma_fundamental_div_mod(id - 1, lanes);
    assert((id - 1) / lanes * lanes == lanes * ((id - 1) / lanes)) by (nonlinear_arith);
    assert(round * lanes + place == lanes * round + place) by (nonlinear_arith);
    lemma_fundamental_div_mod_converse(round * lanes + place, lanes, round, place);
}

/// Whether `id` is the last of the first `total` transactions on its lane.
pub open spec fn is_last_on_lane(id: int, place: int, lanes: int, total: int) -> bool {
    &&& 1 <= id <= total
    &&& lane(id, lanes) == place
    &&& forall|later: int| id < later <= total ==> #[trigger] lane(later, lanes) != place
}

/// The last of the first `total` transactions on a lane, if it has any.
pub fn last_id_for_lane(lane: u64, lanes: u64, total: u64) -> (r: Option<u64>)
    requires
        lane < lanes,
    ensures
        match r {
            Some(id) => is_last_on_lane(id as int, lane as int, lanes as int, total as int),
            None => forall|id: int|
                1 <= id <= total ==> #[trigger] crate::scenarios::mixed_sustained_load::lane(
                    id,
                    lanes as int,
                ) != lane,
        },
{
    let full: u64 = total / lanes;
    let extra: u64 = if lane < total % lanes {
        1
    } else {
        0
    };
    proof {
        lemma_rounds(lane as int, lanes as int, total as int);
        assert(full <= total) by (nonlinear_arith)
            requires
                full == total / lanes,
                lanes >= 1,
        ;
        lemma_fundamental_div_mod(total as int, lanes as int);
        if full == u64::MAX {
            assert(total == u64::MAX);
            assert(lanes == 1 && total % lanes == 0) by (nonlinear_arith)
                requires
                    total == lanes * full + total % lanes,
                    0 <= total % lanes,
                    full == u64::MAX,
                    total <= u64::MAX,
                    lanes >= 1,
            ;
        }
    }
    let rounds: u64 = full + extra;
    if rounds == 0 {
        return None;
    }
    Some(id_for(rounds - 1, lane, lanes))
}

/// A lane has as many transactions as `total` holds whole rounds, and one more
/// if the last round reaches it.
proof fn lemma_rounds(place: int, lanes: int, total: int)
    requires
        0 <= place < lanes,
        0 <= total,
    ensures
        ({
            let rounds = total / lanes + if place < total % lanes {
                1int
            } else {
                0
            };
            &&& rounds > 0 ==> is_last_on_lane(
                on_lane(rounds - 1, place, lanes),
                place,
                lanes,
                total,
            )
            &&& rounds == 0 ==> forall|id: int|
                1 <= id <= total ==> #[trigger] lane(id, lanes) != place
        }),
{
    let full = total / lanes;
    let rest = total % lanes;
    let rounds = full + if place < rest {
        1int
    } else {
        0
    };
    lemma_fundamental_div_mod(total, lanes);
    lemma_mod_bound(total, lanes);
    lemma_div_pos_is_pos(total, lanes);
    assert forall|id: int| 1 <= id <= total && #[trigger] lane(id, lanes) == place implies (id - 1)
        / lanes < rounds by {
        let round = (id - 1) / lanes;
        lemma_fundamental_div_mod(id - 1, lanes);
        assert(round < rounds) by (nonlinear_arith)
            requires
                id - 1 == lanes * round + place,
                id <= total,
                total == lanes * full + rest,
                0 <= place < lanes,
                0 <= rest < lanes,
                rounds == full + if place < rest {
                    1int
                } else {
                    0
                },
        ;
    }
    if rounds > 0 {
        let last = on_lane(rounds - 1, place, lanes);
        ids_are_rounds_on_lanes(1, rounds - 1, place, lanes);
        assert(1 <= last <= total) by (nonlinear_arith)
            requires
                last == (rounds - 1) * lanes + place + 1,
                rounds >= 1,
                total == lanes * full + rest,
                0 <= place < lanes,
                0 <= rest < lanes,
                rounds == full + if place < rest {
                    1int
                } else {
                    0
                },
        ;
        assert forall|later: int| last < later <= total implies #[trigger] lane(later, lanes)
            != place by {
            if lane(later, lanes) == place {
                let round = (later - 1) / lanes;
                lemma_fundamental_div_mod(later - 1, lanes);
                assert(round < rounds);
                assert(later <= last) by (nonlinear_arith)
                    requires
                        later - 1 == lanes * round + place,
                        round <= rounds - 1,
                        last == (rounds - 1) * lanes + place + 1,
                        lanes > 0,
                ;
            }
        }
    } else {
        assert forall|id: int| 1 <= id <= total implies #[trigger] lane(id, lanes) != place by {
            if lane(id, lanes) == place {
                lemma_div_pos_is_pos(id - 1, lanes);
            }
        }
    }
}

/// Whether `d` divides both numbers.
pub open spec fn common_divisor(d: int, a: int, b: int) -> bool {
    d > 0 && a % d == 0 && b % d == 0
}

/// Whether `d` is the greatest common divisor of two numbers: it divides both,
/// and whatever does so divides it.
pub open spec fn is_gcd(d: int, a: int, b: int) -> bool {
    if a == 0 && b == 0 {
        d == 0
    } else {
        &&& common_divisor(d, a, b)
        &&& forall|e: int| #[trigger] common_divisor(e, a, b) ==> d % e == 0
    }
}

/// What divides two numbers divides the remainder of one by the other, and the
/// other way round.
proof fn lemma_divides_remainder(d: int, a: int, b: int)
    requires
        d > 0,
        b > 0,
        b % d == 0,
    ensures
        (a % d == 0) == ((a % b) % d == 0),
{
    lemma_fundamental_div_mod(a, b);
    lemma_fundamental_div_mod(b, d);
    let q = a / b;
    let k = b / d;
    let r = a % b;
    assert(a == (q * k) * d + r) by (nonlinear_arith)
        requires
            a == b * q + r,
            b == d * k,
    ;
    vstd::arithmetic::div_mod::lemma_mod_multiples_vanish(q * k, r, d);
    assert(d * (q * k) + r == (q * k) * d + r) by (nonlinear_arith);
}

/// The greatest common divisor of two numbers.
pub fn gcd(a: u64, b: u64) -> (r: u64)
    ensures
        is_gcd(r as int, a as int, b as int),
    decreases b,
{
    if b == 0 {
        proof {
            if a != 0 {
                vstd::arithmetic::div_mod::lemma_mod_self_0(a as int);
                lemma_small_mod(0, a as nat);
            }
        }
        return a;
    }
    let r: u64 = gcd(b, a % b);
    proof {
        lemma_divides_remainder(r as int, a as int, b as int);
        assert forall|e: int| #[trigger] common_divisor(e, a as int, b as int) implies (r as int)
            % e == 0 by {
            lemma_divides_remainder(e, a as int, b as int);
            assert(common_divisor(e, b as int, (a % b) as int));
        }
    }
    r
}

/// A step that can be inverted within the mix reaches every slot of it.
proof fn lemma_reach(step: int, inverse: int, mixes: int, from: int, slot: int)
    requires
        step * inverse == 20 * mixes + 1,
        0 <= slot < 20,
    ensures
        ((inverse * (slot + 20 - from)) % 20 * step + from) % 20 == slot,
{
    let x = slot + 20 - from;
    let k = (inverse * x) / 20;
    let round = (inverse * x) % 20;
    let whole = mixes * x - k * step + 1;
    assert(round * step + from == 20 * whole + slot) by (nonlinear_arith)
        requires
            inverse * x == 20 * k + round,
            step * inverse == 20 * mixes + 1,
            x == slot + 20 - from,
            whole == mixes * x - k * step + 1,
    ;
}

/// A number that neither two nor five divide can be inverted within the mix.
proof fn lemma_inverse(lanes: int) -> (r: (int, int))
    requires
        lanes % 2 != 0,
        lanes % 5 != 0,
    ensures
        (lanes % 20) * r.0 == 20 * r.1 + 1,
{
    let l = lanes % 20;
    if l == 1 {
        (1, 0)
    } else if l == 3 {
        (7, 1)
    } else if l == 7 {
        (3, 1)
    } else if l == 9 {
        (9, 4)
    } else if l == 11 {
        (11, 6)
    } else if l == 13 {
        (17, 11)
    } else if l == 17 {
        (13, 11)
    } else {
        assert(l == 19);
        (19, 18)
    }
}

/// Within a mix, such a step reaches a slot once only.
proof fn lemma_reach_once(step: int, inverse: int, mixes: int, from: int, one: int, other: int)
    requires
        step * inverse == 20 * mixes + 1,
        0 <= one < 20,
        0 <= other < 20,
        (one * step + from) % 20 == (other * step + from) % 20,
    ensures
        one == other,
{
    let q = (one * step + from) / 20 - (other * step + from) / 20;
    let whole = q * inverse - (one - other) * mixes;
    assert(one - other == 20 * whole) by (nonlinear_arith)
        requires
            step * inverse == 20 * mixes + 1,
            one * step - other * step == 20 * q,
            whole == q * inverse - (one - other) * mixes,
    ;
}

/// The slot of the mix that a round comes to, from a place on by a step.
spec fn slot_at(step: int, from: int, round: int) -> int {
    (round * step + from) % 20
}

/// How many of the first `rounds` rounds come to a slot from `lo` on and below
/// `hi`.
spec fn hits(step: int, from: int, lo: int, hi: int, rounds: nat) -> nat
    decreases rounds,
{
    if rounds == 0 {
        0
    } else {
        hits(step, from, lo, hi, (rounds - 1) as nat) + if lo <= slot_at(step, from, rounds - 1)
            < hi {
            1nat
        } else {
            0nat
        }
    }
}

/// Rounds that come to one of several slots are counted slot by slot.
proof fn lemma_hits_split(step: int, from: int, lo: int, hi: int, rounds: nat)
    requires
        lo <= hi,
    ensures
        hits(step, from, lo, lo, rounds) == 0,
        hits(step, from, lo, hi + 1, rounds) == hits(step, from, lo, hi, rounds) + hits(
            step,
            from,
            hi,
            hi + 1,
            rounds,
        ),
    decreases rounds,
{
    if rounds > 0 {
        lemma_hits_split(step, from, lo, hi, (rounds - 1) as nat);
    }
}

/// Up to a whole mix, the only round that comes to a slot is counted.
proof fn lemma_hits_once(step: int, from: int, slot: int, at: int, rounds: nat)
    requires
        rounds <= 20,
        0 <= at < 20,
        forall|round: int|
            0 <= round < 20 ==> (#[trigger] slot_at(step, from, round) == slot) == (round == at),
    ensures
        hits(step, from, slot, slot + 1, rounds) == if rounds > at {
            1nat
        } else {
            0nat
        },
    decreases rounds,
{
    if rounds > 0 {
        lemma_hits_once(step, from, slot, at, (rounds - 1) as nat);
        assert((slot_at(step, from, rounds - 1) == slot) == (rounds - 1 == at));
    }
}

/// A whole mix of rounds comes to every slot once.
proof fn lemma_hits_all(step: int, inverse: int, mixes: int, from: int, lo: int, hi: int)
    requires
        step * inverse == 20 * mixes + 1,
        0 <= lo <= hi <= 20,
    ensures
        hits(step, from, lo, hi, 20) == hi - lo,
    decreases hi - lo,
{
    if lo == hi {
        lemma_hits_split(step, from, lo, lo, 20);
    } else {
        let slot = hi - 1;
        lemma_hits_all(step, inverse, mixes, from, lo, slot);
        lemma_hits_split(step, from, lo, slot, 20);
        let at = (inverse * (slot + 20 - from)) % 20;
        lemma_reach(step, inverse, mixes, from, slot);
        assert forall|round: int| 0 <= round < 20 implies (#[trigger] slot_at(step, from, round)
            == slot) == (round == at) by {
            if slot_at(step, from, round) == slot {
                lemma_reach_once(step, inverse, mixes, from, round, at);
            }
        }
        lemma_hits_once(step, from, slot, at, 20);
    }
}

/// How many of the rounds from `from` on a lane serves in a mode.
pub open spec fn seen(mode: Mode, lanes: int, place: int, from: int, rounds: nat) -> nat
    decreases rounds,
{
    if rounds == 0 {
        0
    } else {
        seen(mode, lanes, place, from, (rounds - 1) as nat) + if mode_of(
            on_lane(from + rounds - 1, place, lanes),
        ) == mode {
            1nat
        } else {
            0nat
        }
    }
}

/// The rounds of a mode are those that come to one of its slots.
proof fn lemma_seen(mode: Mode, lanes: int, place: int, from: int, rounds: nat)
    ensures
        seen(mode, lanes, place, from, rounds) == hits(
            lanes % 20,
            (from * lanes + place) % 20,
            first_slot(mode),
            first_slot(mode) + slots(mode),
            rounds,
        ),
    decreases rounds,
{
    if rounds > 0 {
        lemma_seen(mode, lanes, place, from, (rounds - 1) as nat);
        let round = rounds - 1;
        let base = from * lanes + place;
        let id = on_lane(from + round, place, lanes);
        let whole = round * (lanes / 20) + base / 20;
        let rest = round * (lanes % 20) + base % 20;
        assert(id - 1 == 20 * whole + rest) by (nonlinear_arith)
            requires
                id == (from + round) * lanes + place + 1,
                base == from * lanes + place,
                lanes == 20 * (lanes / 20) + lanes % 20,
                base == 20 * (base / 20) + base % 20,
                whole == round * (lanes / 20) + base / 20,
                rest == round * (lanes % 20) + base % 20,
        ;
        assert((id - 1) % 20 == slot_at(lanes % 20, base % 20, round));
    }
}

/// A number of lanes without a common divisor with the mix lets every lane see
/// the whole mix: any rounds in a row, as many as the mix has slots, hold every
/// mode as often as it has slots.
pub proof fn every_lane_sees_every_mode(lanes: int, place: int, from: int)
    requires
        is_gcd(1, lanes, MIX_PERIOD as int),
        0 <= place < lanes,
        0 <= from,
    ensures
        seen(Mode::HighCu, lanes, place, from, MIX_PERIOD as nat) == HIGH_CU_SLOTS,
        seen(Mode::SimpleWrite, lanes, place, from, MIX_PERIOD as nat) == SIMPLE_SLOTS,
        seen(Mode::ReadWrite, lanes, place, from, MIX_PERIOD as nat) == READ_WRITE_SLOTS,
{
    if lanes % 2 == 0 {
        assert(common_divisor(2, lanes, 20));
    }
    if lanes % 5 == 0 {
        assert(common_divisor(5, lanes, 20));
    }
    let (inverse, mixes) = lemma_inverse(lanes);
    let base = (from * lanes + place) % 20;
    lemma_seen(Mode::HighCu, lanes, place, from, 20);
    lemma_seen(Mode::SimpleWrite, lanes, place, from, 20);
    lemma_seen(Mode::ReadWrite, lanes, place, from, 20);
    lemma_hits_all(lanes % 20, inverse, mixes, base, 0, 2);
    lemma_hits_all(lanes % 20, inverse, mixes, base, 2, 11);
    lemma_hits_all(lanes % 20, inverse, mixes, base, 11, 20);
}

/// A run of lanes.
#[derive(Clone, Copy, Debug, PartialEq, Eq, Structural)]
pub struct LaneSpan {
    pub lo: u64,
    pub len: u64,
}

/// The first lane of a thread: threads take runs of lanes one after the other,
/// the first ones one lane more where the lanes do not come out even.
pub open spec fn first_lane(lanes: int, threads: int, thread: int) -> int {
    thread * (lanes / threads) + if thread < lanes % threads {
        thread
    } else {
        lanes % threads
    }
}

/// How many threads have lanes.
pub open spec fn busy_threads(lanes: int, threads: int) -> int {
    if lanes < threads {
        lanes
    } else {
        threads
    }
}

/// The lanes of a thread lie between its first and that of the next thread;
/// there are some for every busy thread, and the last ends at `lanes`.
proof fn lemma_lanes(lanes: int, threads: int, thread: int)
    requires
        threads >= 1,
        lanes >= 0,
        0 <= thread < threads,
    ensures
        first_lane(lanes, threads, thread + 1) - first_lane(lanes, threads, thread) == lanes
            / threads + if thread < lanes % threads {
            1int
        } else {
            0
        },
        first_lane(lanes, threads, 0) == 0,
        first_lane(lanes, threads, threads) == lanes,
        0 <= first_lane(lanes, threads, thread) <= lanes,
        first_lane(lanes, threads, thread + 1) <= lanes,
        (lanes / threads > 0 || thread < lanes % threads) == (thread < busy_threads(
            lanes,
            threads,
        )),
{
    let base = lanes / threads;
    let rest = lanes % threads;
    lemma_fundamental_div_mod(lanes, threads);
    lemma_mod_bound(lanes, threads);
    lemma_div_pos_is_pos(lanes, threads);
    assert((thread + 1) * base == thread * base + base) by (nonlinear_arith);
    assert(threads * base + rest == lanes);
    assert(0 <= thread * base && thread * base + base <= threads * base) by (nonlinear_arith)
        requires
            0 <= thread,
            thread + 1 <= threads,
            base >= 0,
    ;
    if lanes < threads {
        vstd::arithmetic::div_mod::lemma_basic_div(lanes, threads);
        lemma_small_mod(lanes as nat, threads as nat);
    } else {
        assert(base >= 1) by (nonlinear_arith)
            requires
                threads * base + rest == lanes,
                rest < threads,
                lanes >= threads,
                threads >= 1,
        ;
    }
}

/// The threads of a run; at least one.
pub open spec fn at_least_one(threads: usize) -> int {
    if threads == 0 {
        1
    } else {
        threads as int
    }
}

/// Divides the lanes among the threads; threads without lanes are left out.
pub fn lane_spans(lanes: u64, threads: usize) -> (r: Vec<LaneSpan>)
    ensures
        ({
            let n = at_least_one(threads);
            &&& r@.len() == busy_threads(lanes as int, n)
            &&& forall|i: int|
                0 <= i < r@.len() ==> {
                    let span = #[trigger] r@[i];
                    &&& span.lo == first_lane(lanes as int, n, i)
                    &&& span.lo + span.len == first_lane(lanes as int, n, i + 1)
                    &&& span.len > 0
                }
        }),
{
    let n: u64 = if threads == 0 {
        1
    } else {
        threads as u64
    };
    let base: u64 = lanes / n;
    let remainder: u64 = lanes % n;
    let mut lo: u64 = 0;
    let mut out: Vec<LaneSpan> = Vec::new();
    let mut index: u64 = 0;
    proof {
        lemma_lanes(lanes as int, n as int, 0);
    }
    while index < n
        invariant
            n == at_least_one(threads),
            n >= 1,
            base == lanes / n,
            remainder == lanes % n,
            index <= n,
            lo == first_lane(lanes as int, n as int, index as int),
            lo <= lanes,
            out@.len() == if index < busy_threads(lanes as int, n as int) {
                index as int
            } else {
                busy_threads(lanes as int, n as int)
            },
            forall|i: int|
                0 <= i < out@.len() ==> {
                    let span = #[trigger] out@[i];
                    &&& span.lo == first_lane(lanes as int, n as int, i)
                    &&& span.lo + span.len == first_lane(lanes as int, n as int, i + 1)
                    &&& span.len > 0
                },
        decreases n - index,
    {
        proof {
            lemma_lanes(lanes as int, n as int, index as int);
        }
        let extra: u64 = if index < remainder {
            1
        } else {
            0
        };
        let len: u64 = base + extra;
        if len > 0 {
            out.push(LaneSpan { lo, len });
        }
        lo = lo + len;
        index = index + 1;
    }
    out
}

/// Every lane has exactly one thread.
pub proof fn every_lane_has_one_thread(lanes: int, threads: int, place: int)
    requires
        threads >= 1,
        0 <= place < lanes,
    ensures
        exists|thread: int|
            0 <= thread < busy_threads(lanes, threads) && #[trigger] first_lane(
                lanes,
                threads,
                thread,
            ) <= place < first_lane(lanes, threads, thread + 1),
        forall|one: int, other: int|
            0 <= one < other < threads && #[trigger] first_lane(lanes, threads, one) <= place
                < first_lane(lanes, threads, one + 1) ==> !(#[trigger] first_lane(
                lanes,
                threads,
                other,
            ) <= place < first_lane(lanes, threads, other + 1)),
{
    lemma_lanes(lanes, threads, 0);
    lemma_find_thread(lanes, threads, place, threads);
    assert forall|one: int, other: int|
        0 <= one < other < threads && #[trigger] first_lane(lanes, threads, one) <= place
            < first_lane(lanes, threads, one + 1) implies !(#[trigger] first_lane(
        lanes,
        threads,
        other,
    ) <= place < first_lane(lanes, threads, other + 1)) by {
        lemma_lanes_ascend(lanes, threads, one + 1, other);
    }
}

/// Later threads have later lanes.
proof fn lemma_lanes_ascend(lanes: int, threads: int, one: int, other: int)
    requires
        threads >= 1,
        lanes >= 0,
        0 <= one <= other <= threads,
    ensures
        first_lane(lanes, threads, one) <= first_lane(lanes, threads, other),
    decreases other - one,
{
    if one < other {
        lemma_lanes_ascend(lanes, threads, one, other - 1);
        lemma_lanes(lanes, threads, other - 1);
        lemma_div_pos_is_pos(lanes, threads);
    }
}

/// A lane before the first of thread `to` belongs to a thread before it.
proof fn lemma_find_thread(lanes: int, threads: int, place: int, to: int)
    requires
        threads >= 1,
        0 <= to <= threads,
        0 <= place < lanes,
        place < first_lane(lanes, threads, to),
    ensures
        exists|thread: int|
            0 <= thread < busy_threads(lanes, threads) && #[trigger] first_lane(
                lanes,
                threads,
                thread,
            ) <= place < first_lane(lanes, threads, thread + 1),
    decreases to,
{
    lemma_lanes(lanes, threads, 0);
    if to > 0 {
        lemma_lanes(lanes, threads, to - 1);
        lemma_div_pos_is_pos(lanes, threads);
        if first_lane(lanes, threads, to - 1) <= place {
            assert(to - 1 < busy_threads(lanes, threads));
        } else {
            lemma_find_thread(lanes, threads, place, to - 1);
        }
    }
}

/// The lesser of two numbers.
pub open spec fn lesser(a: int, b: int) -> int {
    if a < b {
        a
    } else {
        b
    }
}

impl LaneSpan {
    /// Whether the lanes of the span are among `lanes`, and there are any.
    pub open spec fn within(self, lanes: int) -> bool {
        self.len > 0 && self.lo + self.len <= lanes
    }

    /// Whether a transaction is on one of the lanes of the span.
    pub open spec fn serves(self, id: int, lanes: int) -> bool {
        self.lo <= lane(id, lanes) < self.lo + self.len
    }

    /// How many of the first `total` transactions are on the lanes of the
    /// span: a whole round has one on each lane, and the rest of a round
    /// reaches some of them.
    pub open spec fn job_total(self, lanes: int, total: int) -> int {
        total / lanes * self.len + lesser(total % lanes, self.lo + self.len) - lesser(
            total % lanes,
            self.lo as int,
        )
    }

    /// The transaction of a job: jobs go through the lanes round by round.
    pub open spec fn job(self, job: int, lanes: int) -> int {
        on_lane(job / self.len as int, self.lo + job % self.len as int, lanes)
    }

    /// The job of a transaction.
    pub open spec fn job_of(self, id: int, lanes: int) -> int {
        (id - 1) / lanes * self.len + lane(id, lanes) - self.lo
    }

    /// How many of the first `total` transactions are on the lanes of the
    /// span.
    pub fn jobs(&self, lanes: u64, total: u64) -> (r: u64)
        requires
            lanes >= 1,
            self.job_total(lanes as int, total as int) <= u64::MAX,
        ensures
            r == self.job_total(lanes as int, total as int),
            self.lo + self.len <= lanes ==> r <= total,
    {
        proof {
            if self.lo + self.len <= lanes {
                jobs_are_some_of_the_transactions(*self, lanes as int, total as int);
            }
        }
        let full: u64 = total / lanes;
        let rest: u64 = total % lanes;
        let past: u64 = if rest > self.lo {
            rest - self.lo
        } else {
            0
        };
        let last: u64 = if past < self.len {
            past
        } else {
            self.len
        };
        assert(0 <= full * self.len) by (nonlinear_arith)
            requires
                0 <= full,
                0 <= self.len,
        ;
        full * self.len + last
    }

    /// The transaction of a job.
    pub fn job_id(&self, job: u64, lanes: u64, total: u64) -> (r: u64)
        requires
            self.within(lanes as int),
            job < self.job_total(lanes as int, total as int),
        ensures
            r == self.job(job as int, lanes as int),
            1 <= r <= total,
    {
        let full: u64 = total / lanes;
        proof {
            lemma_fundamental_div_mod(total as int, lanes as int);
            assert(0 <= full * self.len <= lanes * full) by (nonlinear_arith)
                requires
                    self.len <= lanes,
                    0 <= full,
            ;
            jobs_are_the_ids_of_the_span(*self, lanes as int, total as int, job as int);
        }
        let body: u64 = full * self.len;
        if job < body {
            proof {
                lemma_mod_bound(job as int, self.len as int);
            }
            id_for(job / self.len, self.lo + job % self.len, lanes)
        } else {
            proof {
                lemma_fundamental_div_mod_converse(
                    job as int,
                    self.len as int,
                    full as int,
                    job - body,
                );
            }
            id_for(full, self.lo + (job - body), lanes)
        }
    }
}

/// A span that lies among the lanes, be it empty, has no more jobs than there
/// are transactions.
pub proof fn jobs_are_some_of_the_transactions(span: LaneSpan, lanes: int, total: int)
    requires
        lanes >= 1,
        total >= 0,
        span.lo + span.len <= lanes,
    ensures
        0 <= span.job_total(lanes, total) <= total,
        span.len == 0 ==> span.job_total(lanes, total) == 0,
{
    let full = total / lanes;
    lemma_fundamental_div_mod(total, lanes);
    lemma_mod_bound(total, lanes);
    assert(0 <= full * span.len <= lanes * full) by (nonlinear_arith)
        requires
            span.len <= lanes,
            0 <= full,
            0 <= span.len,
    ;
    if span.len == 0 {
        assert(full * span.len == 0) by (nonlinear_arith)
            requires
                span.len == 0,
        ;
    }
}

/// The jobs of a span are transactions on its lanes, and none is driven twice.
pub proof fn jobs_are_the_ids_of_the_span(span: LaneSpan, lanes: int, total: int, job: int)
    requires
        span.within(lanes),
        0 <= total,
        0 <= job < span.job_total(lanes, total),
    ensures
        1 <= span.job(job, lanes) <= total,
        span.serves(span.job(job, lanes), lanes),
        span.job_of(span.job(job, lanes), lanes) == job,
{
    let len = span.len as int;
    let full = total / lanes;
    let rest = total % lanes;
    let round = job / len;
    let place = span.lo + job % len;
    lemma_fundamental_div_mod(total, lanes);
    lemma_mod_bound(total, lanes);
    lemma_fundamental_div_mod(job, len);
    lemma_mod_bound(job, len);
    lemma_div_pos_is_pos(job, len);
    ids_are_rounds_on_lanes(1, round, place, lanes);
    assert(round * len == len * round) by (nonlinear_arith);
    let id = span.job(job, lanes);
    assert(1 <= id) by (nonlinear_arith)
        requires
            id == round * lanes + place + 1,
            round >= 0,
            place >= 0,
            lanes > 0,
    ;
    if round < full {
        assert(id <= total) by (nonlinear_arith)
            requires
                id == round * lanes + place + 1,
                round + 1 <= full,
                place < lanes,
                total == lanes * full + rest,
                rest >= 0,
                lanes > 0,
        ;
    } else {
        assert(round == full && span.lo + job % len < rest) by (nonlinear_arith)
            requires
                round >= full,
                job == len * round + job % len,
                0 <= job % len < len,
                job < full * len + lesser(rest, span.lo + len) - lesser(rest, span.lo as int),
        ;
        assert(round * lanes == lanes * full) by (nonlinear_arith)
            requires
                round == full,
        ;
    }
}

/// Every transaction on the lanes of a span is one of its jobs.
pub proof fn every_id_of_the_span_is_a_job(span: LaneSpan, lanes: int, total: int, id: int)
    requires
        span.within(lanes),
        1 <= id <= total,
        span.serves(id, lanes),
    ensures
        0 <= span.job_of(id, lanes) < span.job_total(lanes, total),
        span.job(span.job_of(id, lanes), lanes) == id,
{
    let len = span.len as int;
    let full = total / lanes;
    let rest = total % lanes;
    let round = (id - 1) / lanes;
    let place = lane(id, lanes);
    let at = place - span.lo;
    let job = span.job_of(id, lanes);
    lemma_fundamental_div_mod(total, lanes);
    lemma_mod_bound(total, lanes);
    lemma_fundamental_div_mod(id - 1, lanes);
    lemma_div_pos_is_pos(id - 1, lanes);
    assert(job == len * round + at) by (nonlinear_arith)
        requires
            job == round * len + at,
    ;
    lemma_fundamental_div_mod_converse(job, len, round, at);
    assert(round * lanes == lanes * round) by (nonlinear_arith);
    assert(0 <= job) by (nonlinear_arith)
        requires
            job == len * round + at,
            round >= 0,
            at >= 0,
            len > 0,
    ;
    if round < full {
        assert(job < full * len) by (nonlinear_arith)
            requires
                job == len * round + at,
                at < len,
                round + 1 <= full,
                len > 0,
        ;
    } else {
        assert(round == full && place < rest) by (nonlinear_arith)
            requires
                round >= full,
                id - 1 == lanes * round + place,
                id <= total,
                total == lanes * full + rest,
                0 <= rest < lanes,
                0 <= place,
        ;
        assert(full * len == len * round) by (nonlinear_arith)
            requires
                round == full,
        ;
    }
}

/// Later jobs of a span have later transactions, on one lane as on all of them.
pub proof fn ids_ascend_with_jobs(span: LaneSpan, lanes: int, one: int, other: int)
    requires
        span.within(lanes),
        0 <= one < other,
    ensures
        span.job(one, lanes) < span.job(other, lanes),
{
    let len = span.len as int;
    lemma_fundamental_div_mod(one, len);
    lemma_fundamental_div_mod(other, len);
    lemma_mod_bound(one, len);
    lemma_mod_bound(other, len);
    let a = one / len;
    let b = other / len;
    assert(a < b || (a == b && one % len < other % len)) by (nonlinear_arith)
        requires
            one == len * a + one % len,
            other == len * b + other % len,
            0 <= one % len < len,
            0 <= other % len < len,
            one < other,
    ;
    if a < b {
        assert(a * lanes + lanes <= b * lanes) by (nonlinear_arith)
            requires
                a < b,
                lanes > 0,
        ;
    }
}

/// The jobs of the first `thread` threads.
pub open spec fn jobs_before(lanes: int, threads: int, total: int, thread: int) -> int
    decreases thread,
{
    if thread <= 0 {
        0
    } else {
        let lo = first_lane(lanes, threads, thread - 1);
        let hi = first_lane(lanes, threads, thread);
        jobs_before(lanes, threads, total, thread - 1) + (LaneSpan {
            lo: lo as u64,
            len: (hi - lo) as u64,
        }).job_total(lanes, total)
    }
}

/// The jobs of all threads add up to the workload.
pub proof fn jobs_add_up(lanes: int, threads: int, total: int)
    requires
        threads >= 1,
        1 <= lanes <= u64::MAX,
        0 <= total,
    ensures
        jobs_before(lanes, threads, total, threads) == total,
{
    lemma_jobs_before(lanes, threads, total, threads);
    lemma_lanes(lanes, threads, 0);
    lemma_fundamental_div_mod(total, lanes);
    lemma_mod_bound(total, lanes);
    assert(total / lanes * lanes == lanes * (total / lanes)) by (nonlinear_arith);
}

/// The first threads have the jobs of their lanes.
proof fn lemma_jobs_before(lanes: int, threads: int, total: int, thread: int)
    requires
        threads >= 1,
        1 <= lanes <= u64::MAX,
        0 <= total,
        0 <= thread <= threads,
    ensures
        jobs_before(lanes, threads, total, thread) == total / lanes * first_lane(
            lanes,
            threads,
            thread,
        ) + lesser(total % lanes, first_lane(lanes, threads, thread)),
    decreases thread,
{
    lemma_mod_bound(total, lanes);
    lemma_lanes(lanes, threads, 0);
    let full = total / lanes;
    if thread > 0 {
        lemma_jobs_before(lanes, threads, total, thread - 1);
        lemma_lanes(lanes, threads, thread - 1);
        lemma_div_pos_is_pos(lanes, threads);
        let lo = first_lane(lanes, threads, thread - 1);
        let hi = first_lane(lanes, threads, thread);
        assert(full * hi == full * lo + full * (hi - lo)) by (nonlinear_arith);
    } else {
        assert(full * 0 == 0);
    }
}

/// The size of a run.
#[derive(Clone, Copy, Debug)]
pub struct Profile {
    pub name: &'static str,
    pub payers: usize,
    pub lanes: u64,
    pub read_span: usize,
    pub iterations: u64,
    pub rate: u32,
    pub threads: usize,
    pub high_cu_iters: u32,
}

/// The size of a run at each tier that the suite offers.
pub open spec fn profile_of(tier: Tier) -> Option<Profile> {
    match tier {
        Tier::Lite => Some(
            Profile {
                name: "lite",
                payers: 16,
                lanes: 63,
                read_span: 3,
                iterations: 63_000,
                rate: 600,
                threads: 1,
                high_cu_iters: 180,
            },
        ),
        Tier::Full => Some(
            Profile {
                name: "full",
                payers: 48,
                lanes: 511,
                read_span: 4,
                iterations: 1_022_000,
                rate: 4_000,
                threads: 4,
                high_cu_iters: 180,
            },
        ),
        Tier::Soak => Some(
            Profile {
                name: "soak",
                payers: 64,
                lanes: 2_047,
                read_span: 4,
                iterations: 40_000_000,
                rate: 12_000,
                threads: 8,
                high_cu_iters: 180,
            },
        ),
        Tier::Deep => None,
    }
}

/// The size of a run at `tier`, if the suite offers it.
pub fn profile(tier: Tier) -> (r: Option<Profile>)
    ensures
        r == profile_of(tier),
{
    match tier {
        Tier::Lite => Some(
            Profile {
                name: "lite",
                payers: 16,
                lanes: 63,
                read_span: 3,
                iterations: 63_000,
                rate: 600,
                threads: 1,
                high_cu_iters: 180,
            },
        ),
        Tier::Full => Some(
            Profile {
                name: "full",
                payers: 48,
                lanes: 511,
                read_span: 4,
                iterations: 1_022_000,
                rate: 4_000,
                threads: 4,
                high_cu_iters: 180,
            },
        ),
        Tier::Soak => Some(
            Profile {
                name: "soak",
                payers: 64,
                lanes: 2_047,
                read_span: 4,
                iterations: 40_000_000,
                rate: 12_000,
                threads: 8,
                high_cu_iters: 180,
            },
        ),
        Tier::Deep => None,
    }
}

impl Profile {
    /// How many requests a thread has in flight: one for each of its lanes.
    pub fn concurrency_per_thread(&self) -> (r: usize)
        requires
            self.lanes <= usize::MAX,
        ensures
            r == if self.lanes == 0 {
                1
            } else {
                div_up(self.lanes as int, at_least_one(self.threads))
            },
    {
        let threads: usize = if self.threads == 0 {
            1
        } else {
            self.threads
        };
        let r: usize = ceil_div(self.lanes as usize, threads);
        proof {
            let n = threads as int;
            let count = self.lanes as int;
            if count == 0 {
                lemma_small_mod((n - 1) as nat, n as nat);
                vstd::arithmetic::div_mod::lemma_basic_div(n - 1, n);
            } else {
                assert(div_up(count, n) >= 1) by (nonlinear_arith)
                    requires
                        div_up(count, n) == (count + n - 1) / n,
                        count >= 1,
                        n >= 1,
                ;
            }
        }
        if r == 0 {
            1
        } else {
            r
        }
    }

    /// The rate of a thread; at least one.
    pub fn rate_per_thread(&self) -> (r: u32)
        requires
            self.threads <= u32::MAX,
        ensures
            r == ({
                let share = self.rate as int / at_least_one(self.threads);
                if share == 0 {
                    1
                } else {
                    share
                }
            }),
    {
        let threads: u32 = if self.threads == 0 {
            1
        } else {
            self.threads as u32
        };
        let share: u32 = self.rate / threads;
        if share == 0 {
            1
        } else {
            share
        }
    }
}

/// Why a profile cannot be run.
#[derive(Clone, Copy, Debug, PartialEq, Eq, Structural)]
pub enum ProfileFault {
    /// Some lanes would not see all modes.
    NotCoprime,
    /// Some threads would have no lane.
    TooFewLanes,
    /// Some threads would have no payer.
    TooFewPayers,
    /// A transaction would read its own target.
    ReadSpanTooWide,
}

/// Why a profile cannot be run, if it cannot.
pub open spec fn profile_fault(profile: Profile) -> Option<ProfileFault> {
    if !is_gcd(1, profile.lanes as int, MIX_PERIOD as int) {
        Some(ProfileFault::NotCoprime)
    } else if profile.lanes < profile.threads {
        Some(ProfileFault::TooFewLanes)
    } else if profile.payers < profile.threads {
        Some(ProfileFault::TooFewPayers)
    } else if profile.read_span >= profile.lanes {
        Some(ProfileFault::ReadSpanTooWide)
    } else {
        None
    }
}

/// Whether a profile can be run.
pub fn check_profile(profile: &Profile) -> (r: Result<(), ProfileFault>)
    ensures
        match r {
            Ok(_) => profile_fault(*profile) is None,
            Err(fault) => profile_fault(*profile) == Some(fault),
        },
{
    let d: u64 = gcd(profile.lanes, MIX_PERIOD);
    if d != 1 {
        proof {
            if is_gcd(1, profile.lanes as int, 20) {
                lemma_gcd_unique(d as int, 1, profile.lanes as int, 20);
            }
        }
        return Err(ProfileFault::NotCoprime);
    }
    if profile.lanes < profile.threads as u64 {
        return Err(ProfileFault::TooFewLanes);
    }
    if profile.payers < profile.threads {
        return Err(ProfileFault::TooFewPayers);
    }
    if profile.read_span as u64 >= profile.lanes {
        return Err(ProfileFault::ReadSpanTooWide);
    }
    Ok(())
}

/// Two numbers have one greatest common divisor.
proof fn lemma_gcd_unique(d: int, e: int, a: int, b: int)
    requires
        is_gcd(d, a, b),
        is_gcd(e, a, b),
        b != 0,
    ensures
        d == e,
{
    assert(common_divisor(d, a, b) && common_divisor(e, a, b));
    assert(d % e == 0 && e % d == 0);
    lemma_fundamental_div_mod(d, e);
    lemma_fundamental_div_mod(e, d);
    let p = d / e;
    let q = e / d;
    assert(d == e) by (nonlinear_arith)
        requires
            d == e * p,
            e == d * q,
            d > 0,
            e > 0,
    ;
}

/// The accounts that a transaction on a lane reads: those of the lanes after
/// it.
pub open spec fn sources(pool: Seq<Pubkey>, place: int, read_span: int) -> Seq<Pubkey> {
    Seq::new(read_span as nat, |i: int| pool[(place + i + 1) % pool.len() as int])
}

/// Whether these are the instructions of a transaction.
pub open spec fn are_ixs(
    ixs: Seq<SolanaInstruction>,
    id: u64,
    pool: Seq<Pubkey>,
    read_span: int,
    high_cu_iters: u32,
) -> bool {
    let place = lane(id as int, pool.len() as int);
    let target = pool[place];
    match mode_of(id as int) {
        Mode::SimpleWrite => {
            &&& ixs.len() == 1
            &&& ixs[0].is(
                key(ID),
                metas_of(seq![target], false, true),
                (Instruction::SimpleByteSet { id }).encoding(),
            )
        },
        Mode::HighCu => {
            &&& ixs.len() == 2
            &&& ixs[0].is(key(COMPUTE_BUDGET_ID), Seq::empty(), limit_data(CU_LIMIT))
            &&& ixs[1].is(
                key(ID),
                metas_of(seq![target], false, true),
                (Instruction::ExpensiveHashCompute {
                    id,
                    init: key(HASH_INIT),
                    iters: high_cu_iters,
                }).encoding(),
            )
        },
        Mode::ReadWrite => {
            &&& ixs.len() == 1
            &&& ixs[0].is(
                key(ID),
                seq![writable(target, false)] + metas_of(
                    sources(pool, place, read_span),
                    false,
                    false,
                ),
                (Instruction::MultiAccountRead { id }).encoding(),
            )
        },
    }
}

/// The instructions of a transaction.
pub fn build_ixs(id: u64, pool: &[Pubkey], read_span: usize, high_cu_iters: u32) -> (r: Vec<
    SolanaInstruction,
>)
    requires
        id >= 1,
        pool@.len() > 0,
        pool@.len() + read_span <= usize::MAX,
    ensures
        are_ixs(r@, id, pool@, read_span as int, high_cu_iters),
{
    assert(pool.len() == pool@.len());
    let lanes: usize = pool.len();
    let place: usize = lane_of(id, lanes as u64) as usize;
    let target = pool[place];
    let targets: Vec<Pubkey> = vec![target];
    assert(targets@ =~= seq![target]);
    match mode_for(id) {
        Mode::SimpleWrite => vec![simple_byte_set(id, targets.as_slice())],
        Mode::HighCu => vec![
            compute_unit_limit(CU_LIMIT),
            expensive_hash_compute(
                id,
                Pubkey::new(HASH_INIT),
                high_cu_iters,
                targets.as_slice(),
            ),
        ],
        Mode::ReadWrite => {
            let mut read: Vec<Pubkey> = Vec::new();
            let mut step: usize = 0;
            while step < read_span
                invariant
                    step <= read_span,
                    lanes == pool@.len(),
                    lanes > 0,
                    place < lanes,
                    lanes + read_span <= usize::MAX,
                    read@ == sources(pool@, place as int, read_span as int).take(step as int),
                decreases read_span - step,
            {
                read.push(pool[(place + step + 1) % lanes]);
                step = step + 1;
                assert(read@ =~= sources(pool@, place as int, read_span as int).take(step as int));
            }
            assert(read@ =~= sources(pool@, place as int, read_span as int));
            vec![multi_account_read(id, target, read.as_slice())]
        },
    }
}

/// What the end state of a lane can be faulted for.
#[derive(Clone, Copy, Debug, PartialEq, Eq, Structural)]
pub enum LaneFault {
    /// It does not hold the last id.
    WrongId,
    /// It is not filled with the last id.
    NotFilled,
    /// It does not hold the end of the hash chain.
    WrongHash,
    /// It does not hold the size of what was read.
    WrongSum,
}

/// Whether all words of an account are this id.
pub open spec fn filled_with(data: Seq<u8>, id: u64) -> bool {
    forall|word: int|
        0 <= word < (data.len() - DATA_OFFSET) / ID_SIZE as int ==> #[trigger] word_at(data, word)
            == le64(id)
}

/// A word of an account.
pub open spec fn word_at(data: Seq<u8>, word: int) -> Seq<u8> {
    data.subrange(DATA_OFFSET + word * ID_SIZE, DATA_OFFSET + word * ID_SIZE + ID_SIZE)
}

/// What the end state of a lane is faulted for, after its last transaction.
pub open spec fn lane_fault(data: Seq<u8>, last_id: u64, high_cu_iters: u32, read_span: int)
    -> Option<LaneFault> {
    if data.subrange(ID_OFFSET as int, ID_OFFSET + ID_SIZE) != le64(last_id) {
        Some(LaneFault::WrongId)
    } else {
        match mode_of(last_id as int) {
            Mode::SimpleWrite => if filled_with(data, last_id) {
                None
            } else {
                Some(LaneFault::NotFilled)
            },
            Mode::HighCu => if data.subrange(HASH_OFFSET as int, HASH_OFFSET + HASH_SIZE)
                == chained(HASH_INIT@, high_cu_iters as nat) {
                None
            } else {
                Some(LaneFault::WrongHash)
            },
            Mode::ReadWrite => if data.subrange(
                ID_OFFSET + ID_SIZE,
                ID_OFFSET + ID_SIZE + 8,
            ) == le64((read_span * ACCOUNT_SPACE) as u64) {
                None
            } else {
                Some(LaneFault::WrongSum)
            },
        }
    }
}

/// Holds the end state of a lane against its last transaction.
pub fn check_lane(data: &[u8], last_id: u64, high_cu_iters: u32, read_span: usize) -> (r: Result<
    (),
    LaneFault,
>)
    requires
        data@.len() >= HASH_OFFSET + HASH_SIZE,
        last_id >= 1,
        read_span * ACCOUNT_SPACE <= u64::MAX,
    ensures
        match r {
            Ok(_) => lane_fault(data@, last_id, high_cu_iters, read_span as int) is None,
            Err(fault) => lane_fault(data@, last_id, high_cu_iters, read_span as int) == Some(
                fault,
            ),
        },
{
    proof {
        lemma_le64();
    }
    assert(data.len() == data@.len());
    if read_u64(data, ID_OFFSET) != last_id {
        return Err(LaneFault::WrongId);
    }
    match mode_for(last_id) {
        Mode::SimpleWrite => {
            let words: usize = (data.len() - DATA_OFFSET) / ID_SIZE;
            let mut word: usize = 0;
            while word < words
                invariant
                    word <= words,
                    words == (data@.len() - DATA_OFFSET) / ID_SIZE as int,
                    data@.len() >= DATA_OFFSET,
                    data@.len() <= usize::MAX,
                    forall|w: int| 0 <= w < word ==> #[trigger] word_at(data@, w) == le64(last_id),
                    last_id >= 1,
                    data@.subrange(ID_OFFSET as int, ID_OFFSET + ID_SIZE) == le64(last_id),
                    mode_of(last_id as int) == Mode::SimpleWrite,
                decreases words - word,
            {
                proof {
                    lemma_le64();
                }
                if read_u64(data, DATA_OFFSET + word * ID_SIZE) != last_id {
                    assert(word_at(data@, word as int) != le64(last_id));
                    return Err(LaneFault::NotFilled);
                }
                assert(word_at(data@, word as int) == le64(last_id));
                word = word + 1;
            }
            Ok(())
        },
        Mode::HighCu => if holds_heavy_chain(data, high_cu_iters) {
            Ok(())
        } else {
            Err(LaneFault::WrongHash)
        },
        Mode::ReadWrite => if read_u64(data, ID_OFFSET + ID_SIZE) == read_span as u64
            * ACCOUNT_SPACE as u64 {
            Ok(())
        } else {
            Err(LaneFault::WrongSum)
        },
    }
}

/// Whether the pipeline has nothing left to do; a gauge that is missing counts
/// as idle.
pub fn pipeline_idle(blocked: Option<u64>, busy: Option<u64>, pending: Option<u64>) -> (r: bool)
    ensures
        r == ((blocked matches Some(n) ==> n == 0) && (busy matches Some(n) ==> n == 0) && (
        pending matches Some(n) ==> n == 0)),
{
    is_zero(blocked) && is_zero(busy) && is_zero(pending)
}

/// Whether a reading is zero or missing.
fn is_zero(reading: Option<u64>) -> (r: bool)
    ensures
        r == (reading matches Some(n) ==> n == 0),
{
    match reading {
        Some(n) => n == 0,
        None => true,
    }
}

/// What the counters of a run can be faulted for.
#[derive(Clone, Copy, Debug, PartialEq, Eq, Structural)]
pub enum CountFault {
    /// Deliveries failed.
    Failed,
    /// Not every transaction was delivered.
    NotDelivered,
    /// The engine executed too few.
    NotExecuted,
    /// The server accepted another number.
    NotAccepted,
}

/// Holds the counters of a run against the workload. A run that is accepted
/// says how many transactions the engine executed beyond it.
pub fn check_counts(
    failed: u64,
    delivered: u64,
    total: u64,
    engine_txs: Option<u64>,
    rpc_txs: Option<u64>,
) -> (r: Result<u64, CountFault>)
    ensures
        ({
            let executed = match engine_txs {
                Some(n) => n,
                None => 0,
            };
            r == if failed != 0 {
                Err::<u64, CountFault>(CountFault::Failed)
            } else if delivered != total {
                Err(CountFault::NotDelivered)
            } else if executed < total {
                Err(CountFault::NotExecuted)
            } else if rpc_txs matches Some(n) && n != total {
                Err(CountFault::NotAccepted)
            } else {
                Ok((executed - total) as u64)
            }
        }),
        r is Ok <==> failed == 0 && delivered == total && (engine_txs matches Some(n) && n >= total
            || engine_txs is None && total == 0) && (rpc_txs matches Some(n) ==> n == total),
        r matches Ok(more) ==> engine_txs matches Some(n) ==> total + more == n,
{
    if failed != 0 {
        return Err(CountFault::Failed);
    }
    if delivered != total {
        return Err(CountFault::NotDelivered);
    }
    let executed: u64 = match engine_txs {
        Some(n) => n,
        None => 0,
    };
    if executed < total {
        return Err(CountFault::NotExecuted);
    }
    if let Some(accepted) = rpc_txs {
        if accepted != total {
            return Err(CountFault::NotAccepted);
        }
    }
    Ok(executed - total)
}

/// Of every twenty transactions the first two are heavy, the next nine are
/// simple writes, and the last nine read and write.
pub proof fn modes_come_in_a_row(id: int)
    ensures
        mode_of(id) == Mode::HighCu <==> (id - 1) % 20 < 2,
        mode_of(id) == Mode::SimpleWrite <==> 2 <= (id - 1) % 20 < 11,
        mode_of(id) == Mode::ReadWrite <==> 11 <= (id - 1) % 20,
        mode_of(id + 20) == mode_of(id),
{
}

/// A profile is taken exactly where its lanes have no divisor in common with
/// the twenty transactions of a mix, every thread has a lane and a payer, and
/// a read does not reach round to its own lane.
pub proof fn what_makes_a_profile_good(profile: Profile)
    ensures
        profile_fault(profile) is None <==> {
            &&& profile.lanes % 2 != 0
            &&& profile.lanes % 5 != 0
            &&& profile.threads <= profile.lanes
            &&& profile.threads <= profile.payers
            &&& profile.read_span < profile.lanes
        },
        profile_fault(profile) == Some(ProfileFault::NotCoprime) <==> profile.lanes % 2 == 0
            || profile.lanes % 5 == 0,
        profile_fault(profile) == Some(ProfileFault::TooFewLanes) ==> profile.lanes
            < profile.threads,
        profile_fault(profile) == Some(ProfileFault::TooFewPayers) ==> profile.payers
            < profile.threads,
        profile_fault(profile) == Some(ProfileFault::ReadSpanTooWide) ==> profile.read_span
            >= profile.lanes,
{
    let lanes = profile.lanes as int;
    if is_gcd(1, lanes, 20) {
        if lanes % 2 == 0 {
            assert(common_divisor(2, lanes, 20));
            assert(1int % 2 == 0);
        }
        if lanes % 5 == 0 {
            assert(common_divisor(5, lanes, 20));
            assert(1int % 5 == 0);
        }
    }
    if lanes % 2 != 0 && lanes % 5 != 0 {
        assert(common_divisor(1, lanes, 20));
        assert forall|e: int| #[trigger] common_divisor(e, lanes, 20) implies 1int % e == 0 by {
            vstd::arithmetic::div_mod::lemma_fundamental_div_mod(20, e);
            assert(e <= 20) by (nonlinear_arith)
                requires
                    20 == e * (20int / e) + 20int % e,
                    20int % e == 0,
                    e > 0,
            ;
            assert(20int % 3 != 0 && 20int % 6 != 0 && 20int % 7 != 0 && 20int % 8 != 0 && 20int % 9 != 0 && 20int % 11 != 0 && 20int % 12 != 0 && 20int % 13 != 0 && 20int % 14 != 0 && 20int % 15 != 0 && 20int % 16 != 0 && 20int % 17 != 0 && 20int % 18 != 0 && 20int % 19 != 0);
            assert(lanes % 2 != 0 && lanes % 4 != 0 && lanes % 5 != 0 && lanes % 10 != 0 && lanes % 20 != 0);
            assert(e == 1 || e == 2 || e == 4 || e == 5 || e == 10 || e == 20);
        }
    }
}

/// A read goes over the accounts behind its own, one after the other, and
/// never over its own, nor over one of them twice.
pub proof fn reads_go_over_the_accounts_behind(
    pool: Seq<Pubkey>,
    place: int,
    read_span: int,
    one: int,
    other: int,
)
    requires
        pool.no_duplicates(),
        0 <= place < pool.len(),
        0 <= read_span < pool.len(),
        0 <= one < other < read_span,
    ensures
        sources(pool, place, read_span).len() == read_span,
        sources(pool, place, read_span)[0] == pool[if place + 1 < pool.len() {
            place + 1
        } else {
            0
        }],
        sources(pool, place, read_span)[one] != pool[place],
        sources(pool, place, read_span)[other] != pool[place],
        sources(pool, place, read_span)[one] != sources(pool, place, read_span)[other],
{
    let len = pool.len() as int;
    lemma_wraps(place + 1, len);
    lemma_wraps(place + one + 1, len);
    lemma_wraps(place + other + 1, len);
}

/// A place at most one pool behind the end wraps once.
proof fn lemma_wraps(at: int, len: int)
    requires
        0 <= at < 2 * len,
    ensures
        at % len == if at < len {
            at
        } else {
            at - len
        },
{
    if at < len {
        vstd::arithmetic::div_mod::lemma_small_mod(at as nat, len as nat);
    } else {
        vstd::arithmetic::div_mod::lemma_mod_add_multiples_vanish(at - len, len);
        vstd::arithmetic::div_mod::lemma_small_mod((at - len) as nat, len as nat);
    }
}

/// What the last transaction of a lane leaves behind is what the lane is held
/// to: a simple write fills the account, a heavy one stamps the hash, and a
/// read leaves the number of bytes it went over.
pub proof fn what_is_written_is_accepted(
    data: Seq<u8>,
    id: u64,
    high_cu_iters: u32,
    read_span: int,
)
    requires
        data.len() >= 72,
        id >= 1,
        chained(HASH_INIT@, high_cu_iters as nat).len() == 32,
        0 <= read_span * 256 <= u64::MAX,
    ensures
        mode_of(id as int) == Mode::SimpleWrite ==> lane_fault(
            crate::redline::processors::filled(data, id),
            id,
            high_cu_iters,
            read_span,
        ) is None,
        mode_of(id as int) == Mode::HighCu ==> lane_fault(
            crate::redline::processors::stamped(
                data,
                id,
                chained(HASH_INIT@, high_cu_iters as nat),
            ),
            id,
            high_cu_iters,
            read_span,
        ) is None,
        mode_of(id as int) == Mode::ReadWrite ==> lane_fault(
            crate::bytes::overwrite(data, 32, le64(id) + le64((256 * read_span) as u64)),
            id,
            high_cu_iters,
            read_span,
        ) is None,
{
    lemma_le64();
    let hash = chained(HASH_INIT@, high_cu_iters as nat);
    let full = crate::redline::processors::filled(data, id);
    crate::redline::processors::fill_keeps_header_and_reads_back(data, id, 0);
    assert(full.subrange(32, 40) == le64(id));
    assert forall|word: int| 0 <= word < (full.len() - 32) / 8 implies #[trigger] word_at(full, word)
        == le64(id) by {
        crate::redline::processors::fill_keeps_header_and_reads_back(data, id, word);
    }
    let heavy = crate::redline::processors::stamped(data, id, hash);
    assert(heavy.subrange(32, 40) =~= le64(id));
    assert(heavy.subrange(40, 72) =~= hash);
    let sum = (256 * read_span) as u64;
    let read = crate::bytes::overwrite(data, 32, le64(id) + le64(sum));
    assert(read.subrange(32, 40) =~= le64(id));
    assert(read.subrange(40, 48) =~= le64(sum));
}

/// A lane with another id than that of its last transaction is faulted for
/// that. With the right id it is accepted exactly where it holds what the mode
/// of that transaction writes.
pub proof fn what_makes_a_lane_good(
    data: Seq<u8>,
    last_id: u64,
    high_cu_iters: u32,
    read_span: int,
)
    requires
        data.len() >= 72,
        0 <= read_span * 256 <= u64::MAX,
    ensures
        lane_fault(data, last_id, high_cu_iters, read_span) == Some(LaneFault::WrongId) <==> from_le64(
            data.subrange(32, 40),
        ) != last_id,
        lane_fault(data, last_id, high_cu_iters, read_span) is None <==> {
            &&& from_le64(data.subrange(32, 40)) == last_id
            &&& mode_of(last_id as int) == Mode::SimpleWrite ==> forall|word: int|
                #![trigger data.subrange(32 + 8 * word, 40 + 8 * word)]
                0 <= word && 40 + 8 * word <= data.len() ==> from_le64(
                    data.subrange(32 + 8 * word, 40 + 8 * word),
                ) == last_id
            &&& mode_of(last_id as int) == Mode::HighCu ==> data.subrange(40, 72) == chained(
                HASH_INIT@,
                high_cu_iters as nat,
            )
            &&& mode_of(last_id as int) == Mode::ReadWrite ==> from_le64(data.subrange(40, 48))
                == 256 * read_span
        },
{
    lemma_le64();
    assert forall|word: int| 0 <= word < (data.len() - 32) / 8 implies #[trigger] word_at(data, word)
        == data.subrange(32 + 8 * word, 40 + 8 * word) by {}
    if filled_with(data, last_id) {
        assert forall|word: int|
            #![trigger data.subrange(32 + 8 * word, 40 + 8 * word)]
            0 <= word && 40 + 8 * word <= data.len() implies from_le64(
            data.subrange(32 + 8 * word, 40 + 8 * word),
        ) == last_id by {
            assert(word < (data.len() - 32) / 8);
            assert(word_at(data, word) == le64(last_id));
        }
    } else {
        let word = choose|word: int|
            0 <= word < (data.len() - 32) / 8 && #[trigger] word_at(data, word) != le64(last_id);
        assert(word_at(data, word) == data.subrange(32 + 8 * word, 40 + 8 * word));
        assert(from_le64(data.subrange(32 + 8 * word, 40 + 8 * word)) != last_id);
    }
}

} // verus!
