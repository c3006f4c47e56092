//! What the end of a pair of accounts tells of the steps that led to it: the
//! order in which each of the two accounts went through its steps, and nothing
//! else.
use crate::bytes::{joined, le32, le64, lemma_le32, lemma_le64};
use crate::hash::{chained, folded, sha256};
use crate::scenarios::conflict_ordering::{
    replayed, x_and_z_commute, PairState, PlannedStep, Step,
};
use vstd::prelude::*;

verus! {

/// The pair once all steps were taken.
pub open spec fn ended(start: PairState, steps: Seq<PlannedStep>) -> PairState {
    replayed(start, steps, steps.len() as int)
}

/// What an account sees of a step: which it is, its id and its rounds.
pub type Seen = (Step, u64, u32);

/// What an account sees of a step.
pub open spec fn seen(s: PlannedStep) -> Seen {
    (s.step, s.id, s.iters)
}

/// The steps that the first account goes through, in order.
pub open spec fn on_first(steps: Seq<PlannedStep>) -> Seq<Seen>
    decreases steps.len(),
{
    if steps.len() == 0 {
        Seq::empty()
    } else if steps.last().step == Step::Z {
        on_first(steps.drop_last())
    } else {
        on_first(steps.drop_last()).push(seen(steps.last()))
    }
}

/// The steps that the second account goes through, in order.
pub open spec fn on_second(steps: Seq<PlannedStep>) -> Seq<Seen>
    decreases steps.len(),
{
    if steps.len() == 0 {
        Seq::empty()
    } else if steps.last().step == Step::X {
        on_second(steps.drop_last())
    } else {
        on_second(steps.drop_last()).push(seen(steps.last()))
    }
}

/// The first steps of a longer plan lead to the same pair.
proof fn lemma_prefix(start: PairState, steps: Seq<PlannedStep>, next: PlannedStep, n: int)
    requires
        n <= steps.len(),
    ensures
        replayed(start, steps.push(next), n) == replayed(start, steps, n),
    decreases n,
{
    if n > 0 {
        lemma_prefix(start, steps, next, n - 1);
    }
}

/// One more step.
proof fn lemma_pushed(start: PairState, steps: Seq<PlannedStep>, next: PlannedStep)
    ensures
        ended(start, steps.push(next)) == ended(start, steps).after(
            next.step,
            next.id,
            next.iters as nat,
        ),
        on_first(steps.push(next)) == if next.step == Step::Z {
            on_first(steps)
        } else {
            on_first(steps).push(seen(next))
        },
        on_second(steps.push(next)) == if next.step == Step::X {
            on_second(steps)
        } else {
            on_second(steps).push(seen(next))
        },
{
    lemma_prefix(start, steps, next, steps.len() as int);
    assert(steps.push(next).drop_last() =~= steps);
}

/// The last step of a plan.
proof fn lemma_last(start: PairState, steps: Seq<PlannedStep>)
    requires
        steps.len() > 0,
    ensures
        ended(start, steps) == ended(start, steps.drop_last()).after(
            steps.last().step,
            steps.last().id,
            steps.last().iters as nat,
        ),
{
    lemma_pushed(start, steps.drop_last(), steps.last());
    assert(steps.drop_last().push(steps.last()) =~= steps);
}

/// The last step of the first account, if it is an X, can as well be the very
/// last step.
proof fn lemma_x_to_the_end(start: PairState, steps: Seq<PlannedStep>, x: Seen) -> (rest: Seq<
    PlannedStep,
>)
    requires
        on_first(steps).len() > 0,
        on_first(steps).last() == x,
        x.0 == Step::X,
    ensures
        rest.len() + 1 == steps.len(),
        ended(start, steps) == ended(start, rest).after(Step::X, x.1, x.2 as nat),
        on_first(rest) == on_first(steps).drop_last(),
        on_second(rest) == on_second(steps),
    decreases steps.len(),
{
    let before = steps.drop_last();
    let last = steps.last();
    lemma_last(start, steps);
    if last.step == Step::Z {
        let inner = lemma_x_to_the_end(start, before, x);
        lemma_pushed(start, inner, last);
        x_and_z_commute(
            ended(start, inner),
            x.1,
            x.2 as nat,
            last.id,
            last.iters as nat,
        );
        inner.push(last)
    } else {
        assert(on_first(steps).drop_last() =~= on_first(before));
        before
    }
}

/// The last step of the second account, if it is a Z, can as well be the very
/// last step.
proof fn lemma_z_to_the_end(start: PairState, steps: Seq<PlannedStep>, z: Seen) -> (rest: Seq<
    PlannedStep,
>)
    requires
        on_second(steps).len() > 0,
        on_second(steps).last() == z,
        z.0 == Step::Z,
    ensures
        rest.len() + 1 == steps.len(),
        ended(start, steps) == ended(start, rest).after(Step::Z, z.1, z.2 as nat),
        on_second(rest) == on_second(steps).drop_last(),
        on_first(rest) == on_first(steps),
    decreases steps.len(),
{
    let before = steps.drop_last();
    let last = steps.last();
    lemma_last(start, steps);
    if last.step == Step::X {
        let inner = lemma_z_to_the_end(start, before, z);
        lemma_pushed(start, inner, last);
        x_and_z_commute(
            ended(start, inner),
            last.id,
            last.iters as nat,
            z.1,
            z.2 as nat,
        );
        inner.push(last)
    } else {
        assert(on_second(steps).drop_last() =~= on_second(before));
        before
    }
}

/// The end of a pair depends on nothing but the order in which each of its
/// accounts went through its steps: two plans that agree on both accounts lead
/// to the same end, however their steps are interleaved.
pub proof fn the_order_on_each_account_decides(
    start: PairState,
    one: Seq<PlannedStep>,
    other: Seq<PlannedStep>,
)
    requires
        on_first(one) == on_first(other),
        on_second(one) == on_second(other),
    ensures
        ended(start, one) == ended(start, other),
    decreases one.len(),
{
    if one.len() == 0 {
        assert(other.len() == 0);
    } else {
        let last = one.last();
        let before = one.drop_last();
        lemma_last(start, one);
        match last.step {
            Step::X => {
                assert(on_first(one).last() == seen(last));
                assert(on_first(one).drop_last() =~= on_first(before));
                let rest = lemma_x_to_the_end(start, other, seen(last));
                the_order_on_each_account_decides(start, before, rest);
            },
            Step::Z => {
                assert(on_second(one).last() == seen(last));
                assert(on_second(one).drop_last() =~= on_second(before));
                let rest = lemma_z_to_the_end(start, other, seen(last));
                the_order_on_each_account_decides(start, before, rest);
            },
            Step::Y => {
                assert(on_first(one).last() == seen(last));
                assert(on_second(one).last() == seen(last));
                assert(other.len() > 0);
                lemma_last(start, other);
                let end = other.last();
                assert(on_first(other).last() == seen(last));
                assert(on_second(other).last() == seen(last));
                assert(end.step == Step::Y && seen(end) == seen(last));
                assert(on_first(one).drop_last() =~= on_first(before));
                assert(on_second(one).drop_last() =~= on_second(before));
                assert(on_first(other).drop_last() =~= on_first(other.drop_last()));
                assert(on_second(other).drop_last() =~= on_second(other.drop_last()));
                the_order_on_each_account_decides(start, before, other.drop_last());
            },
        }
    }
}

/// The hashes that a step reads.
pub open spec fn read_by(pair: PairState, step: Step) -> Seq<Seq<u8>> {
    match step {
        Step::X => seq![pair.a],
        Step::Y => seq![pair.a, pair.b],
        Step::Z => seq![pair.b],
    }
}

/// What is digested in a round of a chain.
pub open spec fn round_block(hash: Seq<u8>, round: nat) -> Seq<u8> {
    chained(hash, round) + le32(round as u32)
}

/// Whether a block is digested by a fold: in front of its rounds, or in one of
/// them.
pub open spec fn folds(block: Seq<u8>, id: u64, hashes: Seq<Seq<u8>>, iters: nat) -> bool {
    let front = le64(id) + joined(hashes);
    block == front || exists|round: nat|
        round < iters && block == #[trigger] round_block(sha256(front), round)
}

/// Whether a block is digested on the way through a plan.
pub open spec fn digested(block: Seq<u8>, start: PairState, steps: Seq<PlannedStep>) -> bool
    decreases steps.len(),
{
    if steps.len() == 0 {
        false
    } else {
        let before = steps.drop_last();
        let last = steps.last();
        digested(block, start, before) || folds(
            block,
            last.id,
            read_by(ended(start, before), last.step),
            last.iters as nat,
        )
    }
}

/// Whether digests tell the blocks of a set apart, from each other and from
/// what the pair starts with.
pub open spec fn told_apart(taken: spec_fn(Seq<u8>) -> bool, start: PairState) -> bool {
    &&& forall|x: Seq<u8>|
        taken(x) ==> (#[trigger] sha256(x)).len() == 32 && sha256(x) != start.a && sha256(x)
            != start.b
    &&& forall|x: Seq<u8>, y: Seq<u8>|
        taken(x) && taken(y) && #[trigger] sha256(x) == #[trigger] sha256(y) ==> x == y
}

/// What an account went through.
enum History {
    Start,
    Alone { id: u64, iters: u32, on: Box<History> },
    Joint { id: u64, iters: u32, first: Box<History>, second: Box<History> },
}

/// The hash that a history leaves in the first or in the second account.
spec fn left(h: History, start: PairState, first_account: bool) -> Seq<u8>
    decreases h,
{
    match h {
        History::Start => if first_account {
            start.a
        } else {
            start.b
        },
        History::Alone { id, iters, on } => folded(
            id,
            seq![left(*on, start, first_account)],
            iters as nat,
        ),
        History::Joint { id, iters, first, second } => folded(
            id,
            seq![left(*first, start, true), left(*second, start, false)],
            iters as nat,
        ),
    }
}

/// Whether a block is digested on the way through a history.
spec fn met(block: Seq<u8>, h: History, start: PairState, first_account: bool) -> bool
    decreases h,
{
    match h {
        History::Start => false,
        History::Alone { id, iters, on } => met(block, *on, start, first_account) || folds(
            block,
            id,
            seq![left(*on, start, first_account)],
            iters as nat,
        ),
        History::Joint { id, iters, first, second } => met(block, *first, start, true) || met(
            block,
            *second,
            start,
            false,
        ) || folds(
            block,
            id,
            seq![left(*first, start, true), left(*second, start, false)],
            iters as nat,
        ),
    }
}

/// The histories of the two accounts.
spec fn histories(steps: Seq<PlannedStep>) -> (History, History)
    decreases steps.len(),
{
    if steps.len() == 0 {
        (History::Start, History::Start)
    } else {
        let (a, b) = histories(steps.drop_last());
        let last = steps.last();
        match last.step {
            Step::X => (
                History::Alone { id: last.id, iters: last.iters, on: Box::new(a) },
                b,
            ),
            Step::Y => {
                let both = History::Joint {
                    id: last.id,
                    iters: last.iters,
                    first: Box::new(a),
                    second: Box::new(b),
                };
                (both, both)
            },
            Step::Z => (
                a,
                History::Alone { id: last.id, iters: last.iters, on: Box::new(b) },
            ),
        }
    }
}

/// The steps that an account went through, by its history.
spec fn spine(h: History, first_account: bool) -> Seq<Seen>
    decreases h,
{
    match h {
        History::Start => Seq::empty(),
        History::Alone { id, iters, on } => spine(*on, first_account).push(
            (
                if first_account {
                    Step::X
                } else {
                    Step::Z
                },
                id,
                iters,
            ),
        ),
        History::Joint { id, iters, first, second } => if first_account {
            spine(*first, true).push((Step::Y, id, iters))
        } else {
            spine(*second, false).push((Step::Y, id, iters))
        },
    }
}

/// The histories of a plan tell its end, the blocks on its way and the order
/// on each account.
proof fn lemma_histories(start: PairState, steps: Seq<PlannedStep>)
    ensures
        ended(start, steps).a == left(histories(steps).0, start, true),
        ended(start, steps).b == left(histories(steps).1, start, false),
        forall|block: Seq<u8>| #[trigger]
            met(block, histories(steps).0, start, true) ==> digested(block, start, steps),
        forall|block: Seq<u8>| #[trigger]
            met(block, histories(steps).1, start, false) ==> digested(block, start, steps),
        spine(histories(steps).0, true) == on_first(steps),
        spine(histories(steps).1, false) == on_second(steps),
    decreases steps.len(),
{
    if steps.len() > 0 {
        let before = steps.drop_last();
        let last = steps.last();
        lemma_histories(start, before);
        lemma_last(start, steps);
        let (a, b) = histories(before);
        let read = read_by(ended(start, before), last.step);
        assert forall|block: Seq<u8>| #[trigger]
            met(block, histories(steps).0, start, true) implies digested(block, start, steps) by {
            assert(met(block, a, start, true) || met(block, b, start, false) || folds(
                block,
                last.id,
                read,
                last.iters as nat,
            ));
        }
        assert forall|block: Seq<u8>| #[trigger]
            met(block, histories(steps).1, start, false) implies digested(block, start, steps) by {
            assert(met(block, a, start, true) || met(block, b, start, false) || folds(
                block,
                last.id,
                read,
                last.iters as nat,
            ));
        }
    }
}

/// Chains from told-apart starts have 32 bytes all along.
proof fn lemma_chain_width(
    front: Seq<u8>,
    n: nat,
    taken: spec_fn(Seq<u8>) -> bool,
    start: PairState,
)
    requires
        told_apart(taken, start),
        taken(front),
        forall|round: nat| round < n ==> taken(#[trigger] round_block(sha256(front), round)),
    ensures
        chained(sha256(front), n).len() == 32,
        chained(sha256(front), n) != start.a,
        chained(sha256(front), n) != start.b,
    decreases n,
{
    if n > 0 {
        assert(taken(round_block(sha256(front), (n - 1) as nat)));
    }
}

/// Two chains that end alike have as many rounds and the same start, where
/// their starts cannot be taken for the block of a round.
proof fn lemma_chains_tell(
    one: Seq<u8>,
    n: nat,
    other: Seq<u8>,
    m: nat,
    taken: spec_fn(Seq<u8>) -> bool,
    start: PairState,
)
    requires
        told_apart(taken, start),
        taken(one),
        taken(other),
        one.len() != 36,
        other.len() != 36,
        n <= u32::MAX,
        m <= u32::MAX,
        forall|round: nat| round < n ==> taken(#[trigger] round_block(sha256(one), round)),
        forall|round: nat| round < m ==> taken(#[trigger] round_block(sha256(other), round)),
        chained(sha256(one), n) == chained(sha256(other), m),
    ensures
        n == m,
        one == other,
    decreases n,
{
    lemma_le32();
    if n > 0 {
        assert(taken(round_block(sha256(one), (n - 1) as nat)));
        lemma_chain_width(one, (n - 1) as nat, taken, start);
    }
    if m > 0 {
        assert(taken(round_block(sha256(other), (m - 1) as nat)));
        lemma_chain_width(other, (m - 1) as nat, taken, start);
    }
    if n > 0 && m > 0 {
        let x = round_block(sha256(one), (n - 1) as nat);
        let y = round_block(sha256(other), (m - 1) as nat);
        assert(sha256(x) == sha256(y));
        assert(x.take(32) =~= chained(sha256(one), (n - 1) as nat));
        assert(y.take(32) =~= chained(sha256(other), (m - 1) as nat));
        assert(x.skip(32) =~= le32((n - 1) as u32));
        assert(y.skip(32) =~= le32((m - 1) as u32));
        assert((n - 1) as u32 == (m - 1) as u32);
        lemma_chains_tell(one, (n - 1) as nat, other, (m - 1) as nat, taken, start);
    } else if n > 0 {
        let x = round_block(sha256(one), (n - 1) as nat);
        assert(sha256(x) == sha256(other));
        assert(x.len() == 36);
    } else if m > 0 {
        let y = round_block(sha256(other), (m - 1) as nat);
        assert(sha256(one) == sha256(y));
        assert(y.len() == 36);
    }
}

/// Two folds that end alike have the same id, read the same hashes and run as
/// many rounds.
proof fn lemma_folds_tell(
    id: u64,
    hashes: Seq<Seq<u8>>,
    iters: u32,
    other_id: u64,
    other_hashes: Seq<Seq<u8>>,
    other_iters: u32,
    taken: spec_fn(Seq<u8>) -> bool,
    start: PairState,
)
    requires
        told_apart(taken, start),
        1 <= hashes.len() <= 2,
        1 <= other_hashes.len() <= 2,
        forall|i: int| 0 <= i < hashes.len() ==> (#[trigger] hashes[i]).len() == 32,
        forall|i: int| 0 <= i < other_hashes.len() ==> (#[trigger] other_hashes[i]).len() == 32,
        forall|x: Seq<u8>| folds(x, id, hashes, iters as nat) ==> #[trigger] taken(x),
        forall|x: Seq<u8>|
            folds(x, other_id, other_hashes, other_iters as nat) ==> #[trigger] taken(x),
        folded(id, hashes, iters as nat) == folded(other_id, other_hashes, other_iters as nat),
    ensures
        id == other_id,
        hashes == other_hashes,
        iters == other_iters,
{
    lemma_le64();
    let front = le64(id) + joined(hashes);
    let other_front = le64(other_id) + joined(other_hashes);
    lemma_joined_hashes(hashes);
    lemma_joined_hashes(other_hashes);
    assert(folds(front, id, hashes, iters as nat));
    assert(folds(other_front, other_id, other_hashes, other_iters as nat));
    assert forall|round: nat| round < iters implies taken(
        #[trigger] round_block(sha256(front), round),
    ) by {
        assert(folds(round_block(sha256(front), round), id, hashes, iters as nat));
    }
    assert forall|round: nat| round < other_iters implies taken(
        #[trigger] round_block(sha256(other_front), round),
    ) by {
        assert(folds(
            round_block(sha256(other_front), round),
            other_id,
            other_hashes,
            other_iters as nat,
        ));
    }
    lemma_chains_tell(front, iters as nat, other_front, other_iters as nat, taken, start);
    assert(front.take(8) =~= le64(id));
    assert(other_front.take(8) =~= le64(other_id));
    assert(front.skip(8) =~= joined(hashes));
    assert(other_front.skip(8) =~= joined(other_hashes));
    assert(hashes.len() == other_hashes.len());
    assert(hashes[0] =~= joined(hashes).take(32));
    assert(other_hashes[0] =~= joined(other_hashes).take(32));
    if hashes.len() == 2 {
        assert(hashes[1] =~= joined(hashes).skip(32));
        assert(other_hashes[1] =~= joined(other_hashes).skip(32));
    }
    assert(hashes =~= other_hashes);
}

/// One or two hashes one after the other.
proof fn lemma_joined_hashes(hashes: Seq<Seq<u8>>)
    requires
        1 <= hashes.len() <= 2,
        forall|i: int| 0 <= i < hashes.len() ==> (#[trigger] hashes[i]).len() == 32,
    ensures
        hashes.len() == 1 ==> joined(hashes) == hashes[0],
        hashes.len() == 2 ==> joined(hashes) == hashes[0] + hashes[1],
{
    reveal_with_fuel(joined, 3);
    if hashes.len() == 1 {
        assert(joined(hashes) =~= hashes[0]);
    } else {
        assert(hashes.drop_last().drop_last() =~= Seq::<Seq<u8>>::empty());
        assert(joined(hashes) =~= hashes[0] + hashes[1]);
    }
}

/// Histories leave 32 bytes.
proof fn lemma_left_width(
    h: History,
    taken: spec_fn(Seq<u8>) -> bool,
    start: PairState,
    first_account: bool,
)
    requires
        start.a.len() == 32,
        start.b.len() == 32,
        told_apart(taken, start),
        forall|x: Seq<u8>| met(x, h, start, first_account) ==> #[trigger] taken(x),
    ensures
        left(h, start, first_account).len() == 32,
        h !is Start ==> left(h, start, first_account) != start.a && left(h, start, first_account)
            != start.b,
{
    match h {
        History::Start => {},
        History::Alone { id, iters, on } => {
            let hashes = seq![left(*on, start, first_account)];
            lemma_fold_width(h, id, hashes, iters, taken, start, first_account);
        },
        History::Joint { id, iters, first, second } => {
            let hashes = seq![left(*first, start, true), left(*second, start, false)];
            lemma_fold_width(h, id, hashes, iters, taken, start, first_account);
        },
    }
}

/// A fold that a history goes through leaves 32 bytes.
proof fn lemma_fold_width(
    h: History,
    id: u64,
    hashes: Seq<Seq<u8>>,
    iters: u32,
    taken: spec_fn(Seq<u8>) -> bool,
    start: PairState,
    first_account: bool,
)
    requires
        told_apart(taken, start),
        forall|x: Seq<u8>| met(x, h, start, first_account) ==> #[trigger] taken(x),
        forall|x: Seq<u8>|
            folds(x, id, hashes, iters as nat) ==> #[trigger] met(x, h, start, first_account),
    ensures
        folded(id, hashes, iters as nat).len() == 32,
        folded(id, hashes, iters as nat) != start.a,
        folded(id, hashes, iters as nat) != start.b,
{
    let front = le64(id) + joined(hashes);
    assert(folds(front, id, hashes, iters as nat));
    assert(met(front, h, start, first_account));
    assert forall|round: nat| round < iters implies taken(
        #[trigger] round_block(sha256(front), round),
    ) by {
        let block = round_block(sha256(front), round);
        assert(folds(block, id, hashes, iters as nat));
        assert(met(block, h, start, first_account));
    }
    lemma_chain_width(front, iters as nat, taken, start);
}

/// Histories that leave the same hash are the same.
proof fn lemma_left_tells(
    one: History,
    other: History,
    taken: spec_fn(Seq<u8>) -> bool,
    start: PairState,
    first_account: bool,
)
    requires
        start.a.len() == 32,
        start.b.len() == 32,
        told_apart(taken, start),
        forall|x: Seq<u8>| met(x, one, start, first_account) ==> #[trigger] taken(x),
        forall|x: Seq<u8>| met(x, other, start, first_account) ==> #[trigger] taken(x),
        left(one, start, first_account) == left(other, start, first_account),
    ensures
        one == other,
    decreases one,
{
    lemma_left_width(one, taken, start, first_account);
    lemma_left_width(other, taken, start, first_account);
    match (one, other) {
        (History::Start, _) => {},
        (_, History::Start) => {},
        (History::Alone { id, iters, on }, History::Alone { id: id2, iters: iters2, on: on2 }) => {
            lemma_left_width(*on, taken, start, first_account);
            lemma_left_width(*on2, taken, start, first_account);
            let hashes = seq![left(*on, start, first_account)];
            let hashes2 = seq![left(*on2, start, first_account)];
            lemma_folds_tell(id, hashes, iters, id2, hashes2, iters2, taken, start);
            assert(hashes[0] == hashes2[0]);
            lemma_left_tells(*on, *on2, taken, start, first_account);
        },
        (
            History::Joint { id, iters, first, second },
            History::Joint { id: id2, iters: iters2, first: first2, second: second2 },
        ) => {
            lemma_left_width(*first, taken, start, true);
            lemma_left_width(*second, taken, start, false);
            lemma_left_width(*first2, taken, start, true);
            lemma_left_width(*second2, taken, start, false);
            let hashes = seq![left(*first, start, true), left(*second, start, false)];
            let hashes2 = seq![left(*first2, start, true), left(*second2, start, false)];
            lemma_folds_tell(id, hashes, iters, id2, hashes2, iters2, taken, start);
            assert(hashes[0] == hashes2[0] && hashes[1] == hashes2[1]);
            lemma_left_tells(*first, *first2, taken, start, true);
            lemma_left_tells(*second, *second2, taken, start, false);
        },
        (History::Alone { id, iters, on }, History::Joint { id: id2, iters: iters2, first, second }) => {
            lemma_left_width(*on, taken, start, first_account);
            lemma_left_width(*first, taken, start, true);
            lemma_left_width(*second, taken, start, false);
            let hashes = seq![left(*on, start, first_account)];
            let hashes2 = seq![left(*first, start, true), left(*second, start, false)];
            lemma_folds_tell(id, hashes, iters, id2, hashes2, iters2, taken, start);
        },
        (History::Joint { id, iters, first, second }, History::Alone { id: id2, iters: iters2, on }) => {
            lemma_left_width(*on, taken, start, first_account);
            lemma_left_width(*first, taken, start, true);
            lemma_left_width(*second, taken, start, false);
            let hashes = seq![left(*first, start, true), left(*second, start, false)];
            let hashes2 = seq![left(*on, start, first_account)];
            lemma_folds_tell(id, hashes, iters, id2, hashes2, iters2, taken, start);
        },
    }
}

/// Any other order on an account changes the end of the pair: two plans that
/// lead to the same hashes agree on the order in which each account went
/// through its steps, as long as digests tell the blocks apart that are
/// digested on the way.
pub proof fn the_end_tells_the_order_on_each_account(
    start: PairState,
    one: Seq<PlannedStep>,
    other: Seq<PlannedStep>,
)
    requires
        start.a.len() == 32,
        start.b.len() == 32,
        told_apart(|x: Seq<u8>| digested(x, start, one) || digested(x, start, other), start),
        ended(start, one).a == ended(start, other).a,
        ended(start, one).b == ended(start, other).b,
    ensures
        on_first(one) == on_first(other),
        on_second(one) == on_second(other),
{
    let taken = |x: Seq<u8>| digested(x, start, one) || digested(x, start, other);
    lemma_histories(start, one);
    lemma_histories(start, other);
    lemma_left_tells(histories(one).0, histories(other).0, taken, start, true);
    lemma_left_tells(histories(one).1, histories(other).1, taken, start, false);
}

} // verus!
