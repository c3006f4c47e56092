//! What the load suites share: reading an account's update id, preparing
//! accounts in batches, the copy shape and the split of payers over threads.
use crate::address::found_address;
use crate::bytes::{from_le64, read_u64};
use crate::chain::{key, metas_of, Pubkey, SolanaInstruction};
use crate::redline::builders::{
    account_data_copy, delegate, init_account, is_delegate, is_init_account,
};
use crate::redline::instruction::Instruction;
use crate::redline::utils::account_seeds;
use crate::redline::{ID, ID_OFFSET, ID_SIZE};
use vstd::prelude::*;

verus! {

/// The size of an account of the load suites.
pub const ACCOUNT_SPACE: u32 = 256;

/// Pairs of set-up and delegation that go into one transaction.
pub const PREP_PAIRS_PER_TX: usize = 3;

/// Set-ups that go into one transaction.
pub const PREP_INITS_PER_TX: usize = 6;

/// How much of a suite to run.
#[derive(Clone, Copy, Debug, PartialEq, Eq, Structural)]
pub enum Tier {
    Lite,
    Full,
    Soak,
    Deep,
}

/// The id of the last update of an account, if the account is large enough to
/// hold one.
pub fn account_update_id(data: &[u8]) -> (r: Option<u64>)
    ensures
        r == if data@.len() >= ID_OFFSET + ID_SIZE {
            Some(from_le64(data@.subrange(ID_OFFSET as int, ID_OFFSET + ID_SIZE)))
        } else {
            None
        },
{
    if data.len() >= ID_OFFSET + ID_SIZE {
        Some(read_u64(data, ID_OFFSET))
    } else {
        None
    }
}

/// Why accounts cannot be prepared.
#[derive(Clone, Copy, Debug, PartialEq, Eq, Structural)]
pub enum PrepError {
    /// There is nobody to pay.
    NoPayer,
    /// A payer would need more accounts than there are seed numbers.
    SeedsExhausted,
    /// No address can be derived for an account.
    NoAddress,
}

/// `count` divided by `parts`, rounded up.
pub open spec fn div_up(count: int, parts: int) -> int {
    (count + parts - 1) / parts
}

/// `count` divided by `parts`, rounded up.
pub fn ceil_div(count: usize, parts: usize) -> (r: usize)
    requires
        parts > 0,
    ensures
        r == div_up(count as int, parts as int),
{
    let whole: usize = count / parts;
    if count % parts == 0 {
        proof {
            lemma_div_up(count as int, parts as int);
        }
        whole
    } else {
        proof {
            lemma_div_up(count as int, parts as int);
            assert(whole < usize::MAX) by (nonlinear_arith)
                requires
                    whole == count / parts,
                    count % parts != 0,
                    count <= usize::MAX,
                    parts > 0,
            ;
        }
        whole + 1
    }
}

/// Rounding up adds one unless the division comes out even.
proof fn lemma_div_up(count: int, parts: int)
    by (nonlinear_arith)
    requires
        count >= 0,
        parts > 0,
    ensures
        div_up(count, parts) == if count % parts == 0 {
            count / parts
        } else {
            count / parts + 1
        },
        div_up(count, parts) * parts >= count,
{
}

/// The first account of a payer.
pub open spec fn first_of(per_payer: int, payer: int) -> int {
    payer * per_payer
}

/// The accounts of a payer: as many as the others, until all are handed out.
pub open spec fn share(count: int, per_payer: int, payer: int) -> int {
    if first_of(per_payer, payer) >= count {
        0
    } else if first_of(per_payer, payer + 1) <= count {
        per_payer
    } else {
        count - first_of(per_payer, payer)
    }
}

/// What the payers before `payer` get between them.
pub open spec fn handed_out(count: int, per_payer: int, payer: int) -> int
    decreases payer,
{
    if payer <= 0 {
        0
    } else {
        handed_out(count, per_payer, payer - 1) + share(count, per_payer, payer - 1)
    }
}

/// The shares of all payers add up to the number of accounts asked for.
pub proof fn shares_add_up(count: int, payers: int)
    requires
        0 <= count,
        0 < payers,
    ensures
        handed_out(count, div_up(count, payers), payers) == count,
{
    let per = div_up(count, payers);
    lemma_div_up(count, payers);
    lemma_handed_out(count, per, payers);
    assert(payers * per >= count) by (nonlinear_arith)
        requires
            per * payers >= count,
    ;
}

/// The payers before `payer` are served in full, up to the number asked for.
proof fn lemma_handed_out(count: int, per: int, payer: int)
    requires
        0 <= count,
        0 <= per,
        0 <= payer,
    ensures
        handed_out(count, per, payer) == if first_of(per, payer) <= count {
            first_of(per, payer)
        } else {
            count
        },
    decreases payer,
{
    if payer > 0 {
        lemma_handed_out(count, per, payer - 1);
        assert(payer * per == (payer - 1) * per + per) by (nonlinear_arith);
    } else {
        assert(0 * per == 0) by (nonlinear_arith);
    }
}

/// What one payer sends to prepare its accounts: the addresses, and the
/// instructions transaction by transaction.
#[derive(Debug)]
pub struct PayerPrep {
    pub pdas: Vec<Pubkey>,
    pub txs: Vec<Vec<SolanaInstruction>>,
}

/// The instructions per account.
pub open spec fn steps_per_account(delegated: bool) -> int {
    if delegated {
        2
    } else {
        1
    }
}

/// The accounts per transaction.
pub open spec fn accounts_per_tx(delegated: bool) -> int {
    if delegated {
        PREP_PAIRS_PER_TX as int
    } else {
        PREP_INITS_PER_TX as int
    }
}

/// Whether `tx` prepares the accounts with the seeds from `from` up to `to`,
/// in order.
pub open spec fn prepares(
    tx: Seq<SolanaInstruction>,
    pdas: Seq<Pubkey>,
    payer: Pubkey,
    space: u32,
    authority: Pubkey,
    delegated: bool,
    from: int,
    to: int,
) -> bool {
    &&& tx.len() == (to - from) * steps_per_account(delegated)
    &&& forall|k: int|
        from <= k < to ==> {
            let at = (k - from) * steps_per_account(delegated);
            &&& is_init_account(
                Some((tx[at], #[trigger] pdas[k])),
                key(ID),
                payer,
                payer,
                space,
                k as u8,
                authority,
            )
            &&& delegated ==> is_delegate(
                Some(tx[at + 1]),
                key(ID),
                payer,
                pdas[k],
                payer,
                k as u8,
                authority,
            )
        }
}

impl PayerPrep {
    /// Whether this prepares `count` accounts of `payer`: every transaction is
    /// full but the last, and the accounts carry the seed numbers from zero
    /// on.
    pub open spec fn prepares_all(
        &self,
        payer: Pubkey,
        space: u32,
        authority: Pubkey,
        delegated: bool,
        count: int,
    ) -> bool {
        let per_tx = accounts_per_tx(delegated);
        &&& self.pdas@.len() == count
        &&& self.txs@.len() == div_up(count, per_tx)
        &&& forall|t: int|
            0 <= t < self.txs@.len() ==> prepares(
                (#[trigger] self.txs@[t])@,
                self.pdas@,
                payer,
                space,
                authority,
                delegated,
                t * per_tx,
                if (t + 1) * per_tx <= count {
                    (t + 1) * per_tx
                } else {
                    count
                },
            )
    }
}

/// Whether the account with seed number `k` cannot be prepared.
pub open spec fn unaddressable(
    payer: Pubkey,
    space: u32,
    authority: Pubkey,
    delegated: bool,
    k: int,
) -> bool {
    match found_address(account_seeds(payer, space, k as u8, authority), ID@) {
        None => true,
        Some(found) => delegated && exists|pda: Pubkey|
            pda@ == found.0 && !#[trigger] crate::delegation::DelegateAccounts::derivable(
                pda,
                key(ID),
            ),
    }
}

/// Prepares the accounts with the seed numbers from `from` up to `to` in one
/// transaction and appends their addresses.
fn prepare_tx(
    payer: Pubkey,
    space: u32,
    authority: Pubkey,
    delegated: bool,
    from: usize,
    to: usize,
    pdas: &mut Vec<Pubkey>,
) -> (r: Option<Vec<SolanaInstruction>>)
    requires
        from <= to <= 256,
        old(pdas)@.len() == from,
    ensures
        match r {
            Some(tx) => {
                &&& final(pdas)@.len() == to
                &&& final(pdas)@.take(from as int) == old(pdas)@
                &&& prepares(
                    tx@,
                    final(pdas)@,
                    payer,
                    space,
                    authority,
                    delegated,
                    from as int,
                    to as int,
                )
            },
            None => exists|k: int|
                from <= k < to && #[trigger] unaddressable(payer, space, authority, delegated, k),
        },
{
    let mut tx: Vec<SolanaInstruction> = Vec::new();
    let mut k: usize = from;
    while k < to
        invariant
            from <= k <= to <= 256,
            pdas@.len() == k,
            pdas@.take(from as int) == old(pdas)@,
            prepares(
                tx@,
                pdas@,
                payer,
                space,
                authority,
                delegated,
                from as int,
                k as int,
            ),
        decreases to - k,
    {
        let ghost tx_before = tx@;
        let ghost pdas_before = pdas@;
        let seed: u8 = k as u8;
        match init_account(payer, payer, space, seed, authority) {
            None => {
                assert(unaddressable(payer, space, authority, delegated, k as int));
                return None;
            },
            Some((init, pda)) => {
                pdas.push(pda);
                tx.push(init);
                if delegated {
                    match delegate(payer, pda, payer, seed, authority) {
                        None => {
                            assert(!crate::delegation::DelegateAccounts::derivable(pda, key(ID)));
                            assert(unaddressable(payer, space, authority, delegated, k as int));
                            return None;
                        },
                        Some(second) => {
                            tx.push(second);
                        },
                    }
                }
            },
        }
        assert(pdas@.take(from as int) =~= old(pdas)@);
        let ghost per = steps_per_account(delegated);
        assert((k + 1 - from) * per == (k - from) * per + per) by (nonlinear_arith);
        assert forall|j: int| from <= j < k + 1 implies {
            let at = (j - from) * per;
            &&& is_init_account(
                Some((tx@[at], #[trigger] pdas@[j])),
                key(ID),
                payer,
                payer,
                space,
                j as u8,
                authority,
            )
            &&& delegated ==> is_delegate(
                Some(tx@[at + 1]),
                key(ID),
                payer,
                pdas@[j],
                payer,
                j as u8,
                authority,
            )
        } by {
            let at = (j - from) * per;
            if j < k {
                assert(pdas@[j] == pdas_before[j]);
                assert(0 <= at && at + per <= (k - from) * per) by (nonlinear_arith)
                    requires
                        from <= j < k,
                        1 <= per,
                        at == (j - from) * per,
                ;
                assert(tx@[at] == tx_before[at]);
                if delegated {
                    assert(tx@[at + 1] == tx_before[at + 1]);
                }
            }
        }
        k = k + 1;
    }
    Some(tx)
}

/// Addresses behind those that a transaction prepares do not matter to it.
proof fn lemma_prepares_prefix(
    tx: Seq<SolanaInstruction>,
    pdas: Seq<Pubkey>,
    longer: Seq<Pubkey>,
    payer: Pubkey,
    space: u32,
    authority: Pubkey,
    delegated: bool,
    from: int,
    to: int,
)
    requires
        0 <= from,
        prepares(tx, pdas, payer, space, authority, delegated, from, to),
        forall|k: int| 0 <= k < to ==> pdas[k] == longer[k],
    ensures
        prepares(tx, longer, payer, space, authority, delegated, from, to),
{
    assert forall|k: int| from <= k < to implies {
        let at = (k - from) * steps_per_account(delegated);
        &&& is_init_account(
            Some((tx[at], #[trigger] longer[k])),
            key(ID),
            payer,
            payer,
            space,
            k as u8,
            authority,
        )
        &&& delegated ==> is_delegate(
            Some(tx[at + 1]),
            key(ID),
            payer,
            longer[k],
            payer,
            k as u8,
            authority,
        )
    } by {
        assert(pdas[k] == longer[k]);
    }
}

/// What `payer` sends to prepare `count` accounts.
pub fn prepare_payer(payer: Pubkey, space: u32, authority: Pubkey, delegated: bool, count: usize)
    -> (r: Option<PayerPrep>)
    requires
        count <= 256,
    ensures
        match r {
            Some(prep) => prep.prepares_all(payer, space, authority, delegated, count as int),
            None => exists|k: int|
                0 <= k < count && #[trigger] unaddressable(payer, space, authority, delegated, k),
        },
{
    let per_tx: usize = if delegated {
        PREP_PAIRS_PER_TX
    } else {
        PREP_INITS_PER_TX
    };
    let mut pdas: Vec<Pubkey> = Vec::new();
    let mut txs: Vec<Vec<SolanaInstruction>> = Vec::new();
    let ghost whole = |t: int|
        if (t + 1) * per_tx <= count {
            (t + 1) * per_tx
        } else {
            count as int
        };
    while pdas.len() < count
        invariant
            per_tx == accounts_per_tx(delegated),
            per_tx == 3 || per_tx == 6,
            count <= 256,
            pdas@.len() <= count,
            pdas@.len() == if txs@.len() * per_tx <= count {
                txs@.len() * per_tx
            } else {
                count as int
            },
            pdas@.len() < count ==> pdas@.len() == txs@.len() * per_tx,
            pdas@.len() == count && count > 0 ==> (txs@.len() - 1) * per_tx < count <= txs@.len()
                * per_tx,
            count == 0 ==> txs@.len() == 0,
            whole == (|t: int|
                if (t + 1) * per_tx <= count {
                    (t + 1) * per_tx
                } else {
                    count as int
                }),
            forall|t: int|
                0 <= t < txs@.len() ==> prepares(
                    (#[trigger] txs@[t])@,
                    pdas@,
                    payer,
                    space,
                    authority,
                    delegated,
                    t * per_tx,
                    whole(t),
                ) && whole(t) <= pdas@.len(),
        decreases count - pdas@.len(),
    {
        let from: usize = pdas.len();
        let to: usize = if from + per_tx <= count {
            from + per_tx
        } else {
            count
        };
        let ghost n = txs@.len() as int;
        let ghost before = pdas@;
        let ghost txs_before = txs@;
        match prepare_tx(payer, space, authority, delegated, from, to, &mut pdas) {
            None => {
                return None;
            },
            Some(tx) => {
                txs.push(tx);
                assert((n + 1) * per_tx == n * per_tx + per_tx) by (nonlinear_arith);
                assert(to == whole(n));
                assert forall|t: int| 0 <= t < txs@.len() implies prepares(
                    (#[trigger] txs@[t])@,
                    pdas@,
                    payer,
                    space,
                    authority,
                    delegated,
                    t * per_tx,
                    whole(t),
                ) && whole(t) <= pdas@.len() by {
                    if t < n {
                        assert(txs@[t] == txs_before[t]);
                        assert forall|k: int| 0 <= k < from implies pdas@[k] == before[k] by {
                            assert(pdas@.take(from as int)[k] == before[k]);
                        }
                        assert(t * per_tx >= 0) by (nonlinear_arith)
                            requires
                                t >= 0,
                                per_tx >= 0,
                        ;
                        lemma_prepares_prefix(
                            txs@[t]@,
                            before,
                            pdas@,
                            payer,
                            space,
                            authority,
                            delegated,
                            t * per_tx,
                            whole(t),
                        );
                    }
                }
            },
        }
    }
    let prep = PayerPrep { pdas, txs };
    proof {
        let n = prep.txs@.len() as int;
        assert(n == div_up(count as int, per_tx as int)) by (nonlinear_arith)
            requires
                per_tx == 3 || per_tx == 6,
                count > 0 ==> (n - 1) * per_tx < count <= n * per_tx,
                count == 0 ==> n == 0,
                count >= 0,
        ;
        assert forall|t: int| 0 <= t < n implies prepares(
            (#[trigger] prep.txs@[t])@,
            prep.pdas@,
            payer,
            space,
            authority,
            delegated,
            t * accounts_per_tx(delegated),
            if (t + 1) * accounts_per_tx(delegated) <= count {
                (t + 1) * accounts_per_tx(delegated)
            } else {
                count as int
            },
        ) by {
            assert(whole(t) == if (t + 1) * per_tx <= count {
                (t + 1) * per_tx
            } else {
                count as int
            });
        }
    }
    Some(prep)
}

/// Whether `r` spreads `count` accounts over `payers` as evenly as a rounded
/// up share allows.
pub open spec fn is_batched(
    r: Result<Vec<PayerPrep>, PrepError>,
    payers: Seq<Pubkey>,
    count: int,
    space: u32,
    authority: Pubkey,
    delegated: bool,
) -> bool {
    let per_payer = div_up(count, payers.len() as int);
    match r {
        Ok(preps) => {
            &&& payers.len() > 0
            &&& per_payer <= 256
            &&& preps@.len() == payers.len()
            &&& forall|i: int|
                0 <= i < payers.len() ==> (#[trigger] preps@[i]).prepares_all(
                    payers[i],
                    space,
                    authority,
                    delegated,
                    share(count, per_payer, i),
                )
        },
        Err(PrepError::NoPayer) => payers.len() == 0,
        Err(PrepError::SeedsExhausted) => payers.len() > 0 && per_payer > 256,
        Err(PrepError::NoAddress) => {
            &&& payers.len() > 0
            &&& per_payer <= 256
            &&& exists|i: int, k: int|
                0 <= i < payers.len() && 0 <= k < share(count, per_payer, i)
                    && #[trigger] unaddressable(payers[i], space, authority, delegated, k)
        },
    }
}

/// Plans the preparation of `count` accounts over `payers`.
fn plan_batches(
    payers: &[Pubkey],
    count: usize,
    space: u32,
    authority: Pubkey,
    delegated: bool,
) -> (r: Result<Vec<PayerPrep>, PrepError>)
    ensures
        is_batched(r, payers@, count as int, space, authority, delegated),
{
    if payers.len() == 0 {
        return Err(PrepError::NoPayer);
    }
    let per_payer: usize = ceil_div(count, payers.len());
    if per_payer > 256 {
        return Err(PrepError::SeedsExhausted);
    }
    let mut preps: Vec<PayerPrep> = Vec::new();
    let mut left: usize = count;
    let mut i: usize = 0;
    while i < payers.len()
        invariant
            i <= payers@.len(),
            payers@.len() > 0,
            per_payer <= 256,
            per_payer == div_up(count as int, payers@.len() as int),
            left == if first_of(per_payer as int, i as int) <= count {
                count - first_of(per_payer as int, i as int)
            } else {
                0
            },
            preps@.len() == i,
            forall|j: int|
                0 <= j < i ==> (#[trigger] preps@[j]).prepares_all(
                    payers@[j],
                    space,
                    authority,
                    delegated,
                    share(count as int, per_payer as int, j),
                ),
        decreases payers@.len() - i,
    {
        let mine: usize = if per_payer <= left {
            per_payer
        } else {
            left
        };
        assert(first_of(per_payer as int, i + 1) == first_of(per_payer as int, i as int)
            + per_payer) by (nonlinear_arith);
        assert(mine == share(count as int, per_payer as int, i as int));
        match prepare_payer(payers[i], space, authority, delegated, mine) {
            None => {
                let ghost k = choose|k: int|
                    0 <= k < mine && #[trigger] unaddressable(
                        payers@[i as int],
                        space,
                        authority,
                        delegated,
                        k,
                    );
                assert(unaddressable(payers@[i as int], space, authority, delegated, k));
                return Err(PrepError::NoAddress);
            },
            Some(prep) => {
                preps.push(prep);
            },
        }
        left = left - mine;
        i = i + 1;
    }
    Ok(preps)
}

/// Plans the set-up of `count` accounts over `payers`.
pub fn init_accounts_batched(payers: &[Pubkey], count: usize, space: u32, authority: Pubkey) -> (r:
    Result<Vec<PayerPrep>, PrepError>)
    ensures
        is_batched(r, payers@, count as int, space, authority, false),
{
    plan_batches(payers, count, space, authority, false)
}

/// Plans the set-up and delegation of `count` accounts over `payers`.
pub fn init_delegated_accounts_batched(
    payers: &[Pubkey],
    count: usize,
    space: u32,
    authority: Pubkey,
) -> (r: Result<Vec<PayerPrep>, PrepError>)
    ensures
        is_batched(r, payers@, count as int, space, authority, true),
{
    plan_batches(payers, count, space, authority, true)
}

/// Plans the set-up and delegation of `count` accounts of one payer, one
/// account per transaction.
pub fn init_delegated_accounts(payer: Pubkey, count: u8, space: u32, authority: Pubkey) -> (r:
    Option<PayerPrep>)
    ensures
        match r {
            Some(prep) => {
                &&& prep.pdas@.len() == count
                &&& prep.txs@.len() == count
                &&& forall|k: int|
                    0 <= k < count ==> prepares(
                        (#[trigger] prep.txs@[k])@,
                        prep.pdas@,
                        payer,
                        space,
                        authority,
                        true,
                        k,
                        k + 1,
                    )
            },
            None => exists|k: int|
                0 <= k < count && #[trigger] unaddressable(payer, space, authority, true, k),
        },
{
    let mut pdas: Vec<Pubkey> = Vec::new();
    let mut txs: Vec<Vec<SolanaInstruction>> = Vec::new();
    let total: usize = count as usize;
    while txs.len() < total
        invariant
            total == count,
            txs@.len() <= total,
            pdas@.len() == txs@.len(),
            forall|k: int|
                0 <= k < txs@.len() ==> prepares(
                    (#[trigger] txs@[k])@,
                    pdas@,
                    payer,
                    space,
                    authority,
                    true,
                    k,
                    k + 1,
                ),
        decreases total - txs@.len(),
    {
        let k: usize = txs.len();
        let ghost before = pdas@;
        let ghost txs_before = txs@;
        match prepare_tx(payer, space, authority, true, k, k + 1, &mut pdas) {
            None => {
                return None;
            },
            Some(tx) => {
                txs.push(tx);
                assert forall|j: int| 0 <= j < txs@.len() implies prepares(
                    (#[trigger] txs@[j])@,
                    pdas@,
                    payer,
                    space,
                    authority,
                    true,
                    j,
                    j + 1,
                ) by {
                    if j < k {
                        assert(txs@[j] == txs_before[j]);
                        assert(pdas@.take(k as int)[j] == before[j]);
                        assert(prepares(
                            txs_before[j]@,
                            before,
                            payer,
                            space,
                            authority,
                            true,
                            j,
                            j + 1,
                        ));
                    }
                }
            },
        }
    }
    Some(PayerPrep { pdas, txs })
}

/// Where in the pool the copy with this id reads.
pub open spec fn copy_base(len: int, id: int) -> int {
    ((id - 1) * 3) % len
}

/// The copy with this id: one account of the pool into the two behind it,
/// moving on by three with every id.
pub fn shape(pool: &[Pubkey], id: u64) -> (r: SolanaInstruction)
    requires
        pool@.len() > 0,
        id >= 1,
        (id - 1) * 3 <= u64::MAX,
    ensures
        ({
            let len = pool@.len() as int;
            let b = copy_base(len, id as int);
            r.is(
                key(ID),
                metas_of(seq![pool@[b]], false, false) + metas_of(
                    seq![pool@[(b + 1) % len], pool@[(b + 2) % len]],
                    false,
                    true,
                ),
                (Instruction::AccountDataCopy { id }).encoding(),
            )
        }),
{
    assert(pool.len() == pool@.len());
    let len: usize = pool.len();
    let b: usize = (((id - 1) * 3) % len as u64) as usize;
    let next: usize = if b + 1 == len {
        0
    } else {
        b + 1
    };
    let after: usize = if next + 1 == len {
        0
    } else {
        next + 1
    };
    assert(next == (b + 1) % (len as int) && after == (b + 2) % (len as int)) by (nonlinear_arith)
        requires
            b < len,
            next == if b + 1 == len {
                0
            } else {
                b + 1
            },
            after == if next + 1 == len {
                0
            } else {
                next + 1
            },
    ;
    assert(b == copy_base(len as int, id as int));
    let sources: Vec<Pubkey> = vec![pool[b]];
    let dests: Vec<Pubkey> = vec![pool[next], pool[after]];
    assert(sources@ =~= seq![pool@[b as int]]);
    assert(dests@ =~= seq![pool@[next as int], pool@[after as int]]);
    account_data_copy(id, sources.as_slice(), dests.as_slice())
}

/// In a pool whose size is not a multiple of three the copies come round to
/// the same account only after as many ids as there are accounts.
pub proof fn copies_rotate_through_the_pool(len: int, one: int, other: int)
    requires
        len > 0,
        len % 3 != 0,
        one >= 1,
        other >= 1,
        copy_base(len, one) == copy_base(len, other),
    ensures
        (one - other) % len == 0,
{
    let a = (one - 1) * 3;
    let b = (other - 1) * 3;
    let d = one - other;
    let k = a / len - b / len;
    assert(3 * d == k * len) by (nonlinear_arith)
        requires
            a == (one - 1) * 3,
            b == (other - 1) * 3,
            d == one - other,
            k == a / len - b / len,
            a % len == b % len,
            len > 0,
    ;
    assert(k % 3 == 0) by (nonlinear_arith)
        requires
            3 * d == k * len,
            len % 3 == 1 || len % 3 == 2,
    {
        let q = len / 3;
        let m = k / 3;
        let r = k % 3;
        let s = len % 3;
        assert(k * len == (3 * m + r) * (3 * q + s));
        assert(k * len == 3 * (3 * m * q + m * s + r * q) + r * s);
        assert((r * s) % 3 == 0);
    }
    assert(d % len == 0) by (nonlinear_arith)
        requires
            3 * d == k * len,
            k % 3 == 0,
            len > 0,
    {
        let m = k / 3;
        assert(k == 3 * m);
        assert(d == m * len);
    }
}

/// The payers that a driver thread works with.
pub open spec fn on_thread(payer: int, threads: int, thread: int) -> bool {
    payer % threads == thread
}

/// The payers of one of `threads` driver threads, in order: every
/// `threads`-th one.
pub fn thread_payers(payers: usize, threads: usize, thread: usize) -> (r: Vec<usize>)
    requires
        threads > 0,
    ensures
        forall|k: int| 0 <= k < r@.len() ==> (#[trigger] r@[k]) < payers && on_thread(
            r@[k] as int,
            threads as int,
            thread as int,
        ),
        forall|i: int, j: int| 0 <= i < j < r@.len() ==> r@[i] < r@[j],
        forall|p: usize|
            p < payers && on_thread(p as int, threads as int, thread as int) ==> r@.contains(p),
{
    let mut out: Vec<usize> = Vec::new();
    let mut p: usize = 0;
    while p < payers
        invariant
            threads > 0,
            p <= payers,
            forall|k: int| 0 <= k < out@.len() ==> (#[trigger] out@[k]) < p && on_thread(
                out@[k] as int,
                threads as int,
                thread as int,
            ),
            forall|i: int, j: int| 0 <= i < j < out@.len() ==> out@[i] < out@[j],
            forall|q: usize|
                q < p && on_thread(q as int, threads as int, thread as int) ==> out@.contains(q),
        decreases payers - p,
    {
        let ghost before = out@;
        if p % threads == thread {
            out.push(p);
            assert(out@[out@.len() - 1] == p);
        }
        assert forall|q: usize|
            q < p + 1 && on_thread(q as int, threads as int, thread as int) implies out@.contains(
            q,
        ) by {
            if q < p {
                let k = choose|k: int| 0 <= k < before.len() && before[k] == q;
                assert(out@[k] == q);
            }
        }
        p = p + 1;
    }
    out
}

/// Every payer works on exactly one of the threads.
pub proof fn every_payer_has_one_thread(payer: int, threads: int, thread: int)
    requires
        threads > 0,
        0 <= payer,
        0 <= thread < threads,
    ensures
        0 <= payer % threads < threads,
        on_thread(payer, threads, payer % threads),
        on_thread(payer, threads, thread) ==> thread == payer % threads,
{
}

/// Division upwards gives the smallest number of parts that holds everything.
pub proof fn parts_are_as_few_as_can_be(count: int, parts: int)
    requires
        count >= 0,
        parts > 0,
    ensures
        div_up(count, parts) * parts >= count,
        (div_up(count, parts) - 1) * parts < count,
        div_up(count, parts) >= 0,
{
    lemma_div_up(count, parts);
    vstd::arithmetic::div_mod::lemma_fundamental_div_mod(count, parts);
    vstd::arithmetic::div_mod::lemma_mod_bound(count, parts);
    let q = count / parts;
    assert(q * parts == parts * q) by (nonlinear_arith);
    assert((q - 1) * parts == q * parts - parts) by (nonlinear_arith);
    assert(q >= 0) by (nonlinear_arith)
        requires
            count >= 0,
            parts > 0,
            q == count / parts,
    ;
}

/// Every payer has as many accounts as any other, until they run out: a share
/// is never larger than a full one, and a share that is not full is the last.
pub proof fn shares_are_full_until_they_run_out(count: int, per_payer: int, payer: int)
    requires
        0 <= count,
        0 <= per_payer,
        0 <= payer,
    ensures
        0 <= share(count, per_payer, payer) <= per_payer,
        (payer + 1) * per_payer <= count ==> share(count, per_payer, payer) == per_payer,
        share(count, per_payer, payer) < per_payer ==> share(count, per_payer, payer + 1) == 0,
        share(count, per_payer, payer) > 0 ==> payer * per_payer + share(count, per_payer, payer)
            <= count,
{
    assert((payer + 1) * per_payer == payer * per_payer + per_payer) by (nonlinear_arith);
    assert((payer + 2) * per_payer == payer * per_payer + 2 * per_payer) by (nonlinear_arith);
    assert(payer * per_payer >= 0) by (nonlinear_arith)
        requires
            payer >= 0,
            per_payer >= 0,
    ;
}

/// A transaction that sets accounts up holds at most six instructions: six
/// accounts, or three that are also delegated.
pub proof fn preparing_transactions_are_small(
    tx: Seq<SolanaInstruction>,
    pdas: Seq<Pubkey>,
    payer: Pubkey,
    space: u32,
    authority: Pubkey,
    delegated: bool,
    from: int,
    to: int,
)
    requires
        prepares(tx, pdas, payer, space, authority, delegated, from, to),
        from <= to <= from + accounts_per_tx(delegated),
    ensures
        tx.len() <= 6,
        delegated ==> tx.len() == 2 * (to - from),
        !delegated ==> tx.len() == to - from,
        accounts_per_tx(true) == 3,
        accounts_per_tx(false) == 6,
{
}

/// Copies move on by three with every id, round and round the pool.
pub proof fn copies_move_on_by_three(len: int, id: int)
    requires
        0 < len,
        1 <= id,
    ensures
        copy_base(len, 1) == 0,
        0 <= copy_base(len, id) < len,
        copy_base(len, id + 1) == (copy_base(len, id) + 3) % len,
{
    vstd::arithmetic::div_mod::lemma_mod_bound((id - 1) * 3, len);
    vstd::arithmetic::div_mod::lemma_small_mod(0, len as nat);
    vstd::arithmetic::div_mod::lemma_add_mod_noop_right(3, (id - 1) * 3, len);
    assert((id + 1 - 1) * 3 == 3 + (id - 1) * 3);
}

} // verus!
