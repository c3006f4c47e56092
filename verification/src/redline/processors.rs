//! What the load program does with its accounts.
use crate::address::{address_text, base58};
use crate::bytes::{
    array_32, copy_bytes, le64, lemma_le64, overwrite, same_bytes, u64_bytes, write_at,
};
use crate::chain::{key, positions, Account, AccountState, Accounts, ProgramError, Pubkey};
use crate::effects::{deeds, says, Answer, Deed, Effect};
use crate::hash::{chained, hash_chain};
use crate::ids::SYSTEM_PROGRAM_ID;
use crate::redline::utils::{account_seeds, pda_seeds};
use crate::redline::{DATA_OFFSET, ID, OWNER_PUBKEY_SIZE};
use crate::text::{decimal, push_decimal};
use vstd::prelude::*;
use vstd::slice::slice_subrange;
use vstd::string::StringExecFns;

verus! {

/// Writes `data` at `index` and moves `index` behind it.
pub fn prepare_buffer(index: &mut usize, target: &mut Vec<u8>, data: &[u8])
    requires
        *old(index) + data@.len() <= old(target)@.len(),
    ensures
        *final(index) == *old(index) + data@.len(),
        final(target)@ == overwrite(old(target)@, *old(index) as int, data@),
{
    write_at(target, *index, data);
    assert(target.len() == target@.len());
    *index = *index + data.len();
}

/// What the owner check of an account answers.
pub open spec fn owner_check(signer: AccountState, account: AccountState) -> Result<
    Seq<u8>,
    ProgramError,
> {
    let stored = account.data.take(OWNER_PUBKEY_SIZE as int);
    if !signer.is_signer {
        Err(ProgramError::MissingRequiredSignature)
    } else if account.data.len() < OWNER_PUBKEY_SIZE {
        Err(ProgramError::InvalidAccountData)
    } else if stored != signer.key@ && stored != key(SYSTEM_PROGRAM_ID)@ {
        Err(ProgramError::InvalidAccountData)
    } else {
        Ok(stored)
    }
}

/// Lets only the owner named in the header of `account` pass, or anybody
/// while the header is blank.
pub fn verify_account_owner(signer: &Account, account: &Account) -> (r: Result<
    Pubkey,
    ProgramError,
>)
    ensures
        match r {
            Ok(stored) => owner_check(signer@, account@) == Ok::<_, ProgramError>(stored@),
            Err(e) => owner_check(signer@, account@) == Err::<Seq<u8>, _>(e),
        },
{
    if !signer.is_signer {
        return Err(ProgramError::MissingRequiredSignature);
    }
    if account.data.len() < OWNER_PUBKEY_SIZE {
        return Err(ProgramError::InvalidAccountData);
    }
    let stored = Pubkey::new(array_32(account.data.as_slice()));
    assert(stored@ == account.data@.take(32));
    let blank = Pubkey::new(SYSTEM_PROGRAM_ID);
    if !same_bytes(stored.as_bytes(), signer.key.as_bytes()) && !same_bytes(
        stored.as_bytes(),
        blank.as_bytes(),
    ) {
        return Err(ProgramError::InvalidAccountData);
    }
    Ok(stored)
}

/// `data` with its payload filled with copies of `id`. The header and a tail
/// shorter than an id stay as they are.
pub open spec fn filled(data: Seq<u8>, id: u64) -> Seq<u8> {
    let slots = if data.len() >= DATA_OFFSET {
        (data.len() - DATA_OFFSET) / 8
    } else {
        0
    };
    Seq::new(
        data.len(),
        |i: int|
            if DATA_OFFSET <= i < DATA_OFFSET + 8 * slots {
                le64(id)[(i - DATA_OFFSET) % 8]
            } else {
                data[i]
            },
    )
}

/// Fills the payload of one account with `id`.
fn fill_payload(data: &mut Vec<u8>, id: u64)
    ensures
        final(data)@ == filled(old(data)@, id),
{
    proof {
        lemma_le64();
    }
    let buffer: Vec<u8> = u64_bytes(id);
    let mut index: usize = DATA_OFFSET;
    if data.len() >= DATA_OFFSET {
        while data.len() - index >= 8
            invariant
                buffer@ == le64(id),
                buffer@.len() == 8,
                data@.len() == old(data)@.len(),
                DATA_OFFSET <= index <= data@.len(),
                (index - DATA_OFFSET) % 8 == 0,
                forall|i: int|
                    0 <= i < data@.len() ==> #[trigger] data@[i] == if DATA_OFFSET <= i < index {
                        le64(id)[(i - DATA_OFFSET) % 8]
                    } else {
                        old(data)@[i]
                    },
            decreases data@.len() - index,
        {
            let ghost at = index as int;
            let ghost before = data@;
            prepare_buffer(&mut index, data, buffer.as_slice());
            assert forall|i: int| 0 <= i < data@.len() implies #[trigger] data@[i] == if DATA_OFFSET
                <= i < index {
                le64(id)[(i - DATA_OFFSET) % 8]
            } else {
                old(data)@[i]
            } by {
                assert(data@ == overwrite(before, at, buffer@));
                if at <= i < at + 8 {
                    assert((i - DATA_OFFSET) % 8 == i - at) by (nonlinear_arith)
                        requires
                            (at - 32) % 8 == 0,
                            at <= i < at + 8,
                            DATA_OFFSET == 32,
                    ;
                } else {
                    assert(data@[i] == before[i]);
                }
            }
        }
        assert(index == DATA_OFFSET + 8 * ((data@.len() - DATA_OFFSET) / 8));
    }
    assert(data@ =~= filled(old(data)@, id));
}

/// Whether a position before `to` names the account `s`.
pub open spec fn named_before(refs: Seq<usize>, to: int, s: int) -> bool {
    exists|i: int| 0 <= i < to && #[trigger] refs[i] == s
}

/// Fills every account that holds lamports with `id`; accounts without are
/// skipped.
pub fn simple_byte_set(accounts: &mut Accounts, id: u64) -> (r: Result<(), ProgramError>)
    requires
        old(accounts).wf(),
    ensures
        r is Ok,
        final(accounts).wf(),
        final(accounts).refs@ == old(accounts).refs@,
        final(accounts)@ == old(accounts)@.map(
            |s: int, a: AccountState|
                if named_before(old(accounts).refs@, old(accounts).count() as int, s) && a.lamports
                    != 0 {
                    a.with_data(filled(a.data, id))
                } else {
                    a
                },
        ),
{
    let ghost touched = |to: int|
        old(accounts)@.map(
            |s: int, a: AccountState|
                if named_before(old(accounts).refs@, to, s) && a.lamports != 0 {
                    a.with_data(filled(a.data, id))
                } else {
                    a
                },
        );
    assert(accounts@ =~= touched(0));
    let mut i: usize = 0;
    while i < accounts.len()
        invariant
            i <= accounts.count(),
            accounts.wf(),
            accounts.refs@ == old(accounts).refs@,
            accounts@ == touched(i as int),
            touched == (|to: int|
                old(accounts)@.map(
                    |s: int, a: AccountState|
                        if named_before(old(accounts).refs@, to, s) && a.lamports != 0 {
                            a.with_data(filled(a.data, id))
                        } else {
                            a
                        },
                )),
        decreases accounts.count() - i,
    {
        let ghost before = accounts@;
        let ghost s = accounts.refs@[i as int] as int;
        assert(s < accounts@.len());
        if accounts.get(i).lamports != 0 {
            let mut data: Vec<u8> = copy_bytes(accounts.get(i).data.as_slice());
            fill_payload(&mut data, id);
            accounts.set_data(i, data);
            proof {
                lemma_fill_again(old(accounts)@[s].data, id);
            }
        }
        assert(accounts@ =~= touched(i as int + 1)) by {
            assert forall|k: int| 0 <= k < before.len() implies #[trigger] accounts@[k] == touched(
                i as int + 1,
            )[k] by {
                if k == s {
                    assert(old(accounts).refs@[i as int] == s);
                    assert(named_before(old(accounts).refs@, i as int + 1, s));
                } else {
                    assert(named_before(old(accounts).refs@, i as int + 1, k) <==> named_before(
                        old(accounts).refs@,
                        i as int,
                        k,
                    ));
                }
            }
        }
        i = i + 1;
    }
    Ok(())
}

/// Filling twice with the same id is filling once.
pub proof fn lemma_fill_again(data: Seq<u8>, id: u64)
    ensures
        filled(filled(data, id), id) == filled(data, id),
{
    assert(filled(filled(data, id), id) =~= filled(data, id));
}

/// A fill leaves the header of an account as it is, every whole slot behind
/// it reads back the id, and the size does not change.
pub proof fn fill_keeps_header_and_reads_back(data: Seq<u8>, id: u64, slot: int)
    requires
        0 <= slot,
        DATA_OFFSET + 8 * (slot + 1) <= data.len(),
    ensures
        filled(data, id).len() == data.len(),
        filled(data, id).take(DATA_OFFSET as int) == data.take(DATA_OFFSET as int),
        filled(data, id).subrange(DATA_OFFSET + 8 * slot, DATA_OFFSET + 8 * slot + 8) == le64(id),
{
    lemma_le64();
    assert(filled(data, id).take(DATA_OFFSET as int) =~= data.take(DATA_OFFSET as int));
    let window = filled(data, id).subrange(DATA_OFFSET + 8 * slot, DATA_OFFSET + 8 * slot + 8);
    assert forall|j: int| 0 <= j < 8 implies window[j] == le64(id)[j] by {
        assert((8 * slot + j) % 8 == j) by (nonlinear_arith)
            requires
                0 <= j < 8,
        ;
    }
    assert(window =~= le64(id));
}

/// The sizes of the accounts at the positions from `from` up to `to`, added
/// up.
pub open spec fn total_len(accounts: Accounts, from: int, to: int) -> int
    decreases to - from,
{
    if to <= from {
        0
    } else {
        total_len(accounts, from, to - 1) + accounts.at(to - 1).data.len()
    }
}

/// A longer stretch of positions is at least as large.
proof fn lemma_total_len_grows(accounts: Accounts, from: int, mid: int, to: int)
    requires
        from <= mid <= to,
    ensures
        0 <= total_len(accounts, from, mid) <= total_len(accounts, from, to),
    decreases to - from,
{
    if mid < to {
        lemma_total_len_grows(accounts, from, mid, to - 1);
    } else if from < to {
        lemma_total_len_grows(accounts, from, to - 1, to - 1);
    }
}

/// Whether sizes can be summed up into the first account, if it holds
/// lamports: it has room for the id and the sum, it is listed once, and the sum
/// fits.
pub open spec fn sums_up(accounts: Accounts) -> bool {
    accounts.count() > 0 && accounts.at(0).lamports != 0 ==> {
        &&& accounts.at(0).data.len() >= DATA_OFFSET + 16
        &&& forall|i: int|
            1 <= i < accounts.count() ==> #[trigger] accounts.refs@[i] != accounts.refs@[0]
        &&& total_len(accounts, 1, accounts.count() as int) <= u64::MAX
    }
}

/// Whether sizes can be summed up into the first account.
pub fn can_sum_up(accounts: &Accounts) -> (r: bool)
    requires
        accounts.wf(),
    ensures
        r == sums_up(*accounts),
{
    if accounts.len() == 0 || accounts.get(0).lamports == 0 {
        return true;
    }
    if accounts.get(0).data.len() < DATA_OFFSET + 16 {
        return false;
    }
    let mut sum: u64 = 0;
    let mut i: usize = 1;
    while i < accounts.len()
        invariant
            1 <= i <= accounts.count(),
            accounts.wf(),
            accounts.at(0).lamports != 0,
            sum == total_len(*accounts, 1, i as int),
            forall|j: int| 1 <= j < i ==> #[trigger] accounts.refs@[j] != accounts.refs@[0],
        decreases accounts.count() - i,
    {
        if accounts.refs[i] == accounts.refs[0] {
            return false;
        }
        let len: u64 = accounts.get(i).data.len() as u64;
        if len > u64::MAX - sum {
            proof {
                lemma_total_len_grows(*accounts, 1, i as int + 1, accounts.count() as int);
            }
            return false;
        }
        sum = sum + len;
        i = i + 1;
    }
    true
}

/// Writes the id and the summed sizes of all other accounts into the first.
pub fn multi_account_read(accounts: &mut Accounts, id: u64) -> (r: Result<(), ProgramError>)
    requires
        old(accounts).wf(),
        sums_up(*old(accounts)),
    ensures
        final(accounts).wf(),
        final(accounts).refs@ == old(accounts).refs@,
        if old(accounts).count() == 0 {
            r == Err::<(), _>(ProgramError::NotEnoughAccountKeys) && final(accounts)@ == old(
                accounts,
            )@
        } else if old(accounts).at(0).lamports == 0 {
            r == Err::<(), _>(ProgramError::UninitializedAccount) && final(accounts)@ == old(
                accounts,
            )@
        } else {
            r is Ok && final(accounts)@ == old(accounts)@.update(
                old(accounts).refs@[0] as int,
                old(accounts).at(0).with_data(
                    overwrite(
                        old(accounts).at(0).data,
                        DATA_OFFSET as int,
                        le64(id) + le64(
                            total_len(*old(accounts), 1, old(accounts).count() as int) as u64,
                        ),
                    ),
                ),
            )
        },
{
    proof {
        lemma_le64();
    }
    if accounts.len() == 0 {
        return Err(ProgramError::NotEnoughAccountKeys);
    }
    if accounts.get(0).lamports == 0 {
        return Err(ProgramError::UninitializedAccount);
    }
    let mut sum: u64 = 0;
    let mut i: usize = 1;
    while i < accounts.len()
        invariant
            1 <= i <= accounts.count(),
            accounts.wf(),
            *accounts == *old(accounts),
            total_len(*accounts, 1, accounts.count() as int) <= u64::MAX,
            sum == total_len(*accounts, 1, i as int),
        decreases accounts.count() - i,
    {
        proof {
            lemma_total_len_grows(*accounts, 1, i as int + 1, accounts.count() as int);
        }
        sum = sum + accounts.get(i).data.len() as u64;
        i = i + 1;
    }
    let mut data: Vec<u8> = copy_bytes(accounts.get(0).data.as_slice());
    let ghost before = data@;
    let mut index: usize = DATA_OFFSET;
    prepare_buffer(&mut index, &mut data, u64_bytes(id).as_slice());
    prepare_buffer(&mut index, &mut data, u64_bytes(sum).as_slice());
    assert(data@ =~= overwrite(before, DATA_OFFSET as int, le64(id) + le64(sum)));
    accounts.set_data(0, data);
    Ok(())
}

/// `data` with the id and the hash of an update in its payload.
pub open spec fn stamped(data: Seq<u8>, id: u64, hash: Seq<u8>) -> Seq<u8> {
    overwrite(data, DATA_OFFSET as int, le64(id) + hash)
}

/// Whether every account that holds lamports has room for an id and a hash.
pub open spec fn stampable(accounts: Accounts) -> bool {
    forall|i: int|
        0 <= i < accounts.count() && (#[trigger] accounts.at(i)).lamports != 0 ==> accounts.at(
            i,
        ).data.len() >= DATA_OFFSET + 40
}

/// Whether every account that holds lamports has room for an id and a hash.
pub fn can_stamp(accounts: &Accounts) -> (r: bool)
    requires
        accounts.wf(),
    ensures
        r == stampable(*accounts),
{
    let mut i: usize = 0;
    while i < accounts.len()
        invariant
            i <= accounts.count(),
            accounts.wf(),
            forall|j: int|
                0 <= j < i && (#[trigger] accounts.at(j)).lamports != 0 ==> accounts.at(
                    j,
                ).data.len() >= DATA_OFFSET + 40,
        decreases accounts.count() - i,
    {
        let account = accounts.get(i);
        if account.lamports != 0 && account.data.len() < DATA_OFFSET + 40 {
            assert(accounts.at(i as int).lamports != 0);
            return false;
        }
        i = i + 1;
    }
    true
}

/// Runs the hash chain and writes the id and its end into every account that
/// holds lamports.
pub fn expensive_hash_compute(accounts: &mut Accounts, id: u64, init: [u8; 32], iters: u32) -> (r:
    Result<(), ProgramError>)
    requires
        old(accounts).wf(),
        stampable(*old(accounts)),
    ensures
        r is Ok,
        final(accounts).wf(),
        final(accounts).refs@ == old(accounts).refs@,
        final(accounts)@ == old(accounts)@.map(
            |s: int, a: AccountState|
                if named_before(old(accounts).refs@, old(accounts).count() as int, s) && a.lamports
                    != 0 {
                    a.with_data(stamped(a.data, id, chained(init@, iters as nat)))
                } else {
                    a
                },
        ),
{
    proof {
        lemma_le64();
    }
    let hash: [u8; 32] = hash_chain(init, iters);
    let ghost touched = |to: int|
        old(accounts)@.map(
            |s: int, a: AccountState|
                if named_before(old(accounts).refs@, to, s) && a.lamports != 0 {
                    a.with_data(stamped(a.data, id, hash@))
                } else {
                    a
                },
        );
    assert(accounts@ =~= touched(0));
    let mut i: usize = 0;
    while i < accounts.len()
        invariant
            i <= accounts.count(),
            accounts.wf(),
            accounts.refs@ == old(accounts).refs@,
            forall|x: u64| #[trigger] le64(x).len() == 8,
            accounts@ == touched(i as int),
            forall|i: int|
                0 <= i < old(accounts).count() && (#[trigger] old(accounts).at(i)).lamports != 0
                    ==> old(accounts).at(i).data.len() >= DATA_OFFSET + 40,
            touched == (|to: int|
                old(accounts)@.map(
                    |s: int, a: AccountState|
                        if named_before(old(accounts).refs@, to, s) && a.lamports != 0 {
                            a.with_data(stamped(a.data, id, hash@))
                        } else {
                            a
                        },
                )),
        decreases accounts.count() - i,
    {
        let ghost before = accounts@;
        let ghost s = accounts.refs@[i as int] as int;
        assert(s < accounts@.len());
        assert(old(accounts).at(i as int) == old(accounts)@[s]);
        if accounts.get(i).lamports != 0 {
            let mut data: Vec<u8> = copy_bytes(accounts.get(i).data.as_slice());
            let ghost held = data@;
            let mut index: usize = DATA_OFFSET;
            prepare_buffer(&mut index, &mut data, u64_bytes(id).as_slice());
            prepare_buffer(&mut index, &mut data, hash.as_slice());
            assert(data@ =~= stamped(held, id, hash@));
            assert(stamped(stamped(old(accounts)@[s].data, id, hash@), id, hash@) =~= stamped(
                old(accounts)@[s].data,
                id,
                hash@,
            ));
            accounts.set_data(i, data);
        }
        assert(accounts@ =~= touched(i as int + 1)) by {
            assert forall|k: int| 0 <= k < before.len() implies #[trigger] accounts@[k] == touched(
                i as int + 1,
            )[k] by {
                if k == s {
                    assert(old(accounts).refs@[i as int] == s);
                    assert(named_before(old(accounts).refs@, i as int + 1, s));
                } else {
                    assert(named_before(old(accounts).refs@, i as int + 1, k) <==> named_before(
                        old(accounts).refs@,
                        i as int,
                        k,
                    ));
                }
            }
        }
        i = i + 1;
    }
    Ok(())
}

/// The number of sources of a copy: half of the accounts, and at least one.
pub open spec fn copy_split(count: nat) -> int {
    if count / 2 == 0 {
        1
    } else {
        (count / 2) as int
    }
}

/// The position that the destination at position `at` is copied from.
pub open spec fn copy_source(count: nat, at: int) -> int {
    (at - copy_split(count)) % copy_split(count)
}

/// Whether the destination at position `at` takes part: it and its source
/// hold lamports.
pub open spec fn copy_live(accounts: Seq<AccountState>, refs: Seq<usize>, at: int) -> bool {
    &&& accounts[refs[at] as int].lamports != 0
    &&& accounts[refs[copy_source(refs.len(), at)] as int].lamports != 0
}

/// Whether the destination at position `at` is the account it would be copied
/// from.
pub open spec fn copy_meets_itself(refs: Seq<usize>, at: int) -> bool {
    refs[at] == refs[copy_source(refs.len(), at)]
}

/// A destination after a copy: the id, and behind it as much of the payload
/// of the source as fits.
pub open spec fn copied(dest: Seq<u8>, source: Seq<u8>, id: u64) -> Seq<u8> {
    let room = dest.len() - (DATA_OFFSET + 8);
    let payload = source.len() - DATA_OFFSET;
    let len = if payload < room {
        payload
    } else {
        room
    };
    overwrite(
        dest,
        DATA_OFFSET as int,
        le64(id) + source.subrange(DATA_OFFSET as int, DATA_OFFSET + len),
    )
}

/// The accounts and the answer once the destinations up to position `to` have
/// been served in order: a destination that would be copied onto itself stops
/// the copy.
pub open spec fn copies(accounts: Seq<AccountState>, refs: Seq<usize>, id: u64, to: int) -> (
    Seq<AccountState>,
    Result<(), ProgramError>,
)
    decreases to,
{
    if to <= copy_split(refs.len()) {
        (accounts, Ok(()))
    } else {
        let (done, answer) = copies(accounts, refs, id, to - 1);
        let at = to - 1;
        if answer is Err || !copy_live(accounts, refs, at) {
            (done, answer)
        } else if copy_meets_itself(refs, at) {
            (done, Err(ProgramError::AccountBorrowFailed))
        } else {
            let d = refs[at] as int;
            let s = refs[copy_source(refs.len(), at)] as int;
            (done.update(d, done[d].with_data(copied(done[d].data, done[s].data, id))), answer)
        }
    }
}

/// A copy moves bytes only: sizes, balances, addresses and owners stay.
proof fn lemma_copies_frame(accounts: Seq<AccountState>, refs: Seq<usize>, id: u64, to: int)
    requires
        forall|i: int| 0 <= i < refs.len() ==> (#[trigger] refs[i]) < accounts.len(),
        to <= refs.len(),
    ensures
        copies(accounts, refs, id, to).0.len() == accounts.len(),
        forall|s: int|
            0 <= s < accounts.len() ==> {
                let after = #[trigger] copies(accounts, refs, id, to).0[s];
                after == accounts[s].with_data(after.data) && after.data.len()
                    == accounts[s].data.len()
            },
    decreases to,
{
    if to > copy_split(refs.len()) {
        lemma_copies_frame(accounts, refs, id, to - 1);
    }
}

/// Whether every pair that a copy reaches, and whose accounts hold lamports,
/// is large enough: the destination has room for the id and the source for a
/// header.
pub open spec fn copyable(accounts: Accounts, id: u64) -> bool {
    forall|at: int|
        copy_split(accounts.count()) <= at < accounts.count() && copies(
            accounts@,
            accounts.refs@,
            id,
            at,
        ).1 is Ok && copy_live(accounts@, accounts.refs@, at) && !copy_meets_itself(
            accounts.refs@,
            at,
        ) ==> {
            &&& (#[trigger] accounts.at(at)).data.len() >= DATA_OFFSET + 8
            &&& accounts.at(copy_source(accounts.count(), at)).data.len() >= DATA_OFFSET
        }
}

/// Whether every pair that a copy reaches is large enough.
pub fn can_copy(accounts: &Accounts, id: u64) -> (r: bool)
    requires
        accounts.wf(),
    ensures
        r == copyable(*accounts, id),
{
    if accounts.len() == 0 {
        return true;
    }
    let half: usize = accounts.len() / 2;
    let split: usize = if half == 0 {
        1
    } else {
        half
    };
    let ghost initial = accounts@;
    let ghost refs = accounts.refs@;
    let mut at: usize = split;
    while at < accounts.len()
        invariant
            split == copy_split(refs.len()),
            split <= at <= refs.len(),
            split >= 1,
            accounts.wf(),
            accounts.refs@ == refs,
            accounts@ == initial,
            copies(initial, refs, id, at as int).1 is Ok,
            forall|p: int|
                split <= p < at && copy_live(initial, refs, p) && !copy_meets_itself(refs, p) ==> {
                    &&& (#[trigger] accounts.at(p)).data.len() >= DATA_OFFSET + 8
                    &&& accounts.at(copy_source(refs.len(), p)).data.len() >= DATA_OFFSET
                },
        decreases refs.len() - at,
    {
        let from: usize = (at - split) % split;
        assert(from == copy_source(refs.len(), at as int));
        let dest = accounts.get(at);
        let source = accounts.get(from);
        if dest.lamports != 0 && source.lamports != 0 {
            if accounts.refs[at] == accounts.refs[from] {
                assert forall|p: int| at < p < refs.len() implies #[trigger] copies(
                    initial,
                    refs,
                    id,
                    p,
                ).1 is Err by {
                    lemma_copies_stop(initial, refs, id, at as int + 1, p);
                }
                return true;
            }
            if dest.data.len() < DATA_OFFSET + 8 || source.data.len() < DATA_OFFSET {
                assert(accounts.at(at as int).lamports != 0);
                return false;
            }
        }
        at = at + 1;
    }
    assert(accounts.count() == refs.len() && at == refs.len());
    true
}

/// Copies the payloads of the first half of the accounts into the second
/// half, round robin.
pub fn account_data_copy(accounts: &mut Accounts, id: u64) -> (r: Result<(), ProgramError>)
    requires
        old(accounts).wf(),
        copyable(*old(accounts), id),
    ensures
        final(accounts).wf(),
        final(accounts).refs@ == old(accounts).refs@,
        if old(accounts).count() == 0 {
            r == Err::<(), _>(ProgramError::NotEnoughAccountKeys) && final(accounts)@ == old(
                accounts,
            )@
        } else {
            (final(accounts)@, r) == copies(
                old(accounts)@,
                old(accounts).refs@,
                id,
                old(accounts).count() as int,
            )
        },
{
    proof {
        lemma_le64();
    }
    if accounts.len() == 0 {
        return Err(ProgramError::NotEnoughAccountKeys);
    }
    let half: usize = accounts.len() / 2;
    let split: usize = if half == 0 {
        1
    } else {
        half
    };
    let ghost initial = accounts@;
    let ghost refs = accounts.refs@;
    let mut at: usize = split;
    while at < accounts.len()
        invariant
            split == copy_split(refs.len()),
            split <= at <= refs.len(),
            split >= 1,
            accounts.wf(),
            accounts.refs@ == refs,
            refs == old(accounts).refs@,
            initial == old(accounts)@,
            old(accounts).wf(),
            forall|x: u64| #[trigger] le64(x).len() == 8,
            (accounts@, Ok::<(), ProgramError>(())) == copies(initial, refs, id, at as int),
            forall|at: int|
                copy_split(old(accounts).count()) <= at < old(accounts).count() && copies(
                    old(accounts)@,
                    old(accounts).refs@,
                    id,
                    at,
                ).1 is Ok && copy_live(old(accounts)@, old(accounts).refs@, at)
                    && !copy_meets_itself(old(accounts).refs@, at) ==> {
                    &&& (#[trigger] old(accounts).at(at)).data.len() >= DATA_OFFSET + 8
                    &&& old(accounts).at(copy_source(old(accounts).count(), at)).data.len()
                        >= DATA_OFFSET
                },
        decreases refs.len() - at,
    {
        let from: usize = (at - split) % split;
        proof {
            lemma_copies_frame(initial, refs, id, at as int);
            lemma_copies_frame(initial, refs, id, refs.len() as int);
            assert(from == copy_source(refs.len(), at as int));
            assert(from < refs.len());
        }
        let ghost d = refs[at as int] as int;
        let ghost s = refs[from as int] as int;
        assert(d < initial.len() && s < initial.len());
        assert(accounts@[d] == initial[d].with_data(accounts@[d].data));
        assert(accounts@[s] == initial[s].with_data(accounts@[s].data));
        if accounts.get(at).lamports != 0 && accounts.get(from).lamports != 0 {
            if accounts.refs[at] == accounts.refs[from] {
                proof {
                    lemma_copies_stop(initial, refs, id, at as int + 1, refs.len() as int);
                }
                return Err(ProgramError::AccountBorrowFailed);
            }
            assert(old(accounts).at(at as int).data.len() >= DATA_OFFSET + 8);
            let source: Vec<u8> = copy_bytes(accounts.get(from).data.as_slice());
            let mut dest: Vec<u8> = copy_bytes(accounts.get(at).data.as_slice());
            let ghost held = dest@;
            let mut index: usize = DATA_OFFSET;
            prepare_buffer(&mut index, &mut dest, u64_bytes(id).as_slice());
            let payload: usize = source.len() - DATA_OFFSET;
            let room: usize = dest.len() - index;
            let len: usize = if payload < room {
                payload
            } else {
                room
            };
            if len > 0 {
                prepare_buffer(
                    &mut index,
                    &mut dest,
                    slice_subrange(source.as_slice(), DATA_OFFSET, DATA_OFFSET + len),
                );
            }
            assert(dest@ =~= copied(held, source@, id));
            accounts.set_data(at, dest);
        }
        at = at + 1;
    }
    Ok(())
}

/// Once a copy has stopped, the rest of the positions change nothing.
proof fn lemma_copies_stop(
    accounts: Seq<AccountState>,
    refs: Seq<usize>,
    id: u64,
    from: int,
    to: int,
)
    requires
        copy_split(refs.len()) < from <= to,
        copies(accounts, refs, id, from).1 is Err,
    ensures
        copies(accounts, refs, id, to) == copies(accounts, refs, id, from),
    decreases to,
{
    if from < to {
        lemma_copies_stop(accounts, refs, id, from, to - 1);
    }
}

/// A copy changes bytes only, and never the size of an account, its balance,
/// its address or its owner.
pub proof fn copy_changes_bytes_only(
    accounts: Seq<AccountState>,
    refs: Seq<usize>,
    id: u64,
    s: int,
)
    requires
        forall|i: int| 0 <= i < refs.len() ==> (#[trigger] refs[i]) < accounts.len(),
        0 <= s < accounts.len(),
    ensures
        copies(accounts, refs, id, refs.len() as int).0.len() == accounts.len(),
        ({
            let after = copies(accounts, refs, id, refs.len() as int).0[s];
            after == accounts[s].with_data(after.data) && after.data.len() == accounts[s].data.len()
        }),
{
    lemma_copies_frame(accounts, refs, id, refs.len() as int);
}

/// The line that shows how large an account is.
pub open spec fn size_line(account: AccountState, id: u64) -> Seq<char> {
    "account "@ + base58(account.key@) + " has "@ + decimal(account.data.len()) + " space, txn: "@
        + decimal(id as nat)
}

/// The answer that shows how large every account is.
pub open spec fn sizes_answer(accounts: Accounts, id: u64) -> Answer {
    Ok(Seq::new(accounts.count(), |i: int| Deed::Log { text: size_line(accounts.at(i), id) }))
}

/// Shows how large every account is and changes nothing.
pub fn read_accounts_data(accounts: &Accounts, id: u64) -> (r: Result<Vec<Effect>, ProgramError>)
    requires
        accounts.wf(),
    ensures
        says(r, sizes_answer(*accounts, id)),
{
    let mut plan: Vec<Effect> = Vec::new();
    let ghost shown = sizes_answer(*accounts, id)->Ok_0;
    assert(deeds(plan@) =~= shown.take(0));
    let mut i: usize = 0;
    while i < accounts.len()
        invariant
            i <= accounts.count(),
            accounts.wf(),
            shown == sizes_answer(*accounts, id)->Ok_0,
            deeds(plan@) == shown.take(i as int),
        decreases accounts.count() - i,
    {
        let account = accounts.get(i);
        let mut text: String = "account ".to_owned();
        text.append(address_text(&account.key).as_str());
        text.append(" has ");
        push_decimal(&mut text, account.data.len() as u64);
        text.append(" space, txn: ");
        push_decimal(&mut text, id);
        assert(text@ =~= size_line(accounts.at(i as int), id));
        let ghost before = plan@;
        plan.push(Effect::Log { text });
        i = i + 1;
        assert(deeds(plan@) =~= deeds(before).push(shown[i - 1]));
        assert(shown.take(i as int) =~= shown.take(i - 1).push(shown[i - 1]));
    }
    assert(shown.take(i as int) =~= shown);
    Ok(plan)
}

/// The answer to a closing request and what it leaves of the two accounts.
pub open spec fn closed(accounts: Seq<AccountState>, owner: int, account: int) -> (
    Seq<AccountState>,
    Result<(), ProgramError>,
) {
    let refund = accounts[account].lamports;
    let emptied = accounts.update(account, AccountState { lamports: 0, ..accounts[account] });
    match owner_check(accounts[owner], accounts[account]) {
        Err(e) => (accounts, Err(e)),
        Ok(_) => if emptied[owner].lamports + refund > u64::MAX {
            (emptied, Err(ProgramError::ArithmeticOverflow))
        } else {
            let paid = emptied.update(
                owner,
                AccountState {
                    lamports: (emptied[owner].lamports + refund) as u64,
                    ..emptied[owner]
                },
            );
            (
                paid.update(
                    account,
                    AccountState {
                        owner: key(SYSTEM_PROGRAM_ID),
                        data: Seq::empty(),
                        ..paid[account]
                    },
                ),
                Ok(()),
            )
        },
    }
}

/// Moves the lamports of the second account to the first, its owner, and
/// hands the emptied account back to the system program.
pub fn close_account(accounts: &mut Accounts) -> (r: Result<(), ProgramError>)
    requires
        old(accounts).wf(),
    ensures
        final(accounts).wf(),
        final(accounts).refs@ == old(accounts).refs@,
        if old(accounts).count() < 2 {
            r == Err::<(), _>(ProgramError::NotEnoughAccountKeys) && final(accounts)@ == old(
                accounts,
            )@
        } else {
            (final(accounts)@, r) == closed(
                old(accounts)@,
                old(accounts).refs@[0] as int,
                old(accounts).refs@[1] as int,
            )
        },
{
    if accounts.len() < 2 {
        return Err(ProgramError::NotEnoughAccountKeys);
    }
    assert(accounts.refs@[0] < accounts.store@.len() && accounts.refs@[1] < accounts.store@.len());
    match verify_account_owner(accounts.get(0), accounts.get(1)) {
        Err(e) => {
            return Err(e);
        },
        Ok(_) => {},
    }
    let refund: u64 = accounts.get(1).lamports;
    accounts.set_lamports(1, 0);
    match accounts.get(0).lamports.checked_add(refund) {
        None => {
            return Err(ProgramError::ArithmeticOverflow);
        },
        Some(total) => {
            accounts.set_lamports(0, total);
        },
    }
    accounts.release(1, Pubkey::new(SYSTEM_PROGRAM_ID));
    Ok(())
}

/// Closing keeps the lamports: whatever the closed account held is with its
/// owner afterwards, and all other accounts are untouched.
pub proof fn closing_keeps_lamports(accounts: Seq<AccountState>, owner: int, account: int)
    requires
        0 <= owner < accounts.len(),
        0 <= account < accounts.len(),
        owner != account,
        closed(accounts, owner, account).1 is Ok,
    ensures
        ({
            let after = closed(accounts, owner, account).0;
            &&& after[owner].lamports == accounts[owner].lamports + accounts[account].lamports
            &&& after[account].lamports == 0
            &&& after[account].data.len() == 0
            &&& after[account].owner == key(SYSTEM_PROGRAM_ID)
            &&& forall|s: int|
                0 <= s < accounts.len() && s != owner && s != account ==> after[s] == accounts[s]
        }),
{
}

/// What sets up an account: its creation with the seeds the derivation used,
/// and then the payer as its owner in the header.
pub open spec fn is_init_plan(
    plan: Seq<Effect>,
    accounts: Accounts,
    space: u32,
    seed: u8,
    bump: u8,
    authority: Pubkey,
) -> bool {
    &&& plan.len() == 2
    &&& plan[0] matches Effect::CreatePda {
        target,
        owner,
        space: size,
        seeds,
        system_program,
        payer,
    } && target == 1 && owner == key(ID) && size == space && system_program == 3 && payer == 0
        && crate::address::seed_bytes(seeds@) == account_seeds(
        accounts.at(2).key,
        space,
        seed,
        authority,
    ).push(seq![bump])
    &&& plan[1] matches Effect::Write { target, bytes } && target == 1 && bytes@ == accounts.at(
        0,
    ).key@
}

/// Sets up an account of this program for the first account as payer.
pub fn init_account(accounts: &Accounts, space: u32, seed: u8, bump: u8, authority: Pubkey) -> (r:
    Result<Vec<Effect>, ProgramError>)
    requires
        accounts.wf(),
    ensures
        match r {
            Ok(plan) => accounts.count() >= 4 && is_init_plan(
                plan@,
                *accounts,
                space,
                seed,
                bump,
                authority,
            ),
            Err(e) => accounts.count() < 4 && e == ProgramError::NotEnoughAccountKeys,
        },
{
    if accounts.len() < 4 {
        return Err(ProgramError::NotEnoughAccountKeys);
    }
    let base = accounts.get(2).key;
    let mut seeds: Vec<Vec<u8>> = pda_seeds(&base, space, seed, &authority);
    let ghost unbumped = seeds@;
    let mut last: Vec<u8> = Vec::new();
    last.push(bump);
    assert(last@ =~= seq![bump]);
    seeds.push(last);
    assert(crate::address::seed_bytes(seeds@) =~= crate::address::seed_bytes(unbumped).push(
        seq![bump],
    ));
    let mut plan: Vec<Effect> = Vec::new();
    plan.push(
        Effect::CreatePda {
            target: 1,
            owner: Pubkey::new(ID),
            space: space as usize,
            seeds,
            system_program: 3,
            payer: 0,
        },
    );
    let header: Vec<u8> = copy_bytes(accounts.get(0).key.as_bytes());
    plan.push(Effect::Write { target: 1, bytes: header });
    Ok(plan)
}

/// Hands the second account to the delegation program for the validator
/// `authority`, once its owner has signed.
pub fn delegate_account(accounts: &Accounts, seed: u8, authority: Pubkey) -> (r: Result<
    Effect,
    ProgramError,
>)
    requires
        accounts.wf(),
    ensures
        match r {
            Ok(effect) => {
                &&& accounts.count() == 9
                &&& owner_check(accounts.at(0), accounts.at(1)) is Ok
                &&& effect matches Effect::Delegate {
                    positions,
                    seeds,
                    commit_frequency_ms,
                    validator,
                } && positions@ == crate::chain::positions(0, 8) && commit_frequency_ms == u32::MAX
                    && validator == Some(authority) && crate::address::seed_bytes(seeds@)
                    == account_seeds(
                    accounts.at(8).key,
                    accounts.at(1).data.len() as usize as u32,
                    seed,
                    authority,
                )
            },
            Err(e) => if accounts.count() != 9 {
                e == ProgramError::NotEnoughAccountKeys
            } else {
                owner_check(accounts.at(0), accounts.at(1)) == Err::<Seq<u8>, _>(e)
            },
        },
{
    if accounts.len() != 9 {
        return Err(ProgramError::NotEnoughAccountKeys);
    }
    match verify_account_owner(accounts.get(0), accounts.get(1)) {
        Err(e) => {
            return Err(e);
        },
        Ok(_) => {},
    }
    let size: usize = accounts.get(1).data.len();
    let seeds: Vec<Vec<u8>> = pda_seeds(
        &accounts.get(8).key,
        #[verifier::truncate] (size as u32),
        seed,
        &authority,
    );
    let positions: Vec<usize> = vec![0, 1, 2, 3, 4, 5, 6, 7];
    assert(positions@ =~= crate::chain::positions(0, 8));
    Ok(
        Effect::Delegate {
            positions,
            seeds,
            commit_frequency_ms: u32::MAX,
            validator: Some(authority),
        },
    )
}

/// Whether `effect` commits every account behind the first three.
pub open spec fn commits_rest(effect: Effect, count: nat, undelegates: bool) -> bool {
    effect matches Effect::Commit {
        payer,
        committees,
        magic_context,
        magic_program,
        magic_fee_vault,
        undelegate,
    } && payer == 0 && magic_context == 1 && magic_program == 2 && magic_fee_vault is None
        && undelegate == undelegates && committees@ == positions(3, count as int)
}

/// Schedules a commit of every account behind the payer, the magic context
/// and the magic program.
pub fn commit_accounts(accounts: &Accounts, id: u64) -> (r: Result<Effect, ProgramError>)
    ensures
        match r {
            Ok(effect) => accounts.count() >= 3 && commits_rest(effect, accounts.count(), false),
            Err(e) => accounts.count() < 3 && e == ProgramError::NotEnoughAccountKeys,
        },
{
    if accounts.len() < 3 {
        return Err(ProgramError::NotEnoughAccountKeys);
    }
    Ok(
        Effect::Commit {
            payer: 0,
            committees: accounts.positions_from(3),
            magic_context: 1,
            magic_program: 2,
            magic_fee_vault: None,
            undelegate: false,
        },
    )
}

/// Schedules a commit of every account behind the payer, the magic context
/// and the magic program, and their return to the base chain.
pub fn commit_undelegate_accounts(accounts: &Accounts, id: u64) -> (r: Result<
    Effect,
    ProgramError,
>)
    ensures
        match r {
            Ok(effect) => accounts.count() >= 3 && commits_rest(effect, accounts.count(), true),
            Err(e) => accounts.count() < 3 && e == ProgramError::NotEnoughAccountKeys,
        },
{
    if accounts.len() < 3 {
        return Err(ProgramError::NotEnoughAccountKeys);
    }
    Ok(
        Effect::Commit {
            payer: 0,
            committees: accounts.positions_from(3),
            magic_context: 1,
            magic_program: 2,
            magic_fee_vault: None,
            undelegate: true,
        },
    )
}

/// Whether `effect` takes the first account back under the seeds in `data`.
pub open spec fn is_undelegate(effect: Effect, program: Pubkey, data: Seq<u8>) -> bool {
    effect matches Effect::Undelegate { delegated, owner, buffer, payer, system_program, seeds }
        && delegated == 0 && owner == program && buffer == 1 && payer == 2 && system_program == 3
        && crate::borsh_format::list_fits(crate::address::seed_bytes(seeds@)) && data
        == crate::borsh_format::list_format(crate::address::seed_bytes(seeds@))
}

/// Whether `data` is a list of seeds.
pub open spec fn holds_seeds(data: Seq<u8>) -> bool {
    exists|items: Seq<Seq<u8>>|
        crate::borsh_format::list_fits(items) && data == #[trigger] crate::borsh_format::list_format(
            items,
        )
}

/// Takes the first account back from the delegation program for `program`,
/// under the seeds that come in `data`.
pub fn undelegate_for(accounts: &Accounts, program: Pubkey, data: &[u8]) -> (r: Result<
    Effect,
    ProgramError,
>)
    ensures
        match r {
            Ok(effect) => accounts.count() >= 4 && is_undelegate(effect, program, data@),
            Err(e) => if accounts.count() < 4 {
                e == ProgramError::NotEnoughAccountKeys
            } else {
                e == ProgramError::InvalidArgument && !holds_seeds(data@)
            },
        },
{
    if accounts.len() < 4 {
        return Err(ProgramError::NotEnoughAccountKeys);
    }
    match crate::borsh_format::read_byte_strings(data) {
        None => Err(ProgramError::InvalidArgument),
        Some(seeds) => Ok(
            Effect::Undelegate {
                delegated: 0,
                owner: program,
                buffer: 1,
                payer: 2,
                system_program: 3,
                seeds,
            },
        ),
    }
}

/// Takes the first account back from the delegation program.
pub fn undelegate(accounts: &Accounts, data: &[u8]) -> (r: Result<Effect, ProgramError>)
    ensures
        match r {
            Ok(effect) => accounts.count() >= 4 && is_undelegate(effect, key(ID), data@),
            Err(e) => if accounts.count() < 4 {
                e == ProgramError::NotEnoughAccountKeys
            } else {
                e == ProgramError::InvalidArgument && !holds_seeds(data@)
            },
        },
{
    undelegate_for(accounts, Pubkey::new(ID), data)
}

} // verus!
