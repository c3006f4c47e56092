//! What the instructions of the load program do to their accounts, byte by
//! byte.
use crate::address::{base58, found_address, seed_bytes};
use crate::bytes::{from_le64, le64, lemma_le64, overwrite};
use crate::chain::{AccountState, Accounts, ProgramError, Pubkey, SolanaInstruction};
use crate::effects::{deeds, Effect};
use crate::hash::chained;
use crate::redline::builders::is_init_account;
use crate::redline::entry::served;
use crate::redline::instruction::Instruction;
use crate::redline::processors::{
    closed, copied, copies, copy_live, copy_meets_itself, copy_source, copy_split, copyable,
    filled, named_before, owner_check, stampable, stamped, sums_up, total_len,
};
use crate::text::decimal;
use vstd::arithmetic::div_mod::{lemma_mod_self_0, lemma_small_mod};
use vstd::prelude::*;

verus! {

/// Whether an account is one of those that were handed over.
pub open spec fn listed(refs: Seq<usize>, s: int) -> bool {
    exists|i: int| 0 <= i < refs.len() && #[trigger] refs[i] == s
}

/// Whether an account was handed over.
pub open spec fn is_named(accounts: Accounts, s: int) -> bool {
    listed(accounts.refs@, s)
}

/// A copy puts the payload of the source behind the id: byte for byte, as far
/// as both accounts reach. The owner at the front and what lies behind the
/// copied bytes stay.
pub proof fn a_copy_moves_the_payload(dest: Seq<u8>, source: Seq<u8>, id: u64)
    requires
        dest.len() >= 40,
        source.len() >= 32,
    ensures
        ({
            let after = copied(dest, source, id);
            &&& after.len() == dest.len()
            &&& from_le64(after.subrange(32, 40)) == id
            &&& forall|i: int| 0 <= i < 32 ==> #[trigger] after[i] == dest[i]
            &&& forall|j: int|
                0 <= j && 32 + j < source.len() && 40 + j < dest.len() ==> #[trigger] after[40 + j]
                    == source[32 + j]
            &&& forall|i: int|
                40 <= i < dest.len() && i - 8 >= source.len() ==> #[trigger] after[i] == dest[i]
        }),
{
    lemma_le64();
    let after = copied(dest, source, id);
    assert(after.subrange(32, 40) =~= le64(id));
}

/// The copies among accounts that are all different.
proof fn lemma_copies_apart(accounts: Seq<AccountState>, refs: Seq<usize>, id: u64, to: int)
    requires
        refs.no_duplicates(),
        forall|i: int| 0 <= i < refs.len() ==> (#[trigger] refs[i]) < accounts.len(),
        0 <= to <= refs.len(),
    ensures
        ({
            let (done, answer) = copies(accounts, refs, id, to);
            let split = copy_split(refs.len());
            &&& answer is Ok
            &&& done.len() == accounts.len()
            &&& forall|s: int|
                0 <= s < accounts.len() && !listed(refs, s) ==> #[trigger] done[s]
                    == accounts[s]
            &&& forall|i: int|
                #![trigger refs[i]]
                0 <= i < refs.len() && (i < split || i >= to) ==> done[refs[i] as int]
                    == accounts[refs[i] as int]
            &&& forall|i: int|
                #![trigger refs[i]]
                split <= i < to ==> done[refs[i] as int] == if copy_live(accounts, refs, i) {
                    accounts[refs[i] as int].with_data(
                        copied(
                            accounts[refs[i] as int].data,
                            accounts[refs[copy_source(refs.len(), i)] as int].data,
                            id,
                        ),
                    )
                } else {
                    accounts[refs[i] as int]
                }
        }),
    decreases to,
{
    let split = copy_split(refs.len());
    if to > split {
        lemma_copies_apart(accounts, refs, id, to - 1);
        let at = to - 1;
        let source = copy_source(refs.len(), at);
        assert(0 <= source < split) by (nonlinear_arith)
            requires
                split > 0,
                source == (at - split) % split,
        ;
        assert(refs[at] != refs[source]);
        let (before, _) = copies(accounts, refs, id, at);
        let (done, _) = copies(accounts, refs, id, to);
        assert forall|i: int| #![trigger refs[i]] 0 <= i < refs.len() && i != at implies done[
            refs[i] as int] == before[refs[i] as int] by {
            assert(refs[i] != refs[at]);
        }
        assert forall|s: int|
            0 <= s < accounts.len() && !listed(refs, s) implies #[trigger] done[s]
            == accounts[s] by {
            assert(refs[at] != s);
            assert(before[s] == accounts[s]);
        }
    }
}

/// The first half of the accounts are the sources and stay as they are. Each
/// account of the second half is the destination of the source at the same
/// place in the first half, and one account too many starts over with the
/// first source. A pair in which an account holds no lamports is passed over,
/// and accounts that were not handed over are not touched.
pub proof fn halves_are_copied_pairwise(
    accounts: Seq<AccountState>,
    refs: Seq<usize>,
    id: u64,
    half: int,
    k: int,
)
    requires
        refs.no_duplicates(),
        forall|i: int| 0 <= i < refs.len() ==> (#[trigger] refs[i]) < accounts.len(),
        forall|i: int|
            0 <= i < refs.len() ==> accounts[#[trigger] refs[i] as int].data.len() >= 40,
        half >= 1,
        refs.len() == 2 * half || refs.len() == 2 * half + 1,
        0 <= k,
        half + k < refs.len(),
    ensures
        ({
            let (after, answer) = copies(accounts, refs, id, refs.len() as int);
            let from = accounts[refs[if k < half {
                k
            } else {
                0
            }] as int];
            let before = accounts[refs[half + k] as int];
            let dest = after[refs[half + k] as int];
            &&& answer is Ok
            &&& after.len() == accounts.len()
            &&& forall|i: int|
                0 <= i < half ==> after[#[trigger] refs[i] as int] == accounts[refs[i] as int]
            &&& forall|s: int|
                0 <= s < accounts.len() && !listed(refs, s) ==> #[trigger] after[s]
                    == accounts[s]
            &&& from.lamports == 0 || before.lamports == 0 ==> dest == before
            &&& from.lamports != 0 && before.lamports != 0 ==> {
                &&& dest == before.with_data(dest.data)
                &&& dest.data.len() == before.data.len()
                &&& from_le64(dest.data.subrange(32, 40)) == id
                &&& forall|i: int| 0 <= i < 32 ==> #[trigger] dest.data[i] == before.data[i]
                &&& forall|j: int|
                    0 <= j && 32 + j < from.data.len() && 40 + j < before.data.len()
                        ==> #[trigger] dest.data[40 + j] == from.data[32 + j]
                &&& forall|i: int|
                    40 <= i < before.data.len() && i - 8 >= from.data.len()
                        ==> #[trigger] dest.data[i] == before.data[i]
            }
        }),
{
    let n = refs.len();
    lemma_copies_apart(accounts, refs, id, n as int);
    assert(copy_split(n) == half);
    if k < half {
        lemma_small_mod(k as nat, half as nat);
    } else {
        lemma_mod_self_0(half);
    }
    let source = if k < half {
        k
    } else {
        0
    };
    assert(copy_source(n, half + k) == source);
    let before = accounts[refs[half + k] as int];
    let from = accounts[refs[source] as int];
    a_copy_moves_the_payload(before.data, from.data, id);
    let dest = copies(accounts, refs, id, n as int).0[refs[half + k] as int];
    if copy_live(accounts, refs, half + k) {
        assert(dest == before.with_data(copied(before.data, from.data, id)));
    }
}

/// A single account has nothing to be copied to.
pub proof fn one_account_is_not_copied(accounts: Seq<AccountState>, refs: Seq<usize>, id: u64)
    requires
        refs.len() == 1,
    ensures
        copies(accounts, refs, id, 1) == (accounts, Ok::<(), ProgramError>(())),
{
}

/// Copying fails exactly where an account is its own source, with lamports in
/// it.
pub proof fn a_copy_fails_where_an_account_meets_itself(
    accounts: Seq<AccountState>,
    refs: Seq<usize>,
    id: u64,
    half: int,
    to: int,
)
    requires
        half >= 1,
        refs.len() == 2 * half || refs.len() == 2 * half + 1,
        half <= to <= refs.len(),
    ensures
        match copies(accounts, refs, id, to).1 {
            Ok(_) => forall|k: int|
                #![trigger refs[half + k]]
                0 <= k && half + k < to && accounts[refs[half + k] as int].lamports != 0
                    ==> refs[half + k] != refs[if k < half {
                    k
                } else {
                    0
                }],
            Err(e) => e == ProgramError::AccountBorrowFailed && exists|k: int|
                #![trigger refs[half + k]]
                {
                    &&& 0 <= k
                    &&& half + k < to
                    &&& accounts[refs[half + k] as int].lamports != 0
                    &&& refs[half + k] == refs[if k < half {
                        k
                    } else {
                        0
                    }]
                },
        },
    decreases to,
{
    if to > half {
        a_copy_fails_where_an_account_meets_itself(accounts, refs, id, half, to - 1);
        let k = to - 1 - half;
        assert(half + k == to - 1);
        if k < half {
            lemma_small_mod(k as nat, half as nat);
        } else {
            lemma_mod_self_0(half);
        }
        assert(copy_source(refs.len(), half + k) == if k < half {
            k
        } else {
            0
        });
        if copies(accounts, refs, id, to).1 is Err {
            if copies(accounts, refs, id, to - 1).1 is Ok {
                assert(refs[half + k] == refs[to - 1]);
            }
        } else {
            assert forall|j: int|
                #![trigger refs[half + j]]
                0 <= j && half + j < to && accounts[refs[half + j] as int].lamports
                    != 0 implies refs[half + j] != refs[if j < half {
                j
            } else {
                0
            }] by {
                if j == k {
                    assert(refs[half + j] == refs[to - 1]);
                }
            }
        }
    }
}

/// Setting bytes writes the id into every whole slot of eight bytes behind the
/// owner, in every account that was handed over with lamports in it. The
/// owner, the bytes behind the last whole slot, and all other accounts stay.
pub proof fn setting_bytes_fills_the_slots(
    id: u64,
    before: Accounts,
    after: Accounts,
    r: Result<Vec<Effect>, ProgramError>,
    s: int,
    slot: int,
)
    requires
        served(Instruction::SimpleByteSet { id }, before, after, r),
        0 <= s < before@.len(),
        0 <= slot,
    ensures
        r matches Ok(plan) && plan@.len() == 0,
        after@.len() == before@.len(),
        ({
            let old_one = before@[s];
            let new_one = after@[s];
            let len = old_one.data.len();
            &&& new_one == old_one.with_data(new_one.data)
            &&& new_one.data.len() == len
            &&& !is_named(before, s) || old_one.lamports == 0 || len < 40 ==> new_one == old_one
            &&& is_named(before, s) && old_one.lamports != 0 && 40 + 8 * slot <= len ==> from_le64(
                new_one.data.subrange(32 + 8 * slot, 40 + 8 * slot),
            ) == id
            &&& forall|i: int| 0 <= i < 32 && i < len ==> #[trigger] new_one.data[i]
                == old_one.data[i]
            &&& forall|i: int|
                0 <= i < len && len - (len - 32) % 8 <= i ==> #[trigger] new_one.data[i]
                    == old_one.data[i]
        }),
{
    lemma_le64();
    let old_one = before@[s];
    let new_one = after@[s];
    let len = old_one.data.len() as int;
    assert(is_named(before, s) == named_before(before.refs@, before.count() as int, s));
    assert(old_one.with_data(old_one.data) =~= old_one);
    if len < 40 {
        assert(filled(old_one.data, id) =~= old_one.data);
    }
    if is_named(before, s) && old_one.lamports != 0 && 40 + 8 * slot <= len {
        let part = new_one.data.subrange(32 + 8 * slot, 40 + 8 * slot);
        assert forall|j: int| 0 <= j < 8 implies #[trigger] part[j] == le64(id)[j] by {
            assert((8 * slot + j) % 8 == j);
            assert(32 + 8 * slot + j < 32 + 8 * ((len - 32) / 8));
        }
        assert(part =~= le64(id));
    }
}

/// The lengths of accounts are added up one by one.
pub proof fn lengths_add_up(accounts: Accounts, from: int, mid: int, to: int)
    requires
        from <= mid <= to,
    ensures
        total_len(accounts, from, to) == total_len(accounts, from, mid) + total_len(
            accounts,
            mid,
            to,
        ),
        total_len(accounts, from, from) == 0,
        total_len(accounts, from, from + 1) == accounts.at(from).data.len(),
    decreases to - mid,
{
    assert(total_len(accounts, from, from) == 0);
    if mid < to {
        lengths_add_up(accounts, from, mid, to - 1);
    }
}

/// Reading accounts leaves the id and the number of bytes that the others hold
/// between them behind the owner of the first, and changes nothing else.
pub proof fn reading_leaves_id_and_total(
    id: u64,
    before: Accounts,
    after: Accounts,
    r: Result<Vec<Effect>, ProgramError>,
)
    requires
        served(Instruction::MultiAccountRead { id }, before, after, r),
        before.wf(),
        sums_up(before),
        after.refs@ == before.refs@,
        before.count() > 0,
    ensures
        before.at(0).lamports == 0 ==> r == Err::<Vec<Effect>, _>(
            ProgramError::UninitializedAccount,
        ) && after@ == before@,
        before.at(0).lamports != 0 ==> {
            let old_one = before.at(0);
            let new_one = after.at(0);
            &&& r matches Ok(plan) && plan@.len() == 0
            &&& new_one == old_one.with_data(new_one.data)
            &&& new_one.data.len() == old_one.data.len()
            &&& from_le64(new_one.data.subrange(32, 40)) == id
            &&& from_le64(new_one.data.subrange(40, 48)) == total_len(
                before,
                1,
                before.count() as int,
            )
            &&& forall|i: int|
                0 <= i < old_one.data.len() && !(32 <= i < 48) ==> #[trigger] new_one.data[i]
                    == old_one.data[i]
            &&& after@.len() == before@.len()
            &&& forall|s: int|
                0 <= s < before@.len() && s != before.refs@[0] ==> #[trigger] after@[s]
                    == before@[s]
        },
{
    lemma_le64();
    if before.at(0).lamports != 0 {
        let total = total_len(before, 1, before.count() as int);
        lengths_add_up(before, 1, 1, before.count() as int);
        lemma_total_positive(before, 1, before.count() as int);
        let data = after.at(0).data;
        assert(data == overwrite(before.at(0).data, 32, le64(id) + le64(total as u64)));
        assert(data.subrange(32, 40) =~= le64(id));
        assert(data.subrange(40, 48) =~= le64(total as u64));
    }
}

/// A number of bytes is not negative.
proof fn lemma_total_positive(accounts: Accounts, from: int, to: int)
    ensures
        total_len(accounts, from, to) >= 0,
    decreases to - from,
{
    if from < to {
        lemma_total_positive(accounts, from, to - 1);
    }
}

/// Hashing leaves the id and then the chained hash behind the owner of every
/// account that was handed over with lamports in it, and changes nothing else.
pub proof fn hashing_leaves_id_and_hash(
    id: u64,
    init: Pubkey,
    iters: u32,
    before: Accounts,
    after: Accounts,
    r: Result<Vec<Effect>, ProgramError>,
    s: int,
)
    requires
        served(Instruction::ExpensiveHashCompute { id, init, iters }, before, after, r),
        0 <= s < before@.len(),
        before@[s].data.len() >= 40,
    ensures
        r matches Ok(plan) && plan@.len() == 0,
        after@.len() == before@.len(),
        ({
            let old_one = before@[s];
            let new_one = after@[s];
            let hash = chained(init@, iters as nat);
            &&& new_one == old_one.with_data(new_one.data)
            &&& new_one.data.len() == old_one.data.len()
            &&& !is_named(before, s) || old_one.lamports == 0 ==> new_one == old_one
            &&& is_named(before, s) && old_one.lamports != 0 ==> from_le64(
                new_one.data.subrange(32, 40),
            ) == id
            &&& is_named(before, s) && old_one.lamports != 0 ==> forall|i: int|
                0 <= i < hash.len() && 40 + i < old_one.data.len() ==> #[trigger] new_one.data[40
                    + i] == hash[i]
            &&& forall|i: int|
                0 <= i < old_one.data.len() && (i < 32 || 40 + hash.len() <= i)
                    ==> #[trigger] new_one.data[i] == old_one.data[i]
        }),
{
    lemma_le64();
    let old_one = before@[s];
    let new_one = after@[s];
    assert(is_named(before, s) == named_before(before.refs@, before.count() as int, s));
    if is_named(before, s) && old_one.lamports != 0 {
        assert(new_one.data == stamped(old_one.data, id, chained(init@, iters as nat)));
        assert(new_one.data.subrange(32, 40) =~= le64(id));
    } else {
        assert(old_one.with_data(old_one.data) =~= old_one);
    }
}

/// Who may change an account: a signer whose key stands at its front, and any
/// signer where zeros stand there.
pub proof fn who_owns_an_account(signer: AccountState, account: AccountState)
    ensures
        owner_check(signer, account) is Ok <==> {
            &&& signer.is_signer
            &&& account.data.len() >= 32
            &&& (forall|i: int| 0 <= i < 32 ==> #[trigger] account.data[i] == signer.key@[i]) || (
            forall|i: int| 0 <= i < 32 ==> #[trigger] account.data[i] == 0)
        },
        owner_check(signer, account) == Err::<Seq<u8>, _>(ProgramError::MissingRequiredSignature)
            <==> !signer.is_signer,
        owner_check(signer, account) matches Ok(stored) ==> {
            &&& stored.len() == 32
            &&& forall|i: int| 0 <= i < 32 ==> #[trigger] stored[i] == account.data[i]
        },
        owner_check(signer, account) matches Err(e) ==> e == ProgramError::MissingRequiredSignature
            || e == ProgramError::InvalidAccountData,
{
    let system = crate::chain::key(crate::ids::SYSTEM_PROGRAM_ID)@;
    let stored = account.data.take(32);
    assert(system.len() == 32);
    assert(forall|i: int| 0 <= i < 32 ==> #[trigger] system[i] == 0);
    assert(signer.key@.len() == 32);
    if account.data.len() >= 32 {
        if stored == signer.key@ {
            assert forall|i: int| 0 <= i < 32 implies #[trigger] account.data[i]
                == signer.key@[i] by {
                assert(account.data[i] == stored[i]);
            }
        }
        if stored == system {
            assert forall|i: int| 0 <= i < 32 implies #[trigger] account.data[i] == 0 by {
                assert(account.data[i] == stored[i]);
            }
        }
        if forall|i: int| 0 <= i < 32 ==> #[trigger] account.data[i] == signer.key@[i] {
            assert(stored =~= signer.key@);
        }
        if forall|i: int| 0 <= i < 32 ==> #[trigger] account.data[i] == 0 {
            assert(stored =~= system);
        }
    }
}

/// Closing an account of one's own hands its lamports over and leaves nothing
/// of it. Nothing changes where somebody else asks for it.
pub proof fn closing_is_for_the_owner(
    before: Accounts,
    after: Accounts,
    r: Result<Vec<Effect>, ProgramError>,
)
    requires
        served(Instruction::CloseAccount, before, after, r),
        before.wf(),
        after.refs@ == before.refs@,
        before.count() >= 2,
        before.refs@[0] != before.refs@[1],
    ensures
        ({
            let owner = before.at(0);
            let account = before.at(1);
            let fits = owner.lamports + account.lamports <= u64::MAX;
            &&& owner_check(owner, account) is Err ==> after@ == before@ && r is Err
            &&& owner_check(owner, account) is Ok && !fits ==> {
                &&& r == Err::<Vec<Effect>, _>(ProgramError::ArithmeticOverflow)
                &&& after.at(0) == owner
                &&& after.at(1) == (AccountState { lamports: 0, ..account })
            }
            &&& owner_check(owner, account) is Ok && fits ==> {
                &&& r matches Ok(plan) && plan@.len() == 0
                &&& after.at(0).lamports == owner.lamports + account.lamports
                &&& after.at(0).data == owner.data
                &&& after.at(0).owner == owner.owner
                &&& after.at(1).lamports == 0
                &&& after.at(1).data.len() == 0
                &&& after.at(1).key == account.key
                &&& forall|i: int| 0 <= i < 32 ==> #[trigger] after.at(1).owner@[i] == 0
                &&& forall|s: int|
                    0 <= s < before@.len() && s != before.refs@[0] && s != before.refs@[1]
                        ==> #[trigger] after@[s] == before@[s]
            }
        }),
{
    assert((after@, match r {
        Ok(_) => Ok::<(), ProgramError>(()),
        Err(e) => Err(e),
    }) == closed(before@, before.refs@[0] as int, before.refs@[1] as int));
}

/// A commit names everything behind the first three accounts, in order, and
/// returns it where that is asked for and only there.
pub proof fn a_commit_names_all_the_rest(
    id: u64,
    back: bool,
    before: Accounts,
    after: Accounts,
    r: Result<Vec<Effect>, ProgramError>,
)
    requires
        served(
            if back {
                Instruction::CommitAndUndelegateAccounts { id }
            } else {
                Instruction::CommitAccounts { id }
            },
            before,
            after,
            r,
        ),
        before.count() <= usize::MAX,
    ensures
        after@ == before@,
        r is Ok <==> before.count() >= 3,
        r matches Ok(plan) ==> {
            &&& plan@.len() == 1
            &&& plan@[0] matches Effect::Commit {
                payer,
                committees,
                magic_context,
                magic_program,
                magic_fee_vault,
                undelegate,
            } && {
                &&& payer == 0
                &&& magic_context == 1
                &&& magic_program == 2
                &&& magic_fee_vault is None
                &&& undelegate == back
                &&& committees@.len() == before.count() - 3
                &&& forall|i: int|
                    0 <= i < committees@.len() ==> #[trigger] committees@[i] == 3 + i
            }
        },
{
}

/// An account is created at its address by the first signer, who pays for it
/// and is named as its owner.
pub proof fn an_account_is_created_for_its_payer(
    space: u32,
    seed: u8,
    bump: u8,
    authority: Pubkey,
    before: Accounts,
    after: Accounts,
    r: Result<Vec<Effect>, ProgramError>,
)
    requires
        served(Instruction::InitAccount { space, seed, bump, authority }, before, after, r),
    ensures
        after@ == before@,
        r is Ok <==> before.count() >= 4,
        r matches Ok(plan) ==> {
            &&& plan@.len() == 2
            &&& plan@[0] matches Effect::CreatePda {
                target,
                owner,
                space: size,
                seeds,
                system_program,
                payer,
            } && {
                &&& target == 1
                &&& owner@ == crate::redline::ID@
                &&& size == space
                &&& system_program == 3
                &&& payer == 0
                &&& seed_bytes(seeds@).len() == 3
                &&& seed_bytes(seeds@)[0] == before.at(2).key@
                &&& seed_bytes(seeds@)[1].take(4) == crate::bytes::le32(space)
                &&& seed_bytes(seeds@)[1][4] == seed
                &&& seed_bytes(seeds@)[1].skip(5) == authority@.take(16)
                &&& seed_bytes(seeds@)[2] == seq![bump]
            }
            &&& plan@[1] matches Effect::Write { target, bytes } && target == 1 && bytes@
                == before.at(0).key@
        },
{
    crate::bytes::lemma_le32();
    if let Ok(plan) = r {
        if let Effect::CreatePda { seeds, .. } = plan@[0] {
            let own = seed_bytes(seeds@)[1];
            assert(own =~= crate::bytes::le32(space) + seq![seed] + authority@.take(16));
            assert(own.take(4) =~= crate::bytes::le32(space));
            assert(own.skip(5) =~= authority@.take(16));
        }
    }
}

/// A delegation is for the owner of the account, and hands it to the validator
/// that was named, never to be committed on its own.
pub proof fn a_delegation_names_its_validator(
    seed: u8,
    authority: Pubkey,
    before: Accounts,
    after: Accounts,
    r: Result<Vec<Effect>, ProgramError>,
)
    requires
        served(Instruction::Delegate { seed, authority }, before, after, r),
    ensures
        after@ == before@,
        r is Ok <==> before.count() == 9 && owner_check(before.at(0), before.at(1)) is Ok,
        r matches Ok(plan) ==> {
            &&& plan@.len() == 1
            &&& plan@[0] matches Effect::Delegate {
                positions,
                seeds,
                commit_frequency_ms,
                validator,
            } && {
                &&& positions@.len() == 8
                &&& forall|i: int| 0 <= i < 8 ==> #[trigger] positions@[i] == i
                &&& commit_frequency_ms == 0xffff_ffff
                &&& validator == Some(authority)
                &&& seed_bytes(seeds@).len() == 2
                &&& seed_bytes(seeds@)[0] == before.at(8).key@
            }
        },
{
}

/// A fold of hashes is for another program.
pub proof fn a_fold_is_refused(
    id: u64,
    iters: u32,
    before: Accounts,
    after: Accounts,
    r: Result<Vec<Effect>, ProgramError>,
)
    requires
        served(Instruction::HashFold { id, iters }, before, after, r),
    ensures
        r == Err::<Vec<Effect>, _>(ProgramError::InvalidInstructionData),
        after@ == before@,
{
}

/// What instructions count on: a stamp needs 72 bytes of every account with
/// lamports in it, and a sum needs 48 of the first and others to sum up.
pub proof fn what_writes_count_on(accounts: Accounts)
    ensures
        stampable(accounts) <==> forall|i: int|
            0 <= i < accounts.refs@.len() && (#[trigger] accounts.at(i)).lamports > 0
                ==> accounts.at(i).data.len() >= 72,
        sums_up(accounts) <==> {
            ||| accounts.refs@.len() == 0
            ||| accounts.at(0).lamports == 0
            ||| {
                &&& accounts.at(0).data.len() >= 48
                &&& forall|i: int|
                    1 <= i < accounts.refs@.len() ==> #[trigger] accounts.refs@[i]
                        != accounts.refs@[0]
                &&& total_len(accounts, 1, accounts.refs@.len() as int) <= u64::MAX
            }
        },
{
}

/// What copies count on, where all accounts differ: a destination of at least
/// forty bytes and a source of at least 32, wherever both hold lamports.
pub proof fn what_copies_count_on(accounts: Accounts, id: u64, half: int)
    requires
        accounts.wf(),
        accounts.refs@.no_duplicates(),
        half >= 1,
        accounts.refs@.len() == 2 * half || accounts.refs@.len() == 2 * half + 1,
    ensures
        copyable(accounts, id) <==> forall|k: int|
            #![trigger accounts.at(half + k)]
            0 <= k && half + k < accounts.refs@.len() && accounts.at(half + k).lamports > 0
                && accounts.at(
                if k < half {
                    k
                } else {
                    0
                },
            ).lamports > 0 ==> accounts.at(half + k).data.len() >= 40 && accounts.at(
                if k < half {
                    k
                } else {
                    0
                },
            ).data.len() >= 32,
{
    let refs = accounts.refs@;
    let n = refs.len();
    assert(copy_split(n) == half);
    assert forall|k: int| 0 <= k && half + k < n implies #[trigger] copy_source(n, half + k) == (
    if k < half {
        k
    } else {
        0
    }) && copies(accounts@, refs, id, half + k).1 is Ok && refs[half + k] != refs[copy_source(
        n,
        half + k,
    )] by {
        if k < half {
            lemma_small_mod(k as nat, half as nat);
        } else {
            lemma_mod_self_0(half);
        }
        lemma_copies_apart(accounts@, refs, id, half + k);
    }
    if copyable(accounts, id) {
        assert forall|k: int|
            #![trigger accounts.at(half + k)]
            0 <= k && half + k < n && accounts.at(half + k).lamports > 0 && accounts.at(
                if k < half {
                    k
                } else {
                    0
                },
            ).lamports > 0 implies accounts.at(half + k).data.len() >= 40 && accounts.at(
            if k < half {
                k
            } else {
                0
            },
        ).data.len() >= 32 by {
            assert(copy_source(n, half + k) == if k < half {
                k
            } else {
                0
            });
            assert(copy_live(accounts@, refs, half + k));
        }
    } else {
        let at = choose|at: int|
            half <= at < n && copies(accounts@, refs, id, at).1 is Ok && copy_live(
                accounts@,
                refs,
                at,
            ) && !copy_meets_itself(refs, at) && !({
                &&& (#[trigger] accounts.at(at)).data.len() >= 40
                &&& accounts.at(copy_source(n, at)).data.len() >= 32
            });
        let k = at - half;
        assert(copy_source(n, half + k) == if k < half {
            k
        } else {
            0
        });
        assert(accounts.at(half + k).lamports > 0);
    }
}

/// Creating an account as it is built is about the address that was found for
/// it, paid for by the payer.
pub proof fn an_init_is_about_its_address(
    ix: SolanaInstruction,
    pda: Pubkey,
    payer: Pubkey,
    base: Pubkey,
    space: u32,
    seed: u8,
    authority: Pubkey,
    bump: u8,
    accounts: Accounts,
    after: Accounts,
    r: Result<Vec<Effect>, ProgramError>,
)
    requires
        is_init_account(
            Some((ix, pda)),
            crate::chain::key(crate::redline::ID),
            payer,
            base,
            space,
            seed,
            authority,
        ),
        ix.data@ == (Instruction::InitAccount { space, seed, bump, authority }).encoding(),
        accounts.count() == ix.accounts@.len(),
        forall|i: int|
            #![trigger accounts.at(i)]
            0 <= i < ix.accounts@.len() ==> accounts.at(i).key == ix.accounts@[i].pubkey
                && accounts.at(i).is_signer == ix.accounts@[i].is_signer,
        served(Instruction::InitAccount { space, seed, bump, authority }, accounts, after, r),
    ensures
        r matches Ok(plan) && (plan@[0] matches Effect::CreatePda {
            target,
            seeds,
            payer: who,
            system_program,
            ..
        } && {
            &&& accounts.at(target as int).key == pda
            &&& accounts.at(who as int).key == payer
            &&& accounts.at(who as int).is_signer
            &&& accounts.at(system_program as int).key@ == crate::ids::SYSTEM_PROGRAM_ID@
            &&& found_address(seed_bytes(seeds@).drop_last(), crate::redline::ID@) matches Some((
                address,
                _,
            )) && address == pda@
            &&& seed_bytes(seeds@).last() == seq![bump]
        }) && (plan@[1] matches Effect::Write { target, bytes } && accounts.at(target as int).key
            == pda && bytes@ == payer@),
{
    let metas = ix.accounts@;
    assert(accounts.at(0).key == metas[0].pubkey && accounts.at(1).key == metas[1].pubkey
        && accounts.at(2).key == metas[2].pubkey && accounts.at(3).key == metas[3].pubkey);
    if let Ok(plan) = r {
        if let Effect::CreatePda { seeds, .. } = plan@[0] {
            assert(seed_bytes(seeds@).drop_last() =~= crate::redline::utils::account_seeds(
                base,
                space,
                seed,
                authority,
            ));
        }
    }
}

/// Reading sizes changes nothing and writes one line for every account, in
/// order: its address, how much it holds, and the id.
pub proof fn reading_sizes_writes_a_line_each(
    id: u64,
    before: Accounts,
    after: Accounts,
    plan: Vec<Effect>,
    i: int,
)
    requires
        served(Instruction::ReadAccountsData { id }, before, after, Ok(plan)),
        0 <= i < before.refs@.len(),
    ensures
        after@ == before@,
        plan@.len() == before.refs@.len(),
        plan@[i] matches Effect::Log { text } && text@ == "account "@ + base58(before.at(i).key@)
            + " has "@ + decimal(before.at(i).data.len()) + " space, txn: "@ + decimal(id as nat),
{
    let all = deeds(plan@);
    assert(all.len() == plan@.len());
    assert(all[i] == plan@[i]@);
}

} // verus!
