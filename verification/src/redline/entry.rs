//! The entrypoint of the load program.
use crate::bytes::same_bytes;
use crate::chain::{key, AccountState, Accounts, ProgramError};
use crate::effects::{says, Effect};
use crate::hash::chained;
use crate::ids::EXTERNAL_UNDELEGATE_DISCRIMINATOR;
use crate::redline::instruction::{encoding_is_read_back, Instruction};
use crate::redline::processors::{
    account_data_copy, can_copy, can_stamp, can_sum_up, close_account, closed, commit_accounts,
    commit_undelegate_accounts, commits_rest, copies, copyable, delegate_account,
    expensive_hash_compute, filled, holds_seeds, init_account, is_init_plan, is_undelegate,
    multi_account_read, named_before, owner_check, read_accounts_data, simple_byte_set,
    sizes_answer, stampable, stamped, sums_up, total_len, undelegate,
};
use crate::redline::utils::account_seeds;
use crate::redline::{DATA_OFFSET, ID};
use vstd::prelude::*;
use vstd::slice::slice_subrange;

verus! {

/// What an instruction counts on: accounts large enough for what it writes.
pub open spec fn ready(ix: Instruction, accounts: Accounts) -> bool {
    match ix {
        Instruction::MultiAccountRead { .. } => sums_up(accounts),
        Instruction::ExpensiveHashCompute { .. } => stampable(accounts),
        Instruction::AccountDataCopy { id } => copyable(accounts, id),
        _ => true,
    }
}

/// Whether the accounts are large enough for what an instruction writes.
fn is_ready(ix: &Instruction, accounts: &Accounts) -> (r: bool)
    requires
        accounts.wf(),
    ensures
        r == ready(*ix, *accounts),
{
    match ix {
        Instruction::MultiAccountRead { .. } => can_sum_up(accounts),
        Instruction::ExpensiveHashCompute { .. } => can_stamp(accounts),
        Instruction::AccountDataCopy { id } => can_copy(accounts, *id),
        _ => true,
    }
}

/// The accounts once every one of them that is named and holds lamports got
/// other data.
pub open spec fn rewritten(accounts: Accounts, data: spec_fn(Seq<u8>) -> Seq<u8>) -> Seq<
    AccountState,
> {
    accounts@.map(
        |s: int, a: AccountState|
            if named_before(accounts.refs@, accounts.count() as int, s) && a.lamports != 0 {
                a.with_data(data(a.data))
            } else {
                a
            },
    )
}

/// Whether serving `ix` on `before` may leave `after` and answer `r`.
pub open spec fn served(
    ix: Instruction,
    before: Accounts,
    after: Accounts,
    r: Result<Vec<Effect>, ProgramError>,
) -> bool {
    let quiet = r matches Ok(plan) && plan@.len() == 0;
    match ix {
        Instruction::InitAccount { space, seed, bump, authority } => after@ == before@ && match r {
            Ok(plan) => before.count() >= 4 && is_init_plan(
                plan@,
                before,
                space,
                seed,
                bump,
                authority,
            ),
            Err(e) => before.count() < 4 && e == ProgramError::NotEnoughAccountKeys,
        },
        Instruction::Delegate { seed, authority } => after@ == before@ && match r {
            Ok(plan) => {
                &&& before.count() == 9
                &&& owner_check(before.at(0), before.at(1)) is Ok
                &&& plan@.len() == 1
                &&& plan@[0] matches Effect::Delegate {
                    positions,
                    seeds,
                    commit_frequency_ms,
                    validator,
                } && positions@ == crate::chain::positions(0, 8) && commit_frequency_ms == u32::MAX
                    && validator == Some(authority) && crate::address::seed_bytes(seeds@)
                    == account_seeds(
                    before.at(8).key,
                    before.at(1).data.len() as usize as u32,
                    seed,
                    authority,
                )
            },
            Err(e) => if before.count() != 9 {
                e == ProgramError::NotEnoughAccountKeys
            } else {
                owner_check(before.at(0), before.at(1)) == Err::<Seq<u8>, _>(e)
            },
        },
        Instruction::SimpleByteSet { id } => quiet && after@ == rewritten(
            before,
            |d: Seq<u8>| filled(d, id),
        ),
        Instruction::MultiAccountRead { id } => if before.count() == 0 {
            r == Err::<Vec<Effect>, _>(ProgramError::NotEnoughAccountKeys) && after@ == before@
        } else if before.at(0).lamports == 0 {
            r == Err::<Vec<Effect>, _>(ProgramError::UninitializedAccount) && after@ == before@
        } else {
            quiet && after@ == before@.update(
                before.refs@[0] as int,
                before.at(0).with_data(
                    crate::bytes::overwrite(
                        before.at(0).data,
                        DATA_OFFSET as int,
                        crate::bytes::le64(id) + crate::bytes::le64(
                            total_len(before, 1, before.count() as int) as u64,
                        ),
                    ),
                ),
            )
        },
        Instruction::ExpensiveHashCompute { id, init, iters } => quiet && after@ == rewritten(
            before,
            |d: Seq<u8>| stamped(d, id, chained(init@, iters as nat)),
        ),
        Instruction::AccountDataCopy { id } => if before.count() == 0 {
            r == Err::<Vec<Effect>, _>(ProgramError::NotEnoughAccountKeys) && after@ == before@
        } else {
            let (done, answer) = copies(before@, before.refs@, id, before.count() as int);
            after@ == done && match answer {
                Ok(_) => quiet,
                Err(e) => r == Err::<Vec<Effect>, _>(e),
            }
        },
        Instruction::ReadAccountsData { id } => after@ == before@ && says(
            r,
            sizes_answer(before, id),
        ),
        Instruction::CommitAccounts { .. } => after@ == before@ && match r {
            Ok(plan) => before.count() >= 3 && plan@.len() == 1 && commits_rest(
                plan@[0],
                before.count(),
                false,
            ),
            Err(e) => before.count() < 3 && e == ProgramError::NotEnoughAccountKeys,
        },
        Instruction::CommitAndUndelegateAccounts { .. } => after@ == before@ && match r {
            Ok(plan) => before.count() >= 3 && plan@.len() == 1 && commits_rest(
                plan@[0],
                before.count(),
                true,
            ),
            Err(e) => before.count() < 3 && e == ProgramError::NotEnoughAccountKeys,
        },
        Instruction::CloseAccount => if before.count() < 2 {
            r == Err::<Vec<Effect>, _>(ProgramError::NotEnoughAccountKeys) && after@ == before@
        } else {
            let (done, answer) = closed(
                before@,
                before.refs@[0] as int,
                before.refs@[1] as int,
            );
            after@ == done && match answer {
                Ok(_) => quiet,
                Err(e) => r == Err::<Vec<Effect>, _>(e),
            }
        },
        Instruction::HashFold { .. } => after@ == before@ && r == Err::<Vec<Effect>, _>(
            ProgramError::InvalidInstructionData,
        ),
    }
}

/// A plan without effects.
fn nothing(r: Result<(), ProgramError>) -> (plan: Result<Vec<Effect>, ProgramError>)
    ensures
        match r {
            Ok(_) => plan matches Ok(effects) && effects@.len() == 0,
            Err(e) => plan == Err::<Vec<Effect>, _>(e),
        },
{
    match r {
        Ok(_) => Ok(Vec::new()),
        Err(e) => Err(e),
    }
}

/// A plan with one effect.
fn only(r: Result<Effect, ProgramError>) -> (plan: Result<Vec<Effect>, ProgramError>)
    ensures
        match r {
            Ok(effect) => plan matches Ok(effects) && effects@ == seq![effect],
            Err(e) => plan == Err::<Vec<Effect>, _>(e),
        },
{
    match r {
        Ok(effect) => {
            let mut effects: Vec<Effect> = Vec::new();
            effects.push(effect);
            assert(effects@ =~= seq![effect]);
            Ok(effects)
        },
        Err(e) => Err(e),
    }
}

/// Serves one instruction. Folding hashes is not among those that this
/// program serves.
pub fn serve(accounts: &mut Accounts, ix: &Instruction) -> (r: Result<Vec<Effect>, ProgramError>)
    requires
        old(accounts).wf(),
        ready(*ix, *old(accounts)),
    ensures
        final(accounts).wf(),
        final(accounts).refs@ == old(accounts).refs@,
        served(*ix, *old(accounts), *final(accounts), r),
{
    match ix {
        Instruction::InitAccount { space, seed, bump, authority } => init_account(
            accounts,
            *space,
            *seed,
            *bump,
            *authority,
        ),
        Instruction::Delegate { seed, authority } => only(
            delegate_account(accounts, *seed, *authority),
        ),
        Instruction::SimpleByteSet { id } => {
            let answer = simple_byte_set(accounts, *id);
            assert(accounts@ =~= rewritten(*old(accounts), |d: Seq<u8>| filled(d, *id)));
            nothing(answer)
        },
        Instruction::MultiAccountRead { id } => nothing(multi_account_read(accounts, *id)),
        Instruction::ExpensiveHashCompute { id, init, iters } => {
            let answer = expensive_hash_compute(accounts, *id, init.bytes, *iters);
            assert(accounts@ =~= rewritten(
                *old(accounts),
                |d: Seq<u8>| stamped(d, *id, chained(init@, *iters as nat)),
            ));
            nothing(answer)
        },
        Instruction::AccountDataCopy { id } => nothing(account_data_copy(accounts, *id)),
        Instruction::ReadAccountsData { id } => read_accounts_data(accounts, *id),
        Instruction::CommitAccounts { id } => only(commit_accounts(accounts, *id)),
        Instruction::CommitAndUndelegateAccounts { id } => only(
            commit_undelegate_accounts(accounts, *id),
        ),
        Instruction::CloseAccount => nothing(close_account(accounts)),
        Instruction::HashFold { .. } => Err(ProgramError::InvalidInstructionData),
    }
}

/// Whether `data` is the callback of the delegation program.
pub open spec fn is_callback(data: Seq<u8>) -> bool {
    EXTERNAL_UNDELEGATE_DISCRIMINATOR@.is_prefix_of(data)
}

/// Whether the accounts are large enough for what `data` asks for.
pub open spec fn ready_for(data: Seq<u8>, accounts: Accounts) -> bool {
    !is_callback(data) ==> forall|ix: Instruction|
        (#[trigger] ix.encoding()).is_prefix_of(data) ==> ready(ix, accounts)
}

/// Whether the accounts are large enough for what `data` asks for, and
/// [`process_instruction`] can serve it.
pub fn can_serve(accounts: &Accounts, data: &[u8]) -> (r: bool)
    requires
        accounts.wf(),
    ensures
        r == ready_for(data@, *accounts),
{
    if data.len() >= 8 {
        let marker = slice_subrange(data, 0, 8);
        assert(marker@ =~= data@.take(8));
        if same_bytes(marker, EXTERNAL_UNDELEGATE_DISCRIMINATOR.as_slice()) {
            assert(EXTERNAL_UNDELEGATE_DISCRIMINATOR@ =~= data@.take(8));
            return true;
        }
    }
    match Instruction::decode(data) {
        None => true,
        Some(ix) => {
            proof {
                assert forall|other: Instruction| (#[trigger] other.encoding()).is_prefix_of(
                    data@,
                ) implies other == ix by {
                    encoding_is_read_back(ix, other, data@);
                }
            }
            is_ready(&ix, accounts)
        },
    }
}

/// Serves what an instruction's data asks for. The callback of the delegation
/// program is recognised by its own marker before anything else is read.
pub fn process_instruction(accounts: &mut Accounts, data: &[u8]) -> (r: Result<
    Vec<Effect>,
    ProgramError,
>)
    requires
        old(accounts).wf(),
        ready_for(data@, *old(accounts)),
    ensures
        final(accounts).wf(),
        final(accounts).refs@ == old(accounts).refs@,
        is_callback(data@) ==> final(accounts)@ == old(accounts)@ && match r {
            Ok(plan) => old(accounts).count() >= 4 && plan@.len() == 1 && is_undelegate(
                plan@[0],
                key(ID),
                data@.skip(8),
            ),
            Err(e) => if old(accounts).count() < 4 {
                e == ProgramError::NotEnoughAccountKeys
            } else {
                e == ProgramError::InvalidArgument && !holds_seeds(data@.skip(8))
            },
        },
        !is_callback(data@) ==> {
            ||| exists|ix: Instruction| (#[trigger] ix.encoding()).is_prefix_of(data@) && served(
                ix,
                *old(accounts),
                *final(accounts),
                r,
            )
            ||| (forall|ix: Instruction| !(#[trigger] ix.encoding()).is_prefix_of(data@)) && r
                == Err::<Vec<Effect>, _>(ProgramError::InvalidInstructionData) && final(accounts)@
                == old(accounts)@
        },
{
    if data.len() >= 8 {
        let marker = slice_subrange(data, 0, 8);
        if same_bytes(marker, EXTERNAL_UNDELEGATE_DISCRIMINATOR.as_slice()) {
            let rest = slice_subrange(data, 8, data.len());
            assert(EXTERNAL_UNDELEGATE_DISCRIMINATOR@ =~= data@.take(8));
            assert(rest@ =~= data@.skip(8));
            return only(undelegate(accounts, rest));
        }
        assert(marker@ =~= data@.take(8));
    }
    match Instruction::decode(data) {
        None => Err(ProgramError::InvalidInstructionData),
        Some(ix) => serve(accounts, &ix),
    }
}

} // verus!
