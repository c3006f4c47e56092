//! What the instructions on labelled counters come to: which accounts they
//! name, what becomes of the counters, and which lamports move.
use crate::address::found_address;
use crate::borsh_format::{counter_fits, counter_format};
use crate::bytes::{from_le64, le32, le64, lemma_le32, lemma_le64, starts};
use crate::chain::{key, AccountState, Accounts, ProgramError, Pubkey};
use crate::effects::{Deed, HandlerState, ShortMeta};
use crate::ids::{CALLBACK_SIGNER, DELEGATION_PROGRAM_ID};
use crate::magic::{
    bundle_data, cancel_data, response_fits, response_format, response_ok, response_payload, task_data,
};
use crate::redshift::flexi::{
    counter_at_front, counter_in, flexi_address, flexi_data, flexi_of, lemma_counter_at_front,
    lemma_counter_in, FlexiInstruction, FLEXI_SEED,
};
use crate::redshift::flexi_processors::{
    after_callback, answer, firsts, given_back, lemma_firsts, lemma_leads, payable, places, rank,
    ready, task_instruction,
};
use crate::redshift::ID;
use crate::system::{create_account_data, transfer_data};
use vstd::prelude::*;
use vstd::utf8::encode_utf8;

verus! {

/// Whether a handler is for one committed counter: the counter comes first
/// among its accounts, before the destination of the prize and the system
/// program, its escrow belongs to one payer, and it runs in the program that
/// was handed over first.
pub open spec fn is_for(
    handler: HandlerState,
    accounts: Accounts,
    committee: usize,
    payer: int,
    compute_units: u32,
) -> bool {
    &&& handler.accounts.len() == 3
    &&& handler.accounts[0] == ShortMeta::Position(committee)
    &&& handler.accounts[1] == ShortMeta::Writable(3)
    &&& handler.accounts[2] == ShortMeta::Position(4)
    &&& handler.escrow_authority == payer
    &&& handler.escrow_index == 1
    &&& handler.compute_units == compute_units
    &&& handler.destination_program == accounts.at(0).key
}

/// Whether committed counters and the handlers that follow a commit match, one
/// by one: the payers come from one position on, every handler pays out a
/// million lamports, and no two handlers share a counter or a payer.
pub open spec fn commits_match(
    handlers: Seq<HandlerState>,
    accounts: Accounts,
    committed: Seq<usize>,
    first_payer: int,
    compute_units: u32,
) -> bool {
    &&& handlers.len() == committed.len()
    &&& forall|i: int|
        0 <= i < handlers.len() ==> is_for(
            #[trigger] handlers[i],
            accounts,
            committed[i],
            first_payer + i,
            compute_units,
        ) && handlers[i].data == flexi_data(
            FlexiInstruction::CommitActionHandler { amount: 1_000_000 },
        )
    &&& forall|i: int, j: int|
        0 <= i < j < handlers.len() ==> (#[trigger] handlers[i]).accounts[0] != (
        #[trigger] handlers[j]).accounts[0] && handlers[i].escrow_authority
            != handlers[j].escrow_authority
}

/// Whether committed counters and the handlers that follow their return match,
/// one by one, each with the difference of its own counter, as long as there
/// are differences.
pub open spec fn returns_match(
    handlers: Seq<HandlerState>,
    accounts: Accounts,
    committed: Seq<usize>,
    first_payer: int,
    counter_diffs: Seq<i64>,
    compute_units: u32,
) -> bool {
    &&& handlers.len() <= committed.len()
    &&& handlers.len() <= counter_diffs.len()
    &&& handlers.len() == committed.len() || handlers.len() == counter_diffs.len()
    &&& forall|i: int|
        0 <= i < handlers.len() ==> is_for(
            #[trigger] handlers[i],
            accounts,
            committed[i],
            first_payer + i,
            compute_units,
        ) && handlers[i].data == flexi_data(
            FlexiInstruction::UndelegateActionHandler {
                amount: 1_000_000,
                counter_diff: counter_diffs[i],
            },
        )
    &&& forall|i: int, j: int|
        0 <= i < j < handlers.len() ==> (#[trigger] handlers[i]).accounts[0] != (
        #[trigger] handlers[j]).accounts[0] && handlers[i].escrow_authority
            != handlers[j].escrow_authority
}

/// Whether committed counters are those at the positions from one on.
pub open spec fn lie_from(committed: Seq<usize>, first: int, n: int) -> bool {
    &&& committed.len() == n
    &&& forall|i: int| 0 <= i < n ==> #[trigger] committed[i] == first + i
}

/// An intent on `n` counters commits the last `n` accounts, in order, and its
/// handlers match them: the i-th handler is for the i-th committed counter,
/// with the i-th payer and, where the counters are returned, the i-th
/// difference.
pub proof fn intents_match_their_counters(
    accounts: Accounts,
    num_committees: u8,
    counter_diffs: Vec<i64>,
    is_undelegate: bool,
    compute_units: u32,
    required: u64,
)
    ensures
        ({
            let ix = FlexiInstruction::CreateIntent {
                num_committees,
                counter_diffs,
                is_undelegate,
                compute_units,
            };
            let (after, r) = answer(ix, accounts, required);
            &&& after == accounts@
            &&& r is Ok <==> accounts.count() == 2 * num_committees + 5
            &&& r matches Ok(plan) ==> {
                &&& plan.len() == 1
                &&& plan[0] matches Deed::IntentBundle {
                    payer,
                    magic_context,
                    magic_program,
                    magic_fee_vault,
                    commit,
                    commit_and_undelegate,
                } && {
                    &&& payer == 5
                    &&& magic_context == 1
                    &&& magic_program == 2
                    &&& magic_fee_vault is None
                    &&& commit is Some <==> !is_undelegate
                    &&& commit_and_undelegate is Some <==> is_undelegate
                    &&& commit matches Some(c) ==> {
                        &&& lie_from(c.accounts, 5 + num_committees, num_committees as int)
                        &&& commits_match(c.handlers, accounts, c.accounts, 5, compute_units)
                        &&& c.callback is None
                    }
                    &&& commit_and_undelegate matches Some(u) ==> {
                        &&& lie_from(u.accounts, 5 + num_committees, num_committees as int)
                        &&& commits_match(u.commit_handlers, accounts, u.accounts, 5, compute_units)
                        &&& returns_match(
                            u.undelegate_handlers,
                            accounts,
                            u.accounts,
                            5,
                            counter_diffs@,
                            compute_units,
                        )
                    }
                }
            }
        }),
{
}

/// In a bundle the counters that stay come first, each half with its payers
/// before its counters. Handlers match the counters of their own half, and the
/// differences are those of the counters that return.
pub proof fn bundles_match_their_counters(
    accounts: Accounts,
    num_commit_only: u8,
    num_undelegate: u8,
    counter_diffs: Vec<i64>,
    compute_units: u32,
    required: u64,
)
    ensures
        ({
            let ix = FlexiInstruction::CreateIntentBundle {
                num_commit_only,
                num_undelegate,
                counter_diffs,
                compute_units,
            };
            let c = num_commit_only as int;
            let u = num_undelegate as int;
            let (after, r) = answer(ix, accounts, required);
            &&& after == accounts@
            &&& r is Ok <==> accounts.count() == 5 + 2 * c + 2 * u && c + u > 0
            &&& r matches Ok(plan) ==> {
                &&& plan.len() == 1
                &&& plan[0] matches Deed::IntentBundle {
                    payer,
                    magic_context,
                    magic_program,
                    magic_fee_vault,
                    commit,
                    commit_and_undelegate,
                } && {
                    &&& payer == 5
                    &&& magic_context == 1
                    &&& magic_program == 2
                    &&& magic_fee_vault is None
                    &&& commit is Some <==> c > 0
                    &&& commit_and_undelegate is Some <==> u > 0
                    &&& commit matches Some(stay) ==> {
                        &&& lie_from(stay.accounts, 5 + c, c)
                        &&& commits_match(stay.handlers, accounts, stay.accounts, 5, compute_units)
                        &&& stay.callback is None
                    }
                    &&& commit_and_undelegate matches Some(back) ==> {
                        &&& lie_from(back.accounts, 5 + 2 * c + u, u)
                        &&& commits_match(
                            back.commit_handlers,
                            accounts,
                            back.accounts,
                            5 + 2 * c,
                            compute_units,
                        )
                        &&& returns_match(
                            back.undelegate_handlers,
                            accounts,
                            back.accounts,
                            5 + 2 * c,
                            counter_diffs@,
                            compute_units,
                        )
                    }
                }
            }
        }),
{
}

/// Whether one account changed from one counter to another and no other
/// account changed.
pub open spec fn only_counts(
    before: Seq<AccountState>,
    after: Seq<AccountState>,
    s: int,
    count: int,
    updates: int,
    label: Seq<char>,
) -> bool {
    &&& after.len() == before.len()
    &&& counter_in(after[s].data) matches Some((c, u, l)) && c == count && u == updates && l == label
    &&& after[s] == before[s].with_data(after[s].data)
    &&& forall|other: int| 0 <= other < before.len() && other != s ==> #[trigger] after[other]
        == before[other]
}

/// Adding raises the count of the counter that was handed over by exactly what
/// is added, multiplying makes it that many times as large, and either counts
/// as one update and keeps the label. Where there is no counter nothing
/// changes.
pub proof fn counters_take_their_changes(
    ix: FlexiInstruction,
    accounts: Accounts,
    required: u64,
    count: u64,
    updates: u64,
    label: Seq<char>,
)
    requires
        accounts.wf(),
        ready(ix, accounts),
        ix is Add || ix is AddUnsigned || ix is Mul,
    ensures
        ({
            let at = if ix is AddUnsigned {
                0int
            } else {
                1
            };
            let (after, r) = answer(ix, accounts, required);
            &&& accounts.count() <= at ==> r == Err::<Seq<Deed>, _>(
                ProgramError::NotEnoughAccountKeys,
            ) && after == accounts@
            &&& accounts.count() > at && counter_in(accounts.at(at).data) is None ==> r == Err::<
                Seq<Deed>,
                _,
            >(ProgramError::BorshIoError) && after == accounts@
            &&& accounts.count() > at && counter_in(accounts.at(at).data) == Some(
                (count, updates, label),
            ) ==> {
                let s = accounts.refs@[at] as int;
                &&& r matches Ok(plan) && plan.len() == 0
                &&& ix matches FlexiInstruction::Add { count: n } ==> only_counts(
                    accounts@,
                    after,
                    s,
                    count + n,
                    updates + 1,
                    label,
                )
                &&& ix matches FlexiInstruction::AddUnsigned { count: n } ==> only_counts(
                    accounts@,
                    after,
                    s,
                    count + n,
                    updates + 1,
                    label,
                )
                &&& ix matches FlexiInstruction::Mul { multiplier } ==> only_counts(
                    accounts@,
                    after,
                    s,
                    count * multiplier,
                    updates + 1,
                    label,
                )
            }
        }),
{
    let at = if ix is AddUnsigned {
        0int
    } else {
        1
    };
    if accounts.count() > at && counter_in(accounts.at(at).data) == Some((count, updates, label)) {
        assert(counter_fits(label));
        let now = match ix {
            FlexiInstruction::Add { count: n } => count + n,
            FlexiInstruction::AddUnsigned { count: n } => count + n,
            FlexiInstruction::Mul { multiplier } => count * multiplier,
            _ => 0,
        };
        if let FlexiInstruction::Mul { multiplier } = ix {
            assert(count * multiplier >= 0) by (nonlinear_arith);
        }
        lemma_counter_in(now as u64, (updates + 1) as u64, label);
    }
}

/// A task that fails on purpose fails whatever it is handed.
pub proof fn an_error_is_an_error(count: u8, accounts: Accounts, required: u64)
    ensures
        answer(FlexiInstruction::AddError { count }, accounts, required) == (
            accounts@,
            Err::<Seq<Deed>, _>(ProgramError::Custom(0)),
        ),
{
}

/// Adding before a commit does to the counter what adding does, and commits
/// that counter alone, with the fee vault and the return that were asked for.
pub proof fn adding_goes_before_the_commit(
    count: u8,
    undelegate: bool,
    has_magic_vault: bool,
    accounts: Accounts,
    required: u64,
)
    requires
        accounts.count() >= if has_magic_vault {
            5int
        } else {
            4
        },
    ensures
        ({
            let add = answer(FlexiInstruction::Add { count }, accounts, required);
            let (after, r) = answer(
                FlexiInstruction::AddAndScheduleCommit { count, undelegate, has_magic_vault },
                accounts,
                required,
            );
            &&& after == add.0
            &&& r is Ok <==> add.1 is Ok
            &&& r matches Err(e) ==> add.1 == Err::<Seq<Deed>, _>(e)
            &&& r matches Ok(plan) ==> {
                &&& plan.len() == 1
                &&& plan[0] matches Deed::Commit {
                    payer,
                    committees,
                    magic_context,
                    magic_program,
                    magic_fee_vault,
                    undelegate: back,
                } && {
                    &&& payer == 0
                    &&& committees.len() == 1
                    &&& committees[0] == 1
                    &&& magic_context == 2
                    &&& magic_program == 3
                    &&& has_magic_vault ==> magic_fee_vault == Some(4usize)
                    &&& !has_magic_vault ==> magic_fee_vault is None
                    &&& back == undelegate
                }
            }
        }),
{
}

/// A new counter counts nothing, carries its label, fills its account to the
/// byte, and lies at the address of the payer, who pays for it.
pub proof fn a_new_counter_counts_nothing(
    label: String,
    bump: u8,
    accounts: Accounts,
    required: u64,
)
    ensures
        ({
            let (after, r) = answer(FlexiInstruction::Init { label, bump }, accounts, required);
            &&& after == accounts@
            &&& r is Ok <==> {
                &&& accounts.count() >= 3
                &&& counter_fits(label@)
                &&& flexi_address(accounts.at(0).key) matches Some((address, _)) && address
                    == accounts.at(1).key@
            }
            &&& r matches Ok(plan) ==> {
                &&& plan.len() == 2
                &&& plan[1] matches Deed::Write { target, bytes } && {
                    &&& target == 1
                    &&& counter_in(bytes) == Some((0u64, 0u64, label@))
                    &&& plan[0] matches Deed::Invoke {
                        program_id,
                        accounts: metas,
                        data,
                        infos,
                        signer_seeds,
                    } && {
                        &&& program_id@ == crate::ids::SYSTEM_PROGRAM_ID@
                        &&& metas.len() == 2
                        &&& metas[0].pubkey == accounts.at(0).key
                        &&& metas[1].pubkey == accounts.at(1).key
                        &&& metas[0].is_signer && metas[0].is_writable
                        &&& metas[1].is_signer && metas[1].is_writable
                        &&& data == create_account_data(required, bytes.len() as u64, key(ID))
                        &&& infos == seq![0usize, 1usize, 2usize]
                        &&& signer_seeds.len() == 1
                        &&& signer_seeds[0].len() == 4
                        &&& signer_seeds[0][2] == accounts.at(0).key@
                        &&& signer_seeds[0][3] == seq![bump]
                        &&& found_address(signer_seeds[0].drop_last(), ID@) == flexi_address(
                            accounts.at(0).key,
                        )
                    }
                }
            }
        }),
{
    if let Ok(plan) = answer(FlexiInstruction::Init { label, bump }, accounts, required).1 {
        lemma_counter_in(0, 0, label@);
        if let Deed::Invoke { signer_seeds, .. } = plan[0] {
            assert(signer_seeds[0].drop_last() =~= seq![
                ID@,
                FLEXI_SEED@,
                accounts.at(0).key@,
            ]);
        }
    }
}

/// A counter is delegated with the eight accounts that were handed over, the
/// seeds of its payer, and the frequency and validator that were asked for.
pub proof fn a_delegation_keeps_its_terms(
    commit_frequency_ms: u32,
    validator: Option<Pubkey>,
    accounts: Accounts,
    required: u64,
)
    ensures
        ({
            let (after, r) = answer(
                FlexiInstruction::Delegate { commit_frequency_ms, validator },
                accounts,
                required,
            );
            &&& after == accounts@
            &&& r is Ok <==> accounts.count() == 8
            &&& r matches Ok(plan) ==> {
                &&& plan.len() == 1
                &&& plan[0] matches Deed::Delegate {
                    positions,
                    seeds,
                    commit_frequency_ms: frequency,
                    validator: who,
                } && {
                    &&& positions.len() == 8
                    &&& forall|i: int| 0 <= i < 8 ==> #[trigger] positions[i] == i
                    &&& frequency == commit_frequency_ms
                    &&& who == validator
                    &&& seeds.len() == 3
                    &&& seeds[2] == accounts.at(0).key@
                    &&& found_address(seeds, ID@) == flexi_address(accounts.at(0).key)
                }
            }
        }),
{
}

/// Whether a deed moves lamports of one account, which signs, to another.
pub open spec fn pays(deed: Deed, accounts: Accounts, from: usize, to: usize, amount: u64) -> bool {
    deed matches Deed::Invoke { program_id, accounts: metas, data, infos, signer_seeds } && {
        &&& program_id@ == crate::ids::SYSTEM_PROGRAM_ID@
        &&& metas.len() == 2
        &&& metas[0].pubkey == accounts.at(from as int).key
        &&& metas[0].is_signer
        &&& metas[0].is_writable
        &&& metas[1].pubkey == accounts.at(to as int).key
        &&& !metas[1].is_signer
        &&& metas[1].is_writable
        &&& data.len() == 12
        &&& data.take(4) == le32(2)
        &&& from_le64(data.skip(4)) == amount
        &&& infos.len() == 3
        &&& infos[0] == from
        &&& infos[1] == to
        &&& signer_seeds.len() == 0
    }
}

/// What a transfer says reads back.
proof fn lemma_transfer_data(amount: u64)
    ensures
        transfer_data(amount).len() == 12,
        transfer_data(amount).take(4) == le32(2),
        from_le64(transfer_data(amount).skip(4)) == amount,
{
    lemma_le32();
    lemma_le64();
    assert(transfer_data(amount).take(4) =~= le32(2));
    assert(transfer_data(amount).skip(4) =~= le64(amount));
}

/// Whether the handlers of commits and returns may run: with all accounts, for
/// an escrow that signs, in this program, on a counter that the delegation
/// program owns in one case and does not in the other.
pub open spec fn may_run(accounts: Accounts, delegated: bool) -> bool {
    &&& accounts.count() == 6
    &&& accounts.at(5).is_signer
    &&& accounts.at(0).owner@ == DELEGATION_PROGRAM_ID@ <==> delegated
    &&& accounts.at(3).key@ == ID@
}

/// A handler of a commit runs on delegated counters only, and pays its amount
/// out of the escrow to the destination.
pub proof fn a_commit_pays_its_prize(amount: u64, accounts: Accounts, required: u64)
    ensures
        ({
            let (after, r) = answer(
                FlexiInstruction::CommitActionHandler { amount },
                accounts,
                required,
            );
            &&& after == accounts@
            &&& r is Ok <==> may_run(accounts, true)
            &&& r matches Ok(plan) ==> plan.len() == 1 && pays(plan[0], accounts, 5, 1, amount)
        }),
{
    lemma_transfer_data(amount);
    lemma_same_keys(accounts);
}

/// Keys are the same where their bytes are.
proof fn lemma_same_keys(accounts: Accounts)
    ensures
        accounts.at(0).owner@ == DELEGATION_PROGRAM_ID@ <==> accounts.at(0).owner == key(
            DELEGATION_PROGRAM_ID,
        ),
        accounts.at(2).key@ == ID@ <==> accounts.at(2).key == key(ID),
        accounts.at(3).key@ == ID@ <==> accounts.at(3).key == key(ID),
{
    if accounts.at(0).owner@ == DELEGATION_PROGRAM_ID@ {
        crate::chain::lemma_pubkey_ext(accounts.at(0).owner, key(DELEGATION_PROGRAM_ID));
    }
    if accounts.at(2).key@ == ID@ {
        crate::chain::lemma_pubkey_ext(accounts.at(2).key, key(ID));
    }
    if accounts.at(3).key@ == ID@ {
        crate::chain::lemma_pubkey_ext(accounts.at(3).key, key(ID));
    }
}

/// A handler of a return runs on counters that came back. It moves the count,
/// taken as a signed number, by the difference, up or down, counts one update, leaves the label and what
/// lies behind the counter, and pays its amount out of the escrow. A count
/// does not fall below zero.
pub proof fn a_return_moves_the_count(
    amount: u64,
    counter_diff: i64,
    accounts: Accounts,
    required: u64,
    count: u64,
    updates: u64,
    label: Seq<char>,
)
    requires
        accounts.wf(),
        ready(FlexiInstruction::UndelegateActionHandler { amount, counter_diff }, accounts),
        may_run(accounts, false),
        counter_at_front(accounts.at(0).data) == Some((count, updates, label)),
    ensures
        ({
            let (after, r) = answer(
                FlexiInstruction::UndelegateActionHandler { amount, counter_diff },
                accounts,
                required,
            );
            let s = accounts.refs@[0] as int;
            let size = 20 + encode_utf8(label).len();
            let held = if count < 0x8000_0000_0000_0000 {
                count as int
            } else {
                count - 0x1_0000_0000_0000_0000
            };
            &&& r is Ok <==> held + counter_diff >= 0
            &&& r is Err ==> r == Err::<Seq<Deed>, _>(ProgramError::ArithmeticOverflow) && after
                == accounts@
            &&& r matches Ok(plan) ==> {
                &&& plan.len() == 1
                &&& pays(plan[0], accounts, 5, 1, amount)
                &&& counter_at_front(after[s].data) matches Some((c, u, l)) && c == held
                    + counter_diff && u == updates + 1 && l == label
                &&& after[s] == accounts@[s].with_data(after[s].data)
                &&& after[s].data.len() == accounts@[s].data.len()
                &&& forall|i: int|
                    size <= i < after[s].data.len() ==> #[trigger] after[s].data[i]
                        == accounts@[s].data[i]
                &&& after.len() == accounts@.len()
                &&& forall|other: int|
                    0 <= other < after.len() && other != s ==> #[trigger] after[other]
                        == accounts@[other]
            }
        }),
{
    lemma_transfer_data(amount);
    lemma_same_keys(accounts);
    lemma_le64();
    lemma_le32();
    let data = accounts.at(0).data;
    let (after, r) = answer(
        FlexiInstruction::UndelegateActionHandler { amount, counter_diff },
        accounts,
        required,
    );
    let s = accounts.refs@[0] as int;
    assert(counter_fits(label) && starts(data, counter_format(count, updates, label)));
    let held = if count < 0x8000_0000_0000_0000 {
        count as int
    } else {
        count - 0x1_0000_0000_0000_0000
    };
    if r is Ok {
        let front = counter_format((held + counter_diff) as u64, (updates + 1) as u64, label);
        assert(front.len() == counter_format(count, updates, label).len());
        assert(after[s].data.take(front.len() as int) =~= front);
        lemma_counter_at_front(
            after[s].data,
            (held + counter_diff) as u64,
            (updates + 1) as u64,
            label,
        );
    }
}

/// A handler of a return does not run on a counter that is still delegated,
/// nor for an escrow that does not sign.
pub proof fn a_return_is_for_returned_counters(
    amount: u64,
    counter_diff: i64,
    accounts: Accounts,
    required: u64,
)
    requires
        !may_run(accounts, false),
    ensures
        ({
            let (after, r) = answer(
                FlexiInstruction::UndelegateActionHandler { amount, counter_diff },
                accounts,
                required,
            );
            r is Err && after == accounts@
        }),
{
    lemma_same_keys(accounts);
}

/// A transfer intent pays its amount into the counter, commits the counter
/// alone, lets the program pay the same amount on to the destination, and
/// gives it back by a callback that carries the same amount.
pub proof fn a_transfer_intent_keeps_to_one_amount(
    amount: u64,
    fail: bool,
    compute_units: u32,
    accounts: Accounts,
    required: u64,
)
    ensures
        ({
            let (after, r) = answer(
                FlexiInstruction::CreateTransferIntent { amount, fail, compute_units },
                accounts,
                required,
            );
            &&& after == accounts@
            &&& r is Ok <==> accounts.count() == 7
            &&& r matches Ok(plan) ==> {
                &&& plan.len() == 2
                &&& pays(plan[0], accounts, 0, 1, amount)
                &&& plan[1] matches Deed::IntentBundle {
                    payer,
                    magic_context,
                    magic_program,
                    magic_fee_vault,
                    commit,
                    commit_and_undelegate,
                } && {
                    &&& payer == 0
                    &&& magic_context == 4
                    &&& magic_program == 5
                    &&& magic_fee_vault == Some(6usize)
                    &&& commit_and_undelegate is None
                    &&& commit matches Some(c) && {
                        &&& c.accounts == seq![1usize]
                        &&& c.handlers.len() == 1
                        &&& c.handlers[0].data == flexi_data(
                            FlexiInstruction::TransferActionHandler { amount, fail },
                        )
                        &&& c.handlers[0].escrow_authority == 0
                        &&& c.handlers[0].escrow_index == 1
                        &&& c.handlers[0].compute_units == compute_units
                        &&& c.handlers[0].destination_program@ == ID@
                        &&& c.handlers[0].accounts == seq![
                            ShortMeta::Writable(2),
                            ShortMeta::Position(3),
                        ]
                        &&& c.callback matches Some(back) && {
                            &&& back.destination_program@ == ID@
                            &&& back.payload.len() == 8
                            &&& from_le64(back.payload) == amount
                            &&& back.compute_units == 20_000
                            &&& back.accounts == seq![
                                ShortMeta::CallbackSigner,
                                ShortMeta::Writable(1),
                                ShortMeta::Writable(0),
                                ShortMeta::Position(3),
                            ]
                        }
                    }
                }
            }
        }),
{
    lemma_transfer_data(amount);
    lemma_le64();
}

/// The handler of a transfer pays its amount out of the escrow, which signs,
/// in this program, unless it is to fail.
pub proof fn a_transfer_pays_or_fails(amount: u64, fail: bool, accounts: Accounts, required: u64)
    ensures
        ({
            let (after, r) = answer(
                FlexiInstruction::TransferActionHandler { amount, fail },
                accounts,
                required,
            );
            let called = accounts.count() == 5 && accounts.at(2).key@ == ID@ && accounts.at(
                4,
            ).is_signer;
            &&& after == accounts@
            &&& r is Ok <==> called && !fail
            &&& called && fail ==> r == Err::<Seq<Deed>, _>(ProgramError::Custom(0xFA11))
            &&& r matches Ok(plan) ==> plan.len() == 1 && pays(plan[0], accounts, 4, 0, amount)
        }),
{
    lemma_transfer_data(amount);
    lemma_same_keys(accounts);
}

/// What a response says of how an action went, and what it carries, is read
/// back from its bytes.
pub proof fn a_response_is_read_back(
    data: Seq<u8>,
    ok: bool,
    payload: Seq<u8>,
    error: Seq<char>,
    receipt: Option<Seq<u8>>,
)
    requires
        response_fits(payload, error, receipt),
        starts(data, response_format(ok, payload, error, receipt)),
    ensures
        response_ok(data) == ok,
        response_payload(data) == payload,
{
    lemma_le32();
    lemma_le64();
    let whole = response_format(ok, payload, error, receipt);
    let front = data.take(whole.len() as int);
    assert(front == whole);
    assert forall|i: int| 0 <= i < whole.len() implies #[trigger] data[i] == whole[i] by {
        assert(data[i] == front[i]);
    }
    assert(whole[4] == crate::magic::flag(ok));
    assert(whole.len() >= 13 + payload.len() as int);
    assert(data.subrange(5, 13) =~= le64(payload.len() as u64)) by {
        assert forall|j: int| 0 <= j < 8 implies data.subrange(5, 13)[j] == le64(
            payload.len() as u64,
        )[j] by {
            assert(whole[5 + j] == le64(payload.len() as u64)[j]);
        }
    }
    assert(data.subrange(13, 13 + payload.len() as int) =~= payload) by {
        assert forall|j: int| 0 <= j < payload.len() implies data.subrange(
            13,
            13 + payload.len() as int,
        )[j] == payload[j] by {
            assert(whole[13 + j] == payload[j]);
        }
    }
}

/// A callback of an action that failed gives exactly the amount that it
/// carries from the counter back to the payer. Where the action went through,
/// or somebody else calls, nothing moves.
pub proof fn a_failed_transfer_is_given_back(
    accounts: Accounts,
    data: Seq<u8>,
    ok: bool,
    amount: u64,
    error: Seq<char>,
    receipt: Option<Seq<u8>>,
)
    requires
        accounts.wf(),
        accounts.count() == 4,
        accounts.refs@[1] != accounts.refs@[2],
        payable(accounts, data),
        response_fits(le64(amount), error, receipt),
        starts(data, response_format(ok, le64(amount), error, receipt)),
    ensures
        ({
            let after = after_callback(accounts, data);
            let counter = accounts.refs@[1] as int;
            let payer = accounts.refs@[2] as int;
            let called = accounts.at(0).is_signer && accounts.at(0).key@ == CALLBACK_SIGNER@;
            &&& given_back(accounts, data) is Ok <==> called
            &&& !accounts.at(0).is_signer ==> given_back(accounts, data) == Err::<Option<u64>, _>(
                ProgramError::MissingRequiredSignature,
            )
            &&& ok || !called ==> after == accounts@
            &&& called && !ok ==> {
                &&& after.len() == accounts@.len()
                &&& after[counter].lamports == accounts@[counter].lamports - amount
                &&& after[payer].lamports == accounts@[payer].lamports + amount
                &&& after[counter].data == accounts@[counter].data
                &&& after[payer].data == accounts@[payer].data
            }
        }),
{
    lemma_le64();
    a_response_is_read_back(data, ok, le64(amount), error, receipt);
    if accounts.at(0).key@ == CALLBACK_SIGNER@ {
        crate::chain::lemma_pubkey_ext(accounts.at(0).key, key(CALLBACK_SIGNER));
    }
}

/// A bundle that commits and finalises hands over every account once, all of
/// them writable and none as a signer, behind the payer and the context, and
/// hands the program those same accounts.
pub proof fn a_finalising_bundle_passes_what_it_names(
    num_commit: u8,
    num_commit_finalize: u8,
    accounts: Accounts,
    required: u64,
    at: int,
)
    requires
        accounts.count() <= usize::MAX,
        3 <= at < accounts.count(),
    ensures
        ({
            let (after, r) = answer(
                FlexiInstruction::CreateIntentBundleCommitAndFinalize {
                    num_commit,
                    num_commit_finalize,
                },
                accounts,
                required,
            );
            &&& after == accounts@
            &&& r is Ok <==> accounts.count() == 3 + num_commit + num_commit_finalize
            &&& r matches Ok(plan) ==> {
                &&& plan.len() == 1
                &&& plan[0] matches Deed::Invoke {
                    program_id,
                    accounts: metas,
                    data,
                    infos,
                    signer_seeds,
                } && {
                    &&& program_id == accounts.at(1).key
                    &&& metas.len() + 1 == infos.len()
                    &&& metas[0].pubkey == accounts.at(2).key
                    &&& metas[0].is_signer
                    &&& metas[1].pubkey == accounts.at(0).key
                    &&& infos[0] == 1
                    &&& infos[1] == 2
                    &&& infos[2] == 0
                    &&& forall|k: int|
                        2 <= k < metas.len() ==> (#[trigger] metas[k]).pubkey == accounts.at(
                            infos[k + 1] as int,
                        ).key && !metas[k].is_signer
                    &&& forall|k: int| 0 <= k < metas.len() ==> (#[trigger] metas[k]).is_writable
                    &&& forall|k: int, l: int|
                        2 <= k < l < metas.len() ==> (#[trigger] metas[k]).pubkey != (
                        #[trigger] metas[l]).pubkey
                    &&& exists|k: int|
                        2 <= k < metas.len() && (#[trigger] metas[k]).pubkey == accounts.at(at).key
                    &&& signer_seeds.len() == 0
                }
            }
        }),
{
    let n = accounts.count() as int;
    lemma_firsts(accounts, 3, n);
    lemma_leads(accounts, 3, n, at);
    let (_, r) = answer(
        FlexiInstruction::CreateIntentBundleCommitAndFinalize { num_commit, num_commit_finalize },
        accounts,
        required,
    );
    if let Ok(plan) = r {
        if let Deed::Invoke { accounts: metas, infos, .. } = plan[0] {
            let once = firsts(accounts, 3, n);
            assert forall|k: int| 2 <= k < metas.len() implies (#[trigger] metas[k]).pubkey
                == accounts.at(once[k - 2] as int).key && infos[k + 1] == once[k - 2] by {}
            let place = rank(accounts, 3, n, at);
            assert(metas[place + 2].pubkey == accounts.at(at).key);
        }
    }
}

/// A task is scheduled with the magic program that was handed over, for the
/// payer's own counter, with the interval and the number of runs that were
/// asked for. It adds one: with the payer's signature, without one, or to
/// fail.
pub proof fn a_task_adds_one(
    task_id: i64,
    execution_interval_millis: i64,
    iterations: i64,
    error: bool,
    signer: bool,
    accounts: Accounts,
    required: u64,
)
    ensures
        ({
            let ix = FlexiInstruction::ScheduleCounterTask {
                task_id,
                execution_interval_millis,
                iterations,
                error,
                signer,
            };
            let (after, r) = answer(ix, accounts, required);
            let payer = accounts.at(1).key;
            let task = task_instruction(payer, error, signer);
            &&& after == accounts@
            &&& r is Ok <==> {
                &&& accounts.count() == 3
                &&& flexi_address(payer) matches Some((address, _)) && address == accounts.at(2).key@
            }
            &&& r matches Ok(plan) ==> {
                &&& flexi_address(payer) matches Some((_, bump)) && {
                    &&& plan.len() == 1
                    &&& plan[0] matches Deed::Invoke {
                        program_id,
                        accounts: metas,
                        data,
                        infos,
                        signer_seeds,
                    } && {
                        &&& program_id == accounts.at(0).key
                        &&& metas.len() == 2
                        &&& metas[0].pubkey == payer && metas[0].is_signer
                        &&& metas[1].pubkey == accounts.at(2).key && metas[1].is_signer
                        &&& data == task_data(
                            task_id,
                            execution_interval_millis,
                            iterations,
                            seq![task],
                        )
                        &&& infos == seq![1usize, 2usize]
                        &&& signer_seeds.len() == 1
                        &&& signer_seeds[0][2] == payer@
                        &&& signer_seeds[0][3] == seq![bump]
                    }
                }
            }
            &&& task.program_id@ == ID@
            &&& task.accounts.last().pubkey == flexi_of(payer)
            &&& task.accounts.last().is_writable
            &&& !task.accounts.last().is_signer
            &&& task.accounts.len() == if signer && !error {
                2int
            } else {
                1
            }
            &&& signer && !error ==> task.accounts[0].pubkey == payer && task.accounts[0].is_signer
                && !task.accounts[0].is_writable && task.data == flexi_data(
                FlexiInstruction::Add { count: 1 },
            )
            &&& !signer && !error ==> task.data == flexi_data(
                FlexiInstruction::AddUnsigned { count: 1 },
            )
            &&& error ==> task.data == flexi_data(FlexiInstruction::AddError { count: 1 })
        }),
{
}

/// A task is cancelled by its number, for the authority, which signs.
pub proof fn a_task_is_cancelled_by_number(task_id: i64, accounts: Accounts, required: u64)
    ensures
        ({
            let (after, r) = answer(
                FlexiInstruction::CancelCounterTask { task_id },
                accounts,
                required,
            );
            &&& after == accounts@
            &&& r is Ok <==> accounts.count() == 2
            &&& r matches Ok(plan) ==> {
                &&& plan.len() == 1
                &&& plan[0] matches Deed::Invoke {
                    program_id,
                    accounts: metas,
                    data,
                    infos,
                    signer_seeds,
                } && {
                    &&& program_id == accounts.at(0).key
                    &&& metas.len() == 1
                    &&& metas[0].pubkey == accounts.at(1).key
                    &&& metas[0].is_signer
                    &&& metas[0].is_writable
                    &&& data == cancel_data(task_id)
                    &&& infos == seq![1usize]
                    &&& signer_seeds.len() == 0
                }
            }
        }),
{
}

/// Why a handler does not run: accounts are missing, the escrow does not sign,
/// the counter is owned by the wrong program, or the handler is not called in
/// this program, and the first of these counts.
pub proof fn why_a_handler_does_not_run(amount: u64, accounts: Accounts, required: u64)
    ensures
        ({
            let r = answer(
                FlexiInstruction::CommitActionHandler { amount },
                accounts,
                required,
            ).1;
            let delegated = accounts.at(0).owner@ == DELEGATION_PROGRAM_ID@;
            &&& r == Err::<Seq<Deed>, _>(ProgramError::NotEnoughAccountKeys) <==> accounts.count()
                != 6
            &&& r == Err::<Seq<Deed>, _>(ProgramError::MissingRequiredSignature)
                <==> accounts.count() == 6 && !accounts.at(5).is_signer
            &&& r == Err::<Seq<Deed>, _>(ProgramError::InvalidAccountOwner) <==> accounts.count()
                == 6 && accounts.at(5).is_signer && !delegated
            &&& r == Err::<Seq<Deed>, _>(ProgramError::IncorrectProgramId) <==> accounts.count()
                == 6 && accounts.at(5).is_signer && delegated && accounts.at(3).key@ != ID@
        }),
{
    lemma_same_keys(accounts);
}

/// What changes count on: that the count and the number of updates stay within
/// 64 bits, where there is a counter.
pub proof fn what_changes_count_on(ix: FlexiInstruction, accounts: Accounts)
    ensures
        ({
            let at = if ix is AddUnsigned {
                0int
            } else {
                1
            };
            let found = counter_in(accounts.at(at).data);
            &&& ix matches FlexiInstruction::Add { count: n } ==> (ready(ix, accounts) <==> (
            accounts.count() > 1 ==> (found matches Some((count, updates, _)) ==> count + n
                <= u64::MAX && updates < u64::MAX)))
            &&& ix matches FlexiInstruction::AddUnsigned { count: n } ==> (ready(ix, accounts) <==> (
            accounts.count() > 0 ==> (found matches Some((count, updates, _)) ==> count + n
                <= u64::MAX && updates < u64::MAX)))
            &&& ix matches FlexiInstruction::Mul { multiplier } ==> (ready(ix, accounts) <==> (
            accounts.count() > 1 ==> (found matches Some((count, updates, _)) ==> count * multiplier
                <= u64::MAX && updates < u64::MAX)))
        }),
{
}

/// In a bundle that commits and finalises, the first numbers are the places of
/// the accounts to commit and the second those of the accounts to finalise,
/// each in the order in which they were handed over.
pub proof fn a_finalising_bundle_places_its_accounts(
    num_commit: u8,
    num_commit_finalize: u8,
    accounts: Accounts,
    required: u64,
    i: int,
)
    requires
        accounts.count() == 3 + num_commit + num_commit_finalize,
        accounts.count() <= 256,
        0 <= i < num_commit + num_commit_finalize,
    ensures
        answer(
            FlexiInstruction::CreateIntentBundleCommitAndFinalize {
                num_commit,
                num_commit_finalize,
            },
            accounts,
            required,
        ).1 matches Ok(plan) && (plan[0] matches Deed::Invoke { accounts: metas, data, .. }
            && exists|commit: Seq<u8>, finalize: Seq<u8>|
            {
                &&& data == #[trigger] bundle_data(commit, finalize)
                &&& commit.len() == num_commit
                &&& finalize.len() == num_commit_finalize
                &&& (commit + finalize)[i] < metas.len()
                &&& metas[(commit + finalize)[i] as int].pubkey == accounts.at(3 + i).key
            }),
{
    let n = accounts.count() as int;
    let c = num_commit as int;
    let f = num_commit_finalize as int;
    lemma_firsts(accounts, 3, n);
    lemma_leads(accounts, 3, n, 3 + i);
    let commit = places(accounts, 3, 3 + c);
    let finalize = places(accounts, 3 + c, 3 + c + f);
    let place = (commit + finalize)[i];
    let at = rank(accounts, 3, n, 3 + i);
    let once = firsts(accounts, 3, n);
    assert(place == 2 + at);
    if let Ok(plan) = answer(
        FlexiInstruction::CreateIntentBundleCommitAndFinalize { num_commit, num_commit_finalize },
        accounts,
        required,
    ).1 {
        if let Deed::Invoke { accounts: metas, data, .. } = plan[0] {
            assert(data == bundle_data(commit, finalize));
            assert(metas[2 + at].pubkey == accounts.at(once[at] as int).key);
        }
    }
}

} // verus!
