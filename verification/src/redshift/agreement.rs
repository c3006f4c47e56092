//! What callers ask for and what the programs do: an instruction that is built
//! for some accounts comes to be about those accounts, whichever positions it
//! names them by.
use crate::chain::{metas_of, writable, AccountMeta, AccountState, Accounts, ProgramError, Pubkey};
use crate::delegation::DelegateAccounts;
use crate::effects::{deeds, Deed, Effect, HandlerState, ShortMeta};
use crate::ids::{
    DELEGATION_PROGRAM_ID, MAGIC_CONTEXT_ID, MAGIC_PROGRAM_ID, SYSTEM_PROGRAM_ID,
};
use crate::redline::builders::committing;
use crate::redline::instruction::Instruction;
use crate::redshift::flexi::{flexi_of, FlexiInstruction};
use crate::redshift::flexi_builders::{flexis_of, intent_front, payer_metas, short_count};
use crate::redshift::flexi_processors;
use crate::redshift::schedule_builders::{commit_metas, init_metas, vault_metas};
use crate::redshift::schedule_commit::{
    book_address, counter_address, counter_of, counters_of, order_book_of, ScheduleCommitCpiArgs,
    ScheduleCommitCpiWithVaultArgs, ScheduleCommitInstruction, ScheduleCommitType,
};
use crate::redshift::schedule_processors;
use crate::redshift::ID;
use vstd::prelude::*;

verus! {

/// Whether a program is handed the accounts that an instruction lists.
pub open spec fn handed(accounts: Accounts, metas: Seq<AccountMeta>) -> bool {
    &&& accounts.count() == metas.len()
    &&& accounts.count() <= usize::MAX
    &&& forall|i: int|
        #![trigger accounts.at(i)]
        0 <= i < metas.len() ==> accounts.at(i).key == metas[i].pubkey && accounts.at(i).is_signer
            == metas[i].is_signer && accounts.at(i).is_writable == metas[i].is_writable
}

/// Whether positions lead to keys, one by one.
pub open spec fn lead_to(accounts: Accounts, places: Seq<usize>, keys: Seq<Pubkey>) -> bool {
    &&& places.len() == keys.len()
    &&& forall|i: int|
        #![trigger places[i]]
        0 <= i < places.len() ==> accounts.at(places[i] as int).key == keys[i]
}

/// Whether handlers are about counters and payers, one by one: the account
/// that comes first is the counter, and the escrow belongs to the payer, who
/// signed.
pub open spec fn about(
    handlers: Seq<HandlerState>,
    accounts: Accounts,
    payers: Seq<Pubkey>,
    destination: Pubkey,
) -> bool {
    forall|i: int|
        #![trigger handlers[i]]
        0 <= i < handlers.len() ==> {
            &&& handlers[i].accounts[0] matches ShortMeta::Position(at) && accounts.at(
                at as int,
            ).key == flexi_of(payers[i])
            &&& handlers[i].accounts[1] matches ShortMeta::Writable(at) && accounts.at(
                at as int,
            ).key == destination
            &&& handlers[i].accounts[2] matches ShortMeta::Position(at) && accounts.at(
                at as int,
            ).key@ == SYSTEM_PROGRAM_ID@
            &&& accounts.at(handlers[i].escrow_authority as int).key == payers[i]
            &&& accounts.at(handlers[i].escrow_authority as int).is_signer
            &&& handlers[i].destination_program@ == ID@
        }
}

/// A count in one byte is the count itself up to 255.
pub proof fn short_counts_are_counts(n: nat)
    requires
        n <= 255,
    ensures
        short_count(n) == n,
{
}

/// An intent that is built for payers commits the counters of those payers, in
/// order, and the handlers of each are about the payer's own counter.
pub proof fn an_intent_is_about_its_payers(
    payers: Seq<Pubkey>,
    destination: Pubkey,
    counter_diffs: Vec<i64>,
    is_undelegate: bool,
    compute_units: u32,
    accounts: Accounts,
    required: u64,
)
    requires
        payers.len() <= 255,
        handed(accounts, intent_front(destination) + payer_metas(payers)),
    ensures
        ({
            let ix = FlexiInstruction::CreateIntent {
                num_committees: short_count(payers.len()),
                counter_diffs,
                is_undelegate,
                compute_units,
            };
            &&& flexi_processors::answer(ix, accounts, required).1 matches Ok(plan)
            &&& plan.len() == 1
            &&& plan[0] matches Deed::IntentBundle {
                payer,
                magic_context,
                magic_program,
                commit,
                commit_and_undelegate,
                ..
            } && {
                &&& payers.len() > 0 ==> accounts.at(payer as int).key == payers[0]
                &&& accounts.at(magic_context as int).key@ == MAGIC_CONTEXT_ID@
                &&& accounts.at(magic_program as int).key@ == MAGIC_PROGRAM_ID@
                &&& is_undelegate ==> commit is None && commit_and_undelegate is Some
                &&& !is_undelegate ==> commit is Some && commit_and_undelegate is None
                &&& commit matches Some(c) ==> {
                    &&& lead_to(accounts, c.accounts, flexis_of(payers))
                    &&& c.handlers.len() == payers.len()
                    &&& about(c.handlers, accounts, payers, destination)
                }
                &&& commit_and_undelegate matches Some(u) ==> {
                    &&& lead_to(accounts, u.accounts, flexis_of(payers))
                    &&& u.commit_handlers.len() == payers.len()
                    &&& about(u.commit_handlers, accounts, payers, destination)
                    &&& about(u.undelegate_handlers, accounts, payers, destination)
                    &&& counter_diffs@.len() >= payers.len() ==> u.undelegate_handlers.len()
                        == payers.len()
                }
            }
        }),
{
    let metas = intent_front(destination) + payer_metas(payers);
    let n = payers.len() as int;
    assert(metas.len() == 5 + 2 * n);
    assert forall|i: int| 0 <= i < n implies (#[trigger] accounts.at(5 + i)).key == payers[i]
        && accounts.at(5 + i).is_signer && accounts.at(5 + n + i).key == flexi_of(payers[i]) by {
        assert(accounts.at(5 + i).key == metas[5 + i].pubkey);
        assert(accounts.at(5 + n + i).key == metas[5 + n + i].pubkey);
        assert(metas[5 + i] == payer_metas(payers)[i]);
        assert(metas[5 + n + i] == payer_metas(payers)[n + i]);
    }
    assert(accounts.at(0).key == metas[0].pubkey && accounts.at(3).key == metas[3].pubkey
        && accounts.at(4).key == metas[4].pubkey);
    assert(accounts.at(1).key == metas[1].pubkey && accounts.at(2).key == metas[2].pubkey);
}

/// A bundle that is built for payers commits the counters of some and returns
/// those of the others, and the handlers of each are about the payer's own
/// counter.
pub proof fn a_bundle_is_about_its_payers(
    staying: Seq<Pubkey>,
    returning: Seq<Pubkey>,
    destination: Pubkey,
    counter_diffs: Vec<i64>,
    compute_units: u32,
    accounts: Accounts,
    required: u64,
)
    requires
        0 < staying.len() <= 255,
        0 < returning.len() <= 255,
        handed(
            accounts,
            intent_front(destination) + payer_metas(staying) + payer_metas(returning),
        ),
    ensures
        ({
            let ix = FlexiInstruction::CreateIntentBundle {
                num_commit_only: short_count(staying.len()),
                num_undelegate: short_count(returning.len()),
                counter_diffs,
                compute_units,
            };
            &&& flexi_processors::answer(ix, accounts, required).1 matches Ok(plan)
            &&& plan.len() == 1
            &&& plan[0] matches Deed::IntentBundle { payer, commit, commit_and_undelegate, .. } && {
                &&& accounts.at(payer as int).key == staying[0]
                &&& commit matches Some(c) && {
                    &&& lead_to(accounts, c.accounts, flexis_of(staying))
                    &&& c.handlers.len() == staying.len()
                    &&& about(c.handlers, accounts, staying, destination)
                }
                &&& commit_and_undelegate matches Some(u) && {
                    &&& lead_to(accounts, u.accounts, flexis_of(returning))
                    &&& u.commit_handlers.len() == returning.len()
                    &&& about(u.commit_handlers, accounts, returning, destination)
                    &&& about(u.undelegate_handlers, accounts, returning, destination)
                    &&& counter_diffs@.len() >= returning.len() ==> u.undelegate_handlers.len()
                        == returning.len()
                }
            }
        }),
{
    let front = intent_front(destination) + payer_metas(staying);
    let metas = front + payer_metas(returning);
    let c = staying.len() as int;
    let u = returning.len() as int;
    let second = 5 + 2 * c;
    assert(front.len() == second);
    assert(metas.len() == second + 2 * u);
    assert forall|i: int| 0 <= i < c implies (#[trigger] accounts.at(5 + i)).key == staying[i]
        && accounts.at(5 + i).is_signer && accounts.at(5 + c + i).key == flexi_of(staying[i]) by {
        assert(accounts.at(5 + i).key == metas[5 + i].pubkey);
        assert(accounts.at(5 + c + i).key == metas[5 + c + i].pubkey);
        assert(metas[5 + i] == front[5 + i] && front[5 + i] == payer_metas(staying)[i]);
        assert(metas[5 + c + i] == front[5 + c + i] && front[5 + c + i] == payer_metas(
            staying,
        )[c + i]);
    }
    assert forall|i: int| 0 <= i < u implies (#[trigger] accounts.at(second + i)).key
        == returning[i] && accounts.at(second + i).is_signer && accounts.at(second + u + i).key
        == flexi_of(returning[i]) by {
        assert(accounts.at(second + i).key == metas[second + i].pubkey);
        assert(accounts.at(second + u + i).key == metas[second + u + i].pubkey);
        assert(metas[second + i] == payer_metas(returning)[i]);
        assert(metas[second + u + i] == payer_metas(returning)[u + i]);
    }
    assert(accounts.at(0).key == metas[0].pubkey && accounts.at(3).key == metas[3].pubkey
        && accounts.at(4).key == metas[4].pubkey);
}

/// A commit that is built for players names their counters, in order, and
/// after them the payer where that is asked for.
pub proof fn a_commit_is_about_its_players(
    payer: Pubkey,
    writable_committees: bool,
    args: ScheduleCommitCpiArgs,
    how: ScheduleCommitType,
    accounts: Accounts,
    after: Seq<AccountState>,
    required: u64,
    program_id: Pubkey,
    r: Result<Vec<Effect>, ProgramError>,
)
    requires
        handed(accounts, commit_metas(payer, counters_of(args.players@), writable_committees)),
        !args.has_magic_vault,
        !args.modify_accounts,
        schedule_processors::served(
            ScheduleCommitInstruction::ScheduleCommitCpi(args, how),
            program_id,
            accounts,
            after,
            required,
            r,
        ),
    ensures
        r is Ok,
        r matches Ok(plan) ==> {
            let wanted = if args.commit_payer {
                counters_of(args.players@).push(payer)
            } else {
                counters_of(args.players@)
            };
            &&& plan@.len() == 1
            &&& how == ScheduleCommitType::Commit ==> (deeds(plan@)[0] matches Deed::IntentBundle {
                payer: who,
                magic_context,
                magic_program,
                commit,
                ..
            } && accounts.at(who as int).key == payer && accounts.at(magic_context as int).key@
                == MAGIC_CONTEXT_ID@ && accounts.at(magic_program as int).key@ == MAGIC_PROGRAM_ID@
                && (commit matches Some(c) && lead_to(accounts, c.accounts, wanted)))
            &&& how == ScheduleCommitType::CommitAndUndelegate ==> (
            deeds(plan@)[0] matches Deed::IntentBundle { commit_and_undelegate, .. } && (
            commit_and_undelegate matches Some(u) && lead_to(accounts, u.accounts, wanted)))
            &&& how == ScheduleCommitType::CommitFinalizeAndUndelegate ==> (
            deeds(plan@)[0] matches Deed::Commit { committees, undelegate, .. } && undelegate
                && lead_to(accounts, committees, wanted))
        },
{
    let metas = commit_metas(payer, counters_of(args.players@), writable_committees);
    let n = args.players@.len() as int;
    assert(metas.len() == 3 + n);
    assert forall|i: int| 0 <= i < n implies (#[trigger] accounts.at(3 + i)).key == counters_of(
        args.players@,
    )[i] by {
        assert(accounts.at(3 + i).key == metas[3 + i].pubkey);
    }
    assert(accounts.at(0).key == metas[0].pubkey && accounts.at(1).key == metas[1].pubkey
        && accounts.at(2).key == metas[2].pubkey);
    if let Ok(plan) = r {
        assert(deeds(plan@).len() == 1);
    }
}

/// A commit with a fee vault that is built for players names the vault and the
/// counters of the players.
pub proof fn a_vault_commit_is_about_its_players(
    payer: Pubkey,
    vault: Option<Pubkey>,
    args: ScheduleCommitCpiWithVaultArgs,
    accounts: Accounts,
    after: Seq<AccountState>,
    required: u64,
    program_id: Pubkey,
    r: Result<Vec<Effect>, ProgramError>,
)
    requires
        handed(
            accounts,
            commit_metas(payer, Seq::empty(), true) + vault_metas(vault) + metas_of(
                counters_of(args.players@),
                false,
                true,
            ),
        ),
        args.has_magic_vault == vault is Some,
        schedule_processors::served(
            ScheduleCommitInstruction::ScheduleCommitWithVaultCpi(args),
            program_id,
            accounts,
            after,
            required,
            r,
        ),
    ensures
        r is Ok,
        r matches Ok(plan) ==> {
            &&& plan@.len() == 1
            &&& deeds(plan@)[0] matches Deed::Commit {
                payer: who,
                committees,
                magic_context,
                magic_program,
                magic_fee_vault,
                undelegate,
            } && {
                &&& accounts.at(who as int).key == payer
                &&& accounts.at(magic_context as int).key@ == MAGIC_CONTEXT_ID@
                &&& accounts.at(magic_program as int).key@ == MAGIC_PROGRAM_ID@
                &&& lead_to(accounts, committees, counters_of(args.players@))
                &&& vault matches Some(v) ==> (magic_fee_vault matches Some(at) && accounts.at(
                    at as int,
                ).key == v)
                &&& vault is None ==> magic_fee_vault is None
                &&& undelegate == args.undelegate
            }
        },
{
    let front = commit_metas(payer, Seq::empty(), true) + vault_metas(vault);
    let metas = front + metas_of(counters_of(args.players@), false, true);
    let n = args.players@.len() as int;
    let first = front.len() as int;
    assert(first == if vault is Some {
        4int
    } else {
        3
    });
    assert(metas.len() == first + n);
    assert forall|i: int| 0 <= i < n implies (#[trigger] accounts.at(first + i)).key == counters_of(
        args.players@,
    )[i] by {
        assert(accounts.at(first + i).key == metas[first + i].pubkey);
    }
    assert forall|i: int| 0 <= i < first implies (#[trigger] accounts.at(i)).key
        == front[i].pubkey by {
        assert(accounts.at(i).key == metas[i].pubkey);
    }
    assert(front[0].pubkey == payer);
    assert(accounts.at(0).key == payer);
    assert(accounts.at(1).key == front[1].pubkey && accounts.at(2).key == front[2].pubkey);
    if let Some(v) = vault {
        assert(front[3].pubkey == v);
        assert(accounts.at(3).key == v);
    }
    if let Ok(plan) = r {
        assert(deeds(plan@).len() == 1);
    }
}

/// Setting up a player's counter as it is built succeeds, creates the counter
/// of that player, and lets the payer pay.
pub proof fn setting_up_is_about_its_player(
    payer: Pubkey,
    player: Pubkey,
    accounts: Accounts,
    after: Seq<AccountState>,
    required: u64,
    program_id: Pubkey,
    r: Result<Vec<Effect>, ProgramError>,
)
    requires
        counter_address(player) matches Some((address, _)) && address == counter_of(player)@,
        handed(accounts, init_metas(payer, player, counter_of(player), true)),
        schedule_processors::served(
            ScheduleCommitInstruction::Init,
            program_id,
            accounts,
            after,
            required,
            r,
        ),
    ensures
        r is Ok,
        r matches Ok(plan) ==> {
            &&& plan@.len() == 2
            &&& deeds(plan@)[0] matches Deed::CreatePda { target, system_program, payer: who, .. }
                && accounts.at(target as int).key == counter_of(player) && accounts.at(
                target as int,
            ).is_writable && accounts.at(who as int).key == payer && accounts.at(
                who as int,
            ).is_signer && accounts.at(system_program as int).key@ == SYSTEM_PROGRAM_ID@
            &&& deeds(plan@)[1] matches Deed::Write { target, .. } && accounts.at(
                target as int,
            ).key == counter_of(player)
        },
{
    let metas = init_metas(payer, player, counter_of(player), true);
    assert(accounts.at(0).key == metas[0].pubkey && accounts.at(1).key == metas[1].pubkey
        && accounts.at(2).key == metas[2].pubkey && accounts.at(3).key == metas[3].pubkey);
    if let Ok(plan) = r {
        assert(deeds(plan@).len() == 2);
    }
}

/// Setting up or growing a manager's book as it is built succeeds and is about
/// the book of that manager.
pub proof fn books_are_about_their_manager(
    payer: Pubkey,
    manager: Pubkey,
    manager_signs: bool,
    additional_space: Option<u64>,
    accounts: Accounts,
    after: Seq<AccountState>,
    required: u64,
    program_id: Pubkey,
    r: Result<Vec<Effect>, ProgramError>,
)
    requires
        book_address(manager) matches Some((address, _)) && address == order_book_of(manager)@,
        handed(accounts, init_metas(payer, manager, order_book_of(manager), manager_signs)),
        schedule_processors::served(
            match additional_space {
                Some(space) => ScheduleCommitInstruction::GrowOrderBook(space),
                None => ScheduleCommitInstruction::InitOrderBook,
            },
            program_id,
            accounts,
            after,
            required,
            r,
        ),
    ensures
        r is Ok,
        r matches Ok(plan) ==> {
            &&& plan@.len() >= 1
            &&& additional_space is None ==> (deeds(plan@)[0] matches Deed::CreatePda {
                target,
                payer: who,
                ..
            } && accounts.at(target as int).key == order_book_of(manager) && accounts.at(
                who as int,
            ).key == payer)
            &&& additional_space is Some ==> (deeds(plan@).last() matches Deed::Resize {
                target,
                ..
            } && accounts.at(target as int).key == order_book_of(manager))
        },
{
    let metas = init_metas(payer, manager, order_book_of(manager), manager_signs);
    assert(accounts.at(0).key == metas[0].pubkey && accounts.at(1).key == metas[1].pubkey
        && accounts.at(2).key == metas[2].pubkey && accounts.at(3).key == metas[3].pubkey);
    if let Ok(plan) = r {
        assert(deeds(plan@).len() == plan@.len());
    }
}

/// A delegation as it is built hands over, in this order, the payer, the
/// account, its program, its buffer, record and metadata, the delegation
/// program and the system program.
pub proof fn a_delegation_is_about_its_account(
    payer: Pubkey,
    d: DelegateAccounts,
    commit_frequency_ms: u32,
    validator: Option<Pubkey>,
    accounts: Accounts,
    required: u64,
)
    requires
        handed(accounts, seq![writable(payer, true)] + d.metas()),
    ensures
        flexi_processors::answer(
            FlexiInstruction::Delegate { commit_frequency_ms, validator },
            accounts,
            required,
        ).1 matches Ok(plan) && (plan[0] matches Deed::Delegate { positions, .. } && {
            &&& accounts.at(positions[0] as int).key == payer
            &&& accounts.at(positions[0] as int).is_signer
            &&& accounts.at(positions[1] as int).key == d.delegated_account
            &&& accounts.at(positions[1] as int).is_writable
            &&& accounts.at(positions[2] as int).key == d.owner_program
            &&& accounts.at(positions[3] as int).key == d.delegate_buffer
            &&& accounts.at(positions[4] as int).key == d.delegation_record
            &&& accounts.at(positions[5] as int).key == d.delegation_metadata
            &&& accounts.at(positions[6] as int).key@ == DELEGATION_PROGRAM_ID@
            &&& accounts.at(positions[7] as int).key@ == SYSTEM_PROGRAM_ID@
        }),
{
    let metas = seq![writable(payer, true)] + d.metas();
    assert forall|i: int| 0 <= i < 8 implies (#[trigger] accounts.at(i)).key == metas[i].pubkey
        && accounts.at(i).is_signer == metas[i].is_signer && accounts.at(i).is_writable
        == metas[i].is_writable by {}
    assert(accounts.at(0).key == payer && accounts.at(1).key == d.delegated_account && accounts.at(
        2,
    ).key == d.owner_program && accounts.at(3).key == d.delegate_buffer && accounts.at(4).key
        == d.delegation_record && accounts.at(5).key == d.delegation_metadata);
    assert(accounts.at(6).key == metas[6].pubkey && accounts.at(7).key == metas[7].pubkey);
}

/// A commit of the load program as it is built names the accounts that it was
/// built for, in order.
pub proof fn a_load_commit_is_about_its_accounts(
    payer: Pubkey,
    pool: Seq<Pubkey>,
    id: u64,
    accounts: Accounts,
    after: Accounts,
    r: Result<Vec<Effect>, ProgramError>,
)
    requires
        handed(accounts, committing(payer, pool)),
        crate::redline::entry::served(Instruction::CommitAccounts { id }, accounts, after, r),
    ensures
        r matches Ok(plan) && plan@.len() == 1 && (plan@[0] matches Effect::Commit {
            payer: who,
            committees,
            magic_context,
            magic_program,
            ..
        } && accounts.at(who as int).key == payer && accounts.at(who as int).is_signer
            && accounts.at(magic_context as int).key@ == MAGIC_CONTEXT_ID@ && accounts.at(
            magic_program as int,
        ).key@ == MAGIC_PROGRAM_ID@ && lead_to(accounts, committees@, pool) && forall|i: int|
            0 <= i < committees@.len() ==> accounts.at(
                #[trigger] committees@[i] as int,
            ).is_writable && !accounts.at(committees@[i] as int).is_signer),
{
    let metas = committing(payer, pool);
    assert(metas.len() == 3 + pool.len());
    assert forall|i: int| 0 <= i < pool.len() implies (#[trigger] accounts.at(3 + i)).key
        == pool[i] && accounts.at(3 + i).is_writable && !accounts.at(3 + i).is_signer by {
        assert(accounts.at(3 + i).key == metas[3 + i].pubkey);
    }
    assert(accounts.at(0).key == metas[0].pubkey && accounts.at(1).key == metas[1].pubkey
        && accounts.at(2).key == metas[2].pubkey);
}

} // verus!
