//! What the fixture program does with counters and order books. An account
//! that has to lie at a searched address is refused when the search finds
//! another address or none.
use crate::address::{bump_if_at, bump_of, seed_bytes, two_seeds, with_bump};
use crate::bytes::{append_bytes, copy_bytes, le32, le64, u32_bytes, u64_bytes};
use crate::chain::{
    key, positions, readonly, writable, AccountMeta, AccountState, Accounts, ProgramError,
    Pubkey, SolanaInstruction,
};
use crate::effects::{
    all_seeds, delegation_answer, handler_states, no_plan, plan_delegation, plan_of, plan_of_two,
    says, Answer, CallHandler, CommitIntent, CommitState, Deed, Effect, HandlerState, ShortMeta,
    UndelegateIntent, UndelegateState,
};
use crate::fields::{fields_format, Field};
use crate::ids::DELEGATION_PROGRAM_ID;
use crate::redline::processors::{holds_seeds, is_undelegate, undelegate_for};
use crate::redshift::flexi::{is_poisoned, undelegate_label_poison, FAIL_UNDELEGATION_CODE};
use crate::redshift::order_book::{
    applied, capacity_of, order_book_apply, BookUpdate, OrderLevel, ORDER_BOOK_HEADER_SIZE,
    ORDER_LEVEL_SIZE,
};
use crate::redshift::schedule_commit::{
    all_found, book_address, counter_address, counters_read_back, encoding_is_read_back,
    order_book_pda_and_bump, pda_and_bump,
    DelegateCpiArgs, DelegateOrderBookArgs, MainAccount, ScheduleCommitCpiArgs,
    ScheduleCommitCpiWithVaultArgs, ScheduleCommitInstruction, ScheduleCommitType,
    ScheduleCommitWithOrderBookArgs, DLP_REQUEST_UNDELEGATION_TAG, FAIL_UNDELEGATION_COUNT,
    MAGIC_SCHEDULE_COMMIT_AND_UNDELEGATE_TAG, MAGIC_SCHEDULE_COMMIT_TAG, MAIN_ACCOUNT_SIZE,
    ORDER_BOOK_INIT_SIZE, ORDER_BOOK_SEED, PDA_SEED,
};
use crate::redshift::{ID, SCHEDULE_COMMIT_TAG};
use crate::system::{transfer_bytes, transfer_data};
use vstd::prelude::*;

verus! {

/// How an account is passed on with its own flags.
pub open spec fn own_meta(a: AccountState) -> AccountMeta {
    AccountMeta { pubkey: a.key, is_signer: a.is_signer, is_writable: a.is_writable }
}

/// The place of a vault in a list of accounts, if there is one.
pub open spec fn vault_place(vault: Option<usize>) -> Seq<usize> {
    match vault {
        Some(place) => seq![place],
        None => Seq::empty(),
    }
}

/// The metas of a commit that goes to the magic program as it is: the payer
/// signs and keeps its writability, and the committees keep their flags.
pub open spec fn raw_metas(
    accounts: Accounts,
    payer: usize,
    committees: Seq<usize>,
    magic_context: usize,
    vault: Option<usize>,
) -> Seq<AccountMeta> {
    seq![
        AccountMeta {
            pubkey: accounts.at(payer as int).key,
            is_signer: true,
            is_writable: accounts.at(payer as int).is_writable,
        },
        writable(accounts.at(magic_context as int).key, false),
    ] + vault_place(vault).map(|i: int, at: usize| writable(accounts.at(at as int).key, false))
        + committees.map(|i: int, at: usize| own_meta(accounts.at(at as int)))
}

impl ScheduleCommitType {
    /// What this way of committing asks for.
    pub open spec fn deed(
        self,
        accounts: Accounts,
        payer: usize,
        committees: Seq<usize>,
        magic_context: usize,
        magic_program: usize,
        magic_fee_vault: Option<usize>,
    ) -> Deed {
        match self {
            ScheduleCommitType::Commit => Deed::IntentBundle {
                payer,
                magic_context,
                magic_program,
                magic_fee_vault,
                commit: Some(
                    CommitState { accounts: committees, handlers: Seq::empty(), callback: None },
                ),
                commit_and_undelegate: None,
            },
            ScheduleCommitType::CommitAndUndelegate => Deed::IntentBundle {
                payer,
                magic_context,
                magic_program,
                magic_fee_vault,
                commit: None,
                commit_and_undelegate: Some(
                    UndelegateState {
                        accounts: committees,
                        commit_handlers: Seq::empty(),
                        undelegate_handlers: Seq::empty(),
                    },
                ),
            },
            ScheduleCommitType::CommitFinalize => Deed::Invoke {
                program_id: accounts.at(magic_program as int).key,
                accounts: raw_metas(accounts, payer, committees, magic_context, magic_fee_vault),
                data: le32(MAGIC_SCHEDULE_COMMIT_TAG),
                infos: seq![payer, magic_context] + vault_place(magic_fee_vault) + committees,
                signer_seeds: Seq::empty(),
            },
            ScheduleCommitType::CommitFinalizeAndUndelegate => Deed::Commit {
                payer,
                committees,
                magic_context,
                magic_program,
                magic_fee_vault,
                undelegate: true,
            },
        }
    }

    /// Asks for a commit of some accounts.
    fn invoke_commit(
        self,
        accounts: &Accounts,
        payer: usize,
        committees: Vec<usize>,
        magic_context: usize,
        magic_program: usize,
        magic_fee_vault: Option<usize>,
    ) -> (r: Effect)
        requires
            accounts.wf(),
            payer < accounts.count(),
            magic_context < accounts.count(),
            magic_program < accounts.count(),
            magic_fee_vault matches Some(vault) ==> vault < accounts.count(),
            forall|i: int|
                0 <= i < committees@.len() ==> (#[trigger] committees@[i]) < accounts.count(),
        ensures
            r@ == self.deed(
                *accounts,
                payer,
                committees@,
                magic_context,
                magic_program,
                magic_fee_vault,
            ),
    {
        match self {
            ScheduleCommitType::Commit => invoke_via_builder(
                payer,
                committees,
                magic_context,
                magic_program,
                magic_fee_vault,
                false,
            ),
            ScheduleCommitType::CommitAndUndelegate => invoke_via_builder(
                payer,
                committees,
                magic_context,
                magic_program,
                magic_fee_vault,
                true,
            ),
            ScheduleCommitType::CommitFinalize => invoke_schedule_commit_raw(
                accounts,
                payer,
                committees,
                magic_context,
                magic_program,
                magic_fee_vault,
            ),
            ScheduleCommitType::CommitFinalizeAndUndelegate => Effect::Commit {
                payer,
                committees,
                magic_context,
                magic_program,
                magic_fee_vault,
                undelegate: true,
            },
        }
    }
}

/// Asks for a bundle that commits some accounts, and maybe returns them.
fn invoke_via_builder(
    payer: usize,
    committees: Vec<usize>,
    magic_context: usize,
    magic_program: usize,
    magic_fee_vault: Option<usize>,
    undelegate: bool,
) -> (r: Effect)
    ensures
        r@ == (Deed::IntentBundle {
            payer,
            magic_context,
            magic_program,
            magic_fee_vault,
            commit: if undelegate {
                None
            } else {
                Some(CommitState { accounts: committees@, handlers: Seq::empty(), callback: None })
            },
            commit_and_undelegate: if undelegate {
                Some(
                    UndelegateState {
                        accounts: committees@,
                        commit_handlers: Seq::empty(),
                        undelegate_handlers: Seq::empty(),
                    },
                )
            } else {
                None
            },
        }),
{
    let no_handlers: Vec<CallHandler> = Vec::new();
    assert(handler_states(no_handlers@) =~= Seq::<HandlerState>::empty());
    if undelegate {
        let more_handlers: Vec<CallHandler> = Vec::new();
        assert(handler_states(more_handlers@) =~= Seq::<HandlerState>::empty());
        Effect::IntentBundle {
            payer,
            magic_context,
            magic_program,
            magic_fee_vault,
            commit: None,
            commit_and_undelegate: Some(
                UndelegateIntent {
                    accounts: committees,
                    commit_handlers: no_handlers,
                    undelegate_handlers: more_handlers,
                },
            ),
        }
    } else {
        Effect::IntentBundle {
            payer,
            magic_context,
            magic_program,
            magic_fee_vault,
            commit: Some(
                CommitIntent { accounts: committees, handlers: no_handlers, callback: None },
            ),
            commit_and_undelegate: None,
        }
    }
}

/// Asks the magic program itself for a commit of some accounts.
fn invoke_schedule_commit_raw(
    accounts: &Accounts,
    payer: usize,
    committees: Vec<usize>,
    magic_context: usize,
    magic_program: usize,
    magic_fee_vault: Option<usize>,
) -> (r: Effect)
    requires
        accounts.wf(),
        payer < accounts.count(),
        magic_context < accounts.count(),
        magic_program < accounts.count(),
        magic_fee_vault matches Some(vault) ==> vault < accounts.count(),
        forall|i: int|
            0 <= i < committees@.len() ==> (#[trigger] committees@[i]) < accounts.count(),
    ensures
        r@ == ScheduleCommitType::CommitFinalize.deed(
            *accounts,
            payer,
            committees@,
            magic_context,
            magic_program,
            magic_fee_vault,
        ),
{
    let mut metas: Vec<AccountMeta> = vec![
        AccountMeta {
            pubkey: accounts.get(payer).key,
            is_signer: true,
            is_writable: accounts.get(payer).is_writable,
        },
        AccountMeta::new(accounts.get(magic_context).key, false),
    ];
    let mut infos: Vec<usize> = vec![payer, magic_context];
    if let Some(vault) = magic_fee_vault {
        metas.push(AccountMeta::new(accounts.get(vault).key, false));
        infos.push(vault);
    }
    let ghost front = raw_metas(*accounts, payer, Seq::empty(), magic_context, magic_fee_vault);
    let ghost first_infos = seq![payer, magic_context] + vault_place(magic_fee_vault);
    assert(metas@ =~= front);
    assert(infos@ =~= first_infos);
    let mut i: usize = 0;
    while i < committees.len()
        invariant
            accounts.wf(),
            forall|j: int|
                0 <= j < committees@.len() ==> (#[trigger] committees@[j]) < accounts.count(),
            i <= committees@.len(),
            metas@ == front + committees@.take(i as int).map(
                |k: int, at: usize| own_meta(accounts.at(at as int)),
            ),
            infos@ == first_infos + committees@.take(i as int),
        decreases committees@.len() - i,
    {
        let committee = accounts.get(committees[i]);
        metas.push(
            AccountMeta {
                pubkey: committee.key,
                is_signer: committee.is_signer,
                is_writable: committee.is_writable,
            },
        );
        infos.push(committees[i]);
        i = i + 1;
        assert(metas@ =~= front + committees@.take(i as int).map(
            |k: int, at: usize| own_meta(accounts.at(at as int)),
        ));
        assert(infos@ =~= first_infos + committees@.take(i as int));
    }
    assert(committees@.take(i as int) =~= committees@);
    let ghost all = raw_metas(*accounts, payer, committees@, magic_context, magic_fee_vault);
    assert(metas@ =~= all);
    assert(infos@ =~= seq![payer, magic_context] + vault_place(magic_fee_vault) + committees@);
    let signer_seeds: Vec<Vec<Vec<u8>>> = Vec::new();
    assert(all_seeds(signer_seeds@) =~= Seq::<Seq<Seq<u8>>>::empty());
    Effect::Invoke {
        instruction: SolanaInstruction {
            program_id: accounts.get(magic_program).key,
            accounts: metas,
            data: u32_bytes(MAGIC_SCHEDULE_COMMIT_TAG),
        },
        infos,
        signer_seeds,
    }
}

/// The answer that sets up the counter of a player: the account is created
/// and holds the player and a zero.
pub open spec fn init_answer(program_id: Pubkey, accounts: Accounts) -> Answer {
    if accounts.count() != 4 {
        Err(ProgramError::NotEnoughAccountKeys)
    } else if !accounts.at(1).is_signer {
        Err(ProgramError::MissingRequiredSignature)
    } else {
        let player = accounts.at(1).key;
        match bump_of(counter_address(player), accounts.at(2).key) {
            None => Err(ProgramError::InvalidSeeds),
            Some(bump) => Ok(
                seq![
                    Deed::CreatePda {
                        target: 2,
                        owner: program_id,
                        space: MAIN_ACCOUNT_SIZE,
                        seeds: seq![PDA_SEED@, player@].push(seq![bump]),
                        system_program: 3,
                        payer: 0,
                    },
                    Deed::Write { target: 2, bytes: MainAccount { player, count: 0 }.encoding() },
                ],
            ),
        }
    }
}

/// Sets up the counter of a player.
pub fn process_init(program_id: &Pubkey, accounts: &Accounts) -> (r: Result<
    Vec<Effect>,
    ProgramError,
>)
    requires
        accounts.wf(),
    ensures
        says(r, init_answer(*program_id, *accounts)),
{
    if accounts.len() != 4 {
        return Err(ProgramError::NotEnoughAccountKeys);
    }
    let player = accounts.get(1);
    if !player.is_signer {
        return Err(ProgramError::MissingRequiredSignature);
    }
    match bump_if_at(pda_and_bump(&player.key), &accounts.get(2).key) {
        None => Err(ProgramError::InvalidSeeds),
        Some(bump) => {
            let account = MainAccount { player: player.key, count: 0 };
            Ok(
                plan_of_two(
                    Effect::CreatePda {
                        target: 2,
                        owner: *program_id,
                        space: MAIN_ACCOUNT_SIZE,
                        seeds: with_bump(two_seeds(PDA_SEED.as_slice(), &player.key), bump),
                        system_program: 3,
                        payer: 0,
                    },
                    Effect::Write { target: 2, bytes: account.encode() },
                ),
            )
        },
    }
}

/// Delegates the counter of a player.
pub fn process_delegate_cpi(accounts: &Accounts, args: &DelegateCpiArgs) -> (r: Result<
    Vec<Effect>,
    ProgramError,
>)
    ensures
        says(
            r,
            delegation_answer(
                *accounts,
                seq![PDA_SEED@, args.player@],
                args.commit_frequency_ms,
                args.validator,
            ),
        ),
{
    plan_delegation(
        accounts,
        two_seeds(PDA_SEED.as_slice(), &args.player),
        args.commit_frequency_ms,
        args.validator,
    )
}

/// Delegates an order book.
pub fn process_delegate_order_book(accounts: &Accounts, args: &DelegateOrderBookArgs) -> (r:
    Result<Vec<Effect>, ProgramError>)
    ensures
        says(
            r,
            delegation_answer(
                *accounts,
                seq![ORDER_BOOK_SEED@, args.book_manager@],
                args.commit_frequency_ms,
                args.validator,
            ),
        ),
{
    plan_delegation(
        accounts,
        two_seeds(ORDER_BOOK_SEED.as_slice(), &args.book_manager),
        args.commit_frequency_ms,
        args.validator,
    )
}

/// The accounts once the counts at some positions were raised by one, one
/// position after the other; the first account that is not a counter stops
/// it.
pub open spec fn raised(accounts: Seq<AccountState>, refs: Seq<usize>, committees: Seq<usize>) -> (
    Seq<AccountState>,
    Result<(), ProgramError>,
)
    decreases committees.len(),
{
    if committees.len() == 0 {
        (accounts, Ok(()))
    } else {
        let (done, answer) = raised(accounts, refs, committees.drop_last());
        let s = refs[committees.last() as int] as int;
        match answer {
            Err(e) => (done, Err(e)),
            Ok(_) => match MainAccount::decoded(done[s].data) {
                None => (done, Err(ProgramError::BorshIoError)),
                Some(counter) => (
                    done.update(
                        s,
                        done[s].with_data(
                            MainAccount {
                                player: counter.player,
                                count: (counter.count + 1) as u64,
                            }.encoding(),
                        ),
                    ),
                    Ok(()),
                ),
            },
        }
    }
}

/// Whether no count is raised beyond the largest there is.
pub open spec fn raisable(accounts: Seq<AccountState>, refs: Seq<usize>, committees: Seq<usize>)
    -> bool {
    forall|k: int|
        0 <= k < committees.len() ==> {
            let (done, answer) = #[trigger] raised(accounts, refs, committees.take(k));
            answer is Ok ==> match MainAccount::decoded(done[refs[committees[k] as int] as int].data) {
                Some(counter) => counter.count < u64::MAX,
                None => true,
            }
        }
}

/// Once raising has stopped, the rest of the positions change nothing.
proof fn lemma_raised_stops(
    accounts: Seq<AccountState>,
    refs: Seq<usize>,
    committees: Seq<usize>,
    k: int,
)
    requires
        0 <= k <= committees.len(),
        raised(accounts, refs, committees.take(k)).1 is Err,
    ensures
        raised(accounts, refs, committees) == raised(accounts, refs, committees.take(k)),
    decreases committees.len(),
{
    if k == committees.len() {
        assert(committees.take(k) =~= committees);
    } else {
        assert(committees.drop_last().take(k) =~= committees.take(k));
        lemma_raised_stops(accounts, refs, committees.drop_last(), k);
    }
}

/// Whether no count is raised beyond the largest there is.
pub fn can_raise(accounts: &Accounts, committees: &[usize]) -> (r: bool)
    requires
        accounts.wf(),
        forall|i: int|
            0 <= i < committees@.len() ==> (#[trigger] committees@[i]) < accounts.count(),
    ensures
        r == raisable(accounts@, accounts.refs@, committees@),
{
    let ghost before = accounts@;
    let ghost refs = accounts.refs@;
    let mut held: Accounts = accounts.copy();
    assert forall|j: int| 0 <= j < held.refs@.len() implies (#[trigger] held.refs@[j])
        < held.store@.len() by {
        assert(held@.len() == accounts@.len());
        assert(accounts.refs@[j] < accounts.store@.len());
    }
    assert(committees@.take(0) =~= Seq::<usize>::empty());
    let mut i: usize = 0;
    while i < committees.len()
        invariant
            i <= committees@.len(),
            held.wf(),
            held.refs@ == refs,
            forall|j: int| 0 <= j < committees@.len() ==> (#[trigger] committees@[j]) < refs.len(),
            (held@, Ok::<(), ProgramError>(())) == raised(before, refs, committees@.take(i as int)),
            before == accounts@,
            refs == accounts.refs@,
            forall|k: int|
                0 <= k < i ==> {
                    let (done, answer) = #[trigger] raised(before, refs, committees@.take(k));
                    answer is Ok ==> match MainAccount::decoded(
                        done[refs[committees@[k] as int] as int].data,
                    ) {
                        Some(counter) => counter.count < u64::MAX,
                        None => true,
                    }
                },
        decreases committees@.len() - i,
    {
        let at: usize = committees[i];
        let ghost next = committees@.take(i + 1);
        proof {
            assert(next.drop_last() =~= committees@.take(i as int));
            assert(next.last() == at);
            assert(held.at(at as int) == held@[refs[at as int] as int]);
        }
        match MainAccount::decode(held.get(at).data.as_slice()) {
            None => {
                assert forall|k: int| i < k < committees@.len() implies (#[trigger] raised(
                    before,
                    refs,
                    committees@.take(k),
                )).1 is Err by {
                    assert(committees@.take(k).take(i + 1) =~= next);
                    lemma_raised_stops(before, refs, committees@.take(k), i + 1);
                }
                return true;
            },
            Some(counter) => {
                if counter.count == u64::MAX {
                    assert(raised(before, refs, committees@.take(i as int)).1 is Ok);
                    return false;
                }
                let more = MainAccount { player: counter.player, count: counter.count + 1 };
                held.set_data(at, more.encode());
            },
        }
        i = i + 1;
    }
    true
}

/// Raises the counts at some positions by one.
pub fn increase_committee_counts(accounts: &mut Accounts, committees: &[usize]) -> (r: Result<
    (),
    ProgramError,
>)
    requires
        old(accounts).wf(),
        forall|i: int|
            0 <= i < committees@.len() ==> (#[trigger] committees@[i]) < old(accounts).count(),
        raisable(old(accounts)@, old(accounts).refs@, committees@),
    ensures
        final(accounts).wf(),
        final(accounts).refs@ == old(accounts).refs@,
        (final(accounts)@, r) == raised(old(accounts)@, old(accounts).refs@, committees@),
{
    let ghost before = accounts@;
    let ghost refs = accounts.refs@;
    let mut i: usize = 0;
    while i < committees.len()
        invariant
            i <= committees@.len(),
            accounts.wf(),
            before == old(accounts)@,
            refs == old(accounts).refs@,
            accounts.refs@ == refs,
            forall|j: int| 0 <= j < committees@.len() ==> (#[trigger] committees@[j]) < refs.len(),
            raisable(before, refs, committees@),
            (accounts@, Ok::<(), ProgramError>(())) == raised(
                before,
                refs,
                committees@.take(i as int),
            ),
        decreases committees@.len() - i,
    {
        let at: usize = committees[i];
        let ghost next = committees@.take(i + 1);
        proof {
            assert(next.drop_last() =~= committees@.take(i as int));
            assert(next.last() == at);
            assert(raised(before, refs, committees@.take(i as int)).1 is Ok);
            assert(accounts.at(at as int) == accounts@[refs[at as int] as int]);
        }
        match MainAccount::decode(accounts.get(at).data.as_slice()) {
            None => {
                proof {
                    lemma_raised_stops(before, refs, committees@, i + 1);
                }
                return Err(ProgramError::BorshIoError);
            },
            Some(counter) => {
                let more = MainAccount { player: counter.player, count: counter.count + 1 };
                accounts.set_data(at, more.encode());
            },
        }
        i = i + 1;
    }
    assert(committees@.take(i as int) =~= committees@);
    Ok(())
}

/// The accounts once the counter at the first position was given another
/// count, and the answer to that.
pub open spec fn counted(accounts: Accounts, count: spec_fn(u64) -> u64) -> (
    Seq<AccountState>,
    Answer,
) {
    if accounts.count() < 1 {
        (accounts@, Err(ProgramError::NotEnoughAccountKeys))
    } else {
        match MainAccount::decoded(accounts.at(0).data) {
            None => (accounts@, Err(ProgramError::BorshIoError)),
            Some(counter) => (
                accounts@.update(
                    accounts.refs@[0] as int,
                    accounts.at(0).with_data(
                        MainAccount {
                            player: counter.player,
                            count: count(counter.count),
                        }.encoding(),
                    ),
                ),
                Ok(Seq::empty()),
            ),
        }
    }
}

/// Raises the count of the first account by one.
pub fn process_increase_count(accounts: &mut Accounts) -> (r: Result<Vec<Effect>, ProgramError>)
    requires
        old(accounts).wf(),
        old(accounts).count() > 0 ==> (MainAccount::decoded(old(accounts).at(0).data) matches Some(
            counter,
        ) ==> counter.count < u64::MAX),
    ensures
        final(accounts).wf(),
        final(accounts).refs@ == old(accounts).refs@,
        final(accounts)@ == counted(*old(accounts), |n: u64| (n + 1) as u64).0,
        says(r, counted(*old(accounts), |n: u64| (n + 1) as u64).1),
{
    if accounts.len() < 1 {
        return Err(ProgramError::NotEnoughAccountKeys);
    }
    match MainAccount::decode(accounts.get(0).data.as_slice()) {
        None => Err(ProgramError::BorshIoError),
        Some(counter) => {
            let more = MainAccount { player: counter.player, count: counter.count + 1 };
            accounts.set_data(0, more.encode());
            Ok(no_plan())
        },
    }
}

/// Sets the count of the first account.
pub fn process_set_count(accounts: &mut Accounts, value: u64) -> (r: Result<
    Vec<Effect>,
    ProgramError,
>)
    requires
        old(accounts).wf(),
    ensures
        final(accounts).wf(),
        final(accounts).refs@ == old(accounts).refs@,
        final(accounts)@ == counted(*old(accounts), |n: u64| value).0,
        says(r, counted(*old(accounts), |n: u64| value).1),
{
    if accounts.len() < 1 {
        return Err(ProgramError::NotEnoughAccountKeys);
    }
    match MainAccount::decode(accounts.get(0).data.as_slice()) {
        None => Err(ProgramError::BorshIoError),
        Some(counter) => {
            let changed = MainAccount { player: counter.player, count: value };
            accounts.set_data(0, changed.encode());
            Ok(no_plan())
        },
    }
}

/// The first position behind the payer, the magic context, the magic program
/// and, with `has_magic_vault`, the vault.
pub open spec fn first_committee(has_magic_vault: bool) -> int {
    if has_magic_vault {
        4
    } else {
        3
    }
}

/// The position of the vault, if there is one.
pub open spec fn vault_at(has_magic_vault: bool) -> Option<usize> {
    if has_magic_vault {
        Some(3)
    } else {
        None
    }
}

/// Why the accounts of a commit are refused, if they are.
pub open spec fn commit_refused(accounts: Accounts, has_magic_vault: bool, players: nat) -> Option<
    ProgramError,
> {
    let first = first_committee(has_magic_vault);
    if accounts.count() < first {
        Some(ProgramError::NotEnoughAccountKeys)
    } else if accounts.count() - first != players {
        Some(ProgramError::InvalidArgument)
    } else {
        None
    }
}

/// The positions of the committees.
fn committees_behind(accounts: &Accounts, has_magic_vault: bool, players: usize) -> (r: Result<
    Vec<usize>,
    ProgramError,
>)
    ensures
        match r {
            Ok(committees) => commit_refused(*accounts, has_magic_vault, players as nat) is None
                && committees@ == positions(
                first_committee(has_magic_vault),
                accounts.count() as int,
            ) && forall|i: int|
                0 <= i < committees@.len() ==> (#[trigger] committees@[i]) < accounts.count(),
            Err(e) => commit_refused(*accounts, has_magic_vault, players as nat) == Some(e),
        },
{
    let first: usize = if has_magic_vault {
        4
    } else {
        3
    };
    if accounts.len() < first {
        return Err(ProgramError::NotEnoughAccountKeys);
    }
    if accounts.len() - first != players {
        return Err(ProgramError::InvalidArgument);
    }
    Ok(accounts.positions_from(first))
}

/// The accounts once a commit was scheduled, and the answer to that: with
/// `modify_accounts` the counts are raised before, and with `commit_payer` the
/// payer is committed too.
pub open spec fn schedule_answer(
    accounts: Accounts,
    args: ScheduleCommitCpiArgs,
    commit_type: ScheduleCommitType,
) -> (Seq<AccountState>, Answer) {
    match commit_refused(accounts, args.has_magic_vault, args.players@.len()) {
        Some(e) => (accounts@, Err(e)),
        None => {
            let committees = positions(
                first_committee(args.has_magic_vault),
                accounts.count() as int,
            );
            let (after, raise) = if args.modify_accounts {
                raised(accounts@, accounts.refs@, committees)
            } else {
                (accounts@, Ok(()))
            };
            let all = if args.commit_payer {
                committees.push(0)
            } else {
                committees
            };
            match raise {
                Err(e) => (after, Err(e)),
                Ok(_) => (
                    after,
                    Ok(
                        seq![
                            commit_type.deed(
                                accounts,
                                0,
                                all,
                                1,
                                2,
                                vault_at(args.has_magic_vault),
                            ),
                        ],
                    ),
                ),
            }
        },
    }
}

/// Commits counters, after raising their counts if that is asked for.
pub fn process_schedulecommit_cpi(
    accounts: &mut Accounts,
    args: &ScheduleCommitCpiArgs,
    commit_type: ScheduleCommitType,
) -> (r: Result<Vec<Effect>, ProgramError>)
    requires
        old(accounts).wf(),
        args.modify_accounts && commit_refused(
            *old(accounts),
            args.has_magic_vault,
            args.players@.len(),
        ) is None ==> raisable(
            old(accounts)@,
            old(accounts).refs@,
            positions(first_committee(args.has_magic_vault), old(accounts).count() as int),
        ),
    ensures
        final(accounts).wf(),
        final(accounts).refs@ == old(accounts).refs@,
        final(accounts)@ == schedule_answer(*old(accounts), *args, commit_type).0,
        says(r, schedule_answer(*old(accounts), *args, commit_type).1),
{
    let committees: Vec<usize> = match committees_behind(
        accounts,
        args.has_magic_vault,
        args.players.len(),
    ) {
        Ok(committees) => committees,
        Err(e) => {
            return Err(e);
        },
    };
    let mut all: Vec<usize> = accounts.positions_from(
        if args.has_magic_vault {
            4
        } else {
            3
        },
    );
    if args.commit_payer {
        all.push(0);
    }
    let effect = commit_type.invoke_commit(
        accounts,
        0,
        all,
        1,
        2,
        if args.has_magic_vault {
            Some(3)
        } else {
            None
        },
    );
    if args.modify_accounts {
        match increase_committee_counts(accounts, committees.as_slice()) {
            Ok(_) => {},
            Err(e) => {
                return Err(e);
            },
        }
    }
    Ok(plan_of(effect))
}

/// What commits every account behind the first ones.
pub open spec fn commit_rest(accounts: Accounts, has_magic_vault: bool, undelegate: bool) -> Deed {
    Deed::Commit {
        payer: 0,
        committees: positions(first_committee(has_magic_vault), accounts.count() as int),
        magic_context: 1,
        magic_program: 2,
        magic_fee_vault: vault_at(has_magic_vault),
        undelegate,
    }
}

/// The answer that commits counters, and maybe returns them.
pub open spec fn with_vault_answer(accounts: Accounts, args: ScheduleCommitCpiWithVaultArgs)
    -> Answer {
    match commit_refused(accounts, args.has_magic_vault, args.players@.len()) {
        Some(e) => Err(e),
        None => Ok(seq![commit_rest(accounts, args.has_magic_vault, args.undelegate)]),
    }
}

/// Commits counters, and maybe returns them.
pub fn process_schedulecommit_with_vault_cpi(
    accounts: &Accounts,
    args: &ScheduleCommitCpiWithVaultArgs,
) -> (r: Result<Vec<Effect>, ProgramError>)
    requires
        accounts.wf(),
    ensures
        says(r, with_vault_answer(*accounts, *args)),
{
    match committees_behind(accounts, args.has_magic_vault, args.players.len()) {
        Err(e) => Err(e),
        Ok(committees) => Ok(
            plan_of(
                Effect::Commit {
                    payer: 0,
                    committees,
                    magic_context: 1,
                    magic_program: 2,
                    magic_fee_vault: if args.has_magic_vault {
                        Some(3)
                    } else {
                        None
                    },
                    undelegate: args.undelegate,
                },
            ),
        ),
    }
}

/// The answer that returns counters and raises their counts afterwards.
pub open spec fn mod_after_answer(accounts: Accounts, players: Seq<Pubkey>) -> Answer {
    match commit_refused(accounts, false, players.len()) {
        Some(e) => Err(e),
        None => Ok(
            seq![
                commit_rest(accounts, false, true),
                Deed::IncreaseCounts { committees: positions(3, accounts.count() as int) },
            ],
        ),
    }
}

/// Returns counters and raises their counts afterwards.
pub fn process_commit_undelegate_mod_after(accounts: &Accounts, players: &[Pubkey]) -> (r: Result<
    Vec<Effect>,
    ProgramError,
>)
    requires
        accounts.wf(),
    ensures
        says(r, mod_after_answer(*accounts, players@)),
{
    match committees_behind(accounts, false, players.len()) {
        Err(e) => Err(e),
        Ok(committees) => {
            let raise: Vec<usize> = accounts.positions_from(3);
            Ok(
                plan_of_two(
                    Effect::Commit {
                        payer: 0,
                        committees,
                        magic_context: 1,
                        magic_program: 2,
                        magic_fee_vault: None,
                        undelegate: true,
                    },
                    Effect::IncreaseCounts { committees: raise },
                ),
            )
        },
    }
}

/// The seeds that sign for the counter of a player.
pub open spec fn signing_seeds(player: Pubkey) -> Seq<Seq<u8>> {
    seq![PDA_SEED@, player@].push(
        seq![
            match counter_address(player) {
                Some((_, bump)) => bump,
                None => 0,
            },
        ],
    )
}

/// The second request of a return: the counters sign for themselves.
pub open spec fn second_return(accounts: Accounts, players: Seq<Pubkey>) -> Deed {
    Deed::Invoke {
        program_id: accounts.at(2).key,
        accounts: seq![writable(accounts.at(0).key, true), writable(accounts.at(1).key, false)]
            + positions(3, accounts.count() as int).map(
            |i: int, at: usize|
                AccountMeta {
                    pubkey: accounts.at(at as int).key,
                    is_signer: true,
                    is_writable: accounts.at(at as int).is_writable,
                },
        ),
        data: le32(MAGIC_SCHEDULE_COMMIT_AND_UNDELEGATE_TAG),
        infos: seq![0usize, 1usize] + positions(3, accounts.count() as int),
        signer_seeds: players.map(|i: int, player: Pubkey| signing_seeds(player)),
    }
}

/// The answer that asks for the return of counters twice.
pub open spec fn twice_answer(accounts: Accounts, players: Seq<Pubkey>) -> Answer {
    match commit_refused(accounts, false, players.len()) {
        Some(e) => Err(e),
        None => if !all_found(players) {
            Err(ProgramError::InvalidSeeds)
        } else {
            Ok(seq![commit_rest(accounts, false, true), second_return(accounts, players)])
        },
    }
}

/// Asks for the return of counters twice: through the library, and then with
/// the signatures of the counters.
pub fn process_commit_undelegate_twice(accounts: &Accounts, players: &[Pubkey]) -> (r: Result<
    Vec<Effect>,
    ProgramError,
>)
    requires
        accounts.wf(),
    ensures
        says(r, twice_answer(*accounts, players@)),
{
    let committees: Vec<usize> = match committees_behind(accounts, false, players.len()) {
        Err(e) => {
            return Err(e);
        },
        Ok(committees) => committees,
    };
    let mut signer_seeds: Vec<Vec<Vec<u8>>> = Vec::new();
    let ghost wanted = players@.map(|i: int, player: Pubkey| signing_seeds(player));
    let mut k: usize = 0;
    assert(all_seeds(signer_seeds@) =~= wanted.take(0));
    while k < players.len()
        invariant
            k <= players@.len(),
            commit_refused(*accounts, false, players@.len()) is None,
            forall|j: int| 0 <= j < k ==> counter_address(#[trigger] players@[j]) is Some,
            wanted == players@.map(|i: int, player: Pubkey| signing_seeds(player)),
            all_seeds(signer_seeds@) == wanted.take(k as int),
        decreases players@.len() - k,
    {
        match pda_and_bump(&players[k]) {
            None => {
                assert(counter_address(players@[k as int]) is None);
                return Err(ProgramError::InvalidSeeds);
            },
            Some((_, bump)) => {
                let ghost earlier = signer_seeds@;
                let seeds: Vec<Vec<u8>> = with_bump(
                    two_seeds(PDA_SEED.as_slice(), &players[k]),
                    bump,
                );
                assert(seed_bytes(seeds@) =~= signing_seeds(players@[k as int]));
                signer_seeds.push(seeds);
                assert(all_seeds(signer_seeds@) =~= all_seeds(earlier).push(seed_bytes(seeds@)));
            },
        }
        k = k + 1;
        assert(all_seeds(signer_seeds@) =~= wanted.take(k as int));
    }
    assert(wanted.take(k as int) =~= wanted);
    let mut metas: Vec<AccountMeta> = vec![
        AccountMeta::new(accounts.get(0).key, true),
        AccountMeta::new(accounts.get(1).key, false),
    ];
    let mut infos: Vec<usize> = vec![0, 1];
    let ghost front = metas@;
    let ghost signing = |i: int, at: usize|
        AccountMeta {
            pubkey: accounts.at(at as int).key,
            is_signer: true,
            is_writable: accounts.at(at as int).is_writable,
        };
    let mut i: usize = 0;
    assert(metas@ =~= front + committees@.take(0).map(signing));
    assert(infos@ =~= seq![0usize, 1usize] + committees@.take(0));
    while i < committees.len()
        invariant
            accounts.wf(),
            forall|j: int|
                0 <= j < committees@.len() ==> (#[trigger] committees@[j]) < accounts.count(),
            i <= committees@.len(),
            signing == (|i: int, at: usize|
                AccountMeta {
                    pubkey: accounts.at(at as int).key,
                    is_signer: true,
                    is_writable: accounts.at(at as int).is_writable,
                }),
            metas@ == front + committees@.take(i as int).map(signing),
            infos@ == seq![0usize, 1usize] + committees@.take(i as int),
        decreases committees@.len() - i,
    {
        let committee = accounts.get(committees[i]);
        metas.push(
            AccountMeta {
                pubkey: committee.key,
                is_signer: true,
                is_writable: committee.is_writable,
            },
        );
        infos.push(committees[i]);
        i = i + 1;
        assert(metas@ =~= front + committees@.take(i as int).map(signing));
        assert(infos@ =~= seq![0usize, 1usize] + committees@.take(i as int));
    }
    assert(committees@.take(i as int) =~= committees@);
    let second = Effect::Invoke {
        instruction: SolanaInstruction {
            program_id: accounts.get(2).key,
            accounts: metas,
            data: u32_bytes(MAGIC_SCHEDULE_COMMIT_AND_UNDELEGATE_TAG),
        },
        infos,
        signer_seeds,
    };
    assert(second@ =~= second_return(*accounts, players@));
    Ok(
        plan_of_two(
            Effect::Commit {
                payer: 0,
                committees,
                magic_context: 1,
                magic_program: 2,
                magic_fee_vault: None,
                undelegate: true,
            },
            second,
        ),
    )
}

/// The answer that creates an order book.
pub open spec fn init_book_answer(accounts: Accounts) -> Answer {
    if accounts.count() != 4 {
        Err(ProgramError::NotEnoughAccountKeys)
    } else if !accounts.at(0).is_signer {
        Err(ProgramError::MissingRequiredSignature)
    } else {
        let book_manager = accounts.at(1).key;
        match bump_of(book_address(book_manager), accounts.at(2).key) {
            None => Err(ProgramError::InvalidSeeds),
            Some(bump) => Ok(
                seq![
                    Deed::CreatePda {
                        target: 2,
                        owner: key(ID),
                        space: ORDER_BOOK_INIT_SIZE,
                        seeds: seq![ORDER_BOOK_SEED@, book_manager@].push(seq![bump]),
                        system_program: 3,
                        payer: 0,
                    },
                ],
            ),
        }
    }
}

/// Creates an order book.
pub fn process_init_order_book(accounts: &Accounts) -> (r: Result<Vec<Effect>, ProgramError>)
    requires
        accounts.wf(),
    ensures
        says(r, init_book_answer(*accounts)),
{
    if accounts.len() != 4 {
        return Err(ProgramError::NotEnoughAccountKeys);
    }
    if !accounts.get(0).is_signer {
        return Err(ProgramError::MissingRequiredSignature);
    }
    let book_manager = accounts.get(1).key;
    match bump_if_at(order_book_pda_and_bump(&book_manager), &accounts.get(2).key) {
        None => Err(ProgramError::InvalidSeeds),
        Some(bump) => Ok(
            plan_of(
                Effect::CreatePda {
                    target: 2,
                    owner: Pubkey::new(ID),
                    space: ORDER_BOOK_INIT_SIZE,
                    seeds: with_bump(two_seeds(ORDER_BOOK_SEED.as_slice(), &book_manager), bump),
                    system_program: 3,
                    payer: 0,
                },
            ),
        ),
    }
}

/// Why growing an order book is refused, if it is.
pub open spec fn grow_refused(accounts: Accounts) -> Option<ProgramError> {
    if accounts.count() != 4 {
        Some(ProgramError::NotEnoughAccountKeys)
    } else if !accounts.at(0).is_signer {
        Some(ProgramError::MissingRequiredSignature)
    } else if bump_of(book_address(accounts.at(1).key), accounts.at(2).key) is None {
        Some(ProgramError::InvalidSeeds)
    } else {
        None
    }
}

/// The size of an order book that has grown; the balance that an account of
/// this size needs is what [`process_grow_order_book`] takes.
pub fn grown_size(accounts: &Accounts, additional_space: u64) -> (r: Result<usize, ProgramError>)
    requires
        accounts.wf(),
        grow_refused(*accounts) is None ==> accounts.at(2).data.len() + additional_space
            <= usize::MAX,
    ensures
        match r {
            Ok(size) => grow_refused(*accounts) is None && size == accounts.at(2).data.len()
                + additional_space,
            Err(e) => grow_refused(*accounts) == Some(e),
        },
{
    if accounts.len() != 4 {
        return Err(ProgramError::NotEnoughAccountKeys);
    }
    if !accounts.get(0).is_signer {
        return Err(ProgramError::MissingRequiredSignature);
    }
    let book_manager = accounts.get(1).key;
    if bump_if_at(order_book_pda_and_bump(&book_manager), &accounts.get(2).key).is_none() {
        return Err(ProgramError::InvalidSeeds);
    }
    let held = &accounts.get(2).data;
    assert(held.len() == accounts.at(2).data.len());
    Ok(held.len() + additional_space as usize)
}

/// The answer that grows an order book: the payer fills up what its balance
/// lacks for the new size, and then the size changes.
pub open spec fn grow_answer(accounts: Accounts, additional_space: u64, required: u64) -> Answer {
    match grow_refused(accounts) {
        Some(e) => Err(e),
        None => {
            let size = (accounts.at(2).data.len() + additional_space) as usize;
            let current = accounts.at(2).lamports;
            let resize = Deed::Resize { target: 2, size };
            if current < required {
                Ok(
                    seq![
                        Deed::Invoke {
                            program_id: accounts.at(3).key,
                            accounts: seq![
                                writable(accounts.at(0).key, true),
                                writable(accounts.at(2).key, false),
                            ],
                            data: transfer_data((required - current) as u64),
                            infos: seq![0usize, 2usize, 3usize],
                            signer_seeds: Seq::empty(),
                        },
                        resize,
                    ],
                )
            } else {
                Ok(seq![resize])
            }
        },
    }
}

/// Grows an order book to a size for which `required` lamports are needed.
pub fn process_grow_order_book(accounts: &Accounts, additional_space: u64, required: u64) -> (r:
    Result<Vec<Effect>, ProgramError>)
    requires
        accounts.wf(),
        grow_refused(*accounts) is None ==> accounts.at(2).data.len() + additional_space
            <= usize::MAX,
    ensures
        says(r, grow_answer(*accounts, additional_space, required)),
{
    let size: usize = match grown_size(accounts, additional_space) {
        Ok(size) => size,
        Err(e) => {
            return Err(e);
        },
    };
    let current: u64 = accounts.get(2).lamports;
    if current < required {
        let metas: Vec<AccountMeta> = vec![
            AccountMeta::new(accounts.get(0).key, true),
            AccountMeta::new(accounts.get(2).key, false),
        ];
        let infos: Vec<usize> = vec![0, 2, 3];
        let signer_seeds: Vec<Vec<Vec<u8>>> = Vec::new();
        assert(all_seeds(signer_seeds@) =~= Seq::<Seq<Seq<u8>>>::empty());
        let transfer = SolanaInstruction {
            program_id: accounts.get(3).key,
            accounts: metas,
            data: transfer_bytes(required - current),
        };
        Ok(
            plan_of_two(
                Effect::Invoke { instruction: transfer, infos, signer_seeds },
                Effect::Resize { target: 2, size },
            ),
        )
    } else {
        Ok(plan_of(Effect::Resize { target: 2, size }))
    }
}

/// Whether updating an order book leaves `after` and answers `r`.
pub open spec fn book_update_served(
    before: Accounts,
    after: Seq<AccountState>,
    update: BookUpdate,
    r: Result<Vec<Effect>, ProgramError>,
) -> bool {
    if before.count() < 2 {
        after == before@ && says(r, Err(ProgramError::NotEnoughAccountKeys))
    } else if !before.at(0).is_signer {
        after == before@ && says(r, Err(ProgramError::MissingRequiredSignature))
    } else {
        let place = before.refs@[1] as int;
        exists|data: Seq<u8>, answer: Result<(), ProgramError>| #[trigger]
            applied(before.at(1).data, data, update.bids@, update.asks@, answer) && after
                == before@.update(place, before.at(1).with_data(data)) && says(
                r,
                match answer {
                    Ok(_) => Ok(Seq::empty()),
                    Err(e) => Err(e),
                },
            )
    }
}

/// Adds levels to the order book at the second position.
pub fn process_update_order_book(accounts: &mut Accounts, update: &BookUpdate) -> (r: Result<
    Vec<Effect>,
    ProgramError,
>)
    requires
        old(accounts).wf(),
        old(accounts).count() >= 2 && old(accounts).at(0).is_signer ==> capacity_of(
            old(accounts).at(1).data.len() as int,
        ) <= u32::MAX,
    ensures
        final(accounts).wf(),
        final(accounts).refs@ == old(accounts).refs@,
        book_update_served(*old(accounts), final(accounts)@, *update, r),
{
    if accounts.len() < 2 {
        return Err(ProgramError::NotEnoughAccountKeys);
    }
    if !accounts.get(0).is_signer {
        return Err(ProgramError::MissingRequiredSignature);
    }
    let mut data: Vec<u8> = copy_bytes(accounts.get(1).data.as_slice());
    let answer = order_book_apply(&mut data, update);
    let ghost left = data@;
    accounts.set_data(1, data);
    assert(applied(old(accounts).at(1).data, left, update.bids@, update.asks@, answer));
    match answer {
        Ok(_) => Ok(no_plan()),
        Err(e) => Err(e),
    }
}

/// The data of the update that follows a commit: one bid.
pub open spec fn follow_up_data() -> Seq<u8> {
    seq![SCHEDULE_COMMIT_TAG] + (seq![11u8] + fields_format(
        seq![
            Field::Levels(seq![OrderLevel { price: 100, size: 10 }]),
            Field::Levels(Seq::empty()),
        ],
    ))
}

/// The data of the update that follows a commit.
fn follow_up_bytes() -> (r: Vec<u8>)
    ensures
        r@ == follow_up_data(),
{
    let bids: Vec<OrderLevel> = vec![OrderLevel { price: 100, size: 10 }];
    let asks: Vec<OrderLevel> = Vec::new();
    assert(bids@ =~= seq![OrderLevel { price: 100, size: 10 }]);
    assert(asks@ =~= Seq::<OrderLevel>::empty());
    let update = ScheduleCommitInstruction::UpdateOrderBook(BookUpdate { bids, asks });
    let mut data: Vec<u8> = vec![SCHEDULE_COMMIT_TAG];
    append_bytes(&mut data, update.encode().as_slice());
    assert(data@ =~= follow_up_data());
    data
}

/// The handlers of a commit next to an order book.
pub open spec fn book_handlers(with_actions: bool) -> Seq<HandlerState> {
    if with_actions {
        seq![
            HandlerState {
                data: follow_up_data(),
                escrow_index: 1,
                compute_units: 50_000,
                escrow_authority: 0,
                destination_program: key(ID),
                accounts: seq![ShortMeta::Writable(4)],
            },
        ]
    } else {
        Seq::empty()
    }
}

/// The answer that commits counters next to an order book.
pub open spec fn with_book_answer(accounts: Accounts, args: ScheduleCommitWithOrderBookArgs)
    -> Answer {
    if accounts.count() < 5 {
        Err(ProgramError::NotEnoughAccountKeys)
    } else if accounts.count() - 5 != args.players@.len() {
        Err(ProgramError::InvalidArgument)
    } else {
        Ok(
            seq![
                Deed::IntentBundle {
                    payer: 0,
                    magic_context: 1,
                    magic_program: 2,
                    magic_fee_vault: Some(3),
                    commit: Some(
                        CommitState {
                            accounts: positions(5, accounts.count() as int),
                            handlers: book_handlers(args.with_actions),
                            callback: None,
                        },
                    ),
                    commit_and_undelegate: None,
                },
            ],
        )
    }
}

/// Commits counters; with actions, the order book gets a bid afterwards.
pub fn process_commit_with_vault_and_order_book(
    accounts: &Accounts,
    args: &ScheduleCommitWithOrderBookArgs,
) -> (r: Result<Vec<Effect>, ProgramError>)
    requires
        accounts.wf(),
    ensures
        says(r, with_book_answer(*accounts, *args)),
{
    if accounts.len() < 5 {
        return Err(ProgramError::NotEnoughAccountKeys);
    }
    if accounts.len() - 5 != args.players.len() {
        return Err(ProgramError::InvalidArgument);
    }
    let mut handlers: Vec<CallHandler> = Vec::new();
    if args.with_actions {
        let touched: Vec<ShortMeta> = vec![ShortMeta::Writable(4)];
        assert(touched@ =~= seq![ShortMeta::Writable(4)]);
        handlers.push(
            CallHandler {
                data: follow_up_bytes(),
                escrow_index: 1,
                compute_units: 50_000,
                escrow_authority: 0,
                destination_program: Pubkey::new(ID),
                accounts: touched,
            },
        );
    }
    assert(handler_states(handlers@) =~= book_handlers(args.with_actions));
    Ok(
        plan_of(
            Effect::IntentBundle {
                payer: 0,
                magic_context: 1,
                magic_program: 2,
                magic_fee_vault: Some(3),
                commit: Some(
                    CommitIntent { accounts: accounts.positions_from(5), handlers, callback: None },
                ),
                commit_and_undelegate: None,
            },
        ),
    )
}

/// The answer that commits an order book.
pub open spec fn book_commit_answer(accounts: Accounts, commit_type: ScheduleCommitType) -> Answer {
    if accounts.count() != 4 {
        Err(ProgramError::NotEnoughAccountKeys)
    } else if !accounts.at(0).is_signer {
        Err(ProgramError::MissingRequiredSignature)
    } else {
        Ok(seq![commit_type.deed(accounts, 0, seq![1usize], 2, 3, None)])
    }
}

/// Commits an order book.
pub fn process_commit_for_order_book(accounts: &Accounts, commit_type: ScheduleCommitType) -> (r:
    Result<Vec<Effect>, ProgramError>)
    requires
        accounts.wf(),
    ensures
        says(r, book_commit_answer(*accounts, commit_type)),
{
    if accounts.len() != 4 {
        return Err(ProgramError::NotEnoughAccountKeys);
    }
    if !accounts.get(0).is_signer {
        return Err(ProgramError::MissingRequiredSignature);
    }
    let committees: Vec<usize> = vec![1];
    assert(committees@ =~= seq![1usize]);
    Ok(plan_of(commit_type.invoke_commit(accounts, 0, committees, 2, 3, None)))
}

/// The answer that requests the return of a counter.
pub open spec fn request_answer(accounts: Accounts, player: Pubkey) -> Answer {
    if accounts.count() != 8 {
        Err(ProgramError::NotEnoughAccountKeys)
    } else if !accounts.at(0).is_signer {
        Err(ProgramError::MissingRequiredSignature)
    } else if accounts.at(2).key != key(ID) || accounts.at(7).key != key(DELEGATION_PROGRAM_ID) {
        Err(ProgramError::InvalidArgument)
    } else {
        match bump_of(counter_address(player), accounts.at(1).key) {
            None => Err(ProgramError::InvalidSeeds),
            Some(bump) => Ok(
                seq![
                    Deed::Invoke {
                        program_id: accounts.at(7).key,
                        accounts: seq![
                            writable(accounts.at(0).key, true),
                            readonly(accounts.at(1).key, true),
                            readonly(accounts.at(2).key, false),
                            writable(accounts.at(3).key, false),
                            readonly(accounts.at(4).key, false),
                            writable(accounts.at(5).key, false),
                            readonly(accounts.at(6).key, false),
                        ],
                        data: le64(DLP_REQUEST_UNDELEGATION_TAG),
                        infos: positions(0, 8),
                        signer_seeds: seq![seq![PDA_SEED@, player@].push(seq![bump])],
                    },
                ],
            ),
        }
    }
}

/// Requests the return of a counter, with the signature of the counter.
pub fn process_request_undelegation_cpi(accounts: &Accounts, player: &Pubkey) -> (r: Result<
    Vec<Effect>,
    ProgramError,
>)
    requires
        accounts.wf(),
    ensures
        says(r, request_answer(*accounts, *player)),
{
    if accounts.len() != 8 {
        return Err(ProgramError::NotEnoughAccountKeys);
    }
    if !accounts.get(0).is_signer {
        return Err(ProgramError::MissingRequiredSignature);
    }
    if !accounts.get(2).key.same(&Pubkey::new(ID)) || !accounts.get(7).key.same(
        &Pubkey::new(DELEGATION_PROGRAM_ID),
    ) {
        return Err(ProgramError::InvalidArgument);
    }
    match bump_if_at(pda_and_bump(player), &accounts.get(1).key) {
        None => Err(ProgramError::InvalidSeeds),
        Some(bump) => {
            let metas: Vec<AccountMeta> = vec![
                AccountMeta::new(accounts.get(0).key, true),
                AccountMeta::new_readonly(accounts.get(1).key, true),
                AccountMeta::new_readonly(accounts.get(2).key, false),
                AccountMeta::new(accounts.get(3).key, false),
                AccountMeta::new_readonly(accounts.get(4).key, false),
                AccountMeta::new(accounts.get(5).key, false),
                AccountMeta::new_readonly(accounts.get(6).key, false),
            ];
            let instruction = SolanaInstruction {
                program_id: accounts.get(7).key,
                accounts: metas,
                data: u64_bytes(DLP_REQUEST_UNDELEGATION_TAG),
            };
            let infos: Vec<usize> = accounts.positions_from(0);
            let mut signer_seeds: Vec<Vec<Vec<u8>>> = Vec::new();
            signer_seeds.push(with_bump(two_seeds(PDA_SEED.as_slice(), player), bump));
            assert(all_seeds(signer_seeds@) =~= seq![seq![PDA_SEED@, player@].push(seq![bump])]);
            Ok(plan_of(Effect::Invoke { instruction, infos, signer_seeds }))
        },
    }
}

/// What becomes of an account that comes back: a counter with the count, or a
/// labelled counter with the label, that makes its return fail is refused.
pub open spec fn return_answer(data: Seq<u8>) -> Result<(), ProgramError> {
    match MainAccount::decoded(data) {
        Some(counter) => if counter.count == FAIL_UNDELEGATION_COUNT {
            Err(ProgramError::Custom(111))
        } else {
            Ok(())
        },
        None => if is_poisoned(data) {
            Err(ProgramError::Custom(FAIL_UNDELEGATION_CODE))
        } else {
            Ok(())
        },
    }
}

/// Checks what an account holds that has come back.
pub fn check_returned(data: &[u8]) -> (r: Result<(), ProgramError>)
    ensures
        r == return_answer(data@),
{
    match MainAccount::decode(data) {
        Some(counter) => if counter.count == FAIL_UNDELEGATION_COUNT {
            Err(ProgramError::Custom(111))
        } else {
            Ok(())
        },
        None => if undelegate_label_poison(data) {
            Err(ProgramError::Custom(FAIL_UNDELEGATION_CODE))
        } else {
            Ok(())
        },
    }
}

/// Whether `r` takes the first account back for `program` under the seeds in
/// `data` and then checks it; that is refused exactly if accounts are missing
/// or there are no seeds in `data`.
pub open spec fn takes_back(
    r: Result<Vec<Effect>, ProgramError>,
    accounts: Accounts,
    program: Pubkey,
    data: Seq<u8>,
) -> bool {
    match r {
        Ok(plan) => {
            &&& accounts.count() >= 4
            &&& plan@.len() == 2
            &&& is_undelegate(plan@[0], program, data)
            &&& plan@[1]@ == Deed::CheckReturned { target: 0 }
        },
        Err(e) => if accounts.count() < 4 {
            e == ProgramError::NotEnoughAccountKeys
        } else {
            e == ProgramError::InvalidArgument && !holds_seeds(data)
        },
    }
}

/// Takes an account back from the delegation program and checks it.
pub fn process_undelegate_request(program_id: &Pubkey, accounts: &Accounts, seeds_data: &[u8]) -> (r:
    Result<Vec<Effect>, ProgramError>)
    ensures
        takes_back(r, *accounts, *program_id, seeds_data@),
{
    match undelegate_for(accounts, *program_id, seeds_data) {
        Err(e) => Err(e),
        Ok(effect) => {
            let mut plan: Vec<Effect> = Vec::new();
            plan.push(effect);
            plan.push(Effect::CheckReturned { target: 0 });
            Ok(plan)
        },
    }
}

/// What an instruction counts on: counts that can be raised, and order books
/// that can be counted and grown.
pub open spec fn ready(ix: ScheduleCommitInstruction, accounts: Accounts) -> bool {
    match ix {
        ScheduleCommitInstruction::ScheduleCommitCpi(args, _) => args.modify_accounts
            && commit_refused(accounts, args.has_magic_vault, args.players@.len()) is None
            ==> raisable(
            accounts@,
            accounts.refs@,
            positions(first_committee(args.has_magic_vault), accounts.count() as int),
        ),
        ScheduleCommitInstruction::IncreaseCount => accounts.count() > 0 ==> (MainAccount::decoded(
            accounts.at(0).data,
        ) matches Some(counter) ==> counter.count < u64::MAX),
        ScheduleCommitInstruction::GrowOrderBook(additional_space) => grow_refused(accounts) is None
            ==> accounts.at(2).data.len() + additional_space <= usize::MAX,
        ScheduleCommitInstruction::UpdateOrderBook(_) => accounts.count() >= 2 && accounts.at(
            0,
        ).is_signer ==> capacity_of(accounts.at(1).data.len() as int) <= u32::MAX,
        _ => true,
    }
}

/// Whether an order book can take this much more.
fn can_grow(accounts: &Accounts, additional_space: u64) -> (r: bool)
    requires
        accounts.wf(),
    ensures
        r == (grow_refused(*accounts) is None ==> accounts.at(2).data.len() + additional_space
            <= usize::MAX),
{
    if accounts.len() != 4 || !accounts.get(0).is_signer {
        return true;
    }
    let book_manager = accounts.get(1).key;
    if bump_if_at(order_book_pda_and_bump(&book_manager), &accounts.get(2).key).is_none() {
        return true;
    }
    let held: usize = accounts.get(2).data.len();
    assert(held == accounts.at(2).data.len());
    additional_space as u128 <= (usize::MAX - held) as u128
}

/// Whether an instruction finds what it counts on.
fn is_ready(ix: &ScheduleCommitInstruction, accounts: &Accounts) -> (r: bool)
    requires
        accounts.wf(),
    ensures
        r == ready(*ix, *accounts),
{
    match ix {
        ScheduleCommitInstruction::ScheduleCommitCpi(args, _) => if args.modify_accounts {
            match committees_behind(accounts, args.has_magic_vault, args.players.len()) {
                Ok(committees) => can_raise(accounts, committees.as_slice()),
                Err(_) => true,
            }
        } else {
            true
        },
        ScheduleCommitInstruction::IncreaseCount => if accounts.len() > 0 {
            match MainAccount::decode(accounts.get(0).data.as_slice()) {
                Some(counter) => counter.count < u64::MAX,
                None => true,
            }
        } else {
            true
        },
        ScheduleCommitInstruction::GrowOrderBook(additional_space) => can_grow(
            accounts,
            *additional_space,
        ),
        ScheduleCommitInstruction::UpdateOrderBook(_) => if accounts.len() >= 2 && accounts.get(
            0,
        ).is_signer {
            let len: usize = accounts.get(1).data.len();
            assert(len == accounts.at(1).data.len());
            len < ORDER_BOOK_HEADER_SIZE || (len - ORDER_BOOK_HEADER_SIZE) / ORDER_LEVEL_SIZE
                <= u32::MAX as usize
        } else {
            true
        },
        _ => true,
    }
}

/// Whether what a payload asks for finds what it counts on.
pub open spec fn ready_for(payload: Seq<u8>, accounts: Accounts) -> bool {
    forall|ix: ScheduleCommitInstruction|
        ix.fits() && payload == #[trigger] ix.encoding() ==> ready(ix, accounts)
}

/// Whether what a payload asks for finds what it counts on, and [`process`]
/// can serve it.
pub fn can_process(accounts: &Accounts, payload: &[u8]) -> (r: bool)
    requires
        accounts.wf(),
    ensures
        r == ready_for(payload@, *accounts),
{
    match ScheduleCommitInstruction::decode(payload) {
        None => true,
        Some(ix) => {
            let r: bool = is_ready(&ix, accounts);
            proof {
                assert forall|other: ScheduleCommitInstruction|
                    other.fits() && payload@ == #[trigger] other.encoding() implies ready(
                    other,
                    *accounts,
                ) == r by {
                    encoding_is_read_back(ix, other);
                    lemma_ready_by_fields(ix, other, *accounts);
                }
                assert(payload@ == ix.encoding());
            }
            r
        },
    }
}

/// What an instruction counts on shows in its bytes.
proof fn lemma_ready_by_fields(
    one: ScheduleCommitInstruction,
    other: ScheduleCommitInstruction,
    accounts: Accounts,
)
    requires
        one.tag() == other.tag(),
        one.fields() == other.fields(),
    ensures
        ready(one, accounts) == ready(other, accounts),
{
    let a = one.fields();
    let b = other.fields();
    match one {
        ScheduleCommitInstruction::ScheduleCommitCpi(..) => {
            assert(a[0] == b[0] && a[1] == b[1] && a[3] == b[3]);
        },
        ScheduleCommitInstruction::GrowOrderBook(_) => {
            assert(a[0] == b[0]);
        },
        _ => {},
    }
}

/// Whether serving `ix` on `before` leaves `after` and answers `r`. `required`
/// is the balance that an order book needs once it has grown.
pub open spec fn served(
    ix: ScheduleCommitInstruction,
    program_id: Pubkey,
    before: Accounts,
    after: Seq<AccountState>,
    required: u64,
    r: Result<Vec<Effect>, ProgramError>,
) -> bool {
    match ix {
        ScheduleCommitInstruction::Init => after == before@ && says(
            r,
            init_answer(program_id, before),
        ),
        ScheduleCommitInstruction::DelegateCpi(args) => after == before@ && says(
            r,
            delegation_answer(
                before,
                seq![PDA_SEED@, args.player@],
                args.commit_frequency_ms,
                args.validator,
            ),
        ),
        ScheduleCommitInstruction::ScheduleCommitCpi(args, commit_type) => {
            let (done, answer) = schedule_answer(before, args, commit_type);
            after == done && says(r, answer)
        },
        ScheduleCommitInstruction::ScheduleCommitWithVaultCpi(args) => after == before@ && says(
            r,
            with_vault_answer(before, args),
        ),
        ScheduleCommitInstruction::ScheduleCommitAndUndelegateCpiModAfter(players) => after
            == before@ && says(r, mod_after_answer(before, players@)),
        ScheduleCommitInstruction::ScheduleCommitAndUndelegateCpiTwice(players) => after == before@
            && says(r, twice_answer(before, players@)),
        ScheduleCommitInstruction::IncreaseCount => {
            let (done, answer) = counted(before, |n: u64| (n + 1) as u64);
            after == done && says(r, answer)
        },
        ScheduleCommitInstruction::SetCount(value) => {
            let (done, answer) = counted(before, |n: u64| value);
            after == done && says(r, answer)
        },
        ScheduleCommitInstruction::InitOrderBook => after == before@ && says(
            r,
            init_book_answer(before),
        ),
        ScheduleCommitInstruction::GrowOrderBook(additional_space) => after == before@ && says(
            r,
            grow_answer(before, additional_space, required),
        ),
        ScheduleCommitInstruction::DelegateOrderBook(args) => after == before@ && says(
            r,
            delegation_answer(
                before,
                seq![ORDER_BOOK_SEED@, args.book_manager@],
                args.commit_frequency_ms,
                args.validator,
            ),
        ),
        ScheduleCommitInstruction::UpdateOrderBook(update) => book_update_served(
            before,
            after,
            update,
            r,
        ),
        ScheduleCommitInstruction::ScheduleCommitWithVaultAndOrderBookCpi(args) => after == before@
            && says(r, with_book_answer(before, args)),
        ScheduleCommitInstruction::ScheduleCommitForOrderBook(commit_type) => after == before@
            && says(r, book_commit_answer(before, commit_type)),
        ScheduleCommitInstruction::RequestUndelegationCpi(player) => after == before@ && says(
            r,
            request_answer(before, player),
        ),
    }
}

/// Serves one instruction on counters and order books.
pub fn serve(
    program_id: &Pubkey,
    accounts: &mut Accounts,
    ix: &ScheduleCommitInstruction,
    required: u64,
) -> (r: Result<Vec<Effect>, ProgramError>)
    requires
        old(accounts).wf(),
        ready(*ix, *old(accounts)),
    ensures
        final(accounts).wf(),
        final(accounts).refs@ == old(accounts).refs@,
        served(*ix, *program_id, *old(accounts), final(accounts)@, required, r),
{
    match ix {
        ScheduleCommitInstruction::Init => process_init(program_id, accounts),
        ScheduleCommitInstruction::DelegateCpi(args) => process_delegate_cpi(accounts, args),
        ScheduleCommitInstruction::ScheduleCommitCpi(args, commit_type) =>
            process_schedulecommit_cpi(accounts, args, *commit_type),
        ScheduleCommitInstruction::ScheduleCommitWithVaultCpi(args) =>
            process_schedulecommit_with_vault_cpi(accounts, args),
        ScheduleCommitInstruction::ScheduleCommitAndUndelegateCpiModAfter(players) =>
            process_commit_undelegate_mod_after(accounts, players.as_slice()),
        ScheduleCommitInstruction::ScheduleCommitAndUndelegateCpiTwice(players) =>
            process_commit_undelegate_twice(accounts, players.as_slice()),
        ScheduleCommitInstruction::IncreaseCount => process_increase_count(accounts),
        ScheduleCommitInstruction::SetCount(value) => process_set_count(accounts, *value),
        ScheduleCommitInstruction::InitOrderBook => process_init_order_book(accounts),
        ScheduleCommitInstruction::GrowOrderBook(additional_space) => process_grow_order_book(
            accounts,
            *additional_space,
            required,
        ),
        ScheduleCommitInstruction::DelegateOrderBook(args) => process_delegate_order_book(
            accounts,
            args,
        ),
        ScheduleCommitInstruction::UpdateOrderBook(update) => process_update_order_book(
            accounts,
            update,
        ),
        ScheduleCommitInstruction::ScheduleCommitWithVaultAndOrderBookCpi(args) =>
            process_commit_with_vault_and_order_book(accounts, args),
        ScheduleCommitInstruction::ScheduleCommitForOrderBook(commit_type) =>
            process_commit_for_order_book(accounts, *commit_type),
        ScheduleCommitInstruction::RequestUndelegationCpi(player) =>
            process_request_undelegation_cpi(accounts, player),
    }
}

/// Serves the instruction on counters and order books that a payload holds;
/// one that holds none is refused. `required` is the balance that an order
/// book needs once it has grown.
pub fn process(program_id: &Pubkey, accounts: &mut Accounts, payload: &[u8], required: u64) -> (r:
    Result<Vec<Effect>, ProgramError>)
    requires
        old(accounts).wf(),
        ready_for(payload@, *old(accounts)),
    ensures
        final(accounts).wf(),
        final(accounts).refs@ == old(accounts).refs@,
        processed(payload@, *program_id, *old(accounts), final(accounts)@, required, r),
{
    match ScheduleCommitInstruction::decode(payload) {
        None => Err(ProgramError::InvalidInstructionData),
        Some(ix) => serve(program_id, accounts, &ix, required),
    }
}

/// Whether serving a payload on `before` leaves `after` and answers `r`.
pub open spec fn processed(
    payload: Seq<u8>,
    program_id: Pubkey,
    before: Accounts,
    after: Seq<AccountState>,
    required: u64,
    r: Result<Vec<Effect>, ProgramError>,
) -> bool {
    ||| exists|ix: ScheduleCommitInstruction|
        ix.fits() && payload == #[trigger] ix.encoding() && served(
            ix,
            program_id,
            before,
            after,
            required,
            r,
        )
    ||| {
        &&& forall|ix: ScheduleCommitInstruction| ix.fits() ==> payload != #[trigger] ix.encoding()
        &&& r == Err::<Vec<Effect>, _>(ProgramError::InvalidInstructionData)
        &&& after == before@
    }
}

/// Raising counts changes counters only, and of them nothing but the count:
/// addresses, owners, balances, sizes and players stay.
pub proof fn raising_changes_counts_only(
    accounts: Seq<AccountState>,
    refs: Seq<usize>,
    committees: Seq<usize>,
    s: int,
)
    requires
        forall|i: int|
            0 <= i < committees.len() ==> (#[trigger] committees[i]) < refs.len() && refs[committees[i] as int]
                < accounts.len(),
        0 <= s < accounts.len(),
    ensures
        ({
            let after = raised(accounts, refs, committees).0;
            &&& after.len() == accounts.len()
            &&& after[s] == accounts[s].with_data(after[s].data)
            &&& match MainAccount::decoded(accounts[s].data) {
                Some(counter) => MainAccount::decoded(after[s].data) matches Some(found)
                    && found.player == counter.player,
                None => after[s] == accounts[s],
            }
        }),
    decreases committees.len(),
{
    if committees.len() > 0 {
        raising_changes_counts_only(accounts, refs, committees.drop_last(), s);
        let done = raised(accounts, refs, committees.drop_last()).0;
        let place = refs[committees.last() as int] as int;
        if place == s {
            if let Some(counter) = MainAccount::decoded(done[s].data) {
                let more = MainAccount {
                    player: counter.player,
                    count: (counter.count + 1) as u64,
                };
                counters_read_back(more, done[s].data);
            }
        }
    } else {
        assert(accounts[s].with_data(accounts[s].data) =~= accounts[s]);
    }
}

/// A counter that was set to a count holds it and keeps its player.
pub proof fn a_set_count_is_held(accounts: Accounts, value: u64)
    requires
        accounts.wf(),
        accounts.count() > 0,
        MainAccount::decoded(accounts.at(0).data) is Some,
    ensures
        ({
            let after = counted(accounts, |n: u64| value).0[accounts.refs@[0] as int];
            MainAccount::decoded(after.data) == Some(
                MainAccount {
                    player: MainAccount::decoded(accounts.at(0).data)->0.player,
                    count: value,
                },
            )
        }),
{
    let counter = MainAccount::decoded(accounts.at(0).data)->0;
    counters_read_back(MainAccount { player: counter.player, count: value }, accounts.at(0).data);
    assert(accounts.refs@[0] < accounts.store@.len());
}

/// A counter that was set to the failing count does not come back, whoever its
/// player is; with any other count it does.
pub proof fn only_the_failing_count_stays_away(counter: MainAccount)
    ensures
        return_answer(counter.encoding()) == if counter.count == FAIL_UNDELEGATION_COUNT {
            Err::<(), _>(ProgramError::Custom(111))
        } else {
            Ok(())
        },
{
    counters_read_back(counter, counter.encoding());
}

} // verus!
