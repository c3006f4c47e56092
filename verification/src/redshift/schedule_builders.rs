//! Builders of the instructions on counters and order books. Where an address
//! has to be searched for, there is no instruction exactly if the search finds
//! none.
use crate::address::address_in;
use crate::bytes::{append_bytes, le32, u32_bytes};
use crate::chain::{
    key, lemma_address_of, metas_of, push_metas, readonly, writable, AccountMeta, Pubkey,
    SolanaInstruction,
};
use crate::delegation::{find_tagged, tagged_address, DelegateAccounts};
use crate::ids::{DELEGATION_PROGRAM_ID, MAGIC_CONTEXT_ID, MAGIC_PROGRAM_ID, SYSTEM_PROGRAM_ID};
use crate::redshift::order_book::BookUpdate;
use crate::redshift::schedule_commit::{
    all_found, book_address, counter_address, counter_of, counters_of, find_counters,
    order_book_of, order_book_pda_and_bump, pda_and_bump, DelegateCpiArgs, DelegateOrderBookArgs,
    ScheduleCommitCpiArgs, ScheduleCommitCpiWithVaultArgs, ScheduleCommitInstruction,
    ScheduleCommitType, ScheduleCommitWithOrderBookArgs, MAGIC_SCHEDULE_COMMIT_TAG,
};
use crate::redshift::{ID, SCHEDULE_COMMIT_TAG};
use vstd::prelude::*;

verus! {

/// The seed of requests for a return: `undelegation-request`.
pub const REQUEST_TAG: [u8; 20] = [
    117, 110, 100, 101, 108, 101, 103, 97, 116, 105, 111, 110, 45, 114, 101, 113, 117, 101, 115, 116,
];

/// The data of an instruction on counters and order books.
pub open spec fn schedule_data(ix: ScheduleCommitInstruction) -> Seq<u8> {
    seq![SCHEDULE_COMMIT_TAG] + ix.encoding()
}

/// An instruction on counters and order books.
fn with_tag(instruction: &ScheduleCommitInstruction, metas: Vec<AccountMeta>) -> (r:
    SolanaInstruction)
    requires
        instruction.fits(),
    ensures
        r.is(key(ID), metas@, schedule_data(*instruction)),
{
    let mut data: Vec<u8> = vec![SCHEDULE_COMMIT_TAG];
    append_bytes(&mut data, instruction.encode().as_slice());
    assert(data@ =~= schedule_data(*instruction));
    SolanaInstruction { program_id: Pubkey::new(ID), accounts: metas, data }
}

/// The magic program.
pub fn magic_program_id() -> (r: Pubkey)
    ensures
        r == key(MAGIC_PROGRAM_ID),
{
    Pubkey::new(MAGIC_PROGRAM_ID)
}

/// The account in which the magic program keeps what is scheduled.
pub fn magic_context_id() -> (r: Pubkey)
    ensures
        r == key(MAGIC_CONTEXT_ID),
{
    Pubkey::new(MAGIC_CONTEXT_ID)
}

/// The meta of a vault, if there is one.
pub open spec fn vault_metas(magic_fee_vault: Option<Pubkey>) -> Seq<AccountMeta> {
    match magic_fee_vault {
        Some(vault) => seq![writable(vault, false)],
        None => Seq::empty(),
    }
}

/// Appends the meta of a vault, if there is one.
fn push_vault(metas: &mut Vec<AccountMeta>, magic_fee_vault: Option<Pubkey>)
    ensures
        final(metas)@ == old(metas)@ + vault_metas(magic_fee_vault),
{
    match magic_fee_vault {
        Some(vault) => {
            metas.push(AccountMeta::new(vault, false));
        },
        None => {},
    }
    assert(metas@ =~= old(metas)@ + vault_metas(magic_fee_vault));
}

/// Asks the magic program itself for a commit, past the program that owns the
/// accounts.
pub fn direct_schedule_commit(
    payer: Pubkey,
    magic_fee_vault: Option<Pubkey>,
    committees: &[Pubkey],
) -> (r: SolanaInstruction)
    ensures
        r.is(
            key(MAGIC_PROGRAM_ID),
            seq![writable(payer, true), writable(key(MAGIC_CONTEXT_ID), false)] + vault_metas(
                magic_fee_vault,
            ) + metas_of(committees@, false, true),
            le32(MAGIC_SCHEDULE_COMMIT_TAG),
        ),
{
    let mut metas: Vec<AccountMeta> = vec![
        AccountMeta::new(payer, true),
        AccountMeta::new(Pubkey::new(MAGIC_CONTEXT_ID), false),
    ];
    push_vault(&mut metas, magic_fee_vault);
    push_metas(&mut metas, committees, false, true);
    assert(metas@ =~= seq![writable(payer, true), writable(key(MAGIC_CONTEXT_ID), false)]
        + vault_metas(magic_fee_vault) + metas_of(committees@, false, true));
    SolanaInstruction {
        program_id: Pubkey::new(MAGIC_PROGRAM_ID),
        accounts: metas,
        data: u32_bytes(MAGIC_SCHEDULE_COMMIT_TAG),
    }
}

/// The metas that set up an account for its owner.
pub open spec fn init_metas(payer: Pubkey, owner: Pubkey, pda: Pubkey, owner_signs: bool) -> Seq<
    AccountMeta,
> {
    seq![
        writable(payer, true),
        readonly(owner, owner_signs),
        writable(pda, false),
        readonly(key(SYSTEM_PROGRAM_ID), false),
    ]
}

/// The metas that set up an account for its owner.
fn list_init_metas(payer: Pubkey, owner: Pubkey, pda: Pubkey, owner_signs: bool) -> (r: Vec<
    AccountMeta,
>)
    ensures
        r@ == init_metas(payer, owner, pda, owner_signs),
{
    vec![
        AccountMeta::new(payer, true),
        AccountMeta::new_readonly(owner, owner_signs),
        AccountMeta::new(pda, false),
        AccountMeta::new_readonly(Pubkey::new(SYSTEM_PROGRAM_ID), false),
    ]
}

/// Sets up the counter of a player.
pub fn init_account(payer: Pubkey, player: Pubkey) -> (r: Option<(SolanaInstruction, Pubkey)>)
    ensures
        match r {
            Some((ix, pda)) => counter_address(player) is Some && pda == counter_of(player)
                && ix.is(
                key(ID),
                init_metas(payer, player, pda, true),
                schedule_data(ScheduleCommitInstruction::Init),
            ),
            None => counter_address(player) is None,
        },
{
    match pda_and_bump(&player) {
        None => None,
        Some((pda, _)) => {
            let metas: Vec<AccountMeta> = list_init_metas(payer, player, pda, true);
            Some((with_tag(&ScheduleCommitInstruction::Init, metas), pda))
        },
    }
}

/// Whether `r` delegates the account at `pda`.
pub open spec fn is_delegation(
    r: SolanaInstruction,
    payer: Pubkey,
    pda: Pubkey,
    data: Seq<u8>,
) -> bool {
    exists|d: DelegateAccounts| #[trigger]
        d.is_of(pda, key(ID)) && r.is(key(ID), seq![writable(payer, true)] + d.metas(), data)
}

/// Delegates the account at `pda`.
fn delegation(payer: Pubkey, pda: Pubkey, instruction: &ScheduleCommitInstruction) -> (r: Option<
    SolanaInstruction,
>)
    requires
        instruction.fits(),
    ensures
        match r {
            Some(ix) => DelegateAccounts::derivable(pda, key(ID)) && is_delegation(
                ix,
                payer,
                pda,
                schedule_data(*instruction),
            ),
            None => !DelegateAccounts::derivable(pda, key(ID)),
        },
{
    match DelegateAccounts::new(pda, Pubkey::new(ID)) {
        None => None,
        Some(d) => {
            let mut metas: Vec<AccountMeta> = vec![AccountMeta::new(payer, true)];
            d.push_metas(&mut metas);
            assert(metas@ =~= seq![writable(payer, true)] + d.metas());
            let ix = with_tag(instruction, metas);
            assert(d.is_of(pda, key(ID)));
            Some(ix)
        },
    }
}

/// Delegates the counter of a player.
pub fn delegate_cpi(
    payer: Pubkey,
    player: Pubkey,
    commit_frequency_ms: u32,
    validator: Option<Pubkey>,
) -> (r: Option<SolanaInstruction>)
    ensures
        match r {
            Some(ix) => counter_address(player) is Some && is_delegation(
                ix,
                payer,
                counter_of(player),
                schedule_data(
                    ScheduleCommitInstruction::DelegateCpi(
                        DelegateCpiArgs { valid_until: 0, commit_frequency_ms, player, validator },
                    ),
                ),
            ),
            None => counter_address(player) is None || !DelegateAccounts::derivable(
                counter_of(player),
                key(ID),
            ),
        },
{
    match pda_and_bump(&player) {
        None => None,
        Some((pda, _)) => delegation(
            payer,
            pda,
            &ScheduleCommitInstruction::DelegateCpi(
                DelegateCpiArgs { valid_until: 0, commit_frequency_ms, player, validator },
            ),
        ),
    }
}

/// The metas of a commit of some counters.
pub open spec fn commit_metas(payer: Pubkey, committees: Seq<Pubkey>, writable_committees: bool)
    -> Seq<AccountMeta> {
    seq![
        writable(payer, true),
        writable(key(MAGIC_CONTEXT_ID), false),
        readonly(key(MAGIC_PROGRAM_ID), false),
    ] + metas_of(committees, false, writable_committees)
}

/// The metas of a commit of the counters of some players.
fn list_commit_metas(payer: Pubkey, players: &[Pubkey], writable_committees: bool) -> (r: Option<
    Vec<AccountMeta>,
>)
    ensures
        match r {
            Some(metas) => all_found(players@) && metas@ == commit_metas(
                payer,
                counters_of(players@),
                writable_committees,
            ),
            None => !all_found(players@),
        },
{
    match find_counters(players) {
        None => None,
        Some(pdas) => {
            let mut metas: Vec<AccountMeta> = vec![
                AccountMeta::new(payer, true),
                AccountMeta::new(Pubkey::new(MAGIC_CONTEXT_ID), false),
                AccountMeta::new_readonly(Pubkey::new(MAGIC_PROGRAM_ID), false),
            ];
            push_metas(&mut metas, pdas.as_slice(), false, writable_committees);
            assert(metas@ =~= commit_metas(payer, counters_of(players@), writable_committees));
            Some(metas)
        },
    }
}

/// Commits the counters of some players through the program that owns them.
/// There are no more players than can be counted.
pub fn schedule_commit_cpi(
    payer: Pubkey,
    players: Vec<Pubkey>,
    modify_accounts: bool,
    commit_payer: bool,
    commit_type: ScheduleCommitType,
    writable_committees: bool,
) -> (r: Option<SolanaInstruction>)
    requires
        players@.len() <= u32::MAX,
    ensures
        match r {
            Some(ix) => all_found(players@) && ix.is(
                key(ID),
                commit_metas(payer, counters_of(players@), writable_committees),
                schedule_data(
                    ScheduleCommitInstruction::ScheduleCommitCpi(
                        ScheduleCommitCpiArgs {
                            players,
                            modify_accounts,
                            commit_payer,
                            has_magic_vault: false,
                        },
                        commit_type,
                    ),
                ),
            ),
            None => !all_found(players@),
        },
{
    match list_commit_metas(payer, players.as_slice(), writable_committees) {
        None => None,
        Some(metas) => Some(
            with_tag(
                &ScheduleCommitInstruction::ScheduleCommitCpi(
                    ScheduleCommitCpiArgs {
                        players,
                        modify_accounts,
                        commit_payer,
                        has_magic_vault: false,
                    },
                    commit_type,
                ),
                metas,
            ),
        ),
    }
}

/// Commits the counters of some players, paid from a vault if there is one,
/// and returns them if asked to.
pub fn schedule_commit_with_vault(
    payer: Pubkey,
    magic_fee_vault: Option<Pubkey>,
    players: Vec<Pubkey>,
    undelegate: bool,
) -> (r: Option<SolanaInstruction>)
    requires
        players@.len() <= u32::MAX,
    ensures
        match r {
            Some(ix) => all_found(players@) && ix.is(
                key(ID),
                seq![
                    writable(payer, true),
                    writable(key(MAGIC_CONTEXT_ID), false),
                    readonly(key(MAGIC_PROGRAM_ID), false),
                ] + vault_metas(magic_fee_vault) + metas_of(counters_of(players@), false, true),
                schedule_data(
                    ScheduleCommitInstruction::ScheduleCommitWithVaultCpi(
                        ScheduleCommitCpiWithVaultArgs {
                            players,
                            undelegate,
                            has_magic_vault: magic_fee_vault is Some,
                        },
                    ),
                ),
            ),
            None => !all_found(players@),
        },
{
    match find_counters(players.as_slice()) {
        None => None,
        Some(pdas) => {
            let mut metas: Vec<AccountMeta> = vec![
                AccountMeta::new(payer, true),
                AccountMeta::new(Pubkey::new(MAGIC_CONTEXT_ID), false),
                AccountMeta::new_readonly(Pubkey::new(MAGIC_PROGRAM_ID), false),
            ];
            push_vault(&mut metas, magic_fee_vault);
            push_metas(&mut metas, pdas.as_slice(), false, true);
            assert(metas@ =~= seq![
                writable(payer, true),
                writable(key(MAGIC_CONTEXT_ID), false),
                readonly(key(MAGIC_PROGRAM_ID), false),
            ] + vault_metas(magic_fee_vault) + metas_of(counters_of(players@), false, true));
            Some(
                with_tag(
                    &ScheduleCommitInstruction::ScheduleCommitWithVaultCpi(
                        ScheduleCommitCpiWithVaultArgs {
                            players,
                            undelegate,
                            has_magic_vault: magic_fee_vault.is_some(),
                        },
                    ),
                    metas,
                ),
            )
        },
    }
}

/// Commits and returns the counters of some players, and changes them
/// afterwards.
pub fn schedule_commit_and_undelegate_mod_after(payer: Pubkey, players: Vec<Pubkey>) -> (r: Option<
    SolanaInstruction,
>)
    requires
        players@.len() <= u32::MAX,
    ensures
        match r {
            Some(ix) => all_found(players@) && ix.is(
                key(ID),
                commit_metas(payer, counters_of(players@), true),
                schedule_data(
                    ScheduleCommitInstruction::ScheduleCommitAndUndelegateCpiModAfter(players),
                ),
            ),
            None => !all_found(players@),
        },
{
    match list_commit_metas(payer, players.as_slice(), true) {
        None => None,
        Some(metas) => Some(
            with_tag(
                &ScheduleCommitInstruction::ScheduleCommitAndUndelegateCpiModAfter(players),
                metas,
            ),
        ),
    }
}

/// Commits and returns the counters of some players, and then once more.
pub fn schedule_commit_and_undelegate_twice(payer: Pubkey, players: Vec<Pubkey>) -> (r: Option<
    SolanaInstruction,
>)
    requires
        players@.len() <= u32::MAX,
    ensures
        match r {
            Some(ix) => all_found(players@) && ix.is(
                key(ID),
                commit_metas(payer, counters_of(players@), true),
                schedule_data(
                    ScheduleCommitInstruction::ScheduleCommitAndUndelegateCpiTwice(players),
                ),
            ),
            None => !all_found(players@),
        },
{
    match list_commit_metas(payer, players.as_slice(), true) {
        None => None,
        Some(metas) => Some(
            with_tag(
                &ScheduleCommitInstruction::ScheduleCommitAndUndelegateCpiTwice(players),
                metas,
            ),
        ),
    }
}

/// Raises the count of a player by one.
pub fn increase_count(player: Pubkey) -> (r: Option<SolanaInstruction>)
    ensures
        match r {
            Some(ix) => counter_address(player) is Some && ix.is(
                key(ID),
                seq![writable(counter_of(player), false)],
                schedule_data(ScheduleCommitInstruction::IncreaseCount),
            ),
            None => counter_address(player) is None,
        },
{
    match pda_and_bump(&player) {
        None => None,
        Some((pda, _)) => {
            let metas: Vec<AccountMeta> = vec![AccountMeta::new(pda, false)];
            assert(metas@ =~= seq![writable(pda, false)]);
            Some(with_tag(&ScheduleCommitInstruction::IncreaseCount, metas))
        },
    }
}

/// Sets the count of a player.
pub fn set_count(player: Pubkey, value: u64) -> (r: Option<SolanaInstruction>)
    ensures
        match r {
            Some(ix) => counter_address(player) is Some && ix.is(
                key(ID),
                seq![writable(counter_of(player), false)],
                schedule_data(ScheduleCommitInstruction::SetCount(value)),
            ),
            None => counter_address(player) is None,
        },
{
    match pda_and_bump(&player) {
        None => None,
        Some((pda, _)) => {
            let metas: Vec<AccountMeta> = vec![AccountMeta::new(pda, false)];
            assert(metas@ =~= seq![writable(pda, false)]);
            Some(with_tag(&ScheduleCommitInstruction::SetCount(value), metas))
        },
    }
}

/// Sets up the order book of a manager.
pub fn init_order_book(payer: Pubkey, book_manager: Pubkey) -> (r: Option<
    (SolanaInstruction, Pubkey),
>)
    ensures
        match r {
            Some((ix, pda)) => book_address(book_manager) is Some && pda == order_book_of(
                book_manager,
            ) && ix.is(
                key(ID),
                init_metas(payer, book_manager, pda, true),
                schedule_data(ScheduleCommitInstruction::InitOrderBook),
            ),
            None => book_address(book_manager) is None,
        },
{
    match order_book_pda_and_bump(&book_manager) {
        None => None,
        Some((pda, _)) => {
            let metas: Vec<AccountMeta> = list_init_metas(payer, book_manager, pda, true);
            Some((with_tag(&ScheduleCommitInstruction::InitOrderBook, metas), pda))
        },
    }
}

/// Makes room in the order book of a manager.
pub fn grow_order_book(payer: Pubkey, book_manager: Pubkey, additional_space: u64) -> (r: Option<
    SolanaInstruction,
>)
    ensures
        match r {
            Some(ix) => book_address(book_manager) is Some && ix.is(
                key(ID),
                init_metas(payer, book_manager, order_book_of(book_manager), false),
                schedule_data(ScheduleCommitInstruction::GrowOrderBook(additional_space)),
            ),
            None => book_address(book_manager) is None,
        },
{
    match order_book_pda_and_bump(&book_manager) {
        None => None,
        Some((pda, _)) => {
            let metas: Vec<AccountMeta> = list_init_metas(payer, book_manager, pda, false);
            Some(
                with_tag(&ScheduleCommitInstruction::GrowOrderBook(additional_space), metas),
            )
        },
    }
}

/// Delegates the order book of a manager.
pub fn delegate_order_book(
    payer: Pubkey,
    book_manager: Pubkey,
    commit_frequency_ms: u32,
    validator: Option<Pubkey>,
) -> (r: Option<SolanaInstruction>)
    ensures
        match r {
            Some(ix) => book_address(book_manager) is Some && is_delegation(
                ix,
                payer,
                order_book_of(book_manager),
                schedule_data(
                    ScheduleCommitInstruction::DelegateOrderBook(
                        DelegateOrderBookArgs { commit_frequency_ms, book_manager, validator },
                    ),
                ),
            ),
            None => book_address(book_manager) is None || !DelegateAccounts::derivable(
                order_book_of(book_manager),
                key(ID),
            ),
        },
{
    match order_book_pda_and_bump(&book_manager) {
        None => None,
        Some((pda, _)) => delegation(
            payer,
            pda,
            &ScheduleCommitInstruction::DelegateOrderBook(
                DelegateOrderBookArgs { commit_frequency_ms, book_manager, validator },
            ),
        ),
    }
}

/// Adds levels to the order book of a manager. There are no more levels than
/// can be counted.
pub fn update_order_book(payer: Pubkey, book_manager: Pubkey, update: BookUpdate) -> (r: Option<
    SolanaInstruction,
>)
    requires
        update.bids@.len() <= u32::MAX,
        update.asks@.len() <= u32::MAX,
    ensures
        match r {
            Some(ix) => book_address(book_manager) is Some && ix.is(
                key(ID),
                seq![writable(payer, true), writable(order_book_of(book_manager), false)],
                schedule_data(ScheduleCommitInstruction::UpdateOrderBook(update)),
            ),
            None => book_address(book_manager) is None,
        },
{
    match order_book_pda_and_bump(&book_manager) {
        None => None,
        Some((pda, _)) => {
            let metas: Vec<AccountMeta> = vec![
                AccountMeta::new(payer, true),
                AccountMeta::new(pda, false),
            ];
            Some(with_tag(&ScheduleCommitInstruction::UpdateOrderBook(update), metas))
        },
    }
}

/// Commits the order book of a manager.
pub fn schedule_commit_for_order_book(
    payer: Pubkey,
    book_manager: Pubkey,
    commit_type: ScheduleCommitType,
) -> (r: Option<SolanaInstruction>)
    ensures
        match r {
            Some(ix) => book_address(book_manager) is Some && ix.is(
                key(ID),
                seq![
                    writable(payer, true),
                    writable(order_book_of(book_manager), false),
                    writable(key(MAGIC_CONTEXT_ID), false),
                    readonly(key(MAGIC_PROGRAM_ID), false),
                ],
                schedule_data(ScheduleCommitInstruction::ScheduleCommitForOrderBook(commit_type)),
            ),
            None => book_address(book_manager) is None,
        },
{
    match order_book_pda_and_bump(&book_manager) {
        None => None,
        Some((pda, _)) => {
            let metas: Vec<AccountMeta> = vec![
                AccountMeta::new(payer, true),
                AccountMeta::new(pda, false),
                AccountMeta::new(Pubkey::new(MAGIC_CONTEXT_ID), false),
                AccountMeta::new_readonly(Pubkey::new(MAGIC_PROGRAM_ID), false),
            ];
            Some(
                with_tag(
                    &ScheduleCommitInstruction::ScheduleCommitForOrderBook(commit_type),
                    metas,
                ),
            )
        },
    }
}

/// Commits the counters of some players, and updates the order book of a
/// manager afterwards if asked to.
pub fn schedule_commit_with_vault_and_order_book(
    payer: Pubkey,
    magic_fee_vault: Pubkey,
    book_manager: Pubkey,
    players: Vec<Pubkey>,
    with_actions: bool,
) -> (r: Option<SolanaInstruction>)
    requires
        players@.len() <= u32::MAX,
    ensures
        match r {
            Some(ix) => book_address(book_manager) is Some && all_found(players@) && ix.is(
                key(ID),
                seq![
                    writable(payer, true),
                    writable(key(MAGIC_CONTEXT_ID), false),
                    readonly(key(MAGIC_PROGRAM_ID), false),
                    writable(magic_fee_vault, false),
                    readonly(order_book_of(book_manager), false),
                ] + metas_of(counters_of(players@), false, true),
                schedule_data(
                    ScheduleCommitInstruction::ScheduleCommitWithVaultAndOrderBookCpi(
                        ScheduleCommitWithOrderBookArgs { players, with_actions },
                    ),
                ),
            ),
            None => book_address(book_manager) is None || !all_found(players@),
        },
{
    match (order_book_pda_and_bump(&book_manager), find_counters(players.as_slice())) {
        (Some((book, _)), Some(pdas)) => {
            let mut metas: Vec<AccountMeta> = vec![
                AccountMeta::new(payer, true),
                AccountMeta::new(Pubkey::new(MAGIC_CONTEXT_ID), false),
                AccountMeta::new_readonly(Pubkey::new(MAGIC_PROGRAM_ID), false),
                AccountMeta::new(magic_fee_vault, false),
                AccountMeta::new_readonly(book, false),
            ];
            push_metas(&mut metas, pdas.as_slice(), false, true);
            assert(metas@ =~= seq![
                writable(payer, true),
                writable(key(MAGIC_CONTEXT_ID), false),
                readonly(key(MAGIC_PROGRAM_ID), false),
                writable(magic_fee_vault, false),
                readonly(order_book_of(book_manager), false),
            ] + metas_of(counters_of(players@), false, true));
            Some(
                with_tag(
                    &ScheduleCommitInstruction::ScheduleCommitWithVaultAndOrderBookCpi(
                        ScheduleCommitWithOrderBookArgs { players, with_actions },
                    ),
                    metas,
                ),
            )
        },
        _ => None,
    }
}

/// Where the request for the return of an account is kept.
pub open spec fn request_address(pda: Pubkey) -> Option<(Seq<u8>, u8)> {
    tagged_address(REQUEST_TAG@, pda, key(DELEGATION_PROGRAM_ID))
}

/// Whether `r` requests the return of the counter at `pda`.
pub open spec fn is_request(r: SolanaInstruction, payer: Pubkey, player: Pubkey, pda: Pubkey)
    -> bool {
    exists|d: DelegateAccounts| #[trigger]
        d.is_of(pda, key(ID)) && r.is(
            key(ID),
            seq![
                writable(payer, true),
                readonly(pda, false),
                readonly(key(ID), false),
                writable(address_in(request_address(pda)), false),
                readonly(d.delegation_record, false),
                writable(d.delegation_metadata, false),
                readonly(key(SYSTEM_PROGRAM_ID), false),
                readonly(key(DELEGATION_PROGRAM_ID), false),
            ],
            schedule_data(ScheduleCommitInstruction::RequestUndelegationCpi(player)),
        )
}

/// Requests the return of the counter of a player.
pub fn request_undelegation(payer: Pubkey, player: Pubkey) -> (r: Option<SolanaInstruction>)
    ensures
        match r {
            Some(ix) => counter_address(player) is Some && request_address(counter_of(player))
                is Some && is_request(ix, payer, player, counter_of(player)),
            None => counter_address(player) is None || !DelegateAccounts::derivable(
                counter_of(player),
                key(ID),
            ) || request_address(counter_of(player)) is None,
        },
{
    let pda = match pda_and_bump(&player) {
        None => {
            return None;
        },
        Some((pda, _)) => pda,
    };
    let dlp = Pubkey::new(DELEGATION_PROGRAM_ID);
    match (DelegateAccounts::new(pda, Pubkey::new(ID)), find_tagged(REQUEST_TAG.as_slice(), &pda, &dlp)) {
        (Some(d), Some((request, _))) => {
            proof {
                lemma_address_of(request);
            }
            let metas: Vec<AccountMeta> = vec![
                AccountMeta::new(payer, true),
                AccountMeta::new_readonly(pda, false),
                AccountMeta::new_readonly(Pubkey::new(ID), false),
                AccountMeta::new(request, false),
                AccountMeta::new_readonly(d.delegation_record, false),
                AccountMeta::new(d.delegation_metadata, false),
                AccountMeta::new_readonly(Pubkey::new(SYSTEM_PROGRAM_ID), false),
                AccountMeta::new_readonly(dlp, false),
            ];
            let ix = with_tag(&ScheduleCommitInstruction::RequestUndelegationCpi(player), metas);
            assert(d.is_of(pda, key(ID)));
            Some(ix)
        },
        _ => None,
    }
}

} // verus!
