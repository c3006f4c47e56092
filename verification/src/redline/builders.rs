//! Builders of the load program's instructions.
use crate::chain::{
    key, metas_of, push_metas, readonly, writable, AccountMeta, Pubkey, SolanaInstruction,
};
use crate::delegation::DelegateAccounts;
use crate::ids::{MAGIC_CONTEXT_ID, MAGIC_PROGRAM_ID, SYSTEM_PROGRAM_ID};
use crate::redline::instruction::Instruction;
use crate::redline::utils::{account_seeds, derive_pda};
use crate::redline::ID;
use vstd::prelude::*;

verus! {

/// An instruction for the load program.
fn with_bincode(data: &Instruction, accounts: Vec<AccountMeta>) -> (r: SolanaInstruction)
    ensures
        r.is(key(ID), accounts@, data.encoding()),
{
    SolanaInstruction { program_id: Pubkey::new(ID), accounts, data: data.encode() }
}

/// Whether `r` sets up the account with these parameters: the instruction
/// carries the bump that the derivation finds, and there is none exactly when
/// the derivation finds none.
pub open spec fn is_init_account(
    r: Option<(SolanaInstruction, Pubkey)>,
    program_id: Pubkey,
    payer: Pubkey,
    base: Pubkey,
    space: u32,
    seed: u8,
    authority: Pubkey,
) -> bool {
    let found = crate::address::found_address(
        account_seeds(base, space, seed, authority),
        program_id@,
    );
    match r {
        Some((ix, pda)) => {
            &&& found matches Some((address, bump)) && address == pda@ && ix.is(
                program_id,
                seq![
                    writable(payer, true),
                    writable(pda, false),
                    readonly(base, false),
                    readonly(key(SYSTEM_PROGRAM_ID), false),
                ],
                (Instruction::InitAccount { space, seed, bump, authority }).encoding(),
            )
        },
        None => found is None,
    }
}

/// Sets up an account of the load program.
pub fn init_account(payer: Pubkey, base: Pubkey, space: u32, seed: u8, authority: Pubkey) -> (r:
    Option<(SolanaInstruction, Pubkey)>)
    ensures
        is_init_account(r, key(ID), payer, base, space, seed, authority),
{
    init_account_at(Pubkey::new(ID), payer, base, space, seed, authority)
}

/// Sets up an account of the load program deployed at `program_id`.
pub fn init_account_at(
    program_id: Pubkey,
    payer: Pubkey,
    base: Pubkey,
    space: u32,
    seed: u8,
    authority: Pubkey,
) -> (r: Option<(SolanaInstruction, Pubkey)>)
    ensures
        is_init_account(r, program_id, payer, base, space, seed, authority),
{
    match derive_pda(&program_id, base, space, seed, authority) {
        None => None,
        Some((pda, bump)) => {
            let metas: Vec<AccountMeta> = vec![
                AccountMeta::new(payer, true),
                AccountMeta::new(pda, false),
                AccountMeta::new_readonly(base, false),
                AccountMeta::new_readonly(Pubkey::new(SYSTEM_PROGRAM_ID), false),
            ];
            let mut ix = with_bincode(
                &Instruction::InitAccount { space, seed, bump, authority },
                metas,
            );
            ix.program_id = program_id;
            Some((ix, pda))
        },
    }
}

/// Whether `r` delegates `pda`: there is none exactly when an address of the
/// delegation cannot be derived.
pub open spec fn is_delegate(
    r: Option<SolanaInstruction>,
    program_id: Pubkey,
    payer: Pubkey,
    pda: Pubkey,
    base: Pubkey,
    seed: u8,
    authority: Pubkey,
) -> bool {
    match r {
        Some(ix) => exists|d: DelegateAccounts| #[trigger]
            d.is_of(pda, program_id) && ix.is(
                program_id,
                seq![writable(payer, true)] + d.metas() + seq![readonly(base, false)],
                (Instruction::Delegate { seed, authority }).encoding(),
            ),
        None => !DelegateAccounts::derivable(pda, program_id),
    }
}

/// Delegates an account of the load program.
pub fn delegate(payer: Pubkey, pda: Pubkey, base: Pubkey, seed: u8, authority: Pubkey) -> (r:
    Option<SolanaInstruction>)
    ensures
        is_delegate(r, key(ID), payer, pda, base, seed, authority),
{
    delegate_at(Pubkey::new(ID), payer, pda, base, seed, authority)
}

/// Delegates an account of the load program deployed at `program_id`.
pub fn delegate_at(
    program_id: Pubkey,
    payer: Pubkey,
    pda: Pubkey,
    base: Pubkey,
    seed: u8,
    authority: Pubkey,
) -> (r: Option<SolanaInstruction>)
    ensures
        is_delegate(r, program_id, payer, pda, base, seed, authority),
{
    match DelegateAccounts::new(pda, program_id) {
        None => None,
        Some(accounts) => {
            let mut metas: Vec<AccountMeta> = Vec::new();
            metas.push(AccountMeta::new(payer, true));
            accounts.push_metas(&mut metas);
            metas.push(AccountMeta::new_readonly(base, false));
            assert(metas@ =~= seq![writable(payer, true)] + accounts.metas() + seq![
                readonly(base, false),
            ]);
            let mut ix = with_bincode(&Instruction::Delegate { seed, authority }, metas);
            ix.program_id = program_id;
            assert(accounts.is_of(pda, program_id));
            Some(ix)
        },
    }
}

/// Fills accounts with `id`.
pub fn simple_byte_set(id: u64, accounts: &[Pubkey]) -> (r: SolanaInstruction)
    ensures
        r.is(
            key(ID),
            metas_of(accounts@, false, true),
            (Instruction::SimpleByteSet { id }).encoding(),
        ),
{
    simple_byte_set_at(Pubkey::new(ID), id, accounts)
}

/// Fills accounts of the load program deployed at `program_id` with `id`.
pub fn simple_byte_set_at(program_id: Pubkey, id: u64, accounts: &[Pubkey]) -> (r:
    SolanaInstruction)
    ensures
        r.is(
            program_id,
            metas_of(accounts@, false, true),
            (Instruction::SimpleByteSet { id }).encoding(),
        ),
{
    let mut metas: Vec<AccountMeta> = Vec::new();
    push_metas(&mut metas, accounts, false, true);
    assert(metas@ =~= metas_of(accounts@, false, true));
    let mut ix = with_bincode(&Instruction::SimpleByteSet { id }, metas);
    ix.program_id = program_id;
    ix
}

/// Runs a hash chain and writes its end to accounts.
pub fn expensive_hash_compute(id: u64, init: Pubkey, iters: u32, accounts: &[Pubkey]) -> (r:
    SolanaInstruction)
    ensures
        r.is(
            key(ID),
            metas_of(accounts@, false, true),
            (Instruction::ExpensiveHashCompute { id, init, iters }).encoding(),
        ),
{
    expensive_hash_compute_at(Pubkey::new(ID), id, init, iters, accounts)
}

/// Runs a hash chain and writes its end to accounts of the load program
/// deployed at `program_id`.
pub fn expensive_hash_compute_at(
    program_id: Pubkey,
    id: u64,
    init: Pubkey,
    iters: u32,
    accounts: &[Pubkey],
) -> (r: SolanaInstruction)
    ensures
        r.is(
            program_id,
            metas_of(accounts@, false, true),
            (Instruction::ExpensiveHashCompute { id, init, iters }).encoding(),
        ),
{
    let mut metas: Vec<AccountMeta> = Vec::new();
    push_metas(&mut metas, accounts, false, true);
    assert(metas@ =~= metas_of(accounts@, false, true));
    let mut ix = with_bincode(&Instruction::ExpensiveHashCompute { id, init, iters }, metas);
    ix.program_id = program_id;
    ix
}

/// Sums the sizes of `sources` into `target`.
pub fn multi_account_read(id: u64, target: Pubkey, sources: &[Pubkey]) -> (r: SolanaInstruction)
    ensures
        r.is(
            key(ID),
            seq![writable(target, false)] + metas_of(sources@, false, false),
            (Instruction::MultiAccountRead { id }).encoding(),
        ),
{
    let mut metas: Vec<AccountMeta> = vec![AccountMeta::new(target, false)];
    push_metas(&mut metas, sources, false, false);
    assert(metas@ =~= seq![writable(target, false)] + metas_of(sources@, false, false));
    with_bincode(&Instruction::MultiAccountRead { id }, metas)
}

/// Copies the data of `sources` into `dests`.
pub fn account_data_copy(id: u64, sources: &[Pubkey], dests: &[Pubkey]) -> (r: SolanaInstruction)
    ensures
        r.is(
            key(ID),
            metas_of(sources@, false, false) + metas_of(dests@, false, true),
            (Instruction::AccountDataCopy { id }).encoding(),
        ),
{
    let mut metas: Vec<AccountMeta> = Vec::new();
    push_metas(&mut metas, sources, false, false);
    assert(metas@ =~= metas_of(sources@, false, false));
    push_metas(&mut metas, dests, false, true);
    with_bincode(&Instruction::AccountDataCopy { id }, metas)
}

/// Reads accounts without touching them.
pub fn read_accounts_data(id: u64, accounts: &[Pubkey]) -> (r: SolanaInstruction)
    ensures
        r.is(
            key(ID),
            metas_of(accounts@, false, false),
            (Instruction::ReadAccountsData { id }).encoding(),
        ),
{
    let mut metas: Vec<AccountMeta> = Vec::new();
    push_metas(&mut metas, accounts, false, false);
    assert(metas@ =~= metas_of(accounts@, false, false));
    with_bincode(&Instruction::ReadAccountsData { id }, metas)
}

/// Commits accounts to the base chain.
pub fn commit_accounts(id: u64, payer: Pubkey, accounts: &[Pubkey]) -> (r: SolanaInstruction)
    ensures
        r.is(
            key(ID),
            committing(payer, accounts@),
            (Instruction::CommitAccounts { id }).encoding(),
        ),
{
    with_bincode(&Instruction::CommitAccounts { id }, commit_metas(payer, accounts))
}

/// Commits accounts to the base chain and returns them to their owner there.
pub fn commit_and_undelegate_accounts(id: u64, payer: Pubkey, accounts: &[Pubkey]) -> (r:
    SolanaInstruction)
    ensures
        r.is(
            key(ID),
            committing(payer, accounts@),
            (Instruction::CommitAndUndelegateAccounts { id }).encoding(),
        ),
{
    with_bincode(&Instruction::CommitAndUndelegateAccounts { id }, commit_metas(payer, accounts))
}

/// Closes an account and refunds its lamports.
pub fn close_account(owner: Pubkey, account: Pubkey) -> (r: SolanaInstruction)
    ensures
        r.is(
            key(ID),
            seq![writable(owner, true), writable(account, false)],
            Instruction::CloseAccount.encoding(),
        ),
{
    let metas: Vec<AccountMeta> = vec![
        AccountMeta::new(owner, true),
        AccountMeta::new(account, false),
    ];
    with_bincode(&Instruction::CloseAccount, metas)
}

/// Folds the hashes of accounts into each of them.
pub fn hash_fold(id: u64, iters: u32, accounts: &[Pubkey]) -> (r: SolanaInstruction)
    ensures
        r.is(
            key(ID),
            metas_of(accounts@, false, true),
            (Instruction::HashFold { id, iters }).encoding(),
        ),
{
    let mut metas: Vec<AccountMeta> = Vec::new();
    push_metas(&mut metas, accounts, false, true);
    assert(metas@ =~= metas_of(accounts@, false, true));
    with_bincode(&Instruction::HashFold { id, iters }, metas)
}

/// The metas of a commit: the paying signer, the magic context, the magic
/// program and then what is committed, each of them writable.
pub open spec fn committing(payer: Pubkey, accounts: Seq<Pubkey>) -> Seq<AccountMeta> {
    seq![
        writable(payer, true),
        writable(key(MAGIC_CONTEXT_ID), false),
        readonly(key(MAGIC_PROGRAM_ID), false),
    ] + metas_of(accounts, false, true)
}

/// The metas of a commit.
fn commit_metas(payer: Pubkey, accounts: &[Pubkey]) -> (r: Vec<AccountMeta>)
    ensures
        r@ == committing(payer, accounts@),
{
    let mut metas: Vec<AccountMeta> = vec![
        AccountMeta::new(payer, true),
        AccountMeta::new(Pubkey::new(MAGIC_CONTEXT_ID), false),
        AccountMeta::new_readonly(Pubkey::new(MAGIC_PROGRAM_ID), false),
    ];
    push_metas(&mut metas, accounts, false, true);
    metas
}

} // verus!
