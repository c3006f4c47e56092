//! Instructions to the system program.
use crate::bytes::{append_bytes, le32, le64, u32_bytes, u64_bytes};
use crate::chain::{key, writable, AccountMeta, Pubkey, SolanaInstruction};
use crate::ids::SYSTEM_PROGRAM_ID;
use crate::redshift::schedule_commit::SYSTEM_TRANSFER_TAG;
use vstd::prelude::*;

verus! {

/// The data that creates an account.
pub open spec fn create_account_data(lamports: u64, space: u64, owner: Pubkey) -> Seq<u8> {
    le32(0) + le64(lamports) + le64(space) + owner@
}

/// Creates an account.
pub fn create_account(from: &Pubkey, to: &Pubkey, lamports: u64, space: u64, owner: &Pubkey) -> (r:
    SolanaInstruction)
    ensures
        r.is(
            key(SYSTEM_PROGRAM_ID),
            seq![writable(*from, true), writable(*to, true)],
            create_account_data(lamports, space, *owner),
        ),
{
    let mut data: Vec<u8> = u32_bytes(0);
    append_bytes(&mut data, u64_bytes(lamports).as_slice());
    append_bytes(&mut data, u64_bytes(space).as_slice());
    append_bytes(&mut data, owner.as_bytes());
    let accounts: Vec<AccountMeta> = vec![
        AccountMeta::new(*from, true),
        AccountMeta::new(*to, true),
    ];
    SolanaInstruction { program_id: Pubkey::new(SYSTEM_PROGRAM_ID), accounts, data }
}

/// The data that transfers lamports.
pub open spec fn transfer_data(lamports: u64) -> Seq<u8> {
    le32(SYSTEM_TRANSFER_TAG) + le64(lamports)
}

/// The data that transfers lamports.
pub fn transfer_bytes(lamports: u64) -> (r: Vec<u8>)
    ensures
        r@ == transfer_data(lamports),
{
    let mut data: Vec<u8> = u32_bytes(SYSTEM_TRANSFER_TAG);
    append_bytes(&mut data, u64_bytes(lamports).as_slice());
    data
}

/// Transfers lamports.
pub fn transfer(from: &Pubkey, to: &Pubkey, lamports: u64) -> (r: SolanaInstruction)
    ensures
        r.is(
            key(SYSTEM_PROGRAM_ID),
            seq![writable(*from, true), writable(*to, false)],
            transfer_data(lamports),
        ),
{
    let accounts: Vec<AccountMeta> = vec![
        AccountMeta::new(*from, true),
        AccountMeta::new(*to, false),
    ];
    SolanaInstruction {
        program_id: Pubkey::new(SYSTEM_PROGRAM_ID),
        accounts,
        data: transfer_bytes(lamports),
    }
}

} // verus!
