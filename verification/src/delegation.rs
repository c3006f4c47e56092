//! The addresses that a delegation touches.
use crate::address::{find_address, found_address, seed_bytes};
use crate::bytes::append_bytes;
use crate::chain::{key, readonly, writable, AccountMeta, Pubkey};
use crate::ids::{DELEGATION_PROGRAM_ID, SYSTEM_PROGRAM_ID};
use vstd::prelude::*;

verus! {

/// The seed of the buffer that holds an account's data while it is handed
/// over.
pub const BUFFER_TAG: [u8; 6] = [98, 117, 102, 102, 101, 114];

/// The seed of the record of a delegation.
pub const RECORD_TAG: [u8; 10] = [100, 101, 108, 101, 103, 97, 116, 105, 111, 110];

/// The seed of the metadata of a delegation.
pub const METADATA_TAG: [u8; 19] = [
    100,
    101,
    108,
    101,
    103,
    97,
    116,
    105,
    111,
    110,
    45,
    109,
    101,
    116,
    97,
    100,
    97,
    116,
    97,
];

/// The address that a tag and an account are derived to under `program`.
pub open spec fn tagged_address(tag: Seq<u8>, account: Pubkey, program: Pubkey) -> Option<
    (Seq<u8>, u8),
> {
    found_address(seq![tag, account@], program@)
}

/// Searches for the address of a tag and an account under `program`.
pub fn find_tagged(tag: &[u8], account: &Pubkey, program: &Pubkey) -> (r: Option<(Pubkey, u8)>)
    ensures
        match r {
            Some(found) => tagged_address(tag@, *account, *program) == Some((found.0@, found.1)),
            None => tagged_address(tag@, *account, *program) is None,
        },
{
    let mut first: Vec<u8> = Vec::new();
    append_bytes(&mut first, tag);
    let mut second: Vec<u8> = Vec::new();
    append_bytes(&mut second, account.as_bytes());
    let mut seeds: Vec<Vec<u8>> = Vec::new();
    seeds.push(first);
    seeds.push(second);
    assert(seed_bytes(seeds@) =~= seq![tag@, account@]) by {
        assert(first@ =~= tag@);
        assert(second@ =~= account@);
    }
    find_address(seeds.as_slice(), program)
}

/// The accounts of a delegation.
#[derive(Clone, Copy, Debug)]
pub struct DelegateAccounts {
    pub delegated_account: Pubkey,
    pub delegate_buffer: Pubkey,
    pub delegation_record: Pubkey,
    pub delegation_metadata: Pubkey,
    pub owner_program: Pubkey,
}

impl DelegateAccounts {
    /// Whether the addresses of a delegation of `delegated` by `owner` can be
    /// derived.
    pub open spec fn derivable(delegated: Pubkey, owner: Pubkey) -> bool {
        &&& tagged_address(BUFFER_TAG@, delegated, owner) is Some
        &&& tagged_address(RECORD_TAG@, delegated, key(DELEGATION_PROGRAM_ID)) is Some
        &&& tagged_address(METADATA_TAG@, delegated, key(DELEGATION_PROGRAM_ID)) is Some
    }

    /// Whether these are the accounts of a delegation of `delegated` by
    /// `owner`.
    pub open spec fn is_of(&self, delegated: Pubkey, owner: Pubkey) -> bool {
        &&& self.delegated_account == delegated
        &&& self.owner_program == owner
        &&& tagged_address(BUFFER_TAG@, delegated, owner) matches Some(found) && found.0
            == self.delegate_buffer@
        &&& tagged_address(RECORD_TAG@, delegated, key(DELEGATION_PROGRAM_ID)) matches Some(found)
            && found.0 == self.delegation_record@
        &&& tagged_address(METADATA_TAG@, delegated, key(DELEGATION_PROGRAM_ID)) matches Some(found)
            && found.0 == self.delegation_metadata@
    }

    /// The accounts of a delegation of `delegated` by `owner`.
    pub fn new(delegated: Pubkey, owner: Pubkey) -> (r: Option<DelegateAccounts>)
        ensures
            r is Some <==> Self::derivable(delegated, owner),
            r matches Some(accounts) ==> accounts.is_of(delegated, owner),
    {
        let dlp = Pubkey::new(DELEGATION_PROGRAM_ID);
        let buffer = find_tagged(BUFFER_TAG.as_slice(), &delegated, &owner);
        let record = find_tagged(RECORD_TAG.as_slice(), &delegated, &dlp);
        let metadata = find_tagged(METADATA_TAG.as_slice(), &delegated, &dlp);
        match (buffer, record, metadata) {
            (Some(b), Some(r), Some(m)) => Some(
                DelegateAccounts {
                    delegated_account: delegated,
                    delegate_buffer: b.0,
                    delegation_record: r.0,
                    delegation_metadata: m.0,
                    owner_program: owner,
                },
            ),
            _ => None,
        }
    }

    /// The metas of a delegation behind its payer.
    pub open spec fn metas(&self) -> Seq<AccountMeta> {
        seq![
            writable(self.delegated_account, false),
            readonly(self.owner_program, false),
            writable(self.delegate_buffer, false),
            writable(self.delegation_record, false),
            writable(self.delegation_metadata, false),
            readonly(key(DELEGATION_PROGRAM_ID), false),
            readonly(key(SYSTEM_PROGRAM_ID), false),
        ]
    }

    /// Appends the metas of a delegation.
    pub fn push_metas(&self, metas: &mut Vec<AccountMeta>)
        ensures
            final(metas)@ == old(metas)@ + self.metas(),
    {
        metas.push(AccountMeta::new(self.delegated_account, false));
        metas.push(AccountMeta::new_readonly(self.owner_program, false));
        metas.push(AccountMeta::new(self.delegate_buffer, false));
        metas.push(AccountMeta::new(self.delegation_record, false));
        metas.push(AccountMeta::new(self.delegation_metadata, false));
        metas.push(AccountMeta::new_readonly(Pubkey::new(DELEGATION_PROGRAM_ID), false));
        metas.push(AccountMeta::new_readonly(Pubkey::new(SYSTEM_PROGRAM_ID), false));
        assert(metas@ =~= old(metas)@ + self.metas());
    }
}

} // verus!
