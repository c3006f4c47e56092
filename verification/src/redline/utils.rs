//! Address derivation of the load program's accounts.
use crate::address::{find_address, found_address, is_found, seed_bytes};
use crate::bytes::{append_bytes, le32, u32_bytes};
use crate::chain::Pubkey;
use vstd::prelude::*;
use vstd::slice::slice_subrange;

verus! {

/// The second seed of an account: its size, its seed number and the first
/// half of its authority.
pub open spec fn account_seed(space: u32, seed: u8, authority: Pubkey) -> Seq<u8> {
    le32(space) + seq![seed] + authority@.take(16)
}

/// The seeds of an account of this program.
pub open spec fn account_seeds(base: Pubkey, space: u32, seed: u8, authority: Pubkey) -> Seq<
    Seq<u8>,
> {
    seq![base@, account_seed(space, seed, authority)]
}

/// The two seeds of an account, without the bump.
pub fn pda_seeds(base: &Pubkey, space: u32, seed: u8, authority: &Pubkey) -> (r: Vec<Vec<u8>>)
    ensures
        seed_bytes(r@) == account_seeds(*base, space, seed, *authority),
        r@.len() == 2,
{
    let mut tail: Vec<u8> = u32_bytes(space);
    tail.push(seed);
    append_bytes(&mut tail, slice_subrange(authority.as_bytes(), 0, 16));
    assert(tail@ =~= account_seed(space, seed, *authority));
    let mut first: Vec<u8> = Vec::new();
    append_bytes(&mut first, base.as_bytes());
    assert(first@ =~= base@);
    let mut seeds: Vec<Vec<u8>> = Vec::new();
    seeds.push(first);
    seeds.push(tail);
    assert(seed_bytes(seeds@) =~= account_seeds(*base, space, seed, *authority));
    seeds
}

/// The address and bump of the account with these parameters under
/// `program_id`.
pub fn derive_pda(
    program_id: &Pubkey,
    base: Pubkey,
    space: u32,
    seed: u8,
    authority: Pubkey,
) -> (r: Option<(Pubkey, u8)>)
    ensures
        is_found(r, account_seeds(base, space, seed, authority), *program_id),
{
    let seeds: Vec<Vec<u8>> = pda_seeds(&base, space, seed, &authority);
    find_address(seeds.as_slice(), program_id)
}

/// Only the first half of the authority takes part in the derivation: two
/// authorities that agree there have the same accounts under every program.
pub proof fn authority_counts_by_its_first_half(
    program_id: Pubkey,
    base: Pubkey,
    space: u32,
    seed: u8,
    one: Pubkey,
    other: Pubkey,
)
    requires
        one@.take(16) == other@.take(16),
    ensures
        account_seeds(base, space, seed, one) == account_seeds(base, space, seed, other),
        found_address(account_seeds(base, space, seed, one), program_id@) == found_address(
            account_seeds(base, space, seed, other),
            program_id@,
        ),
{
}

/// Accounts that differ in size, seed number or the first half of the
/// authority are derived from different seeds.
pub proof fn seeds_tell_parameters_apart(
    base: Pubkey,
    space: u32,
    seed: u8,
    authority: Pubkey,
    other_base: Pubkey,
    other_space: u32,
    other_seed: u8,
    other_authority: Pubkey,
)
    requires
        account_seeds(base, space, seed, authority) == account_seeds(
            other_base,
            other_space,
            other_seed,
            other_authority,
        ),
    ensures
        base == other_base,
        space == other_space,
        seed == other_seed,
        authority@.take(16) == other_authority@.take(16),
{
    crate::bytes::lemma_le32();
    let one = account_seeds(base, space, seed, authority);
    let two = account_seeds(other_base, other_space, other_seed, other_authority);
    assert(one[0] == two[0]);
    assert(one[1] == two[1]);
    crate::chain::lemma_pubkey_ext(base, other_base);
    assert(one[1].take(4) =~= le32(space));
    assert(two[1].take(4) =~= le32(other_space));
    assert(crate::bytes::from_le32(le32(space)) == crate::bytes::from_le32(le32(other_space)));
    assert(one[1][4] == seed);
    assert(two[1][4] == other_seed);
    assert(one[1].skip(5) =~= authority@.take(16));
    assert(two[1].skip(5) =~= other_authority@.take(16));
}

} // verus!
