//! Program-derived addresses.
use crate::bytes::copy_bytes;
use crate::chain::{address_of, lemma_pubkey_ext, Pubkey};
use vstd::prelude::*;

verus! {

/// The address and bump that the search for a program-derived address finds
/// for `seeds` under `program`, if it finds any.
pub uninterp spec fn found_address(seeds: Seq<Seq<u8>>, program: Seq<u8>) -> Option<(Seq<u8>, u8)>;

/// The seeds as byte strings.
pub open spec fn seed_bytes(seeds: Seq<Vec<u8>>) -> Seq<Seq<u8>> {
    Seq::new(seeds.len(), |i: int| seeds[i]@)
}

/// `solana_program::pubkey::Pubkey::try_find_program_address`: the result is
/// a function of the seeds and the program alone; it is `None` when a limit on
/// the seeds is exceeded or no bump gives an address off the curve. Which
/// address comes out is not stated.
#[verifier::external_body]
fn try_find_program_address(seeds: &[Vec<u8>], program: &[u8; 32]) -> (r: Option<([u8; 32], u8)>)
    ensures
        match r {
            Some(found) => found_address(seed_bytes(seeds@), program@) == Some((found.0@, found.1)),
            None => found_address(seed_bytes(seeds@), program@) is None,
        },
{
    let slices: Vec<&[u8]> = seeds.iter().map(|s| s.as_slice()).collect();
    let program = solana_program::pubkey::Pubkey::new_from_array(*program);
    let found = solana_program::pubkey::Pubkey::try_find_program_address(&slices, &program);
    found.map(|(address, bump)| (address.to_bytes(), bump))
}

/// Whether `r` is what the search finds for `seeds` under `program`.
pub open spec fn is_found(r: Option<(Pubkey, u8)>, seeds: Seq<Seq<u8>>, program: Pubkey) -> bool {
    match r {
        Some(found) => found_address(seeds, program@) == Some((found.0@, found.1)),
        None => found_address(seeds, program@) is None,
    }
}

/// The address that a search finds.
pub open spec fn address_in(found: Option<(Seq<u8>, u8)>) -> Pubkey {
    match found {
        Some((bytes, _)) => address_of(bytes),
        None => arbitrary(),
    }
}

/// Searches for the address of `seeds` under `program`.
pub fn find_address(seeds: &[Vec<u8>], program: &Pubkey) -> (r: Option<(Pubkey, u8)>)
    ensures
        is_found(r, seed_bytes(seeds@), *program),
{
    match try_find_program_address(seeds, &program.bytes) {
        Some(found) => Some((Pubkey::new(found.0), found.1)),
        None => None,
    }
}

/// The bump of the address that a search found, if that is `address`.
pub open spec fn bump_of(found: Option<(Seq<u8>, u8)>, address: Pubkey) -> Option<u8> {
    match found {
        Some((bytes, bump)) => if address@ == bytes {
            Some(bump)
        } else {
            None
        },
        None => None,
    }
}

/// The bump of the address that a search found, if that is `address`.
pub fn bump_if_at(found: Option<(Pubkey, u8)>, address: &Pubkey) -> (r: Option<u8>)
    ensures
        r == bump_of(
            match found {
                Some((pda, bump)) => Some((pda@, bump)),
                None => None,
            },
            *address,
        ),
{
    match found {
        Some((pda, bump)) => if pda.same(address) {
            Some(bump)
        } else {
            proof {
                if address@ == pda@ {
                    lemma_pubkey_ext(*address, pda);
                }
            }
            None
        },
        None => None,
    }
}

/// The seeds made of a tag and an address.
pub fn two_seeds(tag: &[u8], owner: &Pubkey) -> (r: Vec<Vec<u8>>)
    ensures
        seed_bytes(r@) == seq![tag@, owner@],
{
    let first: Vec<u8> = copy_bytes(tag);
    let second: Vec<u8> = copy_bytes(owner.as_bytes());
    let mut seeds: Vec<Vec<u8>> = Vec::new();
    seeds.push(first);
    seeds.push(second);
    assert(seed_bytes(seeds@) =~= seq![tag@, owner@]);
    seeds
}

/// The seeds with a bump behind them.
pub fn with_bump(seeds: Vec<Vec<u8>>, bump: u8) -> (r: Vec<Vec<u8>>)
    ensures
        seed_bytes(r@) == seed_bytes(seeds@).push(seq![bump]),
{
    let mut out: Vec<Vec<u8>> = seeds;
    let mut last: Vec<u8> = Vec::new();
    last.push(bump);
    assert(last@ =~= seq![bump]);
    out.push(last);
    assert(seed_bytes(out@) =~= seed_bytes(seeds@).push(seq![bump]));
    out
}

/// The text of an address.
pub uninterp spec fn base58(address: Seq<u8>) -> Seq<char>;

/// The text of an address: what `to_string` makes of a
/// `solana_pubkey::Pubkey`, which is its bytes in base 58. The text depends on
/// the bytes alone.
#[verifier::external_body]
pub(crate) fn address_text(address: &Pubkey) -> (r: String)
    ensures
        r@ == base58(address@),
{
    solana_pubkey::Pubkey::new_from_array(address.bytes).to_string()
}

/// The bump of a search is given for the address that it found, and for no
/// other.
pub proof fn bumps_belong_to_found_addresses(found: Option<(Seq<u8>, u8)>, address: Pubkey)
    ensures
        bump_of(found, address) is Some <==> (found matches Some((bytes, _)) && bytes == address@),
        bump_of(found, address) matches Some(bump) ==> found == Some((address@, bump)),
{
}

} // verus!
