//! SHA-256 chains, the compute-bound payload of the load programs.
use crate::bytes::{append_bytes, joined, le32, le64, u32_bytes, u64_bytes};
use sha2::{Digest, Sha256};
use vstd::prelude::*;

verus! {

/// The SHA-256 digest of a byte string.
pub uninterp spec fn sha256(data: Seq<u8>) -> Seq<u8>;

/// `sha2::Sha256::digest`: the digest of `data`, 32 bytes that depend on
/// `data` alone. What the bytes are is not stated.
#[verifier::external_body]
fn sha256_digest(data: &[u8]) -> (digest: [u8; 32])
    ensures
        digest@ == sha256(data@),
{
    Sha256::digest(data).into()
}

/// The digest of the content of an account.
pub fn content_hash(data: &[u8]) -> (r: [u8; 32])
    ensures
        r@ == sha256(data@),
{
    sha256_digest(data)
}

/// What `rounds` rounds make of `hash`: each round digests the hash so far
/// followed by the number of the round.
pub open spec fn chained(hash: Seq<u8>, rounds: nat) -> Seq<u8>
    decreases rounds,
{
    if rounds == 0 {
        hash
    } else {
        sha256(chained(hash, (rounds - 1) as nat) + le32((rounds - 1) as u32))
    }
}

/// Runs `iters` rounds of the chain on `hash`.
pub fn hash_chain(hash: [u8; 32], iters: u32) -> (r: [u8; 32])
    ensures
        r@ == chained(hash@, iters as nat),
{
    let mut current: [u8; 32] = hash;
    let mut round: u32 = 0;
    while round < iters
        invariant
            round <= iters,
            current@ == chained(hash@, round as nat),
        decreases iters - round,
    {
        let mut block: Vec<u8> = Vec::new();
        append_bytes(&mut block, current.as_slice());
        append_bytes(&mut block, u32_bytes(round).as_slice());
        assert(block@ =~= current@ + le32(round));
        current = sha256_digest(block.as_slice());
        round = round + 1;
    }
    current
}

/// The hashes as byte strings.
pub open spec fn hash_bytes(hashes: Seq<[u8; 32]>) -> Seq<Seq<u8>> {
    Seq::new(hashes.len(), |i: int| hashes[i]@)
}

/// The hash that a step with this id leaves behind: its id and the hashes it
/// read, digested once and chained for `iters` rounds.
pub open spec fn folded(id: u64, hashes: Seq<Seq<u8>>, iters: nat) -> Seq<u8> {
    chained(sha256(le64(id) + joined(hashes)), iters)
}

/// Folds `hashes` and `id` into one hash.
pub fn fold_hash(id: u64, hashes: &[[u8; 32]], iters: u32) -> (r: [u8; 32])
    ensures
        r@ == folded(id, hash_bytes(hashes@), iters as nat),
{
    let mut block: Vec<u8> = u64_bytes(id);
    let mut i: usize = 0;
    while i < hashes.len()
        invariant
            i <= hashes@.len(),
            block@ == le64(id) + joined(hash_bytes(hashes@).take(i as int)),
        decreases hashes@.len() - i,
    {
        append_bytes(&mut block, hashes[i].as_slice());
        assert(hash_bytes(hashes@).take(i as int + 1).drop_last() =~= hash_bytes(hashes@).take(
            i as int,
        ));
        assert(block@ =~= le64(id) + joined(hash_bytes(hashes@).take(i as int + 1)));
        i = i + 1;
    }
    assert(hash_bytes(hashes@).take(i as int) =~= hash_bytes(hashes@));
    hash_chain(sha256_digest(block.as_slice()), iters)
}

/// No round leaves the hash as it is, and one more round digests the previous
/// result with the number of that round.
pub proof fn chain_starts_at_hash_and_grows_by_rounds(hash: Seq<u8>, rounds: nat)
    ensures
        chained(hash, 0) == hash,
        chained(hash, rounds + 1) == sha256(chained(hash, rounds) + le32(rounds as u32)),
{
}

} // verus!
