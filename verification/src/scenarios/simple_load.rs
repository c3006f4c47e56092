//! A few writes in turn: what they leave on the rollup and on the base chain.
use crate::bytes::{le64, lemma_le64, read_u64};
use crate::chain::{key, metas_of, Pubkey, SolanaInstruction};
use crate::ids::DELEGATION_PROGRAM_ID;
use crate::redline::builders::simple_byte_set;
use crate::redline::instruction::Instruction;
use crate::redline::{DATA_OFFSET, ID, ID_OFFSET, ID_SIZE};
use crate::scenarios::mixed_sustained_load::{is_last_on_lane, lane};
use vstd::prelude::*;

verus! {

/// The accounts that are written to.
pub const ACCOUNTS: u8 = 4;

/// The writes.
pub const ITERATIONS: u64 = 40;

/// The writes in a second.
pub const RATE: u32 = 20;

/// The suite.
pub struct SimpleLoad;

impl SimpleLoad {
    /// The name that the suite reports under.
    pub fn name(&self) -> (r: &'static str)
        ensures
            r@ == "redline/simple_load"@,
    {
        "redline/simple_load"
    }
}

/// The account of a write, in turn.
pub fn target_of(pool: &[Pubkey], id: u64) -> (r: Pubkey)
    requires
        pool@.len() > 0,
        id >= 1,
    ensures
        r == pool@[(id - 1) % (pool@.len() as int)],
{
    assert(pool.len() == pool@.len());
    pool[((id - 1) % pool.len() as u64) as usize]
}

/// The write with this id.
pub fn request(pool: &[Pubkey], id: u64) -> (r: SolanaInstruction)
    requires
        pool@.len() > 0,
        id >= 1,
    ensures
        r.is(
            key(ID),
            metas_of(seq![pool@[(id - 1) % (pool@.len() as int)]], false, true),
            (Instruction::SimpleByteSet { id }).encoding(),
        ),
{
    let target = target_of(pool, id);
    let accounts: Vec<Pubkey> = vec![target];
    assert(accounts@ =~= seq![target]);
    simple_byte_set(id, accounts.as_slice())
}

/// The last write to an account.
pub fn last_id(index: u64) -> (r: u64)
    requires
        index < ACCOUNTS,
    ensures
        r == ITERATIONS - ACCOUNTS + 1 + index,
        is_last_on_lane(r as int, index as int, ACCOUNTS as int, ITERATIONS as int),
{
    assert forall|later: int|
        37 + index < later <= ITERATIONS implies #[trigger] lane(later, 4) != index by {}
    ITERATIONS - ACCOUNTS as u64 + 1 + index
}

/// Whether an account is delegated on the base chain.
pub fn is_delegated(owner: &Pubkey) -> (r: bool)
    ensures
        r == (*owner == key(DELEGATION_PROGRAM_ID)),
{
    owner.same(&Pubkey::new(DELEGATION_PROGRAM_ID))
}

/// Whether an account holds this id.
pub fn holds_id(data: &[u8], id: u64) -> (r: bool)
    requires
        data@.len() >= ID_OFFSET + ID_SIZE,
    ensures
        r == (data@.subrange(ID_OFFSET as int, ID_OFFSET + ID_SIZE) == le64(id)),
{
    proof {
        lemma_le64();
    }
    read_u64(data, ID_OFFSET) == id
}

/// Whether nothing was written to an account.
pub fn is_untouched(data: &[u8]) -> (r: bool)
    requires
        data@.len() >= DATA_OFFSET,
    ensures
        r == forall|i: int| DATA_OFFSET <= i < data@.len() ==> data@[i] == 0,
{
    let mut i: usize = DATA_OFFSET;
    while i < data.len()
        invariant
            DATA_OFFSET <= i <= data@.len(),
            forall|j: int| DATA_OFFSET <= j < i ==> data@[j] == 0,
        decreases data@.len() - i,
    {
        if data[i] != 0 {
            return false;
        }
        i = i + 1;
    }
    true
}

} // verus!
