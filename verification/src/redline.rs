//! The load program: what its accounts hold, the instructions it takes, how
//! they are built and what they do.
use vstd::prelude::*;


pub mod builders;
pub mod entry;
pub mod instruction;
pub mod laws;
pub mod processors;
pub mod utils;

verus! {

/// The address of the load program.
pub const ID: [u8; 32] = [
    34, 69, 118, 115, 222, 30, 16, 55, 166, 22, 247, 67, 224, 171, 53, 40, 23, 235, 149, 22,
    40, 220, 107, 128, 61, 42, 231, 40, 203, 140, 40, 214,
];

/// The bytes at the front of an account that name its owner.
pub const OWNER_PUBKEY_SIZE: usize = 32;

/// Where the payload of an account starts.
pub const DATA_OFFSET: usize = OWNER_PUBKEY_SIZE;

/// Where the id of the last update stands.
pub const ID_OFFSET: usize = DATA_OFFSET;

/// The size of that id.
pub const ID_SIZE: usize = 8;

/// Where the hash of the last update stands.
pub const HASH_OFFSET: usize = ID_OFFSET + ID_SIZE;

/// The size of that hash.
pub const HASH_SIZE: usize = 32;

} // verus!
