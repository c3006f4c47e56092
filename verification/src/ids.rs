//! Addresses and markers of the programs that the suites work with.
use vstd::prelude::*;

verus! {

/// The system program.
pub const SYSTEM_PROGRAM_ID: [u8; 32] = [
    0, 0, 0, 0, 0, 0, 0, 0, 0, 0, 0, 0, 0, 0, 0, 0, 0, 0, 0, 0, 0, 0, 0, 0, 0, 0, 0, 0, 0, 0, 0,
    0,
];

/// The compute budget program.
pub const COMPUTE_BUDGET_ID: [u8; 32] = [
    3, 6, 70, 111, 229, 33, 23, 50, 255, 236, 173, 186, 114, 195, 155, 231, 188, 140, 229, 187,
    197, 247, 18, 107, 44, 67, 155, 58, 64, 0, 0, 0,
];

/// The delegation program on the base chain.
pub const DELEGATION_PROGRAM_ID: [u8; 32] = [
    181, 183, 0, 225, 242, 87, 58, 192, 204, 6, 34, 1, 52, 74, 207, 151, 184, 53, 6, 235, 140,
    229, 25, 152, 204, 98, 126, 24, 147, 128, 167, 62,
];

/// The magic program of the rollup.
pub const MAGIC_PROGRAM_ID: [u8; 32] = [
    5, 69, 180, 36, 176, 218, 112, 149, 236, 185, 214, 222, 195, 119, 215, 40, 145, 182, 231,
    142, 146, 234, 18, 214, 223, 187, 58, 64, 0, 0, 0, 0,
];

/// The account in which the magic program keeps what is scheduled.
pub const MAGIC_CONTEXT_ID: [u8; 32] = [
    5, 69, 180, 36, 196, 165, 40, 191, 95, 180, 3, 47, 68, 82, 130, 142, 187, 56, 171, 193, 210,
    220, 151, 247, 63, 139, 148, 84, 128, 0, 0, 0,
];

/// The vault that holds the rent of ephemeral accounts.
pub const EPHEMERAL_VAULT_ID: [u8; 32] = [
    5, 69, 180, 36, 224, 197, 24, 97, 240, 41, 76, 112, 66, 34, 84, 78, 202, 127, 133, 79, 194,
    135, 136, 166, 123, 118, 113, 80, 62, 224, 143, 184,
];

/// The program under which crank signers are derived.
pub const CRANK_PROGRAM_ID: [u8; 32] = [
    3, 9, 115, 187, 171, 86, 176, 95, 66, 206, 3, 79, 119, 118, 67, 48, 79, 137, 61, 97, 116,
    104, 235, 217, 161, 243, 44, 64, 0, 0, 0, 0,
];

/// The address that signs callbacks.
pub const CALLBACK_SIGNER: [u8; 32] = [
    206, 31, 47, 237, 241, 220, 106, 204, 78, 137, 6, 132, 184, 10, 176, 102, 35, 7, 210, 81, 230,
    7, 231, 111, 86, 169, 143, 167, 83, 121, 207, 217,
];

/// The seed of crank signers: `crank-executor`.
pub const CRANK_SEED: [u8; 14] = [99, 114, 97, 110, 107, 45, 101, 120, 101, 99, 117, 116, 111, 114];

/// What the delegation program puts in front of the data of its callback that
/// returns an account.
pub const EXTERNAL_UNDELEGATE_DISCRIMINATOR: [u8; 8] = [196, 28, 41, 206, 48, 37, 51, 167];

} // verus!
