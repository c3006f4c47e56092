//! The fixture program: counters and order books that can be delegated, and
//! the commits, intents and tasks that are scheduled for them.
use vstd::prelude::*;

pub mod agreement;
pub mod entry;
pub mod flexi;
pub mod flexi_builders;
pub mod flexi_laws;
pub mod flexi_processors;
pub mod order_book;
pub mod schedule_builders;
pub mod schedule_commit;
pub mod schedule_laws;
pub mod schedule_processors;

verus! {

/// The address of the fixture program.
pub const ID: [u8; 32] = [
    144, 106, 95, 247, 24, 215, 144, 101, 91, 121, 56, 125, 192, 64, 114, 178, 10, 133, 5, 178,
    213, 76, 150, 220, 158, 121, 196, 198, 182, 163, 121, 106,
];

/// The first byte of an instruction that logs a message.
pub const LOG_MSG_TAG: u8 = 4;

/// The first byte of an instruction on counters and order books.
pub const SCHEDULE_COMMIT_TAG: u8 = 5;

/// The first byte of an instruction on labelled counters.
pub const FLEXI_TAG: u8 = 6;

} // verus!
