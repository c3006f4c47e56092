//! Verified core of the load, lifecycle and security suites that exercise an
//! ephemeral rollup, together with the three on-chain programs they drive.
pub mod address;
pub mod borsh_format;
pub mod bytes;
pub mod chain;
pub mod delegation;
pub mod effects;
pub mod fields;
pub mod float_text;
pub mod hash;
pub mod ids;
pub mod magic;
pub mod redhat;
pub mod redline;
pub mod redshift;
pub mod scenarios;
pub mod suite;
pub mod system;
pub mod text;
