//! Who may pay fees on the rollup: a delegated payer commits itself, and an
//! outsider is refused.
use crate::bytes::le32;
use crate::chain::{key, writable, Pubkey, SolanaInstruction};
use crate::ids::{MAGIC_CONTEXT_ID, MAGIC_PROGRAM_ID, SYSTEM_PROGRAM_ID};
use crate::redshift::schedule_builders::direct_schedule_commit;
use crate::redshift::schedule_commit::MAGIC_SCHEDULE_COMMIT_TAG;
use crate::system::{transfer, transfer_data};
use crate::text::{contains_bytes, holds_bytes};
use vstd::prelude::*;
use vstd::utf8::encode_utf8;

verus! {

/// How long a receipt of a commit is waited for, in seconds.
pub const RECEIPT_TIMEOUT: u64 = 30;

/// How long the base chain is waited for, in seconds.
pub const BASE_CONFIRM_TIMEOUT: u64 = 20;

/// The suite.
pub struct FeePayerRules;

impl FeePayerRules {
    /// The name that the suite reports under.
    pub fn name(&self) -> (r: &'static str)
        ensures
            r@ == "redhat/fee_payer_rules"@,
    {
        "redhat/fee_payer_rules"
    }
}

/// What a fee of an outsider is refused with.
pub open spec fn fee_refusal() -> Seq<char> {
    "InvalidAccountForFee"@
}

/// The commit of a payer by itself, past any program.
pub fn self_commit(payer: Pubkey, vault: Pubkey) -> (r: SolanaInstruction)
    ensures
        r.is(
            key(MAGIC_PROGRAM_ID),
            seq![
                writable(payer, true),
                writable(key(MAGIC_CONTEXT_ID), false),
                writable(vault, false),
                writable(payer, false),
            ],
            le32(MAGIC_SCHEDULE_COMMIT_TAG),
        ),
{
    let committees: Vec<Pubkey> = vec![payer];
    let r = direct_schedule_commit(payer, Some(vault), committees.as_slice());
    assert(r.accounts@ =~= seq![
        writable(payer, true),
        writable(key(MAGIC_CONTEXT_ID), false),
        writable(vault, false),
        writable(payer, false),
    ]);
    r
}

/// A transaction whose fee is all that can fail: the payer sends one lamport to
/// itself, so that nothing delegated is touched and nothing is created.
pub fn fee_only(outsider: Pubkey) -> (r: SolanaInstruction)
    ensures
        r.is(
            key(SYSTEM_PROGRAM_ID),
            seq![writable(outsider, true), writable(outsider, false)],
            transfer_data(1),
        ),
{
    transfer(&outsider, &outsider, 1)
}

/// How the commit of a payer by itself went.
#[derive(Clone, Copy, Debug, PartialEq, Eq, Structural)]
pub enum SelfCommit {
    /// The receipt names an error.
    Failed,
    /// The payer is not among what was committed.
    LeftOut,
    /// The payer was committed.
    Committed,
}

/// Judges the receipt of a commit.
pub fn judge_commit(failed: bool, included: &[Pubkey], payer: &Pubkey) -> (r: SelfCommit)
    ensures
        r == if failed {
            SelfCommit::Failed
        } else if included@.contains(*payer) {
            SelfCommit::Committed
        } else {
            SelfCommit::LeftOut
        },
        r == SelfCommit::Committed ==> !failed && included@.contains(*payer),
        r == SelfCommit::LeftOut ==> !failed && !included@.contains(*payer),
        r == SelfCommit::Failed <==> failed,
{
    if failed {
        return SelfCommit::Failed;
    }
    let mut i: usize = 0;
    while i < included.len()
        invariant
            !failed,
            i <= included@.len(),
            forall|j: int| 0 <= j < i ==> included@[j] != *payer,
        decreases included@.len() - i,
    {
        if included[i].same(payer) {
            assert(included@[i as int] == *payer);
            return SelfCommit::Committed;
        }
        i = i + 1;
    }
    SelfCommit::LeftOut
}

/// How the fee of an outsider was taken.
#[derive(Clone, Copy, Debug, PartialEq, Eq, Structural)]
pub enum FeeGate {
    /// It was paid, which it must not be.
    Open,
    /// It failed with something else.
    OtherError,
    /// It was refused.
    Refused,
}

/// Judges how a transaction that only costs a fee went: `error` is what it
/// failed with, if it failed.
pub fn judge_fee(error: Option<&str>) -> (r: FeeGate)
    ensures
        r == match error {
            None => FeeGate::Open,
            Some(text) => if holds_bytes(encode_utf8(text@), encode_utf8(fee_refusal())) {
                FeeGate::Refused
            } else {
                FeeGate::OtherError
            },
        },
{
    match error {
        None => FeeGate::Open,
        Some(text) => if contains_bytes(text.as_bytes(), "InvalidAccountForFee".as_bytes()) {
            FeeGate::Refused
        } else {
            FeeGate::OtherError
        },
    }
}

} // verus!
