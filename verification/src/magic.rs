//! Instructions to the magic program.
use crate::bytes::{from_le64, joined, le32, le64, starts};
use crate::chain::{instruction_states, AccountMeta, InstructionState, SolanaInstruction};
use crate::fields::bits_of;
use magicblock_magic_program_api::args::{CommitTypeArgs, MagicIntentBundleArgs, ScheduleTaskArgs};
use magicblock_magic_program_api::instruction::MagicBlockInstruction;
use magicblock_magic_program_api::response::MagicResponse;
use solana_program::instruction::{AccountMeta as NativeMeta, Instruction as NativeInstruction};
use solana_program::pubkey::Pubkey as NativeKey;
use vstd::prelude::*;
use vstd::utf8::encode_utf8;

verus! {

/// What is asked of an ephemeral account.
#[derive(Clone, Copy, Debug, PartialEq, Eq, Structural)]
pub enum Operation {
    Create { data_len: u32 },
    Resize { new_data_len: u32 },
    Close,
}

/// The instruction data that asks for an operation.
pub open spec fn operation_data(operation: Operation) -> Seq<u8> {
    match operation {
        Operation::Create { data_len } => le32(12) + le32(data_len),
        Operation::Resize { new_data_len } => le32(13) + le32(new_data_len),
        Operation::Close => le32(14),
    }
}

/// `MagicBlockInstruction::try_to_vec`: the number of the variant, and its
/// length where it has one, as 32-bit integers with the low byte first. It
/// does not fail on these variants, which have no part whose size is limited.
#[verifier::external_body]
pub(crate) fn operation_bytes(operation: Operation) -> (r: Vec<u8>)
    ensures
        r@ == operation_data(operation),
{
    let native = match operation {
        Operation::Create { data_len } => MagicBlockInstruction::CreateEphemeralAccount { data_len },
        Operation::Resize { new_data_len } => {
            MagicBlockInstruction::ResizeEphemeralAccount { new_data_len }
        },
        Operation::Close => MagicBlockInstruction::CloseEphemeralAccount,
    };
    native.try_to_vec().expect("the size of the instruction is bounded")
}

/// A truth value as a byte.
pub open spec fn flag(x: bool) -> u8 {
    if x {
        1
    } else {
        0
    }
}

/// A meta in bincode.
pub open spec fn meta_format(meta: AccountMeta) -> Seq<u8> {
    meta.pubkey@ + seq![flag(meta.is_signer), flag(meta.is_writable)]
}

/// An instruction in bincode.
pub open spec fn instruction_format(ix: InstructionState) -> Seq<u8> {
    ix.program_id@ + le64(ix.accounts.len() as u64) + joined(
        Seq::new(ix.accounts.len(), |i: int| meta_format(ix.accounts[i])),
    ) + le64(ix.data.len() as u64) + ix.data
}

/// The instruction data that schedules a task.
pub open spec fn task_data(
    task_id: i64,
    execution_interval_millis: i64,
    iterations: i64,
    instructions: Seq<InstructionState>,
) -> Seq<u8> {
    le32(6) + le64(bits_of(task_id)) + le64(bits_of(execution_interval_millis)) + le64(
        bits_of(iterations),
    ) + le64(instructions.len() as u64) + joined(
        Seq::new(instructions.len(), |i: int| instruction_format(instructions[i])),
    )
}

/// `bincode::serialize` at `MagicBlockInstruction::ScheduleTask`: the number
/// of the variant in four bytes, then the fields in order. Numbers take eight
/// bytes with the low byte first, lists are preceded by their length in eight
/// bytes, and truth values take one byte. There is no limit on the size, so
/// that it does not fail.
#[verifier::external_body]
pub(crate) fn task_bytes(
    task_id: i64,
    execution_interval_millis: i64,
    iterations: i64,
    instructions: &[SolanaInstruction],
) -> (r: Vec<u8>)
    ensures
        r@ == task_data(
            task_id,
            execution_interval_millis,
            iterations,
            instruction_states(instructions@),
        ),
{
    let meta = |m: &AccountMeta| NativeMeta {
        pubkey: NativeKey::new_from_array(m.pubkey.bytes),
        is_signer: m.is_signer,
        is_writable: m.is_writable,
    };
    let native = |ix: &SolanaInstruction| NativeInstruction {
        program_id: NativeKey::new_from_array(ix.program_id.bytes),
        accounts: ix.accounts.iter().map(meta).collect(),
        data: ix.data.clone(),
    };
    let instructions = instructions.iter().map(native).collect();
    let args = ScheduleTaskArgs { task_id, execution_interval_millis, iterations, instructions };
    bincode::serialize(&MagicBlockInstruction::ScheduleTask(args)).expect("no limit on the size")
}

/// The instruction data that cancels a task.
pub open spec fn cancel_data(task_id: i64) -> Seq<u8> {
    le32(7) + le64(bits_of(task_id))
}

/// `bincode::serialize` at `MagicBlockInstruction::CancelTask`: the number of
/// the variant in four bytes and the task in eight. There is no limit on the
/// size, so that it does not fail.
#[verifier::external_body]
pub(crate) fn cancel_bytes(task_id: i64) -> (r: Vec<u8>)
    ensures
        r@ == cancel_data(task_id),
{
    bincode::serialize(&MagicBlockInstruction::CancelTask { task_id }).expect("no limit on the size")
}

/// A commit of the accounts at some places, in bincode.
pub open spec fn standalone_format(places: Seq<u8>) -> Seq<u8> {
    seq![1u8] + le32(0) + le64(places.len() as u64) + places
}

/// The instruction data that schedules two commits: one of the accounts at
/// some places, and one that is finalised.
pub open spec fn bundle_data(commit: Seq<u8>, commit_finalize: Seq<u8>) -> Seq<u8> {
    le32(11) + standalone_format(commit) + seq![0u8] + standalone_format(commit_finalize) + seq![
        0u8,
    ] + le64(0)
}

/// `bincode::serialize` at `MagicBlockInstruction::ScheduleIntentBundle`: the
/// number of the variant in four bytes, then what is committed, nothing that is
/// returned, what is committed and finalised, nothing that is returned of that,
/// and an empty list of actions. What is there is preceded by a one, what is
/// not there is a zero. There is no limit on the size, so that it does not fail.
#[verifier::external_body]
pub(crate) fn bundle_bytes(commit: Vec<u8>, commit_finalize: Vec<u8>) -> (r: Vec<u8>)
    ensures
        r@ == bundle_data(commit@, commit_finalize@),
{
    let args = MagicIntentBundleArgs {
        commit: Some(CommitTypeArgs::Standalone(commit)),
        commit_and_undelegate: None,
        commit_finalize: Some(CommitTypeArgs::Standalone(commit_finalize)),
        commit_finalize_and_undelegate: None,
        standalone_actions: Vec::new(),
    };
    bincode::serialize(&MagicBlockInstruction::ScheduleIntentBundle(args))
        .expect("no limit on the size")
}

/// A response in bincode: the number of the only variant, whether the action
/// went well, the payload of the callback, the error, and the signature of the
/// action if there is one.
pub open spec fn response_format(
    ok: bool,
    payload: Seq<u8>,
    error: Seq<char>,
    receipt: Option<Seq<u8>>,
) -> Seq<u8> {
    le32(0) + seq![flag(ok)] + le64(payload.len() as u64) + payload + le64(
        encode_utf8(error).len() as u64,
    ) + encode_utf8(error) + match receipt {
        Some(signature) => seq![1u8] + signature,
        None => seq![0u8],
    }
}

/// Whether these can be the parts of a response.
pub open spec fn response_fits(payload: Seq<u8>, error: Seq<char>, receipt: Option<Seq<u8>>) -> bool {
    &&& payload.len() <= u64::MAX
    &&& encode_utf8(error).len() <= u64::MAX
    &&& receipt matches Some(signature) ==> signature.len() == 64
}

/// Whether data begins with a response.
pub open spec fn holds_response(data: Seq<u8>) -> bool {
    exists|ok: bool, payload: Seq<u8>, error: Seq<char>, receipt: Option<Seq<u8>>|
        response_fits(payload, error, receipt) && starts(
            data,
            #[trigger] response_format(ok, payload, error, receipt),
        )
}

/// Whether the action of a response went well.
pub open spec fn response_ok(data: Seq<u8>) -> bool {
    data[4] == 1
}

/// The payload of a response.
pub open spec fn response_payload(data: Seq<u8>) -> Seq<u8> {
    data.subrange(13, 13 + from_le64(data.subrange(5, 13)) as int)
}

/// `bincode::deserialize` at `MagicResponse`, with its `ok` and `data`: the
/// two are read where the layout of a response puts them, and there is nothing
/// exactly if the data does not begin with a response. What follows the
/// response is not looked at.
#[verifier::external_body]
pub(crate) fn read_response(data: &[u8]) -> (r: Option<(bool, Vec<u8>)>)
    ensures
        match r {
            Some((ok, payload)) => holds_response(data@) && ok == response_ok(data@) && payload@
                == response_payload(data@),
            None => !holds_response(data@),
        },
{
    let response: Option<MagicResponse> = bincode::deserialize(data).ok();
    response.map(|found| (found.ok(), found.data().to_vec()))
}

} // verus!
