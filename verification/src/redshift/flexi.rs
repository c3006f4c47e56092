//! Labelled counters: what they hold, where they live and the instructions on
//! them.
use crate::address::{address_in, find_address, found_address, seed_bytes};
use crate::borsh_format::{
    counter_fits, counter_format, lemma_counter_fronts, lemma_counter_tells, read_counter,
    write_counter,
};
use crate::bytes::{append_bytes, copy_bytes, starts};
use crate::chain::{lemma_address_of, ProgramError, Pubkey};
use crate::fields::{
    are_of, bytes_tell_the_fields, copy_ints, fields_format, lemma_read_kinds, read_values, views,
    write_values, Field, Kind, Value,
};
use crate::redshift::{FLEXI_TAG, ID};
use crate::text::same_text;
use vstd::prelude::*;
use vstd::slice::slice_subrange;

verus! {

/// The seed of labelled counters: `flexi_counter`.
pub const FLEXI_SEED: [u8; 13] = [
    102, 108, 101, 120, 105, 95, 99, 111, 117, 110, 116, 101, 114,
];

/// What a handler pays out.
pub const PRIZE: u64 = 1_000_000;

/// The escrow that handlers are paid from.
pub const ACTOR_ESCROW_INDEX: u8 = 1;

/// The code with which the return of a poisoned counter fails.
pub const FAIL_UNDELEGATION_CODE: u32 = 122;

/// The code with which a transfer fails that is asked to.
pub const TRANSFER_FAIL_CODE: u32 = 0xFA11;

/// The first bytes of the callback of a transfer.
pub const TRANSFER_CALLBACK_DISCRIMINATOR: [u8; 8] = [0xFE, 0xCA, 0xCB, 0x01, 0, 0, 0, 0];

/// The label that makes the return of a counter fail.
pub open spec fn fail_label() -> Seq<char> {
    "undelegate_fail"@
}

/// The label that makes the return of a counter fail.
pub fn fail_undelegation_label() -> (r: &'static str)
    ensures
        r@ == fail_label(),
{
    "undelegate_fail"
}

/// A labelled counter.
#[derive(Clone, Debug)]
pub struct FlexiCounter {
    pub count: u64,
    pub updates: u64,
    pub label: String,
}

/// Where the counter of a payer lives.
pub open spec fn flexi_address(payer: Pubkey) -> Option<(Seq<u8>, u8)> {
    found_address(seq![ID@, FLEXI_SEED@, payer@], ID@)
}

/// The counter of a payer.
pub open spec fn flexi_of(payer: Pubkey) -> Pubkey {
    address_in(flexi_address(payer))
}

impl FlexiCounter {
    /// The bytes of the counter.
    pub open spec fn encoding(self) -> Seq<u8> {
        counter_format(self.count, self.updates, self.label@)
    }

    /// A new counter.
    pub fn new(label: String) -> (r: FlexiCounter)
        ensures
            r.count == 0,
            r.updates == 0,
            r.label == label,
    {
        FlexiCounter { count: 0, updates: 0, label }
    }

    /// The address and bump of the counter of a payer, if the search finds one.
    pub fn pda_and_bump(payer: &Pubkey) -> (r: Option<(Pubkey, u8)>)
        ensures
            match r {
                Some((pda, bump)) => flexi_address(*payer) == Some((pda@, bump)) && pda
                    == flexi_of(*payer),
                None => flexi_address(*payer) is None,
            },
    {
        let seeds: Vec<Vec<u8>> = flexi_seeds(payer);
        let r = find_address(seeds.as_slice(), &Pubkey::new(ID));
        proof {
            if let Some((pda, _)) = r {
                lemma_address_of(pda);
            }
        }
        r
    }

    /// Reads a counter; fails exactly if these are the bytes of none.
    pub fn try_decode(data: &[u8]) -> (r: Result<FlexiCounter, ProgramError>)
        ensures
            match r {
                Ok(counter) => counter_fits(counter.label@) && data@ == counter.encoding()
                    && counter_in(data@) == Some((counter.count, counter.updates, counter.label@)),
                Err(e) => e == ProgramError::BorshIoError && counter_in(data@) is None,
            },
    {
        match read_counter(data) {
            Some((count, updates, label)) => {
                proof {
                    lemma_counter_in(count, updates, label@);
                }
                Ok(FlexiCounter { count, updates, label })
            },
            None => Err(ProgramError::BorshIoError),
        }
    }

    /// The bytes of the counter; fails exactly if the label is too long.
    pub fn encode(&self) -> (r: Result<Vec<u8>, ProgramError>)
        ensures
            match r {
                Ok(data) => counter_fits(self.label@) && data@ == self.encoding(),
                Err(e) => e == ProgramError::BorshIoError && !counter_fits(self.label@),
            },
    {
        match write_counter(self.count, self.updates, self.label.as_str()) {
            Some(data) => Ok(data),
            None => Err(ProgramError::BorshIoError),
        }
    }
}

/// The counter that data is: its count, its updates and its label; `None`
/// exactly if it is no counter.
pub open spec fn counter_in(data: Seq<u8>) -> Option<(u64, u64, Seq<char>)> {
    if exists|count: u64, updates: u64, label: Seq<char>|
        counter_fits(label) && data == #[trigger] counter_format(count, updates, label) {
        let (count, updates, label) = choose|count: u64, updates: u64, label: Seq<char>|
            counter_fits(label) && data == #[trigger] counter_format(count, updates, label);
        Some((count, updates, label))
    } else {
        None
    }
}

/// The counter that data begins with; `None` exactly if it begins with none.
pub open spec fn counter_at_front(data: Seq<u8>) -> Option<(u64, u64, Seq<char>)> {
    if exists|count: u64, updates: u64, label: Seq<char>|
        counter_fits(label) && starts(data, #[trigger] counter_format(count, updates, label)) {
        let (count, updates, label) = choose|count: u64, updates: u64, label: Seq<char>|
            counter_fits(label) && starts(data, #[trigger] counter_format(count, updates, label));
        Some((count, updates, label))
    } else {
        None
    }
}

/// The counter that data is, is the only one that it can be.
pub proof fn lemma_counter_in(count: u64, updates: u64, label: Seq<char>)
    requires
        counter_fits(label),
    ensures
        counter_in(counter_format(count, updates, label)) == Some((count, updates, label)),
{
    let data = counter_format(count, updates, label);
    let (c, u, l) = choose|c: u64, u: u64, l: Seq<char>|
        counter_fits(l) && data == #[trigger] counter_format(c, u, l);
    lemma_counter_tells(count, updates, label, c, u, l);
}

/// The counter that data begins with is the only one that it can begin with.
pub proof fn lemma_counter_at_front(data: Seq<u8>, count: u64, updates: u64, label: Seq<char>)
    requires
        counter_fits(label),
        starts(data, counter_format(count, updates, label)),
    ensures
        counter_at_front(data) == Some((count, updates, label)),
{
    let (c, u, l) = choose|c: u64, u: u64, l: Seq<char>|
        counter_fits(l) && starts(data, #[trigger] counter_format(c, u, l));
    lemma_counter_fronts(data, count, updates, label, c, u, l);
}

/// The seeds of the counter of a payer.
pub fn flexi_seeds(payer: &Pubkey) -> (r: Vec<Vec<u8>>)
    ensures
        seed_bytes(r@) == seq![ID@, FLEXI_SEED@, payer@],
{
    let program: Vec<u8> = copy_bytes(ID.as_slice());
    let name: Vec<u8> = copy_bytes(FLEXI_SEED.as_slice());
    let owner: Vec<u8> = copy_bytes(payer.as_bytes());
    let mut seeds: Vec<Vec<u8>> = Vec::new();
    seeds.push(program);
    seeds.push(name);
    seeds.push(owner);
    assert(seed_bytes(seeds@) =~= seq![ID@, FLEXI_SEED@, payer@]);
    seeds
}

/// A counter is told by its bytes.
pub proof fn counter_is_read_back(one: FlexiCounter, other: FlexiCounter)
    requires
        counter_fits(one.label@),
        counter_fits(other.label@),
        one.encoding() == other.encoding(),
    ensures
        one.count == other.count,
        one.updates == other.updates,
        one.label@ == other.label@,
{
    lemma_counter_tells(
        one.count,
        one.updates,
        one.label@,
        other.count,
        other.updates,
        other.label@,
    );
}

/// Whether data is a counter with the label that makes its return fail.
pub open spec fn is_poisoned(data: Seq<u8>) -> bool {
    exists|count: u64, updates: u64|
        data == #[trigger] counter_format(count, updates, fail_label())
}

/// Whether data is a counter with the label that makes its return fail.
pub fn undelegate_label_poison(data: &[u8]) -> (r: bool)
    ensures
        r == is_poisoned(data@),
{
    proof {
        lemma_fail_label_fits();
    }
    match read_counter(data) {
        Some((count, updates, label)) => {
            let r: bool = same_text(label.as_str(), fail_undelegation_label());
            proof {
                if r {
                    assert(data@ == counter_format(count, updates, fail_label()));
                }
                if is_poisoned(data@) {
                    let (c, u) = choose|c: u64, u: u64|
                        data@ == #[trigger] counter_format(c, u, fail_label());
                    lemma_counter_tells(count, updates, label@, c, u, fail_label());
                }
            }
            r
        },
        None => false,
    }
}

/// The label that makes the return of a counter fail is short enough.
proof fn lemma_fail_label_fits()
    ensures
        counter_fits(fail_label()),
{
    reveal_strlit("undelegate_fail");
    let label = fail_label();
    assert(vstd::utf8::is_ascii_chars(label));
    vstd::utf8::is_ascii_chars_encode_utf8(label);
}

/// The instructions on labelled counters.
#[derive(Clone, Debug)]
pub enum FlexiInstruction {
    Init { label: String, bump: u8 },
    Delegate { commit_frequency_ms: u32, validator: Option<Pubkey> },
    Add { count: u8 },
    CreateIntent { num_committees: u8, counter_diffs: Vec<i64>, is_undelegate: bool, compute_units: u32 },
    CommitActionHandler { amount: u64 },
    UndelegateActionHandler { amount: u64, counter_diff: i64 },
    CreateIntentBundle { num_commit_only: u8, num_undelegate: u8, counter_diffs: Vec<i64>, compute_units: u32 },
    CreateIntentBundleCommitAndFinalize { num_commit: u8, num_commit_finalize: u8 },
    CreateTransferIntent { amount: u64, fail: bool, compute_units: u32 },
    TransferActionHandler { amount: u64, fail: bool },
    AddUnsigned { count: u8 },
    AddError { count: u8 },
    ScheduleCounterTask { task_id: i64, execution_interval_millis: i64, iterations: i64, error: bool, signer: bool },
    CancelCounterTask { task_id: i64 },
    Mul { multiplier: u8 },
    AddAndScheduleCommit { count: u8, undelegate: bool, has_magic_vault: bool },
}

impl FlexiInstruction {
    /// The number of the variant.
    pub open spec fn tag(self) -> u8 {
        match self {
            FlexiInstruction::Init { .. } => 0,
            FlexiInstruction::Delegate { .. } => 1,
            FlexiInstruction::Add { .. } => 2,
            FlexiInstruction::CreateIntent { .. } => 3,
            FlexiInstruction::CommitActionHandler { .. } => 4,
            FlexiInstruction::UndelegateActionHandler { .. } => 5,
            FlexiInstruction::CreateIntentBundle { .. } => 6,
            FlexiInstruction::CreateIntentBundleCommitAndFinalize { .. } => 7,
            FlexiInstruction::CreateTransferIntent { .. } => 8,
            FlexiInstruction::TransferActionHandler { .. } => 9,
            FlexiInstruction::AddUnsigned { .. } => 10,
            FlexiInstruction::AddError { .. } => 11,
            FlexiInstruction::ScheduleCounterTask { .. } => 12,
            FlexiInstruction::CancelCounterTask { .. } => 13,
            FlexiInstruction::Mul { .. } => 14,
            FlexiInstruction::AddAndScheduleCommit { .. } => 15,
        }
    }

    /// What the fields hold, in order.
    pub open spec fn fields(self) -> Seq<Field> {
        match self {
            FlexiInstruction::Init { label, bump } => seq![
                Field::Text(label@),
                Field::U8(bump),
            ],
            FlexiInstruction::Delegate { commit_frequency_ms, validator } => seq![
                Field::U32(commit_frequency_ms),
                Field::OptionalKey(validator),
            ],
            FlexiInstruction::Add { count } => seq![
                Field::U8(count),
            ],
            FlexiInstruction::CreateIntent { num_committees, counter_diffs, is_undelegate, compute_units } => seq![
                Field::U8(num_committees),
                Field::Ints(counter_diffs@),
                Field::Bool(is_undelegate),
                Field::U32(compute_units),
            ],
            FlexiInstruction::CommitActionHandler { amount } => seq![
                Field::U64(amount),
            ],
            FlexiInstruction::UndelegateActionHandler { amount, counter_diff } => seq![
                Field::U64(amount),
                Field::I64(counter_diff),
            ],
            FlexiInstruction::CreateIntentBundle { num_commit_only, num_undelegate, counter_diffs, compute_units } => seq![
                Field::U8(num_commit_only),
                Field::U8(num_undelegate),
                Field::Ints(counter_diffs@),
                Field::U32(compute_units),
            ],
            FlexiInstruction::CreateIntentBundleCommitAndFinalize { num_commit, num_commit_finalize } => seq![
                Field::U8(num_commit),
                Field::U8(num_commit_finalize),
            ],
            FlexiInstruction::CreateTransferIntent { amount, fail, compute_units } => seq![
                Field::U64(amount),
                Field::Bool(fail),
                Field::U32(compute_units),
            ],
            FlexiInstruction::TransferActionHandler { amount, fail } => seq![
                Field::U64(amount),
                Field::Bool(fail),
            ],
            FlexiInstruction::AddUnsigned { count } => seq![
                Field::U8(count),
            ],
            FlexiInstruction::AddError { count } => seq![
                Field::U8(count),
            ],
            FlexiInstruction::ScheduleCounterTask { task_id, execution_interval_millis, iterations, error, signer } => seq![
                Field::I64(task_id),
                Field::I64(execution_interval_millis),
                Field::I64(iterations),
                Field::Bool(error),
                Field::Bool(signer),
            ],
            FlexiInstruction::CancelCounterTask { task_id } => seq![
                Field::I64(task_id),
            ],
            FlexiInstruction::Mul { multiplier } => seq![
                Field::U8(multiplier),
            ],
            FlexiInstruction::AddAndScheduleCommit { count, undelegate, has_magic_vault } => seq![
                Field::U8(count),
                Field::Bool(undelegate),
                Field::Bool(has_magic_vault),
            ],
        }
    }

    /// The kinds of the fields of a variant; `None` where there is no such
    /// variant.
    pub open spec fn kinds_of(tag: u8) -> Option<Seq<Kind>> {
        if tag == 0 {
            Some(seq![Kind::Text, Kind::U8])
        } else if tag == 1 {
            Some(seq![Kind::U32, Kind::OptionalKey])
        } else if tag == 2 {
            Some(seq![Kind::U8])
        } else if tag == 3 {
            Some(seq![Kind::U8, Kind::Ints, Kind::Bool, Kind::U32])
        } else if tag == 4 {
            Some(seq![Kind::U64])
        } else if tag == 5 {
            Some(seq![Kind::U64, Kind::I64])
        } else if tag == 6 {
            Some(seq![Kind::U8, Kind::U8, Kind::Ints, Kind::U32])
        } else if tag == 7 {
            Some(seq![Kind::U8, Kind::U8])
        } else if tag == 8 {
            Some(seq![Kind::U64, Kind::Bool, Kind::U32])
        } else if tag == 9 {
            Some(seq![Kind::U64, Kind::Bool])
        } else if tag == 10 {
            Some(seq![Kind::U8])
        } else if tag == 11 {
            Some(seq![Kind::U8])
        } else if tag == 12 {
            Some(seq![Kind::I64, Kind::I64, Kind::I64, Kind::Bool, Kind::Bool])
        } else if tag == 13 {
            Some(seq![Kind::I64])
        } else if tag == 14 {
            Some(seq![Kind::U8])
        } else if tag == 15 {
            Some(seq![Kind::U8, Kind::Bool, Kind::Bool])
        } else {
            None
        }
    }

    /// Whether the lengths of all fields can be written down.
    pub open spec fn fits(self) -> bool {
        forall|i: int| 0 <= i < self.fields().len() ==> (#[trigger] self.fields()[i]).fits()
    }

    /// The bytes of the instruction: its number and its fields.
    pub open spec fn encoding(self) -> Seq<u8> {
        seq![self.tag()] + fields_format(self.fields())
    }

    /// The fields are of the kinds of the variant.
    proof fn lemma_kinds(self)
        requires
            self.fits(),
        ensures
            Self::kinds_of(self.tag()) is Some,
            are_of(self.fields(), Self::kinds_of(self.tag())->0),
    {
    }

    /// The number of the variant.
    fn number(&self) -> (r: u8)
        ensures
            r == self.tag(),
    {
        match self {
            FlexiInstruction::Init { .. } => 0,
            FlexiInstruction::Delegate { .. } => 1,
            FlexiInstruction::Add { .. } => 2,
            FlexiInstruction::CreateIntent { .. } => 3,
            FlexiInstruction::CommitActionHandler { .. } => 4,
            FlexiInstruction::UndelegateActionHandler { .. } => 5,
            FlexiInstruction::CreateIntentBundle { .. } => 6,
            FlexiInstruction::CreateIntentBundleCommitAndFinalize { .. } => 7,
            FlexiInstruction::CreateTransferIntent { .. } => 8,
            FlexiInstruction::TransferActionHandler { .. } => 9,
            FlexiInstruction::AddUnsigned { .. } => 10,
            FlexiInstruction::AddError { .. } => 11,
            FlexiInstruction::ScheduleCounterTask { .. } => 12,
            FlexiInstruction::CancelCounterTask { .. } => 13,
            FlexiInstruction::Mul { .. } => 14,
            FlexiInstruction::AddAndScheduleCommit { .. } => 15,
        }
    }

    /// The fields, in order.
    fn values(&self) -> (r: Vec<Value>)
        ensures
            views(r@) == self.fields(),
    {
        let r: Vec<Value> = match self {
            FlexiInstruction::Init { label, bump } => vec![
                Value::Text(label.clone()),
                Value::U8(*bump),
            ],
            FlexiInstruction::Delegate { commit_frequency_ms, validator } => vec![
                Value::U32(*commit_frequency_ms),
                Value::OptionalKey(*validator),
            ],
            FlexiInstruction::Add { count } => vec![
                Value::U8(*count),
            ],
            FlexiInstruction::CreateIntent { num_committees, counter_diffs, is_undelegate, compute_units } => vec![
                Value::U8(*num_committees),
                Value::Ints(copy_ints(counter_diffs.as_slice())),
                Value::Bool(*is_undelegate),
                Value::U32(*compute_units),
            ],
            FlexiInstruction::CommitActionHandler { amount } => vec![
                Value::U64(*amount),
            ],
            FlexiInstruction::UndelegateActionHandler { amount, counter_diff } => vec![
                Value::U64(*amount),
                Value::I64(*counter_diff),
            ],
            FlexiInstruction::CreateIntentBundle { num_commit_only, num_undelegate, counter_diffs, compute_units } => vec![
                Value::U8(*num_commit_only),
                Value::U8(*num_undelegate),
                Value::Ints(copy_ints(counter_diffs.as_slice())),
                Value::U32(*compute_units),
            ],
            FlexiInstruction::CreateIntentBundleCommitAndFinalize { num_commit, num_commit_finalize } => vec![
                Value::U8(*num_commit),
                Value::U8(*num_commit_finalize),
            ],
            FlexiInstruction::CreateTransferIntent { amount, fail, compute_units } => vec![
                Value::U64(*amount),
                Value::Bool(*fail),
                Value::U32(*compute_units),
            ],
            FlexiInstruction::TransferActionHandler { amount, fail } => vec![
                Value::U64(*amount),
                Value::Bool(*fail),
            ],
            FlexiInstruction::AddUnsigned { count } => vec![
                Value::U8(*count),
            ],
            FlexiInstruction::AddError { count } => vec![
                Value::U8(*count),
            ],
            FlexiInstruction::ScheduleCounterTask { task_id, execution_interval_millis, iterations, error, signer } => vec![
                Value::I64(*task_id),
                Value::I64(*execution_interval_millis),
                Value::I64(*iterations),
                Value::Bool(*error),
                Value::Bool(*signer),
            ],
            FlexiInstruction::CancelCounterTask { task_id } => vec![
                Value::I64(*task_id),
            ],
            FlexiInstruction::Mul { multiplier } => vec![
                Value::U8(*multiplier),
            ],
            FlexiInstruction::AddAndScheduleCommit { count, undelegate, has_magic_vault } => vec![
                Value::U8(*count),
                Value::Bool(*undelegate),
                Value::Bool(*has_magic_vault),
            ],
        };
        assert(views(r@) =~= self.fields());
        r
    }

    /// The kinds of the fields of a variant.
    fn kinds(tag: u8) -> (r: Option<Vec<Kind>>)
        ensures
            match r {
                Some(kinds) => Self::kinds_of(tag) == Some(kinds@),
                None => Self::kinds_of(tag) is None,
            },
    {
        let r: Option<Vec<Kind>> = match tag {
            0 => Some(vec![Kind::Text, Kind::U8]),
            1 => Some(vec![Kind::U32, Kind::OptionalKey]),
            2 => Some(vec![Kind::U8]),
            3 => Some(vec![Kind::U8, Kind::Ints, Kind::Bool, Kind::U32]),
            4 => Some(vec![Kind::U64]),
            5 => Some(vec![Kind::U64, Kind::I64]),
            6 => Some(vec![Kind::U8, Kind::U8, Kind::Ints, Kind::U32]),
            7 => Some(vec![Kind::U8, Kind::U8]),
            8 => Some(vec![Kind::U64, Kind::Bool, Kind::U32]),
            9 => Some(vec![Kind::U64, Kind::Bool]),
            10 => Some(vec![Kind::U8]),
            11 => Some(vec![Kind::U8]),
            12 => Some(vec![Kind::I64, Kind::I64, Kind::I64, Kind::Bool, Kind::Bool]),
            13 => Some(vec![Kind::I64]),
            14 => Some(vec![Kind::U8]),
            15 => Some(vec![Kind::U8, Kind::Bool, Kind::Bool]),
            _ => None,
        };
        proof {
            if r is Some {
                assert(r->0@ =~= Self::kinds_of(tag)->0);
            }
        }
        r
    }

    /// The instruction with these fields.
    fn from_values(tag: u8, values: &[Value]) -> (r: Self)
        requires
            Self::kinds_of(tag) is Some,
            are_of(views(values@), Self::kinds_of(tag)->0),
        ensures
            r.tag() == tag,
            r.fields() == views(values@),
    {
        proof {
            lemma_read_kinds(values@, Self::kinds_of(tag)->0);
        }
        let r: Self = match tag {
            0 => FlexiInstruction::Init {
                label: values[0].get_text(),
                bump: values[1].get_u8(),
            },
            1 => FlexiInstruction::Delegate {
                commit_frequency_ms: values[0].get_u32(),
                validator: values[1].get_optional_key(),
            },
            2 => FlexiInstruction::Add {
                count: values[0].get_u8(),
            },
            3 => FlexiInstruction::CreateIntent {
                num_committees: values[0].get_u8(),
                counter_diffs: values[1].get_ints(),
                is_undelegate: values[2].get_bool(),
                compute_units: values[3].get_u32(),
            },
            4 => FlexiInstruction::CommitActionHandler {
                amount: values[0].get_u64(),
            },
            5 => FlexiInstruction::UndelegateActionHandler {
                amount: values[0].get_u64(),
                counter_diff: values[1].get_i64(),
            },
            6 => FlexiInstruction::CreateIntentBundle {
                num_commit_only: values[0].get_u8(),
                num_undelegate: values[1].get_u8(),
                counter_diffs: values[2].get_ints(),
                compute_units: values[3].get_u32(),
            },
            7 => FlexiInstruction::CreateIntentBundleCommitAndFinalize {
                num_commit: values[0].get_u8(),
                num_commit_finalize: values[1].get_u8(),
            },
            8 => FlexiInstruction::CreateTransferIntent {
                amount: values[0].get_u64(),
                fail: values[1].get_bool(),
                compute_units: values[2].get_u32(),
            },
            9 => FlexiInstruction::TransferActionHandler {
                amount: values[0].get_u64(),
                fail: values[1].get_bool(),
            },
            10 => FlexiInstruction::AddUnsigned {
                count: values[0].get_u8(),
            },
            11 => FlexiInstruction::AddError {
                count: values[0].get_u8(),
            },
            12 => FlexiInstruction::ScheduleCounterTask {
                task_id: values[0].get_i64(),
                execution_interval_millis: values[1].get_i64(),
                iterations: values[2].get_i64(),
                error: values[3].get_bool(),
                signer: values[4].get_bool(),
            },
            13 => FlexiInstruction::CancelCounterTask {
                task_id: values[0].get_i64(),
            },
            14 => FlexiInstruction::Mul {
                multiplier: values[0].get_u8(),
            },
            _ => FlexiInstruction::AddAndScheduleCommit {
                count: values[0].get_u8(),
                undelegate: values[1].get_bool(),
                has_magic_vault: values[2].get_bool(),
            },
        };
        assert(r.fields() =~= views(values@));
        r
    }

    /// The bytes of the instruction.
    pub fn encode(&self) -> (r: Vec<u8>)
        requires
            self.fits(),
        ensures
            r@ == self.encoding(),
    {
        let values: Vec<Value> = self.values();
        proof {
            assert forall|i: int| 0 <= i < values@.len() implies (#[trigger] values@[i])@.fits() by {
                assert(self.fields()[i] == values@[i]@);
            }
        }
        write_values(self.number(), values.as_slice())
    }

    /// Reads an instruction; `None` exactly if these are the bytes of none.
    pub fn decode(data: &[u8]) -> (r: Option<Self>)
        ensures
            match r {
                Some(ix) => ix.fits() && data@ == ix.encoding(),
                None => forall|ix: Self| ix.fits() ==> data@ != #[trigger] ix.encoding(),
            },
    {
        if data.len() == 0 {
            return None;
        }
        let tag: u8 = data[0];
        let rest = slice_subrange(data, 1, data.len());
        proof {
            assert forall|ix: Self| ix.fits() && data@ == #[trigger] ix.encoding() implies ix.tag()
                == tag && rest@ == fields_format(ix.fields()) by {
                assert(ix.encoding()[0] == ix.tag());
                assert(rest@ =~= fields_format(ix.fields()));
            }
        }
        let kinds: Vec<Kind> = match Self::kinds(tag) {
            Some(kinds) => kinds,
            None => {
                proof {
                    assert forall|ix: Self| ix.fits() implies data@ != #[trigger] ix.encoding() by {
                        ix.lemma_kinds();
                    }
                }
                return None;
            },
        };
        match read_values(kinds.as_slice(), rest) {
            None => {
                proof {
                    assert forall|ix: Self| ix.fits() implies data@ != #[trigger] ix.encoding() by {
                        ix.lemma_kinds();
                        if data@ == ix.encoding() {
                            assert(rest@ != fields_format(ix.fields()));
                        }
                    }
                }
                None
            },
            Some(values) => {
                let ix = Self::from_values(tag, values.as_slice());
                assert(data@ =~= seq![tag] + rest@);
                Some(ix)
            },
        }
    }
}

/// An instruction is told by its bytes: two with the same bytes are the same
/// variant with the same fields, so that what was written reads back.
pub proof fn encoding_is_read_back(one: FlexiInstruction, other: FlexiInstruction)
    requires
        one.fits(),
        other.fits(),
        one.encoding() == other.encoding(),
    ensures
        one.tag() == other.tag(),
        one.fields() == other.fields(),
{
    assert(one.encoding()[0] == one.tag() && other.encoding()[0] == other.tag());
    one.lemma_kinds();
    other.lemma_kinds();
    assert(fields_format(one.fields()) =~= one.encoding().skip(1));
    assert(fields_format(other.fields()) =~= other.encoding().skip(1));
    bytes_tell_the_fields(one.fields(), other.fields(), FlexiInstruction::kinds_of(one.tag())->0);
}

/// The data of an instruction on labelled counters.
pub open spec fn flexi_data(ix: FlexiInstruction) -> Seq<u8> {
    seq![FLEXI_TAG] + ix.encoding()
}

/// The data of an instruction on labelled counters.
pub fn tagged(instruction: &FlexiInstruction) -> (r: Vec<u8>)
    requires
        instruction.fits(),
    ensures
        r@ == flexi_data(*instruction),
{
    let mut data: Vec<u8> = vec![FLEXI_TAG];
    append_bytes(&mut data, instruction.encode().as_slice());
    assert(data@ =~= flexi_data(*instruction));
    data
}

} // verus!
