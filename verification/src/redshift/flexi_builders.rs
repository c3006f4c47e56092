//! Builders of the instructions on labelled counters. Where an address has to
//! be searched for, there is no instruction exactly if the search finds none.
use crate::address::address_in;
use crate::chain::{
    instruction_states, key, lemma_address_of, metas_of, push_metas, readonly, writable,
    AccountMeta, Pubkey, SolanaInstruction,
};
use crate::delegation::{find_tagged, tagged_address, DelegateAccounts};
use crate::fields::{fields_format, Field};
use crate::ids::{
    CRANK_PROGRAM_ID, CRANK_SEED, MAGIC_CONTEXT_ID, MAGIC_PROGRAM_ID, SYSTEM_PROGRAM_ID,
};
use crate::magic::{task_bytes, task_data};
use crate::redshift::flexi::{
    flexi_address, flexi_data, flexi_of, tagged, FlexiCounter, FlexiInstruction,
};
use crate::redshift::schedule_builders::{is_delegation, vault_metas};
use crate::redshift::{FLEXI_TAG, ID};
use vstd::prelude::*;

verus! {

/// An instruction on labelled counters.
fn with_tag(instruction: &FlexiInstruction, metas: Vec<AccountMeta>) -> (r: SolanaInstruction)
    requires
        instruction.fits(),
    ensures
        r.is(key(ID), metas@, flexi_data(*instruction)),
{
    SolanaInstruction { program_id: Pubkey::new(ID), accounts: metas, data: tagged(instruction) }
}

/// The data that sets up a counter with a label.
pub open spec fn init_data(label: Seq<char>, bump: u8) -> Seq<u8> {
    seq![FLEXI_TAG] + (seq![0u8] + fields_format(seq![Field::Text(label), Field::U8(bump)]))
}

/// Sets up the counter of a payer. The label is no longer than can be counted.
pub fn init_counter(payer: Pubkey, label: &str) -> (r: Option<(SolanaInstruction, Pubkey)>)
    requires
        Field::Text(label@).fits(),
    ensures
        match r {
            Some((ix, pda)) => match flexi_address(payer) {
                Some((_, bump)) => pda == flexi_of(payer) && ix.is(
                    key(ID),
                    seq![
                        writable(payer, true),
                        writable(pda, false),
                        readonly(key(SYSTEM_PROGRAM_ID), false),
                    ],
                    init_data(label@, bump),
                ),
                None => false,
            },
            None => flexi_address(payer) is None,
        },
{
    match FlexiCounter::pda_and_bump(&payer) {
        None => None,
        Some((pda, bump)) => {
            let metas: Vec<AccountMeta> = vec![
                AccountMeta::new(payer, true),
                AccountMeta::new(pda, false),
                AccountMeta::new_readonly(Pubkey::new(SYSTEM_PROGRAM_ID), false),
            ];
            let instruction = FlexiInstruction::Init { label: label.to_owned(), bump };
            Some((with_tag(&instruction, metas), pda))
        },
    }
}

/// Delegates the counter of a payer.
pub fn delegate_counter(payer: Pubkey, commit_frequency_ms: u32, validator: Option<Pubkey>) -> (r:
    Option<SolanaInstruction>)
    ensures
        match r {
            Some(ix) => flexi_address(payer) is Some && is_delegation(
                ix,
                payer,
                flexi_of(payer),
                flexi_data(FlexiInstruction::Delegate { commit_frequency_ms, validator }),
            ),
            None => flexi_address(payer) is None || !DelegateAccounts::derivable(
                flexi_of(payer),
                key(ID),
            ),
        },
{
    match FlexiCounter::pda_and_bump(&payer) {
        None => None,
        Some((pda, _)) => match DelegateAccounts::new(pda, Pubkey::new(ID)) {
            None => None,
            Some(d) => {
                let mut metas: Vec<AccountMeta> = vec![AccountMeta::new(payer, true)];
                d.push_metas(&mut metas);
                assert(metas@ =~= seq![writable(payer, true)] + d.metas());
                let instruction = FlexiInstruction::Delegate { commit_frequency_ms, validator };
                let ix = with_tag(&instruction, metas);
                assert(d.is_of(pda, key(ID)));
                Some(ix)
            },
        },
    }
}

/// Adds to the counter of a payer.
pub fn add(payer: Pubkey, count: u8) -> (r: Option<SolanaInstruction>)
    ensures
        match r {
            Some(ix) => flexi_address(payer) is Some && ix.is(
                key(ID),
                seq![readonly(payer, true), writable(flexi_of(payer), false)],
                flexi_data(FlexiInstruction::Add { count }),
            ),
            None => flexi_address(payer) is None,
        },
{
    match FlexiCounter::pda_and_bump(&payer) {
        None => None,
        Some((pda, _)) => {
            let metas: Vec<AccountMeta> = vec![
                AccountMeta::new_readonly(payer, true),
                AccountMeta::new(pda, false),
            ];
            Some(with_tag(&FlexiInstruction::Add { count }, metas))
        },
    }
}

/// Multiplies the counter of a payer.
pub fn mul(payer: Pubkey, multiplier: u8) -> (r: Option<SolanaInstruction>)
    ensures
        match r {
            Some(ix) => flexi_address(payer) is Some && ix.is(
                key(ID),
                seq![readonly(payer, true), writable(flexi_of(payer), false)],
                flexi_data(FlexiInstruction::Mul { multiplier }),
            ),
            None => flexi_address(payer) is None,
        },
{
    match FlexiCounter::pda_and_bump(&payer) {
        None => None,
        Some((pda, _)) => {
            let metas: Vec<AccountMeta> = vec![
                AccountMeta::new_readonly(payer, true),
                AccountMeta::new(pda, false),
            ];
            Some(with_tag(&FlexiInstruction::Mul { multiplier }, metas))
        },
    }
}

/// Adds to the counter of a payer and schedules its commit.
pub fn add_and_schedule_commit(
    payer: Pubkey,
    count: u8,
    undelegate: bool,
    magic_fee_vault: Option<Pubkey>,
) -> (r: Option<SolanaInstruction>)
    ensures
        match r {
            Some(ix) => flexi_address(payer) is Some && ix.is(
                key(ID),
                seq![
                    writable(payer, true),
                    writable(flexi_of(payer), false),
                    writable(key(MAGIC_CONTEXT_ID), false),
                    readonly(key(MAGIC_PROGRAM_ID), false),
                ] + vault_metas(magic_fee_vault),
                flexi_data(FlexiInstruction::AddAndScheduleCommit {
                    count,
                    undelegate,
                    has_magic_vault: magic_fee_vault is Some,
                }),
            ),
            None => flexi_address(payer) is None,
        },
{
    match FlexiCounter::pda_and_bump(&payer) {
        None => None,
        Some((pda, _)) => {
            let mut metas: Vec<AccountMeta> = vec![
                AccountMeta::new(payer, true),
                AccountMeta::new(pda, false),
                AccountMeta::new(Pubkey::new(MAGIC_CONTEXT_ID), false),
                AccountMeta::new_readonly(Pubkey::new(MAGIC_PROGRAM_ID), false),
            ];
            if let Some(vault) = magic_fee_vault {
                metas.push(AccountMeta::new(vault, false));
            }
            assert(metas@ =~= seq![
                writable(payer, true),
                writable(pda, false),
                writable(key(MAGIC_CONTEXT_ID), false),
                readonly(key(MAGIC_PROGRAM_ID), false),
            ] + vault_metas(magic_fee_vault));
            Some(with_tag(&FlexiInstruction::AddAndScheduleCommit {
                    count,
                    undelegate,
                    has_magic_vault: magic_fee_vault.is_some(),
                }, metas))
        },
    }
}

/// Adds to the counter of a payer without a signature.
pub fn add_unsigned(payer: Pubkey, count: u8) -> (r: Option<SolanaInstruction>)
    ensures
        match r {
            Some(ix) => flexi_address(payer) is Some && ix.is(
                key(ID),
                seq![writable(flexi_of(payer), false)],
                flexi_data(FlexiInstruction::AddUnsigned { count }),
            ),
            None => flexi_address(payer) is None,
        },
{
    match FlexiCounter::pda_and_bump(&payer) {
        None => None,
        Some((pda, _)) => {
            let metas: Vec<AccountMeta> = vec![AccountMeta::new(pda, false)];
            assert(metas@ =~= seq![writable(pda, false)]);
            Some(with_tag(&FlexiInstruction::AddUnsigned { count }, metas))
        },
    }
}

/// Asks for an addition that always fails.
pub fn add_error(payer: Pubkey, count: u8) -> (r: Option<SolanaInstruction>)
    ensures
        match r {
            Some(ix) => flexi_address(payer) is Some && ix.is(
                key(ID),
                seq![writable(flexi_of(payer), false)],
                flexi_data(FlexiInstruction::AddError { count }),
            ),
            None => flexi_address(payer) is None,
        },
{
    match FlexiCounter::pda_and_bump(&payer) {
        None => None,
        Some((pda, _)) => {
            let metas: Vec<AccountMeta> = vec![AccountMeta::new(pda, false)];
            assert(metas@ =~= seq![writable(pda, false)]);
            Some(with_tag(&FlexiInstruction::AddError { count }, metas))
        },
    }
}

/// Where the signer lives that the crank uses for an authority.
pub open spec fn crank_address(authority: Pubkey) -> Option<(Seq<u8>, u8)> {
    tagged_address(CRANK_SEED@, authority, key(CRANK_PROGRAM_ID))
}

/// The signer that the crank uses for an authority, if the search finds it.
pub fn crank_signer_pda(authority: &Pubkey) -> (r: Option<Pubkey>)
    ensures
        match r {
            Some(signer) => crank_address(*authority) is Some && signer == address_in(
                crank_address(*authority),
            ),
            None => crank_address(*authority) is None,
        },
{
    match find_tagged(CRANK_SEED.as_slice(), authority, &Pubkey::new(CRANK_PROGRAM_ID)) {
        None => None,
        Some((signer, _)) => {
            proof {
                lemma_address_of(signer);
            }
            Some(signer)
        },
    }
}

/// The addition that the crank runs with its signer as the only one.
pub fn add_unsigned_with_crank(payer: Pubkey, count: u8) -> (r: Option<SolanaInstruction>)
    ensures
        match r {
            Some(ix) => flexi_address(payer) is Some && crank_address(payer) is Some && ix.is(
                key(ID),
                seq![
                    writable(flexi_of(payer), false),
                    readonly(address_in(crank_address(payer)), true),
                ],
                flexi_data(FlexiInstruction::AddUnsigned { count }),
            ),
            None => flexi_address(payer) is None || crank_address(payer) is None,
        },
{
    match (FlexiCounter::pda_and_bump(&payer), crank_signer_pda(&payer)) {
        (Some((pda, _)), Some(signer)) => {
            let metas: Vec<AccountMeta> = vec![
                AccountMeta::new(pda, false),
                AccountMeta::new_readonly(signer, true),
            ];
            Some(with_tag(&FlexiInstruction::AddUnsigned { count }, metas))
        },
        _ => None,
    }
}

/// Schedules a task that adds to the counter of a payer.
pub fn schedule_counter_task(
    payer: Pubkey,
    task_id: i64,
    execution_interval_millis: i64,
    iterations: i64,
    error: bool,
    signer: bool,
) -> (r: Option<SolanaInstruction>)
    ensures
        match r {
            Some(ix) => flexi_address(payer) is Some && ix.is(
                key(ID),
                seq![
                    readonly(key(MAGIC_PROGRAM_ID), false),
                    writable(payer, true),
                    writable(flexi_of(payer), false),
                ],
                flexi_data(FlexiInstruction::ScheduleCounterTask {
                    task_id,
                    execution_interval_millis,
                    iterations,
                    error,
                    signer,
                }),
            ),
            None => flexi_address(payer) is None,
        },
{
    match FlexiCounter::pda_and_bump(&payer) {
        None => None,
        Some((pda, _)) => {
            let metas: Vec<AccountMeta> = vec![
                AccountMeta::new_readonly(Pubkey::new(MAGIC_PROGRAM_ID), false),
                AccountMeta::new(payer, true),
                AccountMeta::new(pda, false),
            ];
            Some(with_tag(&FlexiInstruction::ScheduleCounterTask {
                    task_id,
                    execution_interval_millis,
                    iterations,
                    error,
                    signer,
                }, metas))
        },
    }
}

/// Cancels a task.
pub fn cancel_counter_task(payer: Pubkey, task_id: i64) -> (r: SolanaInstruction)
    ensures
        r.is(
            key(ID),
            seq![readonly(key(MAGIC_PROGRAM_ID), false), writable(payer, true)],
            flexi_data(FlexiInstruction::CancelCounterTask { task_id }),
        ),
{
    let metas: Vec<AccountMeta> = vec![
        AccountMeta::new_readonly(Pubkey::new(MAGIC_PROGRAM_ID), false),
        AccountMeta::new(payer, true),
    ];
    with_tag(&FlexiInstruction::CancelCounterTask { task_id }, metas)
}

/// Asks the magic program itself for a task with these instructions.
pub fn schedule_task_direct(
    authority: Pubkey,
    task_id: i64,
    execution_interval_millis: i64,
    iterations: i64,
    instructions: Vec<SolanaInstruction>,
) -> (r: SolanaInstruction)
    ensures
        r.is(
            key(MAGIC_PROGRAM_ID),
            seq![writable(authority, true)],
            task_data(
                task_id,
                execution_interval_millis,
                iterations,
                instruction_states(instructions@),
            ),
        ),
{
    let data: Vec<u8> = task_bytes(
        task_id,
        execution_interval_millis,
        iterations,
        instructions.as_slice(),
    );
    let accounts: Vec<AccountMeta> = vec![AccountMeta::new(authority, true)];
    assert(accounts@ =~= seq![writable(authority, true)]);
    SolanaInstruction { program_id: Pubkey::new(MAGIC_PROGRAM_ID), accounts, data }
}

/// Whether the search finds the counters of all payers.
pub open spec fn all_flexis_found(payers: Seq<Pubkey>) -> bool {
    forall|i: int| 0 <= i < payers.len() ==> flexi_address(#[trigger] payers[i]) is Some
}

/// The counters of several payers.
pub open spec fn flexis_of(payers: Seq<Pubkey>) -> Seq<Pubkey> {
    Seq::new(payers.len(), |i: int| flexi_of(payers[i]))
}

/// The counters of several payers, if the search finds them all.
pub fn find_flexis(payers: &[Pubkey]) -> (r: Option<Vec<Pubkey>>)
    ensures
        match r {
            Some(pdas) => all_flexis_found(payers@) && pdas@ == flexis_of(payers@),
            None => !all_flexis_found(payers@),
        },
{
    let mut out: Vec<Pubkey> = Vec::new();
    let mut i: usize = 0;
    while i < payers.len()
        invariant
            i <= payers@.len(),
            forall|j: int| 0 <= j < i ==> flexi_address(#[trigger] payers@[j]) is Some,
            out@ == flexis_of(payers@).take(i as int),
        decreases payers@.len() - i,
    {
        match FlexiCounter::pda_and_bump(&payers[i]) {
            None => {
                assert(flexi_address(payers@[i as int]) is None);
                return None;
            },
            Some((pda, _)) => {
                out.push(pda);
            },
        }
        i = i + 1;
        assert(out@ =~= flexis_of(payers@).take(i as int));
    }
    assert(out@ =~= flexis_of(payers@));
    Some(out)
}

/// A length in one byte: what does not fit is cut off.
pub open spec fn short_count(n: nat) -> u8 {
    (n % 256) as u8
}

/// A length in one byte.
fn count_byte(n: usize) -> (r: u8)
    ensures
        r == short_count(n as nat),
{
    (n % 256) as u8
}

/// The metas in front of every intent.
pub open spec fn intent_front(destination: Pubkey) -> Seq<AccountMeta> {
    seq![
        readonly(key(ID), false),
        writable(key(MAGIC_CONTEXT_ID), false),
        readonly(key(MAGIC_PROGRAM_ID), false),
        readonly(destination, false),
        readonly(key(SYSTEM_PROGRAM_ID), false),
    ]
}

/// The metas in front of every intent.
fn intent_prefix(destination: Pubkey) -> (r: Vec<AccountMeta>)
    ensures
        r@ == intent_front(destination),
{
    vec![
        AccountMeta::new_readonly(Pubkey::new(ID), false),
        AccountMeta::new(Pubkey::new(MAGIC_CONTEXT_ID), false),
        AccountMeta::new_readonly(Pubkey::new(MAGIC_PROGRAM_ID), false),
        AccountMeta::new_readonly(destination, false),
        AccountMeta::new_readonly(Pubkey::new(SYSTEM_PROGRAM_ID), false),
    ]
}

/// The metas of some payers and then of their counters.
pub open spec fn payer_metas(payers: Seq<Pubkey>) -> Seq<AccountMeta> {
    metas_of(payers, true, false) + metas_of(flexis_of(payers), false, true)
}

/// The data that creates an intent.
pub open spec fn intent_data(
    num_committees: u8,
    counter_diffs: Seq<i64>,
    is_undelegate: bool,
    compute_units: u32,
) -> Seq<u8> {
    seq![FLEXI_TAG] + (seq![3u8] + fields_format(
        seq![
            Field::U8(num_committees),
            Field::Ints(counter_diffs),
            Field::Bool(is_undelegate),
            Field::U32(compute_units),
        ],
    ))
}

/// Creates an intent on the counters of some payers; with differences they are
/// returned too. There are no more differences than can be counted.
pub fn create_intent(
    payers: &[Pubkey],
    destination: Pubkey,
    counter_diffs: Option<Vec<i64>>,
    compute_units: u32,
) -> (r: Option<SolanaInstruction>)
    requires
        counter_diffs matches Some(diffs) ==> diffs@.len() <= u32::MAX,
    ensures
        match r {
            Some(ix) => all_flexis_found(payers@) && ix.is(
                key(ID),
                intent_front(destination) + payer_metas(payers@),
                intent_data(
                    short_count(payers@.len()),
                    match counter_diffs {
                        Some(diffs) => diffs@,
                        None => Seq::empty(),
                    },
                    counter_diffs is Some,
                    compute_units,
                ),
            ),
            None => !all_flexis_found(payers@),
        },
{
    let is_undelegate: bool = counter_diffs.is_some();
    let mut metas: Vec<AccountMeta> = intent_prefix(destination);
    push_metas(&mut metas, payers, true, false);
    let pdas: Vec<Pubkey> = match find_flexis(payers) {
        None => {
            return None;
        },
        Some(pdas) => pdas,
    };
    push_metas(&mut metas, pdas.as_slice(), false, true);
    assert(metas@ =~= intent_front(destination) + payer_metas(payers@));
    let counter_diffs: Vec<i64> = match counter_diffs {
        Some(diffs) => diffs,
        None => Vec::new(),
    };
    let instruction = FlexiInstruction::CreateIntent {
        num_committees: count_byte(payers.len()),
        counter_diffs,
        is_undelegate,
        compute_units,
    };
    Some(with_tag(&instruction, metas))
}

/// Creates a bundle of two intents: one on counters that are committed, and
/// one on counters that are returned too. There are no more differences than
/// can be counted.
pub fn create_intent_bundle(
    commit_only_payers: &[Pubkey],
    undelegate_payers: &[Pubkey],
    destination: Pubkey,
    counter_diffs: Vec<i64>,
    compute_units: u32,
) -> (r: Option<SolanaInstruction>)
    requires
        counter_diffs@.len() <= u32::MAX,
    ensures
        match r {
            Some(ix) => all_flexis_found(commit_only_payers@) && all_flexis_found(
                undelegate_payers@,
            ) && ix.is(
                key(ID),
                intent_front(destination) + payer_metas(commit_only_payers@) + payer_metas(
                    undelegate_payers@,
                ),
                flexi_data(
                    FlexiInstruction::CreateIntentBundle {
                        num_commit_only: short_count(commit_only_payers@.len()),
                        num_undelegate: short_count(undelegate_payers@.len()),
                        counter_diffs,
                        compute_units,
                    },
                ),
            ),
            None => !all_flexis_found(commit_only_payers@) || !all_flexis_found(undelegate_payers@),
        },
{
    let mut metas: Vec<AccountMeta> = intent_prefix(destination);
    match (find_flexis(commit_only_payers), find_flexis(undelegate_payers)) {
        (Some(commit_only), Some(undelegate)) => {
            push_metas(&mut metas, commit_only_payers, true, false);
            push_metas(&mut metas, commit_only.as_slice(), false, true);
            push_metas(&mut metas, undelegate_payers, true, false);
            push_metas(&mut metas, undelegate.as_slice(), false, true);
            assert(metas@ =~= intent_front(destination) + payer_metas(commit_only_payers@)
                + payer_metas(undelegate_payers@));
            let instruction = FlexiInstruction::CreateIntentBundle {
                num_commit_only: count_byte(commit_only_payers.len()),
                num_undelegate: count_byte(undelegate_payers.len()),
                counter_diffs,
                compute_units,
            };
            Some(with_tag(&instruction, metas))
        },
        _ => None,
    }
}

/// Creates a bundle that commits some counters and commits and finalises
/// others.
pub fn create_intent_bundle_commit_and_finalize(
    payer: Pubkey,
    commit_payers: &[Pubkey],
    commit_finalize_payers: &[Pubkey],
) -> (r: Option<SolanaInstruction>)
    ensures
        match r {
            Some(ix) => all_flexis_found(commit_payers@) && all_flexis_found(
                commit_finalize_payers@,
            ) && ix.is(
                key(ID),
                seq![
                    writable(key(MAGIC_CONTEXT_ID), false),
                    readonly(key(MAGIC_PROGRAM_ID), false),
                    readonly(payer, true),
                ] + metas_of(flexis_of(commit_payers@), false, true) + metas_of(
                    flexis_of(commit_finalize_payers@),
                    false,
                    true,
                ),
                flexi_data(
                    FlexiInstruction::CreateIntentBundleCommitAndFinalize {
                        num_commit: short_count(commit_payers@.len()),
                        num_commit_finalize: short_count(commit_finalize_payers@.len()),
                    },
                ),
            ),
            None => !all_flexis_found(commit_payers@) || !all_flexis_found(commit_finalize_payers@),
        },
{
    match (find_flexis(commit_payers), find_flexis(commit_finalize_payers)) {
        (Some(commit), Some(commit_finalize)) => {
            let mut metas: Vec<AccountMeta> = vec![
                AccountMeta::new(Pubkey::new(MAGIC_CONTEXT_ID), false),
                AccountMeta::new_readonly(Pubkey::new(MAGIC_PROGRAM_ID), false),
                AccountMeta::new_readonly(payer, true),
            ];
            push_metas(&mut metas, commit.as_slice(), false, true);
            push_metas(&mut metas, commit_finalize.as_slice(), false, true);
            let instruction = FlexiInstruction::CreateIntentBundleCommitAndFinalize {
                num_commit: count_byte(commit_payers.len()),
                num_commit_finalize: count_byte(commit_finalize_payers.len()),
            };
            Some(with_tag(&instruction, metas))
        },
        _ => None,
    }
}

/// Creates an intent that transfers lamports and reports back.
pub fn create_transfer_intent(
    payer: Pubkey,
    destination: Pubkey,
    magic_fee_vault: Pubkey,
    amount: u64,
    fail: bool,
    compute_units: u32,
) -> (r: Option<SolanaInstruction>)
    ensures
        match r {
            Some(ix) => flexi_address(payer) is Some && ix.is(
                key(ID),
                seq![
                    writable(payer, true),
                    writable(flexi_of(payer), false),
                    readonly(destination, false),
                    readonly(key(SYSTEM_PROGRAM_ID), false),
                    writable(key(MAGIC_CONTEXT_ID), false),
                    readonly(key(MAGIC_PROGRAM_ID), false),
                    writable(magic_fee_vault, false),
                ],
                flexi_data(FlexiInstruction::CreateTransferIntent { amount, fail, compute_units }),
            ),
            None => flexi_address(payer) is None,
        },
{
    match FlexiCounter::pda_and_bump(&payer) {
        None => None,
        Some((pda, _)) => {
            let metas: Vec<AccountMeta> = vec![
                AccountMeta::new(payer, true),
                AccountMeta::new(pda, false),
                AccountMeta::new_readonly(destination, false),
                AccountMeta::new_readonly(Pubkey::new(SYSTEM_PROGRAM_ID), false),
                AccountMeta::new(Pubkey::new(MAGIC_CONTEXT_ID), false),
                AccountMeta::new_readonly(Pubkey::new(MAGIC_PROGRAM_ID), false),
                AccountMeta::new(magic_fee_vault, false),
            ];
            Some(with_tag(&FlexiInstruction::CreateTransferIntent { amount, fail, compute_units }, metas))
        },
    }
}

} // verus!
