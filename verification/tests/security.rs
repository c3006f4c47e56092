use magicblock_magic_program_api::instruction::MagicBlockInstruction;
use redsuite::chain::{Account, Accounts, ProgramError, Pubkey};
use redsuite::effects::Effect;
use redsuite::hash::content_hash;
use redsuite::ids::{DELEGATION_PROGRAM_ID, MAGIC_CONTEXT_ID, MAGIC_PROGRAM_ID};
use redsuite::magic::Operation;
use redsuite::redhat::{
    nested_schedule_commit_cpi, non_cpi, process_instruction, sibling_schedule_commit_cpis,
    SecurityInstruction, ID,
};
use redsuite::redshift::schedule_commit::pda_and_bump;
use redsuite::scenarios::committees::{
    init_delegated_committees, is_cloned, is_delegated, COMMIT_FREQUENCY_MS, PAYER_LAMPORTS,
};
use redsuite::scenarios::ephemeral_accounts::{
    check_record, conflicting_operations, copy_state, expect_step, find_reports, native_instruction,
    observation, race_end, race_start, rent, rent_held, same_state, script, serialized,
    tamper_metas, tampered, tampers, was_called, Action, EphemeralAccounts, LedgerAccount, Reason,
    RecordFault, Tamper, Trial, TxFacts, PAYER, SPONSOR, TARGET, VAULT,
};
use redsuite::scenarios::fee_payer_rules::{
    fee_only, judge_commit, judge_fee, self_commit, FeeGate, FeePayerRules, SelfCommit,
};
use redsuite::scenarios::illegal_writable::{
    direct_attack, first_changed, first_released, invalid_account_owner, needs_to_be_owned, nested_attack,
    program_id_not_found, refused, sandwiched_attack, sibling_attack, IllegalWritable, Refusal,
};
use redsuite::text::hex;

fn key(n: u8) -> Pubkey {
    Pubkey::new([n; 32])
}

fn listed(n: u8) -> Accounts {
    let store: Vec<Account> = (1..=n)
        .map(|n| Account {
            key: key(n),
            owner: key(100),
            is_signer: n == 1,
            is_writable: true,
            lamports: 1,
            data: Vec::new(),
        })
        .collect();
    let refs = (0..store.len()).collect();
    Accounts { store, refs }
}

#[test]
fn security_instructions_have_the_layout_of_borsh() {
    let ix = sibling_schedule_commit_cpis(key(1), &[key(2)], &[key(3)]);
    assert_eq!(ix.data, borsh::to_vec(&(0u8, vec![[2u8; 32]])).unwrap());
    assert_eq!(ix.program_id.bytes, ID);
    assert_eq!(ix.accounts.len(), 5);
    assert_eq!(ix.accounts[3].pubkey.bytes, redsuite::redshift::ID);
    let ix = nested_schedule_commit_cpi(key(1), &[key(2)], &[key(3)]);
    assert_eq!(ix.data, borsh::to_vec(&(2u8, vec![[2u8; 32]])).unwrap());
    assert_eq!(ix.accounts.len(), 4);
    assert_eq!(non_cpi(key(1)).data, vec![1]);
    let again = SecurityInstruction::decode(&ix.data).unwrap();
    assert_eq!(again.encode(), ix.data);
    assert!(SecurityInstruction::decode(&[3]).is_none());
    assert!(SecurityInstruction::decode(&[]).is_none());
}

#[test]
fn siblings_commit_through_the_owner_and_past_it() {
    let accounts = listed(6);
    let data = sibling_schedule_commit_cpis(key(1), &[key(8)], &[]).data;
    let plan = process_instruction(&accounts, &data).unwrap();
    match (&plan[0], &plan[1]) {
        (
            Effect::Invoke { instruction: first, infos, .. },
            Effect::Invoke { instruction: second, .. },
        ) => {
            assert_eq!(first.program_id.bytes, redsuite::redshift::ID);
            assert_eq!(infos, &vec![0, 1, 4, 5]);
            assert_eq!(
                first.data,
                borsh::to_vec(&(5u8, 2u8, vec![[8u8; 32]], false, false, false, 2u8)).unwrap()
            );
            assert_eq!(second.program_id.bytes, MAGIC_PROGRAM_ID);
            assert_eq!(second.accounts[1].pubkey.bytes, MAGIC_CONTEXT_ID);
            assert_eq!(second.accounts[2].pubkey.bytes, [5u8; 32]);
            assert_eq!(second.accounts.len(), 4);
        }
        other => panic!("{other:?}"),
    }
    assert!(matches!(
        process_instruction(&listed(3), &data),
        Err(ProgramError::NotEnoughAccountKeys)
    ));
    let direct = nested_schedule_commit_cpi(key(1), &[key(8)], &[]).data;
    let plan = process_instruction(&listed(3), &direct).unwrap();
    assert_eq!(plan.len(), 1);
    assert!(process_instruction(&listed(0), &[1]).unwrap().is_empty());
    assert!(matches!(
        process_instruction(&listed(3), &[9]),
        Err(ProgramError::InvalidInstructionData)
    ));
}

#[test]
fn committees_are_created_and_delegated() {
    assert_eq!((PAYER_LAMPORTS, COMMIT_FREQUENCY_MS), (2_000_000_000, 1_000_000_000));
    let setups = init_delegated_committees(key(1), &[key(2), key(3)], key(4)).unwrap();
    assert_eq!(setups.len(), 2);
    assert_eq!(
        setups[1].committee.pda.bytes,
        pda_and_bump(&key(3)).unwrap().0.bytes
    );
    assert_eq!(setups[1].init.data, vec![5, 0]);
    assert!(is_delegated(&Pubkey::new(DELEGATION_PROGRAM_ID)));
    assert!(!is_delegated(&key(1)));
    assert!(is_cloned(Some(&[0u8; 40])));
    assert!(!is_cloned(Some(&[0u8; 39])));
    assert!(!is_cloned(None));
}

#[test]
fn only_a_delegated_payer_pays() {
    assert_eq!(FeePayerRules.name(), "redhat/fee_payer_rules");
    let ix = self_commit(key(1), key(2));
    assert_eq!(ix.program_id.bytes, MAGIC_PROGRAM_ID);
    assert_eq!(ix.accounts.len(), 4);
    assert_eq!(fee_only(key(1)).data, [2, 0, 0, 0, 1, 0, 0, 0, 0, 0, 0, 0]);
    assert_eq!(judge_commit(false, &[key(3), key(1)], &key(1)), SelfCommit::Committed);
    assert_eq!(judge_commit(false, &[key(3)], &key(1)), SelfCommit::LeftOut);
    assert_eq!(judge_commit(true, &[key(1)], &key(1)), SelfCommit::Failed);
    assert_eq!(judge_fee(None), FeeGate::Open);
    assert_eq!(judge_fee(Some("TransactionError(InvalidAccountForFee)")), FeeGate::Refused);
    assert_eq!(judge_fee(Some("Timeout")), FeeGate::OtherError);
}

#[test]
fn refusals_have_to_name_their_reason() {
    assert_eq!(IllegalWritable.name(), "redhat/illegal_writable");
    let logs = vec!["Program x".to_string(), "failed to find parent".to_string()];
    assert_eq!(refused(&logs, None, &[]), Refusal::Taken);
    assert_eq!(refused(&logs, Some("error"), &["Program x", "error"]), Refusal::Refused);
    assert_eq!(refused(&logs, Some("error"), &["x\nfailed"]), Refusal::Refused);
    assert_eq!(
        refused(&logs, Some("error"), &["error", program_id_not_found()]),
        Refusal::Unnamed(1)
    );
    assert_eq!(direct_attack(key(1), &[key(2)]).len(), 1);
    let sandwiched = sandwiched_attack(key(1), &[key(2)]);
    assert_eq!(sandwiched.len(), 3);
    assert_eq!(sandwiched[0].data[4..12], 1_000_000u64.to_le_bytes());
    assert_eq!(sandwiched[2].data[4..12], 2_000_000u64.to_le_bytes());
    assert_eq!(sibling_attack(key(1), &[key(2)], &[key(3)])[0].program_id.bytes, ID);
    let nested = nested_attack(key(1), &[key(2)], &[key(3)]).unwrap();
    assert_eq!(nested.len(), 3);
    assert_eq!(nested[1].program_id.bytes, redsuite::redshift::ID);
    let dlp = Some(Pubkey::new(DELEGATION_PROGRAM_ID));
    assert_eq!(first_released(&[dlp, dlp]), None);
    assert_eq!(first_released(&[dlp, Some(key(1))]), Some(1));
    assert_eq!(first_released(&[None, dlp]), Some(0));
}

#[test]
fn a_refused_attack_leaves_everything_on_base_as_it_was() {
    let held = || Some(ledger(Some(3)).remove(TARGET));
    let before = vec![held(), held(), None];
    assert_eq!(first_changed(&[], &[]), None);
    assert_eq!(first_changed(&before, &[held(), held(), None]), None);
    assert_eq!(first_changed(&before, &[held(), None, None]), Some(1));
    assert_eq!(first_changed(&before, &[held(), held(), held()]), Some(2));
    let changed = |change: fn(&mut LedgerAccount)| {
        let mut account = held().unwrap();
        change(&mut account);
        first_changed(&before, &[held(), Some(account), None])
    };
    assert_eq!(changed(|_| {}), None);
    assert_eq!(changed(|a| a.owner = [8u8; 32]), Some(1));
    assert_eq!(changed(|a| a.lamports += 1), Some(1));
    assert_eq!(changed(|a| a.data[2] = 1), Some(1));
    assert_eq!(changed(|a| a.executable = true), Some(1));
    assert_eq!(changed(|a| a.rent_epoch = 1), Some(1));
}

fn ledger(target_len: Option<usize>) -> Vec<LedgerAccount> {
    let mut state: Vec<LedgerAccount> = (0..5).map(|_| LedgerAccount::blank()).collect();
    state[PAYER].lamports = 1_000_000;
    state[SPONSOR].lamports = 10_000_000;
    state[VAULT].lamports = 5_000_000;
    if let Some(len) = target_len {
        state[TARGET].data = vec![0u8; len];
        state[TARGET].owner = [9u8; 32];
    }
    state
}

#[test]
fn rent_moves_between_sponsor_and_vault() {
    assert_eq!(EphemeralAccounts.name(), "redhat/ephemeral_accounts");
    assert_eq!(rent(0), 1_920);
    assert_eq!(rent(100), 5_120);
    let mut state = ledger(None);
    let create = Action::new(Operation::Create { data_len: 100 }, key(9));
    assert_eq!(create.apply(&mut state), None);
    assert_eq!(state[SPONSOR].lamports, 10_000_000 - 5_120);
    assert_eq!(state[VAULT].lamports, 5_000_000 + 5_120);
    assert_eq!(state[TARGET].data.len(), 100);
    assert_eq!(create.apply(&mut state), Some(Reason::InvalidAccountData));
    let foreign = Action::new(Operation::Close, key(8));
    assert_eq!(foreign.apply(&mut state), Some(Reason::InvalidAccountOwner));
    let close = Action::new(Operation::Close, key(9));
    assert_eq!(close.apply(&mut state), None);
    assert!(same_state(&state, &ledger(None)));
    assert_eq!(close.apply(&mut state), Some(Reason::InvalidAccountData));
}

#[test]
fn observations_name_owner_sizes_balances_and_content() {
    let state = ledger(Some(2));
    let owner = solana_pubkey::Pubkey::new_from_array([9u8; 32]).to_string();
    let hash = hex(&content_hash(&[0u8; 2]));
    assert_eq!(
        observation(&state),
        format!("{owner} 2 0 10000000 5000000 {hash}")
    );
    let logs = vec![
        "Program log: Ephemeral: one".to_string(),
        "Program log: other".to_string(),
    ];
    assert_eq!(find_reports(&logs), vec!["one".to_string()]);
    let invoke = format!("Program {owner} invoke [2]");
    assert!(was_called(&[invoke], &key(9)));
    assert!(!was_called(&logs, &key(9)));
}

fn facts(before: &[LedgerAccount], after: &[LedgerAccount], watched: &[Pubkey], fee: u64) -> TxFacts {
    let magic = solana_pubkey::Pubkey::new_from_array(MAGIC_PROGRAM_ID).to_string();
    TxFacts {
        err: None,
        account_keys: watched.to_vec(),
        pre_balances: before.iter().map(|a| a.lamports).collect(),
        post_balances: after.iter().map(|a| a.lamports).collect(),
        logs: vec![
            format!("Program log: Ephemeral: {}", observation(before)),
            format!("Program {magic} invoke [2]"),
            format!("Program log: Ephemeral: {}", observation(after)),
        ],
        fee,
    }
}

#[test]
fn a_record_is_held_against_the_model() {
    let watched: Vec<Pubkey> = (20..25).map(key).collect();
    let before = ledger(None);
    let create = Action::new(Operation::Create { data_len: 4 }, key(9));
    let (after, outcome) = expect_step(&before, &Ok(create), 5_000).unwrap();
    assert_eq!(outcome, None);
    assert_eq!(after[PAYER].lamports, 995_000);
    assert!(same_state(&copy_state(&after), &after));
    let good = facts(&before, &after, &watched, 5_000);
    let seen = |change: fn(&mut TxFacts)| {
        let mut changed = facts(&before, &after, &watched, 5_000);
        change(&mut changed);
        check_record(&changed, &watched, &before, &after, &None)
    };
    assert_eq!(seen(|_| {}), Ok(()));
    assert_eq!(
        seen(|f| f.err = Some((0, Reason::Other))),
        Err(RecordFault::Outcome)
    );
    assert_eq!(
        seen(|f| {
            f.pre_balances.pop();
        }),
        Err(RecordFault::IncompleteBalances)
    );
    assert_eq!(
        seen(|f| f.pre_balances[2] += 1),
        Err(RecordFault::PreBalance { index: 2 })
    );
    assert_eq!(seen(|f| f.post_balances[3] += 1), Err(RecordFault::PostBalances));
    assert_eq!(
        seen(|f| {
            f.logs.remove(0);
        }),
        Err(RecordFault::Observations)
    );
    assert_eq!(
        seen(|f| {
            f.logs.remove(1);
        }),
        Err(RecordFault::NotInvoked)
    );
    let order = serialized(&watched, &before, &after, &[(create, good)], &[false]);
    assert_eq!(order, Some(vec![0]));
}

fn search(
    before: &[LedgerAccount],
    end: &[LedgerAccount],
    records: &[(Action, TxFacts)],
) -> Option<Vec<usize>> {
    let watched: Vec<Pubkey> = (20..25).map(key).collect();
    serialized(&watched, before, end, records, &vec![false; records.len()])
}

#[test]
fn the_first_order_that_explains_the_records_is_found() {
    let watched: Vec<Pubkey> = (20..25).map(key).collect();
    let before = ledger(None);
    let create = Action::new(Operation::Create { data_len: 4 }, key(9));
    let close = Action::new(Operation::Close, key(9));
    let refused = || {
        let mut seen = facts(&before, &before, &watched, 0);
        seen.err = Some((0, Reason::InvalidAccountData));
        seen
    };
    assert_eq!(search(&before, &before, &[]), Some(Vec::new()));
    let both = [(close, refused()), (close, refused())];
    assert_eq!(search(&before, &before, &both), Some(vec![0, 1]));
    let (after, _) = expect_step(&before, &Ok(create), 0).unwrap();
    assert_eq!(search(&before, &after, &[]), None);
    let created = facts(&before, &after, &watched, 0);
    let closed = facts(&after, &before, &watched, 0);
    let round = [(close, closed), (create, created)];
    assert_eq!(search(&before, &before, &round), Some(vec![1, 0]));
    assert_eq!(search(&before, &after, &round), None);
}

#[test]
fn a_step_whose_rent_cannot_be_moved_fits_nowhere() {
    let watched: Vec<Pubkey> = (20..25).map(key).collect();
    let before = ledger(None);
    let create = Action::new(Operation::Create { data_len: 4 }, key(9));
    let (after, _) = expect_step(&before, &Ok(create), 0).unwrap();
    assert_eq!((rent_held(&before), rent_held(&after)), (0, rent(4)));
    let mut poor = copy_state(&before);
    poor[SPONSOR].lamports = rent(4);
    assert!(create.can_pay(&poor));
    poor[SPONSOR].lamports = rent(4) - 1;
    assert!(!create.can_pay(&poor));
    assert_eq!(create.refused(&poor), None);
    let made = facts(&poor, &after, &watched, 0);
    assert_eq!(search(&poor, &after, &[(create, made)]), None);
    let mut full = copy_state(&before);
    full[VAULT].lamports = u64::MAX - rent(4);
    assert!(create.can_pay(&full));
    full[VAULT].lamports += 1;
    assert!(!create.can_pay(&full));
    // A refused request moves no rent, whatever the vault holds.
    let close = Action::new(Operation::Close, key(9));
    let mut seen = facts(&full, &full, &watched, 0);
    seen.err = Some((0, Reason::InvalidAccountData));
    assert_eq!(search(&full, &full, &[(close, seen)]), Some(vec![0]));
}

#[test]
fn the_system_program_may_ask_too() {
    let watched: Vec<Pubkey> = (20..25).map(key).collect();
    let before = ledger(None);
    let create = Action::new(Operation::Create { data_len: 4 }, key(0));
    let (after, _) = expect_step(&before, &Ok(create), 5).unwrap();
    let seen = facts(&before, &after, &watched, 5);
    assert_eq!(search(&before, &after, &[(create, seen)]), Some(vec![0]));
}

#[test]
fn fees_that_cannot_be_paid_leave_no_order() {
    let watched: Vec<Pubkey> = (20..25).map(key).collect();
    let before = ledger(None);
    let close = Action::new(Operation::Close, key(9));
    let mut dear = facts(&before, &before, &watched, 1_000_001);
    dear.err = Some((0, Reason::InvalidAccountData));
    assert_eq!(search(&before, &before, &[(close, dear)]), None);
}

#[test]
fn operations_are_encoded_as_the_magic_program_takes_them() {
    let watched: Vec<Pubkey> = (20..25).map(key).collect();
    let ix = native_instruction(Operation::Create { data_len: 70 }, &watched);
    let native = MagicBlockInstruction::CreateEphemeralAccount { data_len: 70 };
    assert_eq!(ix.data, native.try_to_vec().unwrap());
    assert!(ix.accounts[1].is_signer);
    let ix = native_instruction(Operation::Resize { new_data_len: 3 }, &watched);
    let native = MagicBlockInstruction::ResizeEphemeralAccount { new_data_len: 3 };
    assert_eq!(ix.data, native.try_to_vec().unwrap());
    assert!(!ix.accounts[1].is_signer);
    let mut ix = native_instruction(Operation::Close, &watched);
    let native = MagicBlockInstruction::CloseEphemeralAccount;
    assert_eq!(ix.data, native.try_to_vec().unwrap());
    tamper_metas(Tamper::SubstitutedVault, &mut ix.accounts, &watched);
    assert_eq!(ix.accounts[2].pubkey.bytes, [24u8; 32]);
    assert_eq!(tampered(Tamper::Rollback), (1, Reason::IncorrectProgramId));
    assert!(tampers(Operation::Create { data_len: 1 }).contains(&Tamper::UnsignedAddress));
}

#[test]
fn the_script_is_answered_by_the_model() {
    let trials = script(key(9), key(8));
    assert_eq!(trials.len(), 30);
    let mut state = ledger(None);
    let mut tampered_with = 0;
    for trial in trials {
        match trial {
            Trial::Tampered { .. } => tampered_with += 1,
            Trial::Refused { action, reason } => {
                assert_eq!(action.apply(&mut state), Some(reason));
            }
            Trial::Served { action } => assert_eq!(action.apply(&mut state), None),
        }
    }
    assert_eq!(tampered_with, 16);
    assert!(same_state(&state, &ledger(None)));
    assert!(race_end(&state, key(9)).is_none());
    assert_eq!(race_start(key(9)).apply(&mut state), None);
    assert_eq!(state[TARGET].data, vec![0x5a; 40]);
    let close = race_end(&state, key(9)).expect("the account is there");
    assert_eq!(close.operation, Operation::Close);
}

#[test]
fn races_and_refusals_are_spelled_out() {
    assert_eq!(
        conflicting_operations(),
        vec![
            Operation::Resize { new_data_len: 80 },
            Operation::Resize { new_data_len: 8 },
            Operation::Close,
            Operation::Close,
            Operation::Create { data_len: 56 },
            Operation::Create { data_len: 112 },
        ]
    );
    assert_eq!(invalid_account_owner(), "Invalid account owner");
    assert_eq!(needs_to_be_owned(), "needs to be owned by the invoking program");
    assert_eq!(program_id_not_found(), "failed to find parent program id");
}
