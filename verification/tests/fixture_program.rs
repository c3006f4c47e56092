use ephemeral_rollups_sdk::delegate_args::DelegateAccounts as NativeDelegateAccounts;
use magicblock_magic_program_api::args::{
    CommitTypeArgs, MagicIntentBundleArgs, ScheduleTaskArgs,
};
use magicblock_magic_program_api::instruction::MagicBlockInstruction;
use magicblock_magic_program_api::response::MagicResponse;
use redsuite::chain::{Account, Accounts, ProgramError, Pubkey, SolanaInstruction};
use redsuite::delegation::DelegateAccounts;
use redsuite::effects::{Effect, ShortMeta};
use redsuite::ids::{
    CALLBACK_SIGNER, DELEGATION_PROGRAM_ID, EXTERNAL_UNDELEGATE_DISCRIMINATOR, MAGIC_CONTEXT_ID,
    MAGIC_PROGRAM_ID, SYSTEM_PROGRAM_ID,
};
use redsuite::redshift::entry::{
    can_serve, log_msg_data, process_instruction, rent_size, try_process_instruction, Build,
};
use redsuite::redshift::flexi::{
    fail_undelegation_label, tagged, undelegate_label_poison, FlexiCounter, FlexiInstruction,
    ACTOR_ESCROW_INDEX, FAIL_UNDELEGATION_CODE, FLEXI_SEED, PRIZE,
    TRANSFER_CALLBACK_DISCRIMINATOR, TRANSFER_FAIL_CODE,
};
use redsuite::redshift::flexi_builders;
use redsuite::redshift::order_book::{
    book_lens, order_book_apply, order_book_view, read_level, write_level, BookUpdate, OrderLevel,
};
use redsuite::redshift::schedule_builders as build;
use redsuite::redshift::schedule_commit::{
    order_book_pda_and_bump, pda_and_bump, MainAccount, ScheduleCommitInstruction,
    ScheduleCommitType, FAIL_UNDELEGATION_COUNT, MAIN_ACCOUNT_SIZE, ORDER_BOOK_INIT_SIZE,
    ORDER_BOOK_SEED, PDA_SEED,
};
use redsuite::redshift::schedule_processors::{check_returned, increase_committee_counts};
use redsuite::redshift::{FLEXI_TAG, ID, LOG_MSG_TAG, SCHEDULE_COMMIT_TAG};
use solana_program::instruction::{AccountMeta as NativeMeta, Instruction as NativeInstruction};
use solana_program::pubkey::Pubkey as NativeKey;

const PLAIN: Build = Build {
    upgraded: false,
    upgrade_tag: None,
};

fn key(n: u8) -> Pubkey {
    Pubkey::new([n; 32])
}

fn program() -> Pubkey {
    Pubkey::new(ID)
}

fn account(at: Pubkey, data: Vec<u8>, signer: bool) -> Account {
    Account {
        key: at,
        owner: program(),
        is_signer: signer,
        is_writable: true,
        lamports: 1_000,
        data,
    }
}

fn plain(n: u8) -> Account {
    account(key(n), Vec::new(), false)
}

fn signer(n: u8) -> Account {
    account(key(n), Vec::new(), true)
}

fn listed(store: Vec<Account>) -> Accounts {
    let refs = (0..store.len()).collect();
    Accounts { store, refs }
}

fn serve(accounts: &mut Accounts, data: &[u8]) -> Result<Vec<Effect>, ProgramError> {
    process_instruction(PLAIN, &program(), accounts, data, 500)
}

fn schedule(accounts: &mut Accounts, ix: &ScheduleCommitInstruction) -> Result<Vec<Effect>, ProgramError> {
    let mut data = vec![SCHEDULE_COMMIT_TAG];
    data.extend(ix.encode());
    serve(accounts, &data)
}

fn flexi(accounts: &mut Accounts, ix: &FlexiInstruction) -> Result<Vec<Effect>, ProgramError> {
    serve(accounts, &tagged(ix))
}

fn metas(ix: &SolanaInstruction) -> Vec<(u8, bool, bool)> {
    ix.accounts
        .iter()
        .map(|m| (m.pubkey.bytes[0], m.is_signer, m.is_writable))
        .collect()
}

fn native(ix: &SolanaInstruction) -> NativeInstruction {
    NativeInstruction {
        program_id: NativeKey::new_from_array(ix.program_id.bytes),
        accounts: ix
            .accounts
            .iter()
            .map(|m| NativeMeta {
                pubkey: NativeKey::new_from_array(m.pubkey.bytes),
                is_signer: m.is_signer,
                is_writable: m.is_writable,
            })
            .collect(),
        data: ix.data.clone(),
    }
}

fn counter_of(player: u8) -> Pubkey {
    pda_and_bump(&key(player)).expect("the search finds an address").0
}

fn flexi_of(payer: u8) -> Pubkey {
    FlexiCounter::pda_and_bump(&key(payer))
        .expect("the search finds an address")
        .0
}

fn counter_data(player: u8, count: u64) -> Vec<u8> {
    MainAccount {
        player: key(player),
        count,
    }
    .encode()
}

fn flexi_data(count: u64, updates: u64, label: &str) -> Vec<u8> {
    borsh::to_vec(&(count, updates, label)).unwrap()
}

#[test]
fn schedule_instructions_have_the_layout_of_borsh() {
    let players = vec![key(1), key(2)];
    let native_players = vec![[1u8; 32], [2u8; 32]];
    let ix = build::schedule_commit_cpi(
        key(9),
        players,
        true,
        false,
        ScheduleCommitType::CommitFinalize,
        true,
    )
    .unwrap();
    let expected = borsh::to_vec(&(5u8, 2u8, native_players, true, false, false, 2u8)).unwrap();
    assert_eq!(ix.data, expected);
    assert_eq!(ix.program_id.bytes, ID);
    assert_eq!(ix.accounts[0].pubkey.bytes, key(9).bytes);
    assert_eq!(ix.accounts[1].pubkey.bytes, MAGIC_CONTEXT_ID);
    assert_eq!(ix.accounts[2].pubkey.bytes, MAGIC_PROGRAM_ID);
    assert_eq!(ix.accounts[3].pubkey.bytes, counter_of(1).bytes);
    assert_eq!(ix.accounts[4].pubkey.bytes, counter_of(2).bytes);

    let ix = build::delegate_cpi(key(9), key(1), 7, Some(key(3))).unwrap();
    let expected =
        borsh::to_vec(&(5u8, 1u8, 0i64, 7u32, [1u8; 32], Some([3u8; 32]))).unwrap();
    assert_eq!(ix.data, expected);

    let update = BookUpdate {
        bids: vec![OrderLevel { price: 1, size: 2 }],
        asks: vec![OrderLevel { price: 3, size: 4 }, OrderLevel { price: 5, size: 6 }],
    };
    let ix = build::update_order_book(key(9), key(1), update).unwrap();
    let expected = borsh::to_vec(&(
        5u8,
        11u8,
        vec![(1u64, 2u64)],
        vec![(3u64, 4u64), (5u64, 6u64)],
    ))
    .unwrap();
    assert_eq!(ix.data, expected);

    let ix = build::set_count(key(1), 12).unwrap();
    assert_eq!(ix.data, borsh::to_vec(&(5u8, 7u8, 12u64)).unwrap());
    let ix = build::grow_order_book(key(9), key(1), 64).unwrap();
    assert_eq!(ix.data, borsh::to_vec(&(5u8, 9u8, 64u64)).unwrap());
}

#[test]
fn flexi_instructions_have_the_layout_of_borsh() {
    let (ix, pda) = flexi_builders::init_counter(key(1), "label").unwrap();
    let (found, bump) = FlexiCounter::pda_and_bump(&key(1)).unwrap();
    assert_eq!(pda.bytes, found.bytes);
    assert_eq!(
        ix.data,
        borsh::to_vec(&(6u8, 0u8, "label".to_string(), bump)).unwrap()
    );
    let ix = flexi_builders::create_intent(&[key(1), key(2)], key(3), Some(vec![-4, 5]), 70)
        .unwrap();
    assert_eq!(
        ix.data,
        borsh::to_vec(&(6u8, 3u8, 2u8, vec![-4i64, 5], true, 70u32)).unwrap()
    );
    assert_eq!(ix.accounts.len(), 9);
    let ix = flexi_builders::schedule_counter_task(key(1), -7, 10, 3, false, true).unwrap();
    assert_eq!(
        ix.data,
        borsh::to_vec(&(6u8, 12u8, -7i64, 10i64, 3i64, false, true)).unwrap()
    );
    let ix = flexi_builders::add_and_schedule_commit(key(1), 4, true, Some(key(8))).unwrap();
    assert_eq!(
        ix.data,
        borsh::to_vec(&(6u8, 15u8, 4u8, true, true)).unwrap()
    );
    assert_eq!(ix.accounts.len(), 5);
}

#[test]
fn every_schedule_instruction_reads_back() {
    let all = vec![
        ScheduleCommitInstruction::Init,
        ScheduleCommitInstruction::IncreaseCount,
        ScheduleCommitInstruction::SetCount(3),
        ScheduleCommitInstruction::InitOrderBook,
        ScheduleCommitInstruction::GrowOrderBook(9),
        ScheduleCommitInstruction::ScheduleCommitAndUndelegateCpiTwice(vec![key(1), key(2)]),
        ScheduleCommitInstruction::ScheduleCommitForOrderBook(
            ScheduleCommitType::CommitAndUndelegate,
        ),
        ScheduleCommitInstruction::RequestUndelegationCpi(key(4)),
    ];
    for ix in all {
        let bytes = ix.encode();
        let again = ScheduleCommitInstruction::decode(&bytes).expect("it reads back");
        assert_eq!(again.encode(), bytes);
        let mut longer = bytes.clone();
        longer.push(0);
        assert!(ScheduleCommitInstruction::decode(&longer).is_none());
    }
    assert!(ScheduleCommitInstruction::decode(&[]).is_none());
    assert!(ScheduleCommitInstruction::decode(&[15]).is_none());
    assert!(ScheduleCommitInstruction::decode(&[13, 4]).is_none());
}

#[test]
fn every_flexi_instruction_reads_back() {
    let all = vec![
        FlexiInstruction::Init {
            label: "gr\u{fc}n".to_string(),
            bump: 3,
        },
        FlexiInstruction::Delegate {
            commit_frequency_ms: 9,
            validator: None,
        },
        FlexiInstruction::CreateIntentBundle {
            num_commit_only: 1,
            num_undelegate: 2,
            counter_diffs: vec![i64::MIN, -1, i64::MAX],
            compute_units: 5,
        },
        FlexiInstruction::UndelegateActionHandler {
            amount: 5,
            counter_diff: -5,
        },
        FlexiInstruction::CancelCounterTask { task_id: -2 },
    ];
    for ix in all {
        let bytes = ix.encode();
        let again = FlexiInstruction::decode(&bytes).expect("it reads back");
        assert_eq!(again.encode(), bytes);
    }
    assert!(FlexiInstruction::decode(&[16]).is_none());
    // A label that is not UTF-8, and a truth value that is neither 0 nor 1.
    assert!(FlexiInstruction::decode(&[0, 1, 0, 0, 0, 0xff, 3]).is_none());
    assert!(FlexiInstruction::decode(&[15, 1, 2, 0]).is_none());
}

#[test]
fn delegation_addresses_are_those_of_the_sdk() {
    let found = DelegateAccounts::new(key(1), program()).unwrap();
    let native = NativeDelegateAccounts::new(
        NativeKey::new_from_array([1u8; 32]),
        NativeKey::new_from_array(ID),
    );
    assert_eq!(found.delegate_buffer.bytes, native.delegate_buffer.to_bytes());
    assert_eq!(found.delegation_record.bytes, native.delegation_record.to_bytes());
    assert_eq!(
        found.delegation_metadata.bytes,
        native.delegation_metadata.to_bytes()
    );
    let ix = build::delegate_order_book(key(9), key(1), 3, None).unwrap();
    assert_eq!(ix.accounts.len(), 8);
    assert_eq!(ix.accounts[6].pubkey.bytes, DELEGATION_PROGRAM_ID);
    assert_eq!(ix.accounts[7].pubkey.bytes, SYSTEM_PROGRAM_ID);
}

#[test]
fn an_order_book_takes_what_fits() {
    let mut data = vec![0u8; 8 + 3 * 16 + 5];
    assert_eq!(book_lens(&data), Some((0, 0, 3)));
    let level = |n: u64| OrderLevel { price: n, size: n + 1 };
    let update = BookUpdate {
        bids: vec![level(1)],
        asks: vec![level(2)],
    };
    assert_eq!(order_book_apply(&mut data, &update), Ok(()));
    assert_eq!(order_book_view(&data), Some((vec![level(1)], vec![level(2)])));
    // Two bids do not fit any more, one ask does.
    let update = BookUpdate {
        bids: vec![level(3), level(4)],
        asks: vec![level(5)],
    };
    assert_eq!(order_book_apply(&mut data, &update), Ok(()));
    assert_eq!(
        order_book_view(&data),
        Some((vec![level(1)], vec![level(2), level(5)]))
    );
    assert_eq!(book_lens(&data), Some((1, 2, 3)));
    assert_eq!(&data[56..], &[0u8; 5]);
    data[0] = 2;
    assert_eq!(book_lens(&data), None);
    let before = data.clone();
    assert_eq!(
        order_book_apply(&mut data, &update),
        Err(ProgramError::InvalidAccountData)
    );
    assert_eq!(data, before);
    assert_eq!(order_book_view(&[0u8; 7]), None);
}

#[test]
fn a_written_level_reads_back() {
    let mut data: Vec<u8> = (0..8 + 3 * 16 + 5).collect();
    let before = data.clone();
    let level = OrderLevel {
        price: u64::MAX - 1,
        size: 77,
    };
    write_level(&mut data, 1, &level);
    assert_eq!(read_level(&data, 1), level);
    assert_eq!(read_level(&data, 0), read_level(&before, 0));
    assert_eq!(read_level(&data, 2), read_level(&before, 2));
    assert_eq!(data[..24], before[..24]);
    assert_eq!(data[40..], before[40..]);
    assert_eq!(data.len(), before.len());
}

#[test]
fn asks_lie_from_the_back() {
    let mut data = vec![0u8; 8 + 4 * 16];
    let level = |n: u64| OrderLevel { price: n, size: 0 };
    let update = BookUpdate {
        bids: Vec::new(),
        asks: vec![level(7), level(8)],
    };
    assert_eq!(order_book_apply(&mut data, &update), Ok(()));
    assert_eq!(data[8 + 3 * 16..8 + 3 * 16 + 8], 7u64.to_le_bytes());
    assert_eq!(data[8 + 2 * 16..8 + 2 * 16 + 8], 8u64.to_le_bytes());
    assert_eq!(order_book_view(&data), Some((vec![], vec![level(7), level(8)])));
}

#[test]
fn labelled_counters_read_back() {
    let counter = FlexiCounter::new("abc".to_string());
    assert_eq!((counter.count, counter.updates), (0, 0));
    let bytes = counter.encode().unwrap();
    assert_eq!(bytes, flexi_data(0, 0, "abc"));
    let again = FlexiCounter::try_decode(&bytes).unwrap();
    assert_eq!(again.label, "abc");
    assert!(matches!(
        FlexiCounter::try_decode(&bytes[..10]),
        Err(ProgramError::BorshIoError)
    ));
    assert!(undelegate_label_poison(&flexi_data(4, 5, fail_undelegation_label())));
    assert!(undelegate_label_poison(&flexi_data(0, 0, "undelegate_fail")));
    assert!(!undelegate_label_poison(&flexi_data(0, 0, "undelegate_fails")));
    assert!(!undelegate_label_poison(&[1, 2, 3]));
}

#[test]
fn a_counter_is_set_up_at_its_address() {
    let ix = ScheduleCommitInstruction::Init;
    let mut accounts = listed(vec![
        plain(1),
        signer(2),
        account(counter_of(2), Vec::new(), false),
        plain(4),
    ]);
    let plan = schedule(&mut accounts, &ix).unwrap();
    match (&plan[0], &plan[1]) {
        (
            Effect::CreatePda {
                target,
                owner,
                space,
                seeds,
                ..
            },
            Effect::Write { target: written, bytes },
        ) => {
            assert_eq!((*target, *space, *written), (2, MAIN_ACCOUNT_SIZE, 2));
            assert_eq!(owner.bytes, ID);
            assert_eq!(seeds[0], PDA_SEED.to_vec());
            assert_eq!(seeds[1], vec![2u8; 32]);
            assert_eq!(bytes, &counter_data(2, 0));
        }
        other => panic!("{other:?}"),
    }
    accounts.store[2].key = key(9);
    assert!(matches!(schedule(&mut accounts, &ix), Err(ProgramError::InvalidSeeds)));
    accounts.store[1].is_signer = false;
    assert!(matches!(
        schedule(&mut accounts, &ix),
        Err(ProgramError::MissingRequiredSignature)
    ));
    accounts.refs.pop();
    assert!(matches!(
        schedule(&mut accounts, &ix),
        Err(ProgramError::NotEnoughAccountKeys)
    ));
}

#[test]
fn counts_are_raised_and_set() {
    let mut accounts = listed(vec![account(key(1), counter_data(1, 4), false)]);
    assert!(schedule(&mut accounts, &ScheduleCommitInstruction::IncreaseCount).is_ok());
    assert_eq!(accounts.store[0].data, counter_data(1, 5));
    assert!(schedule(&mut accounts, &ScheduleCommitInstruction::SetCount(77)).is_ok());
    assert_eq!(accounts.store[0].data, counter_data(1, 77));
    accounts.store[0].data.pop();
    assert!(matches!(
        schedule(&mut accounts, &ScheduleCommitInstruction::IncreaseCount),
        Err(ProgramError::BorshIoError)
    ));
    // An account that is listed twice is raised twice.
    let mut twice = Accounts {
        store: vec![account(key(1), counter_data(1, 4), false)],
        refs: vec![0, 0],
    };
    assert_eq!(increase_committee_counts(&mut twice, &[0, 1]), Ok(()));
    assert_eq!(twice.store[0].data, counter_data(1, 6));
    // The first account that is no counter stops it.
    let mut stopped = listed(vec![
        account(key(1), counter_data(1, 4), false),
        plain(2),
        account(key(3), counter_data(3, 4), false),
    ]);
    assert_eq!(
        increase_committee_counts(&mut stopped, &[0, 1, 2]),
        Err(ProgramError::BorshIoError)
    );
    assert_eq!(stopped.store[0].data, counter_data(1, 5));
    assert_eq!(stopped.store[2].data, counter_data(3, 4));
}

fn commit_accounts_of(n: usize) -> Accounts {
    let mut store = vec![signer(1), plain(2), plain(3)];
    for i in 0..n {
        store.push(account(key(10 + i as u8), counter_data(1, 1), false));
    }
    listed(store)
}

#[test]
fn commits_differ_by_their_type() {
    let build = |commit_type| {
        let args = redsuite::redshift::schedule_commit::ScheduleCommitCpiArgs {
            players: vec![key(1), key(2)],
            modify_accounts: true,
            commit_payer: true,
            has_magic_vault: false,
        };
        ScheduleCommitInstruction::ScheduleCommitCpi(args, commit_type)
    };
    let mut accounts = commit_accounts_of(2);
    let plan = schedule(&mut accounts, &build(ScheduleCommitType::Commit)).unwrap();
    match &plan[0] {
        Effect::IntentBundle { commit, commit_and_undelegate, .. } => {
            assert_eq!(commit.as_ref().unwrap().accounts, vec![3, 4, 0]);
            assert!(commit_and_undelegate.is_none());
        }
        other => panic!("{other:?}"),
    }
    assert_eq!(accounts.store[3].data, counter_data(1, 2));
    assert_eq!(accounts.store[4].data, counter_data(1, 2));
    let plan = schedule(&mut accounts, &build(ScheduleCommitType::CommitAndUndelegate)).unwrap();
    assert!(matches!(
        &plan[0],
        Effect::IntentBundle { commit: None, commit_and_undelegate: Some(_), .. }
    ));
    let plan = schedule(&mut accounts, &build(ScheduleCommitType::CommitFinalize)).unwrap();
    match &plan[0] {
        Effect::Invoke { instruction, infos, signer_seeds } => {
            assert_eq!(instruction.program_id.bytes, [3u8; 32]);
            assert_eq!(instruction.data, 1u32.to_le_bytes());
            assert_eq!(
                metas(instruction),
                vec![
                    (1, true, true),
                    (2, false, true),
                    (10, false, true),
                    (11, false, true),
                    (1, true, true)
                ]
            );
            assert_eq!(infos, &vec![0, 1, 3, 4, 0]);
            assert!(signer_seeds.is_empty());
        }
        other => panic!("{other:?}"),
    }
    let plan = schedule(
        &mut accounts,
        &build(ScheduleCommitType::CommitFinalizeAndUndelegate),
    )
    .unwrap();
    assert!(matches!(&plan[0], Effect::Commit { undelegate: true, .. }));
    let mut short = commit_accounts_of(1);
    assert!(matches!(
        schedule(&mut short, &build(ScheduleCommitType::Commit)),
        Err(ProgramError::InvalidArgument)
    ));
}

#[test]
fn a_return_is_asked_for_twice_or_followed_by_a_raise() {
    let mut accounts = commit_accounts_of(2);
    let twice =
        ScheduleCommitInstruction::ScheduleCommitAndUndelegateCpiTwice(vec![key(1), key(2)]);
    let plan = schedule(&mut accounts, &twice).unwrap();
    assert!(matches!(&plan[0], Effect::Commit { undelegate: true, .. }));
    match &plan[1] {
        Effect::Invoke { instruction, infos, signer_seeds } => {
            assert_eq!(instruction.data, 2u32.to_le_bytes());
            assert_eq!(infos, &vec![0, 1, 3, 4]);
            assert_eq!(signer_seeds.len(), 2);
            let (_, bump) = pda_and_bump(&key(2)).unwrap();
            assert_eq!(
                signer_seeds[1],
                vec![PDA_SEED.to_vec(), vec![2u8; 32], vec![bump]]
            );
            assert!(instruction.accounts[2].is_signer && instruction.accounts[3].is_signer);
        }
        other => panic!("{other:?}"),
    }
    let after = ScheduleCommitInstruction::ScheduleCommitAndUndelegateCpiModAfter(vec![
        key(1),
        key(2),
    ]);
    let plan = schedule(&mut accounts, &after).unwrap();
    match &plan[1] {
        Effect::IncreaseCounts { committees } => assert_eq!(committees, &vec![3, 4]),
        other => panic!("{other:?}"),
    }
}

#[test]
fn an_order_book_grows_with_what_it_lacks() {
    let (book, bump) = order_book_pda_and_bump(&key(2)).unwrap();
    let mut accounts = listed(vec![
        signer(1),
        plain(2),
        account(book, vec![0u8; 100], false),
        plain(4),
    ]);
    let data = build::grow_order_book(key(1), key(2), 28).unwrap().data;
    assert_eq!(rent_size(PLAIN, &accounts, &data), Some(128));
    let plan = process_instruction(PLAIN, &program(), &mut accounts, &data, 1_500).unwrap();
    match (&plan[0], &plan[1]) {
        (Effect::Invoke { instruction, infos, .. }, Effect::Resize { target, size }) => {
            let mut transfer = 2u32.to_le_bytes().to_vec();
            transfer.extend_from_slice(&500u64.to_le_bytes());
            assert_eq!(instruction.data, transfer);
            assert_eq!(instruction.program_id.bytes, [4u8; 32]);
            assert_eq!(infos, &vec![0, 2, 3]);
            assert_eq!((*target, *size), (2, 128));
        }
        other => panic!("{other:?}"),
    }
    let plan = process_instruction(PLAIN, &program(), &mut accounts, &data, 1_000).unwrap();
    assert_eq!(plan.len(), 1);
    let init = build::init_order_book(key(1), key(2)).unwrap().0.data;
    assert_eq!(rent_size(PLAIN, &accounts, &init), None);
    let plan = serve(&mut accounts, &init).unwrap();
    match &plan[0] {
        Effect::CreatePda { space, seeds, .. } => {
            assert_eq!(*space, ORDER_BOOK_INIT_SIZE);
            assert_eq!(
                seeds,
                &vec![ORDER_BOOK_SEED.to_vec(), vec![2u8; 32], vec![bump]]
            );
        }
        other => panic!("{other:?}"),
    }
}

#[test]
fn a_commit_next_to_a_book_is_followed_by_a_bid() {
    let players = vec![key(1)];
    let data =
        build::schedule_commit_with_vault_and_order_book(key(1), key(5), key(2), players, true)
            .unwrap()
            .data;
    let mut accounts = listed((1..=6).map(plain).collect());
    let plan = serve(&mut accounts, &data).unwrap();
    match &plan[0] {
        Effect::IntentBundle { magic_fee_vault, commit: Some(commit), .. } => {
            assert_eq!(*magic_fee_vault, Some(3));
            assert_eq!(commit.accounts, vec![5]);
            let handler = &commit.handlers[0];
            assert_eq!(handler.compute_units, 50_000);
            assert_eq!(handler.accounts, vec![ShortMeta::Writable(4)]);
            let none: Vec<(u64, u64)> = Vec::new();
            assert_eq!(
                handler.data,
                borsh::to_vec(&(5u8, 11u8, vec![(100u64, 10u64)], none)).unwrap()
            );
        }
        other => panic!("{other:?}"),
    }
    let book = build::schedule_commit_for_order_book(key(1), key(2), ScheduleCommitType::Commit)
        .unwrap()
        .data;
    let mut accounts = listed(vec![plain(1), plain(2), plain(3), plain(4)]);
    assert!(matches!(
        serve(&mut accounts, &book),
        Err(ProgramError::MissingRequiredSignature)
    ));
}

#[test]
fn a_return_is_requested_of_the_delegation_program() {
    let data = build::request_undelegation(key(1), key(2)).unwrap().data;
    let mut store: Vec<Account> = (1..=8).map(plain).collect();
    store[0].is_signer = true;
    store[1].key = counter_of(2);
    store[2].key = program();
    store[7].key = Pubkey::new(DELEGATION_PROGRAM_ID);
    let mut accounts = listed(store);
    let plan = serve(&mut accounts, &data).unwrap();
    match &plan[0] {
        Effect::Invoke { instruction, infos, signer_seeds } => {
            assert_eq!(instruction.data, 26u64.to_le_bytes());
            assert_eq!(instruction.accounts.len(), 7);
            assert_eq!(infos.len(), 8);
            assert_eq!(signer_seeds[0][1], vec![2u8; 32]);
        }
        other => panic!("{other:?}"),
    }
    accounts.store[7].key = key(8);
    assert!(matches!(
        serve(&mut accounts, &data),
        Err(ProgramError::InvalidArgument)
    ));
}

#[test]
fn what_must_not_come_back_is_refused() {
    assert_eq!(
        check_returned(&counter_data(1, FAIL_UNDELEGATION_COUNT)),
        Err(ProgramError::Custom(111))
    );
    assert_eq!(check_returned(&counter_data(1, 5)), Ok(()));
    assert_eq!(
        check_returned(&flexi_data(0, 0, "undelegate_fail")),
        Err(ProgramError::Custom(FAIL_UNDELEGATION_CODE))
    );
    assert_eq!(check_returned(&[1, 2, 3]), Ok(()));
    let mut accounts = listed((1..=4).map(plain).collect());
    let mut data = EXTERNAL_UNDELEGATE_DISCRIMINATOR.to_vec();
    data.extend(borsh::to_vec(&vec![vec![1u8]]).unwrap());
    let plan = serve(&mut accounts, &data).unwrap();
    assert!(matches!(plan[1], Effect::CheckReturned { target: 0 }));
}

#[test]
fn labelled_counters_are_added_to_and_multiplied() {
    let mut accounts = listed(vec![plain(1), account(flexi_of(1), flexi_data(6, 1, "x"), false)]);
    assert!(flexi(&mut accounts, &FlexiInstruction::Add { count: 4 }).is_ok());
    assert_eq!(accounts.store[1].data, flexi_data(10, 2, "x"));
    assert!(flexi(&mut accounts, &FlexiInstruction::Mul { multiplier: 3 }).is_ok());
    assert_eq!(accounts.store[1].data, flexi_data(30, 3, "x"));
    assert!(matches!(
        flexi(&mut accounts, &FlexiInstruction::AddUnsigned { count: 1 }),
        Err(ProgramError::BorshIoError)
    ));
    assert!(matches!(
        flexi(&mut accounts, &FlexiInstruction::AddError { count: 1 }),
        Err(ProgramError::Custom(0))
    ));
    assert!(matches!(
        flexi(
            &mut accounts,
            &FlexiInstruction::AddAndScheduleCommit {
                count: 1,
                undelegate: true,
                has_magic_vault: false
            }
        ),
        Err(ProgramError::NotEnoughAccountKeys)
    ));
    let mut accounts = listed(vec![
        plain(1),
        account(flexi_of(1), flexi_data(6, 1, "x"), false),
        plain(3),
        plain(4),
    ]);
    let plan = flexi(
        &mut accounts,
        &FlexiInstruction::AddAndScheduleCommit {
            count: 1,
            undelegate: true,
            has_magic_vault: false,
        },
    )
    .unwrap();
    assert_eq!(accounts.store[1].data, flexi_data(7, 2, "x"));
    assert!(matches!(&plan[0], Effect::Commit { undelegate: true, magic_fee_vault: None, .. }));
}

#[test]
fn a_labelled_counter_is_created_with_its_rent() {
    let (ix, pda) = flexi_builders::init_counter(key(1), "abc").unwrap();
    let mut accounts = listed(vec![plain(1), account(pda, Vec::new(), false), plain(3)]);
    let bytes = flexi_data(0, 0, "abc");
    assert_eq!(rent_size(PLAIN, &accounts, &ix.data), Some(bytes.len()));
    let plan = serve(&mut accounts, &ix.data).unwrap();
    match (&plan[0], &plan[1]) {
        (Effect::Invoke { instruction, signer_seeds, .. }, Effect::Write { bytes: written, .. }) => {
            let mut create = 0u32.to_le_bytes().to_vec();
            create.extend_from_slice(&500u64.to_le_bytes());
            create.extend_from_slice(&(bytes.len() as u64).to_le_bytes());
            create.extend_from_slice(&ID);
            assert_eq!(instruction.data, create);
            assert_eq!(instruction.program_id.bytes, SYSTEM_PROGRAM_ID);
            assert_eq!(signer_seeds[0][1], FLEXI_SEED.to_vec());
            assert_eq!(written, &bytes);
        }
        other => panic!("{other:?}"),
    }
    accounts.store[1].key = key(2);
    assert!(matches!(
        serve(&mut accounts, &ix.data),
        Err(ProgramError::InvalidSeeds)
    ));
    assert_eq!(rent_size(PLAIN, &accounts, &ix.data), None);
}

#[test]
fn intents_carry_a_handler_for_every_counter() {
    let ix = flexi_builders::create_intent(&[key(1), key(2)], key(3), Some(vec![-4]), 70).unwrap();
    let mut accounts = listed((1..=9).map(plain).collect());
    let plan = serve(&mut accounts, &ix.data).unwrap();
    match &plan[0] {
        Effect::IntentBundle { payer, commit: None, commit_and_undelegate: Some(intent), .. } => {
            assert_eq!(*payer, 5);
            assert_eq!(intent.accounts, vec![7, 8]);
            assert_eq!(intent.commit_handlers.len(), 2);
            assert_eq!(intent.undelegate_handlers.len(), 1);
            assert_eq!(intent.commit_handlers[1].escrow_authority, 6);
            assert_eq!(intent.commit_handlers[1].escrow_index, ACTOR_ESCROW_INDEX);
            assert_eq!(
                intent.commit_handlers[1].data,
                borsh::to_vec(&(6u8, 4u8, PRIZE)).unwrap()
            );
            assert_eq!(
                intent.undelegate_handlers[0].data,
                borsh::to_vec(&(6u8, 5u8, PRIZE, -4i64)).unwrap()
            );
        }
        other => panic!("{other:?}"),
    }
    let bundle =
        flexi_builders::create_intent_bundle(&[key(1)], &[key(2)], key(3), vec![9], 70).unwrap();
    let plan = serve(&mut accounts, &bundle.data).unwrap();
    match &plan[0] {
        Effect::IntentBundle { commit: Some(commit), commit_and_undelegate: Some(both), .. } => {
            assert_eq!(commit.accounts, vec![6]);
            assert_eq!(both.accounts, vec![8]);
        }
        other => panic!("{other:?}"),
    }
    accounts.refs.pop();
    assert!(matches!(
        serve(&mut accounts, &bundle.data),
        Err(ProgramError::NotEnoughAccountKeys)
    ));
}

#[test]
fn a_bundle_names_every_account_once() {
    let ix = FlexiInstruction::CreateIntentBundleCommitAndFinalize {
        num_commit: 2,
        num_commit_finalize: 2,
    };
    let store: Vec<Account> = (1..=5).map(plain).collect();
    let mut accounts = Accounts {
        store,
        refs: vec![0, 1, 2, 3, 4, 4, 3],
    };
    let plan = flexi(&mut accounts, &ix).unwrap();
    match &plan[0] {
        Effect::Invoke { instruction, infos, .. } => {
            let args = MagicIntentBundleArgs {
                commit: Some(CommitTypeArgs::Standalone(vec![2, 3])),
                commit_and_undelegate: None,
                commit_finalize: Some(CommitTypeArgs::Standalone(vec![3, 2])),
                commit_finalize_and_undelegate: None,
                standalone_actions: Vec::new(),
            };
            let data =
                bincode::serialize(&MagicBlockInstruction::ScheduleIntentBundle(args)).unwrap();
            assert_eq!(instruction.data, data);
            assert_eq!(infos, &vec![1, 2, 0, 3, 4]);
            assert_eq!(
                metas(instruction),
                vec![
                    (3, true, true),
                    (1, false, true),
                    (4, false, true),
                    (5, false, true)
                ]
            );
        }
        other => panic!("{other:?}"),
    }
}

#[test]
fn a_transfer_intent_funds_the_counter_and_reports_back() {
    let ix = flexi_builders::create_transfer_intent(key(1), key(3), key(7), 900, false, 30).unwrap();
    let mut accounts = listed((1..=7).map(plain).collect());
    let plan = serve(&mut accounts, &ix.data).unwrap();
    match (&plan[0], &plan[1]) {
        (Effect::Invoke { instruction, infos, .. }, Effect::IntentBundle { commit: Some(commit), .. }) => {
            assert_eq!(infos, &vec![0, 1, 3]);
            assert_eq!(instruction.data[4..12], 900u64.to_le_bytes());
            let callback = commit.callback.as_ref().unwrap();
            assert_eq!(callback.payload, 900u64.to_le_bytes());
            assert_eq!(callback.discriminator, TRANSFER_CALLBACK_DISCRIMINATOR);
            assert_eq!(callback.accounts[0], ShortMeta::CallbackSigner);
            assert_eq!(
                commit.handlers[0].data,
                borsh::to_vec(&(6u8, 9u8, 900u64, false)).unwrap()
            );
        }
        other => panic!("{other:?}"),
    }
}

#[test]
fn handlers_check_who_calls_them() {
    let mut accounts = listed((1..=6).map(plain).collect());
    let pay = FlexiInstruction::CommitActionHandler { amount: 3 };
    assert!(matches!(
        flexi(&mut accounts, &pay),
        Err(ProgramError::MissingRequiredSignature)
    ));
    accounts.store[5].is_signer = true;
    assert!(matches!(
        flexi(&mut accounts, &pay),
        Err(ProgramError::InvalidAccountOwner)
    ));
    accounts.store[0].owner = Pubkey::new(DELEGATION_PROGRAM_ID);
    assert!(matches!(
        flexi(&mut accounts, &pay),
        Err(ProgramError::IncorrectProgramId)
    ));
    accounts.store[3].key = program();
    let plan = flexi(&mut accounts, &pay).unwrap();
    match &plan[0] {
        Effect::Invoke { infos, .. } => assert_eq!(infos, &vec![5, 1, 2]),
        other => panic!("{other:?}"),
    }
    let mut accounts = listed((1..=5).map(plain).collect());
    accounts.store[2].key = program();
    accounts.store[4].is_signer = true;
    assert!(matches!(
        flexi(
            &mut accounts,
            &FlexiInstruction::TransferActionHandler { amount: 3, fail: true }
        ),
        Err(ProgramError::Custom(TRANSFER_FAIL_CODE))
    ));
}

#[test]
fn a_counter_that_came_back_is_adjusted_in_place() {
    let mut data = flexi_data(10, 1, "y");
    data.extend_from_slice(&[9, 9]);
    let mut store: Vec<Account> = (1..=6).map(plain).collect();
    store[0].data = data;
    store[3].key = program();
    store[5].is_signer = true;
    let mut accounts = listed(store);
    let adjust = |counter_diff| FlexiInstruction::UndelegateActionHandler {
        amount: 3,
        counter_diff,
    };
    assert!(flexi(&mut accounts, &adjust(-4)).is_ok());
    let mut expected = flexi_data(6, 2, "y");
    expected.extend_from_slice(&[9, 9]);
    assert_eq!(accounts.store[0].data, expected);
    assert!(matches!(
        flexi(&mut accounts, &adjust(-7)),
        Err(ProgramError::ArithmeticOverflow)
    ));
    accounts.store[0].data = vec![0u8; 5];
    assert!(matches!(
        flexi(&mut accounts, &adjust(1)),
        Err(ProgramError::BorshIoError)
    ));
}

fn callback(ok: bool, payload: &[u8]) -> Vec<u8> {
    let mut data = TRANSFER_CALLBACK_DISCRIMINATOR.to_vec();
    let receipt: Option<Vec<u8>> = None;
    let response = bincode::serialize(&(
        0u32,
        ok,
        payload.to_vec(),
        "text".to_string(),
        receipt,
    ))
    .unwrap();
    let native: MagicResponse = bincode::deserialize(&response).unwrap();
    assert_eq!(native.ok(), ok);
    assert_eq!(native.data(), payload);
    data.extend(response);
    data
}

#[test]
fn a_failed_transfer_is_given_back() {
    let mut store: Vec<Account> = (1..=4).map(plain).collect();
    store[0].key = Pubkey::new(CALLBACK_SIGNER);
    store[0].is_signer = true;
    let mut accounts = listed(store);
    assert!(serve(&mut accounts, &callback(true, &300u64.to_le_bytes())).is_ok());
    assert_eq!(accounts.store[1].lamports, 1_000);
    assert!(serve(&mut accounts, &callback(false, &300u64.to_le_bytes())).is_ok());
    assert_eq!(accounts.store[1].lamports, 700);
    assert_eq!(accounts.store[2].lamports, 1_300);
    assert!(matches!(
        serve(&mut accounts, &callback(false, &[1, 2])),
        Err(ProgramError::InvalidInstructionData)
    ));
    let mut cut = callback(false, &300u64.to_le_bytes());
    cut.truncate(12);
    assert!(matches!(
        serve(&mut accounts, &cut),
        Err(ProgramError::InvalidInstructionData)
    ));
    accounts.store[0].key = key(9);
    assert!(matches!(
        serve(&mut accounts, &callback(true, &[])),
        Err(ProgramError::IncorrectAuthority)
    ));
    accounts.store[0].is_signer = false;
    assert!(matches!(
        serve(&mut accounts, &callback(true, &[])),
        Err(ProgramError::MissingRequiredSignature)
    ));
}

#[test]
fn tasks_are_scheduled_and_cancelled_as_the_magic_program_takes_them() {
    let (counter, bump) = FlexiCounter::pda_and_bump(&key(2)).unwrap();
    let mut accounts = listed(vec![plain(1), plain(2), account(counter, Vec::new(), false)]);
    let ix = flexi_builders::schedule_counter_task(key(2), -5, 40, 6, false, true).unwrap();
    let plan = serve(&mut accounts, &ix.data).unwrap();
    let task = flexi_builders::add(key(2), 1).unwrap();
    let data = bincode::serialize(&MagicBlockInstruction::ScheduleTask(ScheduleTaskArgs {
        task_id: -5,
        execution_interval_millis: 40,
        iterations: 6,
        instructions: vec![native(&task)],
    }))
    .unwrap();
    match &plan[0] {
        Effect::Invoke { instruction, infos, signer_seeds } => {
            assert_eq!(instruction.data, data);
            assert_eq!(infos, &vec![1, 2]);
            assert_eq!(signer_seeds[0][3], vec![bump]);
        }
        other => panic!("{other:?}"),
    }
    let direct = flexi_builders::schedule_task_direct(key(2), -5, 40, 6, vec![task]);
    assert_eq!(direct.data, data);
    let mut accounts = listed(vec![plain(1), plain(2)]);
    let cancel = flexi_builders::cancel_counter_task(key(2), -5);
    let plan = serve(&mut accounts, &cancel.data).unwrap();
    match &plan[0] {
        Effect::Invoke { instruction, .. } => assert_eq!(
            instruction.data,
            bincode::serialize(&MagicBlockInstruction::CancelTask { task_id: -5 }).unwrap()
        ),
        other => panic!("{other:?}"),
    }
    let crank = flexi_builders::crank_signer_pda(&key(2)).unwrap();
    let with_crank = flexi_builders::add_unsigned_with_crank(key(2), 1).unwrap();
    assert_eq!(with_crank.accounts[1].pubkey.bytes, crank.bytes);
    let (expected, _) = NativeKey::find_program_address(
        &[magicblock_magic_program_api::pda::CRANK_SEED, &[2u8; 32]],
        &magicblock_magic_program_api::CRANK_PROGRAM_ID,
    );
    assert_eq!(crank.bytes, expected.to_bytes());
}

#[test]
fn messages_are_logged_with_the_suffix_of_the_build() {
    let mut accounts = listed(Vec::new());
    let data = log_msg_data("gr\u{fc}n");
    assert_eq!(data[0], LOG_MSG_TAG);
    assert_eq!(&data[1..], "gr\u{fc}n".as_bytes());
    let plan = serve(&mut accounts, &data).unwrap();
    match &plan[0] {
        Effect::Log { text } => assert_eq!(text, "LogMsg: gr\u{fc}n"),
        other => panic!("{other:?}"),
    }
    let upgraded = Build {
        upgraded: true,
        upgrade_tag: Some(9),
    };
    let plan = process_instruction(upgraded, &program(), &mut accounts, &data, 0).unwrap();
    match &plan[0] {
        Effect::Log { text } => assert_eq!(text, "LogMsg: gr\u{fc}n upgraded"),
        other => panic!("{other:?}"),
    }
    assert!(matches!(
        serve(&mut accounts, &[LOG_MSG_TAG, 0xff]),
        Err(ProgramError::InvalidInstructionData)
    ));
    assert!(serve(&mut accounts, &[]).unwrap().is_empty());
    assert!(serve(&mut accounts, &[99, 1]).unwrap().is_empty());
    assert!(matches!(
        serve(&mut accounts, &[FLEXI_TAG, 77]),
        Err(ProgramError::InvalidInstructionData)
    ));
}

#[test]
fn the_version_is_written_with_its_complement() {
    let build = Build {
        upgraded: true,
        upgrade_tag: Some(9),
    };
    let mut accounts = listed(vec![plain(1), plain(2)]);
    let mut data = vec![9u8, 1];
    data.extend_from_slice(&7u64.to_le_bytes());
    let plan = process_instruction(build, &program(), &mut accounts, &data, 0).unwrap();
    assert_eq!(plan.len(), 4);
    match (&plan[0], &plan[1], &plan[2], &plan[3]) {
        (
            Effect::Log { text },
            Effect::Invoke { instruction: first, .. },
            Effect::Invoke { instruction: second, .. },
            Effect::Fail { code },
        ) => {
            assert_eq!(text, "Upgrade: 2");
            assert_eq!(first.data[4..12], 72u64.to_le_bytes());
            assert_eq!(second.data[4..12], (!72u64).to_le_bytes());
            assert_eq!(*code, 9);
        }
        other => panic!("{other:?}"),
    }
    data[1] = 0;
    data[2..10].copy_from_slice(&u64::MAX.to_le_bytes());
    let plan = process_instruction(build, &program(), &mut accounts, &data, 0).unwrap();
    assert_eq!(plan.len(), 3);
    match &plan[1] {
        Effect::Invoke { instruction, .. } => {
            let value = u64::MAX.wrapping_mul(10).wrapping_add(2);
            assert_eq!(instruction.data[4..12], value.to_le_bytes());
        }
        other => panic!("{other:?}"),
    }
    assert!(matches!(
        process_instruction(build, &program(), &mut accounts, &[9], 0),
        Err(ProgramError::InvalidInstructionData)
    ));
    accounts.refs.pop();
    assert!(matches!(
        process_instruction(build, &program(), &mut accounts, &data, 0),
        Err(ProgramError::NotEnoughAccountKeys)
    ));
}

fn tried(accounts: &mut Accounts, data: &[u8]) -> Option<Result<usize, ProgramError>> {
    let served = try_process_instruction(PLAIN, &program(), accounts, data, 500)?;
    Some(served.map(|plan| plan.len()))
}

fn scheduled(ix: &ScheduleCommitInstruction) -> Vec<u8> {
    let mut data = vec![SCHEDULE_COMMIT_TAG];
    data.extend(ix.encode());
    data
}

#[test]
fn counts_are_not_raised_past_the_largest() {
    let increase = scheduled(&ScheduleCommitInstruction::IncreaseCount);
    let mut full = listed(vec![account(key(1), counter_data(1, u64::MAX), false)]);
    assert_eq!(tried(&mut full, &increase), None);
    assert_eq!(full.store[0].data, counter_data(1, u64::MAX));
    let mut free = listed(vec![account(key(1), counter_data(1, u64::MAX - 1), false)]);
    assert_eq!(tried(&mut free, &increase), Some(Ok(0)));
    assert_eq!(free.store[0].data, counter_data(1, u64::MAX));
    assert_eq!(
        tried(&mut listed(Vec::new()), &increase),
        Some(Err(ProgramError::NotEnoughAccountKeys))
    );
}

#[test]
fn a_counter_that_is_committed_twice_is_raised_twice() {
    let commit = build::schedule_commit_cpi(
        key(1),
        vec![key(5), key(5)],
        true,
        false,
        ScheduleCommitType::Commit,
        true,
    )
    .expect("the search finds an address");
    let of = |count: u64| Accounts {
        store: vec![signer(1), plain(2), plain(3), account(key(6), counter_data(5, count), false)],
        refs: vec![0, 1, 2, 3, 3],
    };
    assert_eq!(tried(&mut of(u64::MAX - 1), &commit.data), None);
    let mut free = of(u64::MAX - 2);
    assert_eq!(tried(&mut free, &commit.data), Some(Ok(1)));
    assert_eq!(free.store[3].data, counter_data(5, u64::MAX));
    let mut short = of(u64::MAX);
    short.refs.pop();
    assert_eq!(
        tried(&mut short, &commit.data),
        Some(Err(ProgramError::InvalidArgument))
    );
}

#[test]
fn an_order_book_does_not_grow_past_what_can_be_addressed() {
    let book = order_book_pda_and_bump(&key(2)).expect("the search finds an address").0;
    let of = |at: Pubkey| {
        listed(vec![signer(1), plain(2), account(at, vec![0; 8], false), plain(4)])
    };
    let grow = scheduled(&ScheduleCommitInstruction::GrowOrderBook(u64::MAX));
    assert_eq!(tried(&mut of(book), &grow), None);
    assert_eq!(rent_size(PLAIN, &of(book), &grow), None);
    assert_eq!(
        tried(&mut of(key(3)), &grow),
        Some(Err(ProgramError::InvalidSeeds))
    );
    let little = scheduled(&ScheduleCommitInstruction::GrowOrderBook(16));
    assert_eq!(rent_size(PLAIN, &of(book), &little), Some(24));
    assert_eq!(tried(&mut of(book), &little), Some(Ok(1)));
}

#[test]
fn labelled_counters_stay_within_bounds() {
    let of = |count: u64, updates: u64| {
        listed(vec![signer(1), account(key(2), flexi_data(count, updates, "x"), false)])
    };
    let add = tagged(&FlexiInstruction::Add { count: 2 });
    assert!(can_serve(PLAIN, &of(u64::MAX - 2, 0), &add));
    assert!(!can_serve(PLAIN, &of(u64::MAX - 1, 0), &add));
    assert!(!can_serve(PLAIN, &of(0, u64::MAX), &add));
    let mul = tagged(&FlexiInstruction::Mul { multiplier: 2 });
    assert!(can_serve(PLAIN, &of(u64::MAX / 2, 0), &mul));
    assert!(!can_serve(PLAIN, &of(u64::MAX / 2 + 1, 0), &mul));
    let shown = Build {
        upgraded: false,
        upgrade_tag: Some(FLEXI_TAG),
    };
    assert!(can_serve(shown, &of(u64::MAX, 0), &add));
}

#[test]
fn a_callback_gives_back_what_the_counter_holds() {
    let failed = callback(false, &1_001u64.to_le_bytes());
    let of = |held: u64| {
        let mut accounts = listed(vec![
            account(Pubkey::new(CALLBACK_SIGNER), Vec::new(), true),
            plain(2),
            plain(3),
            plain(4),
        ]);
        accounts.store[1].lamports = held;
        accounts
    };
    assert_eq!(tried(&mut of(1_000), &failed), None);
    let mut enough = of(1_001);
    assert_eq!(tried(&mut enough, &failed), Some(Ok(0)));
    assert_eq!(enough.store[1].lamports, 0);
    assert_eq!(enough.store[2].lamports, 2_001);
}

#[test]
fn commits_are_asked_for_in_every_way() {
    let players = vec![key(5), key(6)];
    let (first, second) = (counter_of(5).bytes[0], counter_of(6).bytes[0]);
    let (context, magic) = (MAGIC_CONTEXT_ID[0], MAGIC_PROGRAM_ID[0]);
    assert_eq!(build::magic_program_id().bytes, MAGIC_PROGRAM_ID);
    assert_eq!(build::magic_context_id().bytes, MAGIC_CONTEXT_ID);
    let common = vec![
        (1, true, true),
        (context, false, true),
        (magic, false, false),
        (first, false, true),
        (second, false, true),
    ];

    let after =
        build::schedule_commit_and_undelegate_mod_after(key(1), players.clone()).unwrap();
    assert_eq!(metas(&after), common);
    assert_eq!(after.data[..6], [SCHEDULE_COMMIT_TAG, 4, 2, 0, 0, 0]);
    assert_eq!(after.data.len(), 6 + 64);
    let twice = build::schedule_commit_and_undelegate_twice(key(1), players.clone()).unwrap();
    assert_eq!(metas(&twice), common);
    assert_eq!(twice.data[..2], [SCHEDULE_COMMIT_TAG, 5]);

    let vault =
        build::schedule_commit_with_vault(key(1), Some(key(9)), players.clone(), true).unwrap();
    let mut with_vault = common.clone();
    with_vault.insert(3, (9, false, true));
    assert_eq!(metas(&vault), with_vault);
    assert_eq!(vault.data[..2], [SCHEDULE_COMMIT_TAG, 3]);
    assert_eq!(vault.data[70..], [1, 1]);
    let bare = build::schedule_commit_with_vault(key(1), None, players, false).unwrap();
    assert_eq!(metas(&bare), common);
    assert_eq!(bare.data[70..], [0, 0]);

    let raise = build::increase_count(key(5)).unwrap();
    assert_eq!(metas(&raise), vec![(first, false, true)]);
    assert_eq!(raise.data, vec![SCHEDULE_COMMIT_TAG, 6]);
}

#[test]
fn labelled_counters_are_delegated_and_bundled() {
    let delegate = flexi_builders::delegate_counter(key(1), 7, Some(key(8))).unwrap();
    let expected = DelegateAccounts::new(flexi_of(1), program()).unwrap();
    assert_eq!(
        metas(&delegate),
        vec![
            (1, true, true),
            (expected.delegated_account.bytes[0], false, true),
            (expected.owner_program.bytes[0], false, false),
            (expected.delegate_buffer.bytes[0], false, true),
            (expected.delegation_record.bytes[0], false, true),
            (expected.delegation_metadata.bytes[0], false, true),
            (DELEGATION_PROGRAM_ID[0], false, false),
            (SYSTEM_PROGRAM_ID[0], false, false),
        ]
    );
    assert_eq!(delegate.data[..7], [FLEXI_TAG, 1, 7, 0, 0, 0, 1]);
    assert_eq!(delegate.data[7..], [8; 32]);

    let bundle =
        flexi_builders::create_intent_bundle_commit_and_finalize(key(1), &[key(2)], &[key(3)])
            .unwrap();
    assert_eq!(
        metas(&bundle),
        vec![
            (MAGIC_CONTEXT_ID[0], false, true),
            (MAGIC_PROGRAM_ID[0], false, false),
            (1, true, false),
            (flexi_of(2).bytes[0], false, true),
            (flexi_of(3).bytes[0], false, true),
        ]
    );
    assert_eq!(bundle.data, vec![FLEXI_TAG, 7, 1, 1]);
}
