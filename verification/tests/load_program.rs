use ephemeral_rollups_sdk::consts;
use redsuite::address::find_address;
use redsuite::chain::{Account, Accounts, ProgramError, Pubkey};
use redsuite::effects::Effect;
use redsuite::hash::{content_hash, fold_hash, hash_chain};
use redsuite::ids::{
    CALLBACK_SIGNER, CRANK_PROGRAM_ID, DELEGATION_PROGRAM_ID, EPHEMERAL_VAULT_ID,
    EXTERNAL_UNDELEGATE_DISCRIMINATOR, MAGIC_CONTEXT_ID, MAGIC_PROGRAM_ID, SYSTEM_PROGRAM_ID,
};
use redsuite::redline::builders as build;
use redsuite::redline::entry::{can_serve, process_instruction};
use redsuite::redline::instruction::Instruction;
use redsuite::redline::processors::{simple_byte_set, verify_account_owner};
use redsuite::redline::utils::derive_pda;
use redsuite::redline::{ID, ID_OFFSET, ID_SIZE, OWNER_PUBKEY_SIZE};
use sha2::Digest;

fn key(n: u8) -> Pubkey {
    Pubkey::new([n; 32])
}

fn account(n: u8, data: Vec<u8>, signer: bool) -> Account {
    Account {
        key: key(n),
        owner: Pubkey::new(ID),
        is_signer: signer,
        is_writable: true,
        lamports: 1_000_000,
        data,
    }
}

fn listed(store: Vec<Account>) -> Accounts {
    let refs = (0..store.len()).collect();
    Accounts { store, refs }
}

#[test]
fn discriminants_are_stable() {
    let cases: Vec<(Instruction, u32)> = vec![
        (Instruction::CommitAccounts { id: 1 }, 0),
        (Instruction::CommitAndUndelegateAccounts { id: 1 }, 1),
        (
            Instruction::InitAccount {
                space: 128,
                seed: 1,
                bump: 255,
                authority: key(1),
            },
            2,
        ),
        (
            Instruction::Delegate {
                seed: 1,
                authority: key(2),
            },
            3,
        ),
        (Instruction::SimpleByteSet { id: 1 }, 4),
        (
            Instruction::ExpensiveHashCompute {
                id: 1,
                init: key(3),
                iters: 10,
            },
            5,
        ),
        (Instruction::MultiAccountRead { id: 1 }, 6),
        (Instruction::AccountDataCopy { id: 1 }, 7),
        (Instruction::ReadAccountsData { id: 1 }, 8),
        (Instruction::CloseAccount, 9),
        (Instruction::HashFold { id: 1, iters: 0 }, 10),
    ];
    for (ix, expected) in cases {
        let bytes = ix.encode();
        let disc = u32::from_le_bytes(bytes[..4].try_into().unwrap());
        assert_eq!(disc, expected);
        let again = Instruction::decode(&bytes).expect("what was written reads back");
        assert_eq!(again.encode(), bytes);
    }
    assert!(Instruction::decode(&[11, 0, 0, 0]).is_none());
    assert!(Instruction::decode(&[4, 0, 0, 0, 1]).is_none());
}

#[test]
fn instructions_have_the_layout_of_bincode() {
    let bytes = Instruction::InitAccount {
        space: 128,
        seed: 1,
        bump: 255,
        authority: key(7),
    }
    .encode();
    let expected = bincode::serialize(&(2u32, 128u32, 1u8, 255u8, [7u8; 32])).unwrap();
    assert_eq!(bytes, expected);
    let bytes = Instruction::HashFold { id: 9, iters: 4 }.encode();
    assert_eq!(bytes, bincode::serialize(&(10u32, 9u64, 4u32)).unwrap());
}

#[test]
fn commit_metas_layout_is_r2_safe() {
    let payer = key(1);
    let committed = [key(2), key(3)];
    let ix = build::commit_accounts(7, payer, &committed);

    assert_eq!(ix.accounts[0].pubkey.bytes, payer.bytes);
    assert!(ix.accounts[0].is_signer && ix.accounts[0].is_writable);
    assert_eq!(ix.accounts[1].pubkey.bytes, MAGIC_CONTEXT_ID);
    assert!(!ix.accounts[1].is_signer && ix.accounts[1].is_writable);
    assert_eq!(ix.accounts[2].pubkey.bytes, MAGIC_PROGRAM_ID);
    assert!(!ix.accounts[2].is_signer && !ix.accounts[2].is_writable);
    assert_eq!(ix.accounts.len(), 5);
    for (meta, pk) in ix.accounts[3..].iter().zip(committed) {
        assert_eq!(meta.pubkey.bytes, pk.bytes);
        assert!(!meta.is_signer && meta.is_writable);
    }
}

#[test]
fn a_commit_can_return_the_accounts() {
    let commit = build::commit_accounts(7, key(1), &[key(2), key(3)]);
    let both = build::commit_and_undelegate_accounts(7, key(1), &[key(2), key(3)]);
    assert_eq!(both.data, Instruction::CommitAndUndelegateAccounts { id: 7 }.encode());
    let listed = |ix: &redsuite::chain::SolanaInstruction| -> Vec<([u8; 32], bool, bool)> {
        ix.accounts
            .iter()
            .map(|m| (m.pubkey.bytes, m.is_signer, m.is_writable))
            .collect()
    };
    assert_eq!(listed(&both), listed(&commit));
}

#[test]
fn init_account_builder_matches_processor_order() {
    let payer = key(1);
    let base = key(2);
    let authority = key(3);
    let (ix, pda) =
        build::init_account(payer, base, 256, 3, authority).expect("the search finds an address");

    assert_eq!(
        ix.accounts.iter().map(|m| m.pubkey.bytes).collect::<Vec<_>>(),
        vec![payer.bytes, pda.bytes, base.bytes, SYSTEM_PROGRAM_ID],
    );
    let decoded = Instruction::decode(&ix.data).unwrap();
    let Instruction::InitAccount {
        space, seed, bump, ..
    } = decoded
    else {
        panic!("wrong variant");
    };
    assert_eq!((space, seed), (256, 3));
    let (found, found_bump) = derive_pda(&Pubkey::new(ID), base, 256, 3, authority)
        .expect("the search finds an address");
    assert_eq!((found.bytes, found_bump), (pda.bytes, bump));
}

#[test]
fn simple_byte_set_writes_id_at_layout_offset() {
    let stored_owner = key(9);
    let mut data = vec![0u8; OWNER_PUBKEY_SIZE + 3 * ID_SIZE + 5];
    data[..OWNER_PUBKEY_SIZE].copy_from_slice(&stored_owner.bytes);

    let mut accounts = listed(vec![account(1, data, false)]);
    let id: u64 = 0xDEAD_BEEF_CAFE_F00D;
    simple_byte_set(&mut accounts, id).unwrap();
    let data = &accounts.store[0].data;

    assert_eq!(&data[..OWNER_PUBKEY_SIZE], &stored_owner.bytes);
    for i in 0..3 {
        let at = ID_OFFSET + i * ID_SIZE;
        assert_eq!(data[at..at + ID_SIZE], id.to_le_bytes());
    }
    // The sub-8-byte tail stays untouched.
    assert_eq!(&data[OWNER_PUBKEY_SIZE + 3 * ID_SIZE..], &[0u8; 5]);
}

#[test]
fn owner_verification_gates_by_stored_header() {
    let owner_key = key(1);
    let mut pda_data = vec![0u8; 64];
    pda_data[..OWNER_PUBKEY_SIZE].copy_from_slice(&owner_key.bytes);
    let pda = account(5, pda_data, false);

    let owner = account(1, Vec::new(), true);
    assert_eq!(
        verify_account_owner(&owner, &pda).unwrap().bytes,
        owner_key.bytes
    );

    let intruder = account(2, Vec::new(), true);
    assert!(verify_account_owner(&intruder, &pda).is_err());

    let unsigned_owner = account(1, Vec::new(), false);
    assert!(verify_account_owner(&unsigned_owner, &pda).is_err());
}

#[test]
fn owner_verification_names_what_is_wrong() {
    let blank = account(5, vec![0u8; 64], false);
    let anybody = account(2, Vec::new(), true);
    assert_eq!(
        verify_account_owner(&anybody, &blank).unwrap().bytes,
        [0u8; 32]
    );
    let short = account(5, vec![0u8; 31], false);
    assert!(matches!(
        verify_account_owner(&anybody, &short),
        Err(ProgramError::InvalidAccountData)
    ));
    let unsigned = account(2, Vec::new(), false);
    assert!(matches!(
        verify_account_owner(&unsigned, &blank),
        Err(ProgramError::MissingRequiredSignature)
    ));
}

#[test]
fn hash_chain_is_deterministic_and_iteration_sensitive() {
    let init = [7u8; 32];
    assert_eq!(hash_chain(init, 0), init);
    assert_eq!(hash_chain(init, 32), hash_chain(init, 32));
    assert_ne!(hash_chain(init, 32), hash_chain(init, 31));
    assert_ne!(hash_chain([8u8; 32], 32), hash_chain(init, 32));
}

#[test]
fn hashes_are_those_of_sha_256() {
    let mut block = [7u8; 32].to_vec();
    block.extend_from_slice(&0u32.to_le_bytes());
    let once: [u8; 32] = sha2::Sha256::digest(&block).into();
    assert_eq!(hash_chain([7u8; 32], 1), once);
    let mut block = once.to_vec();
    block.extend_from_slice(&1u32.to_le_bytes());
    let twice: [u8; 32] = sha2::Sha256::digest(&block).into();
    assert_eq!(hash_chain([7u8; 32], 2), twice);
    let content: [u8; 32] = sha2::Sha256::digest(b"redsuite").into();
    assert_eq!(content_hash(b"redsuite"), content);
    assert_ne!(fold_hash(1, &[[0u8; 32]], 0), fold_hash(2, &[[0u8; 32]], 0));
    assert_eq!(
        fold_hash(1, &[[0u8; 32]], 3),
        hash_chain(fold_hash(1, &[[0u8; 32]], 0), 3)
    );
}

#[test]
fn derivation_is_deterministic_and_parameter_sensitive() {
    let base = key(1);
    let authority = key(2);
    let program = Pubkey::new(ID);
    let derive = |base: Pubkey, space: u32, seed: u8| {
        derive_pda(&program, base, space, seed, authority).expect("the search finds an address")
    };

    let (pda, bump) = derive(base, 128, 1);
    let again = derive(base, 128, 1);
    assert_eq!((again.0.bytes, again.1), (pda.bytes, bump));
    assert!(!solana_program::pubkey::Pubkey::new_from_array(pda.bytes).is_on_curve());

    assert_ne!(derive(base, 256, 1).0.bytes, pda.bytes);
    assert_ne!(derive(base, 128, 2).0.bytes, pda.bytes);
    assert_ne!(derive(key(3), 128, 1).0.bytes, pda.bytes);
}

#[test]
fn searched_addresses_are_those_of_the_chain() {
    let seeds = vec![b"one".to_vec(), vec![4u8; 32]];
    let (found, bump) = find_address(&seeds, &key(9)).expect("the search finds an address");
    let (native, native_bump) = solana_program::pubkey::Pubkey::find_program_address(
        &[b"one", &[4u8; 32]],
        &solana_program::pubkey::Pubkey::new_from_array([9u8; 32]),
    );
    assert_eq!((found.bytes, bump), (native.to_bytes(), native_bump));
    let too_long = vec![vec![0u8; 33]];
    assert!(find_address(&too_long, &key(9)).is_none());
}

#[test]
fn addresses_are_those_of_the_programs() {
    assert_eq!(MAGIC_PROGRAM_ID, consts::MAGIC_PROGRAM_ID.to_bytes());
    assert_eq!(MAGIC_CONTEXT_ID, consts::MAGIC_CONTEXT_ID.to_bytes());
    assert_eq!(DELEGATION_PROGRAM_ID, consts::DELEGATION_PROGRAM_ID.to_bytes());
    assert_eq!(
        &EXTERNAL_UNDELEGATE_DISCRIMINATOR[..],
        &consts::EXTERNAL_UNDELEGATE_DISCRIMINATOR[..]
    );
    assert_eq!(
        CALLBACK_SIGNER,
        magicblock_magic_program_api::pda::CALLBACK_SIGNER.to_bytes()
    );
    assert_eq!(
        CRANK_PROGRAM_ID,
        magicblock_magic_program_api::CRANK_PROGRAM_ID.to_bytes()
    );
    assert_eq!(
        EPHEMERAL_VAULT_ID,
        magicblock_magic_program_api::EPHEMERAL_VAULT_PUBKEY.to_bytes()
    );
    assert_eq!(SYSTEM_PROGRAM_ID, solana_sdk_ids::system_program::ID.to_bytes());
}

#[test]
fn copies_stop_where_an_account_meets_itself() {
    let mut source = vec![0u8; 64];
    source[32..40].copy_from_slice(&[5u8; 8]);
    let mut accounts = listed(vec![
        account(1, source, false),
        account(2, vec![0u8; 64], false),
    ]);
    let data = Instruction::AccountDataCopy { id: 3 }.encode();
    assert!(process_instruction(&mut accounts, &data).is_ok());
    assert_eq!(accounts.store[1].data[32..40], 3u64.to_le_bytes());
    assert_eq!(accounts.store[1].data[40..48], [5u8; 8]);
    accounts.refs = vec![0, 0];
    assert!(matches!(
        process_instruction(&mut accounts, &data),
        Err(ProgramError::AccountBorrowFailed)
    ));
}

#[test]
fn closing_hands_the_lamports_to_the_owner() {
    let mut data = vec![0u8; 64];
    data[..32].copy_from_slice(&[1u8; 32]);
    let mut accounts = listed(vec![account(1, Vec::new(), true), account(2, data, false)]);
    let close = Instruction::CloseAccount.encode();
    assert!(process_instruction(&mut accounts, &close).is_ok());
    assert_eq!(accounts.store[0].lamports, 2_000_000);
    assert_eq!(accounts.store[1].lamports, 0);
    assert!(accounts.store[1].data.is_empty());
    assert_eq!(accounts.store[1].owner.bytes, SYSTEM_PROGRAM_ID);
    let mut accounts = listed(vec![
        account(1, Vec::new(), true),
        account(2, vec![1u8; 64], false),
    ]);
    accounts.store[0].lamports = u64::MAX;
    accounts.store[1].data[..32].copy_from_slice(&[1u8; 32]);
    assert!(matches!(
        process_instruction(&mut accounts, &close),
        Err(ProgramError::ArithmeticOverflow)
    ));
}

#[test]
fn sources_are_summed_up_and_hashes_written() {
    let mut accounts = listed(vec![
        account(1, vec![0u8; 48], false),
        account(2, vec![0u8; 10], false),
        account(3, vec![0u8; 20], false),
    ]);
    let read = Instruction::MultiAccountRead { id: 6 }.encode();
    assert!(process_instruction(&mut accounts, &read).is_ok());
    assert_eq!(accounts.store[0].data[32..40], 6u64.to_le_bytes());
    assert_eq!(accounts.store[0].data[40..48], 30u64.to_le_bytes());
    accounts.store[0].lamports = 0;
    assert!(matches!(
        process_instruction(&mut accounts, &read),
        Err(ProgramError::UninitializedAccount)
    ));
    let mut accounts = listed(vec![account(1, vec![0u8; 72], false)]);
    let hash = Instruction::ExpensiveHashCompute {
        id: 4,
        init: key(8),
        iters: 2,
    }
    .encode();
    assert!(process_instruction(&mut accounts, &hash).is_ok());
    assert_eq!(accounts.store[0].data[32..40], 4u64.to_le_bytes());
    assert_eq!(accounts.store[0].data[40..72], hash_chain([8u8; 32], 2));
}

#[test]
fn unknown_data_is_refused() {
    let mut accounts = listed(vec![account(1, Vec::new(), true)]);
    assert!(matches!(
        process_instruction(&mut accounts, &[200]),
        Err(ProgramError::InvalidInstructionData)
    ));
    let mut none = listed(Vec::new());
    let read = Instruction::MultiAccountRead { id: 6 }.encode();
    assert!(matches!(
        process_instruction(&mut none, &read),
        Err(ProgramError::NotEnoughAccountKeys)
    ));
}

#[test]
fn the_callback_of_the_delegation_program_comes_first() {
    let mut accounts = listed((0..4).map(|n| account(n, Vec::new(), false)).collect());
    let seeds: Vec<Vec<u8>> = vec![vec![1, 2], vec![3]];
    let mut data = EXTERNAL_UNDELEGATE_DISCRIMINATOR.to_vec();
    data.extend(borsh::to_vec(&seeds).unwrap());
    let plan = process_instruction(&mut accounts, &data).expect("the seeds are there");
    match &plan[0] {
        Effect::Undelegate {
            delegated,
            owner,
            seeds: found,
            ..
        } => {
            assert_eq!(*delegated, 0);
            assert_eq!(owner.bytes, ID);
            assert_eq!(found, &seeds);
        }
        other => panic!("{other:?}"),
    }
    data.push(0);
    assert!(matches!(
        process_instruction(&mut accounts, &data),
        Err(ProgramError::InvalidArgument)
    ));
}

#[test]
fn an_account_is_set_up_with_its_seeds_and_its_owner() {
    let mut accounts = listed((0..4).map(|n| account(n, Vec::new(), true)).collect());
    let (_, bump) = derive_pda(&Pubkey::new(ID), key(2), 128, 1, key(6)).expect("found");
    let init = Instruction::InitAccount {
        space: 128,
        seed: 1,
        bump,
        authority: key(6),
    }
    .encode();
    let plan = process_instruction(&mut accounts, &init).expect("the accounts are there");
    assert_eq!(plan.len(), 2);
    match (&plan[0], &plan[1]) {
        (
            Effect::CreatePda {
                target,
                space,
                seeds,
                ..
            },
            Effect::Write { bytes, .. },
        ) => {
            assert_eq!((*target, *space), (1, 128));
            assert_eq!(seeds[seeds.len() - 1], vec![bump]);
            assert_eq!(bytes, &vec![0u8; 32]);
        }
        other => panic!("{other:?}"),
    }
}

#[test]
fn accounts_have_to_be_large_enough() {
    let read = Instruction::MultiAccountRead { id: 1 }.encode();
    let hash = Instruction::ExpensiveHashCompute { id: 1, init: key(3), iters: 2 }.encode();
    let copy = Instruction::AccountDataCopy { id: 1 }.encode();
    let of = |first: usize, second: usize| {
        listed(vec![
            account(1, vec![0; first], false),
            account(2, vec![0; second], false),
        ])
    };
    assert!(can_serve(&of(48, 0), &read));
    assert!(!can_serve(&of(47, 100), &read));
    assert!(can_serve(&of(72, 72), &hash));
    assert!(!can_serve(&of(72, 71), &hash));
    assert!(can_serve(&of(32, 40), &copy));
    assert!(!can_serve(&of(31, 40), &copy));
    assert!(!can_serve(&of(32, 39), &copy));

    let twice = Accounts {
        store: vec![account(1, vec![0; 48], false)],
        refs: vec![0, 0],
    };
    assert!(!can_serve(&twice, &read));
    assert!(can_serve(&twice, &copy));

    let mut empty = of(0, 0);
    for held in &mut empty.store {
        held.lamports = 0;
    }
    assert!(can_serve(&empty, &read));
    assert!(can_serve(&empty, &hash));
    assert!(can_serve(&empty, &copy));
    assert!(can_serve(&of(0, 0), &EXTERNAL_UNDELEGATE_DISCRIMINATOR));
    assert!(can_serve(&of(0, 0), &[1, 2, 3]));
}

#[test]
fn reading_shows_how_large_accounts_are() {
    let mut accounts = Accounts {
        store: vec![account(1, vec![0; 40], false), account(2, Vec::new(), false)],
        refs: vec![0, 1, 0],
    };
    let data = Instruction::ReadAccountsData { id: 907 }.encode();
    let plan = process_instruction(&mut accounts, &data).unwrap();
    let lines: Vec<String> = plan
        .iter()
        .map(|effect| match effect {
            Effect::Log { text } => text.clone(),
            other => panic!("{other:?}"),
        })
        .collect();
    let shown = |n: u8, len: usize| {
        let key = solana_pubkey::Pubkey::new_from_array([n; 32]);
        format!("account {key} has {len} space, txn: 907")
    };
    assert_eq!(lines, vec![shown(1, 40), shown(2, 0), shown(1, 40)]);
    assert!(process_instruction(&mut listed(Vec::new()), &data).unwrap().is_empty());
}
