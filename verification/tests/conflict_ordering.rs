use std::collections::HashSet;

use redsuite::chain::Pubkey;
use redsuite::hash::{fold_hash, hash_chain};
use redsuite::ids::COMPUTE_BUDGET_ID;
use redsuite::redline::instruction::Instruction;
use redsuite::redline::HASH_OFFSET;
use redsuite::scenarios::conflict_ordering::{
    chain_ixs, check_batch, check_calibration, check_pair_account, compute_unit_limit,
    contention_lanes, heavy_step, holds_independent_chain, independent_ixs, is_idle, join_load,
    load_lanes, load_limits, load_threads, phase_counts, phase_ranges, plan_pair, profile,
    step_accounts, totals, AccountFault, BatchFault, BatchOutcome, CalibrationFault, ChainSpace,
    ConflictOrdering, LoadMode, LoadTally, PairModel, PhaseOutcome, PlannedStep, Reading, Samples,
    Step, HASH_INIT,
};
use redsuite::suite::Tier;

fn key(n: u8) -> Pubkey {
    Pubkey::new([n; 32])
}

#[test]
fn step_ids_are_unique_and_follow_the_accepted_order() {
    let space = ChainSpace {
        pairs: 3,
        chains: 5,
    };
    let mut seen = HashSet::new();
    for batch in 0..2 {
        for pair in 0..space.pairs {
            let mut last = 0;
            for chain in 0..space.chains {
                for step in Step::all() {
                    let id = space.step_id(batch, pair, chain, step);
                    assert!(id > last, "ids must ascend within a pair");
                    assert!(seen.insert(id), "id {id} issued twice");
                    last = id;
                }
            }
        }
    }
    assert_eq!(seen.len(), 2 * 3 * 5 * 3);
}

#[test]
fn heavy_step_rotates_through_every_position() {
    let heavy: HashSet<Step> = (0..3).map(heavy_step).collect();
    assert_eq!(heavy.len(), 3);
}

#[test]
fn phase_ranges_partition_the_chains() {
    for chains in [2u64, 3, 40, 41, 200] {
        let [(first_lo, first_hi), (second_lo, second_hi)] = phase_ranges(chains);
        assert_eq!(first_lo, 0);
        assert_eq!(first_hi, second_lo);
        assert_eq!(second_hi, chains);
        assert!(first_hi - first_lo >= 1);
        assert!(second_hi - second_lo >= 1);
    }
}

fn replay(sequence: &[(Step, u64)]) -> PairModel {
    let mut model = PairModel::default();
    for &(step, id) in sequence {
        model.apply(step, id, 0);
    }
    model
}

#[test]
fn the_model_pins_causal_order_and_nothing_more() {
    let accepted = [(Step::X, 1), (Step::Y, 2), (Step::Z, 3), (Step::X, 4)];
    let z_after_next_x = [(Step::X, 1), (Step::Y, 2), (Step::X, 4), (Step::Z, 3)];
    assert_eq!(replay(&accepted), replay(&z_after_next_x));

    let y_before_x = [(Step::Y, 2), (Step::X, 1), (Step::Z, 3), (Step::X, 4)];
    assert_ne!(replay(&accepted), replay(&y_before_x));
    let z_before_y = [(Step::X, 1), (Step::Z, 3), (Step::Y, 2), (Step::X, 4)];
    assert_ne!(replay(&accepted), replay(&z_before_y));
    let next_x_before_y = [(Step::X, 1), (Step::X, 4), (Step::Y, 2), (Step::Z, 3)];
    assert_ne!(replay(&accepted), replay(&next_x_before_y));

    let mut heavy = PairModel::default();
    heavy.apply(Step::X, 1, 1);
    assert_ne!(heavy, replay(&[(Step::X, 1)]));
}

#[test]
fn the_model_folds_the_hashes_of_the_accounts_a_step_touches() {
    let mut model = PairModel::default();
    model.apply(Step::X, 5, 2);
    let first = fold_hash(5, &[[0u8; 32]], 2);
    assert_eq!(model.a, first);
    assert_eq!((model.a_id, model.b_id), (5, 0));
    model.apply(Step::Y, 6, 0);
    let second = fold_hash(6, &[first, [0u8; 32]], 0);
    assert_eq!((model.a, model.b), (second, second));
    assert_eq!((model.a_id, model.b_id), (6, 6));
    model.apply(Step::Z, 7, 0);
    assert_eq!(model.a, second);
    assert_eq!(model.b, fold_hash(7, &[second], 0));
    assert_eq!((model.a_id, model.b_id), (6, 7));
}

#[test]
fn conflict_ordering_has_a_profile_for_every_tier_it_runs_at() {
    assert_eq!(ConflictOrdering.name(), "redline/conflict_ordering");
    let lite = profile(Tier::Lite);
    assert!(lite.is_some());
    assert!(lite.unwrap().chains >= 2);
}

#[test]
fn planned_steps_follow_the_chains_of_a_pair() {
    let space = ChainSpace { pairs: 2, chains: 4 };
    let plan = plan_pair(&space, 0, 1, (1, 3), 9);
    assert_eq!(plan.len(), 6);
    assert_eq!(plan[0].chain, 1);
    assert_eq!(plan[0].step, Step::X);
    assert_eq!(plan[5].chain, 2);
    assert_eq!(plan[5].step, Step::Z);
    for planned in &plan {
        assert_eq!(
            planned.id,
            space.step_id(0, 1, planned.chain, planned.step)
        );
        let heavy = heavy_step(planned.chain) == planned.step;
        assert_eq!(planned.iters, if heavy { 9 } else { 0 });
    }
    let mut model = PairModel::default();
    for planned in &plan {
        model.apply(planned.step, planned.id, planned.iters);
    }
    let replayed = redsuite::scenarios::conflict_ordering::replay(PairModel::default(), &plan);
    assert_eq!(replayed, model);
    let one: PlannedStep = plan[0];
    assert_eq!(one, plan[0]);
}

#[test]
fn a_pair_account_is_checked_for_its_hash_and_id() {
    let mut data = vec![0u8; 72];
    data[32..40].copy_from_slice(&77u64.to_le_bytes());
    data[40..72].copy_from_slice(&[3u8; 32]);
    assert!(check_pair_account(&data, &[3u8; 32], 77).is_ok());
    match check_pair_account(&data, &[3u8; 32], 78) {
        Err(AccountFault::Mismatch { id, hash }) => {
            assert_eq!(id, 77);
            assert_eq!(hash, vec![3u8; 32]);
        }
        other => panic!("{other:?}"),
    }
    match check_pair_account(&data[..50], &[3u8; 32], 77) {
        Err(AccountFault::TooShort { len }) => assert_eq!(len, 50),
        other => panic!("{other:?}"),
    }
}

#[test]
fn steps_touch_their_accounts_and_raise_the_budget() {
    let accounts = |step| {
        step_accounts(key(1), key(2), step)
            .iter()
            .map(|k| k.bytes[0])
            .collect::<Vec<u8>>()
    };
    assert_eq!(accounts(Step::X), vec![1]);
    assert_eq!(accounts(Step::Y), vec![1, 2]);
    assert_eq!(accounts(Step::Z), vec![2]);
    let limit = compute_unit_limit(1_400_000);
    assert_eq!(limit.program_id.bytes, COMPUTE_BUDGET_ID);
    let mut data = vec![2u8];
    data.extend_from_slice(&1_400_000u32.to_le_bytes());
    assert_eq!(limit.data, data);
    assert_eq!(chain_ixs(1, 0, &[key(1)]).len(), 1);
    assert_eq!(chain_ixs(1, 4, &[key(1)]).len(), 2);
}

#[test]
fn load_is_shared_out_between_threads() {
    assert_eq!(load_threads(4, 2), 2);
    assert_eq!(load_threads(0, 2), 1);
    let (usable, _) = load_limits(LoadMode::Bounded { lanes: 3 }, 10, 2);
    assert_eq!(usable, 3);
    assert_eq!(load_lanes(5, 2, 0), vec![0, 2, 4]);
    assert_eq!(load_lanes(5, 2, 1), vec![1, 3]);
    assert_eq!(contention_lanes(2, 100), 24);
    assert_eq!(contention_lanes(2, 10), 10);
    assert_eq!(LoadMode::Open { concurrency: 128 }.label(), "backpressure");
}

#[test]
fn tallies_add_up() {
    let one = LoadTally {
        delivered: 3,
        failed: 1,
        first_error: Some("late".to_string()),
        wall_us: 7,
    };
    let other = LoadTally {
        delivered: 4,
        failed: 0,
        first_error: None,
        wall_us: 9,
    };
    let joined = join_load(vec![one, other]).expect("there are tallies");
    assert_eq!((joined.delivered, joined.failed), (7, 1));
    assert_eq!(joined.first_error, Some("late".to_string()));
    assert_eq!(joined.wall_us, 9);
    assert!(join_load(Vec::new()).is_none());
}

#[test]
fn samples_keep_the_longest_stall() {
    let mut samples = Samples::start(0);
    samples.push(Reading {
        busy: Some(2),
        blocked: Some(5),
        txs: Some(10),
        at_ms: 100,
    });
    samples.push(Reading {
        busy: Some(3),
        blocked: None,
        txs: Some(10),
        at_ms: 700,
    });
    samples.push(Reading {
        busy: None,
        blocked: Some(1),
        txs: Some(12),
        at_ms: 800,
    });
    assert_eq!(samples.busy_max, 3);
    assert_eq!(samples.blocked_max, 5);
    assert!(samples.max_stall_ms >= 600);
    assert!(is_idle(Some(0), Some(0), Some(0)));
    assert!(!is_idle(None, Some(0), Some(0)));
    assert_eq!(phase_counts((0, 2), 3), (2, 18));
}

fn healthy_batch() -> BatchOutcome {
    let mut samples = Samples::start(0);
    for at in 1..=4u64 {
        samples.push(Reading {
            busy: Some(4),
            blocked: Some(1),
            txs: Some(at),
            at_ms: at * 10,
        });
    }
    let phase = PhaseOutcome {
        chains: 6,
        chain_txs: 18,
        delivered: 10,
        samples,
    };
    BatchOutcome {
        phases: vec![phase, phase],
        blocked: Some(0),
        busy: Some(0),
        pending: Some(0),
        drain_ms: 5,
        engine_txs: 56,
        dependencies: 1_000,
        dropped: Some(0),
        execution_failed: Some(0),
    }
}

#[test]
fn a_batch_is_refused_for_each_of_its_faults() {
    assert_eq!(check_batch(&healthy_batch(), 3), Ok(()));
    let mut batch = healthy_batch();
    batch.phases[1].samples.busy_max = 0;
    batch.phases[1].samples.busy_sum = 0;
    assert!(matches!(
        check_batch(&batch, 3),
        Err(BatchFault::FewExecutors { phase: 1 }) | Err(BatchFault::Serial { phase: 1 })
    ));
    let mut batch = healthy_batch();
    batch.phases[0].samples.max_stall_ms = 10_001;
    assert_eq!(check_batch(&batch, 3), Err(BatchFault::Stalled { phase: 0 }));
    let mut batch = healthy_batch();
    batch.blocked = Some(1);
    assert_eq!(check_batch(&batch, 3), Err(BatchFault::Blocked));
    let mut batch = healthy_batch();
    batch.busy = None;
    assert_eq!(check_batch(&batch, 3), Err(BatchFault::Busy));
    let mut batch = healthy_batch();
    batch.pending = Some(2);
    assert_eq!(check_batch(&batch, 3), Err(BatchFault::Pending));
    let mut batch = healthy_batch();
    batch.engine_txs = 55;
    assert_eq!(check_batch(&batch, 3), Err(BatchFault::Missing));
    let mut batch = healthy_batch();
    batch.dropped = Some(1);
    assert_eq!(check_batch(&batch, 3), Err(BatchFault::Dropped));
    let mut batch = healthy_batch();
    batch.execution_failed = Some(1);
    assert_eq!(check_batch(&batch, 3), Err(BatchFault::Failed));
    let mut batch = healthy_batch();
    batch.dependencies = 0;
    assert_eq!(check_batch(&batch, 3), Err(BatchFault::Unexercised));
}

#[test]
fn batches_add_up_to_a_run() {
    let mut slow = healthy_batch();
    slow.drain_ms = 9;
    slow.phases[1].samples.max_stall_ms = 800;
    let sum = totals(&[healthy_batch(), slow], 3);
    assert_eq!((sum.chains, sum.chain_txs, sum.independent_txs), (72, 72, 40));
    assert_eq!((sum.engine_txs, sum.dependencies), (112, 2_000));
    assert_eq!((sum.longest_stall_ms, sum.slowest_drain_ms), (800, 9));
    let none = totals(&[], 3);
    assert_eq!((none.chains, none.slowest_drain_ms), (0, 0));
}

#[test]
fn a_calibration_has_to_keep_executors_busy() {
    assert_eq!(check_calibration(0, 2, 256), Ok(24));
    assert_eq!(check_calibration(0, 100, 256), Ok(256));
    assert_eq!(check_calibration(0, 1, 256), Err(CalibrationFault::FewExecutors));
    assert_eq!(check_calibration(1, 9, 256), Err(CalibrationFault::Failed));
}

#[test]
fn independent_work_leaves_its_chain() {
    let ixs = independent_ixs(9, key(4), 30);
    assert_eq!(ixs.len(), 2);
    assert_eq!(ixs[0].program_id.bytes, COMPUTE_BUDGET_ID);
    assert_eq!(ixs[1].accounts.len(), 1);
    assert_eq!(ixs[1].accounts[0].pubkey.bytes, [4; 32]);
    let expected = Instruction::ExpensiveHashCompute {
        id: 9,
        init: Pubkey::new(HASH_INIT),
        iters: 30,
    };
    assert_eq!(ixs[1].data, expected.encode());
    let mut data = vec![0u8; HASH_OFFSET];
    data.extend(hash_chain(HASH_INIT, 30));
    assert!(holds_independent_chain(&data, 30));
    assert!(!holds_independent_chain(&data, 29));
}

#[test]
fn the_last_id_of_all_can_be_given() {
    let space = ChainSpace {
        pairs: 1,
        chains: 1,
    };
    let batch = u64::MAX / 3 - 1;
    assert_eq!(space.step_id(batch, 0, 0, Step::Z), u64::MAX);
    assert_eq!(space.step_id(0, 0, 0, Step::X), 1);
    let first = ChainSpace {
        pairs: 1,
        chains: 2,
    };
    assert!(plan_pair(&first, u64::MAX, u64::MAX, (4, 4), 1).is_empty());
}

#[test]
fn step_ids_ascend_by_batch_pair_chain_and_step() {
    let space = ChainSpace {
        pairs: 3,
        chains: 5,
    };
    let mut ids = Vec::new();
    for batch in 0..2 {
        for pair in 0..space.pairs {
            for chain in 0..space.chains {
                for step in Step::all() {
                    ids.push(space.step_id(batch, pair, chain, step));
                }
            }
        }
    }
    assert_eq!(ids, (1..=90).collect::<Vec<u64>>());
    assert_eq!(totals(&[healthy_batch()], 0).chains, 0);
}
