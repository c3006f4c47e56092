use redsuite::chain::Pubkey;
use redsuite::float_text::reads_as_float;
use redsuite::hash::hash_chain;
use redsuite::redline::instruction::Instruction;
use redsuite::scenarios::clone_lru_churn;
use redsuite::scenarios::cold_hydration_tail;
use redsuite::scenarios::commit_throughput_ceiling as ceiling;
use redsuite::scenarios::commit_width_envelope as envelope;
use redsuite::scenarios::common::{first_missing, same_accounts, watch, TxStatus, Watch};
use redsuite::scenarios::ensure_gate_stall as stall;
use redsuite::scenarios::executor_saturation as saturation;
use redsuite::scenarios::high_cu;
use redsuite::scenarios::hot_account_cliff as cliff;
use redsuite::scenarios::protocol_boundary_selftest as selftest;
use redsuite::scenarios::restart_under_load as restart;
use redsuite::scenarios::rpc_capacity_blast as blast;
use redsuite::scenarios::simple_load;
use redsuite::scenarios::storage_prodsize_sustain as sustain;
use redsuite::scenarios::superblock_boundary_latency as boundary;
use redsuite::scenarios::ws_conn_capacity as conns;
use redsuite::scenarios::ws_fanout_threshold as fanout;
use redsuite::suite::{
    account_update_id, ceil_div, init_accounts_batched, init_delegated_accounts,
    init_delegated_accounts_batched, shape, thread_payers, PrepError, Tier, PREP_INITS_PER_TX,
    PREP_PAIRS_PER_TX,
};

fn key(n: u8) -> Pubkey {
    Pubkey::new([n; 32])
}

fn pool(n: u8) -> Vec<Pubkey> {
    (0..n).map(key).collect()
}

fn names(keys: &[Pubkey]) -> Vec<u8> {
    keys.iter().map(|k| k.bytes[0]).collect()
}

#[test]
fn every_suite_reports_under_its_name() {
    assert_eq!(fanout::WsFanoutThreshold.name(), "redline/ws_fanout_threshold");
    assert_eq!(envelope::CommitWidthEnvelope.name(), "redline/commit_width_envelope");
    assert_eq!(saturation::ExecutorSaturation.name(), "redline/executor_saturation");
    assert_eq!(clone_lru_churn::CloneLruChurn.name(), "redline/clone_lru_churn");
    assert_eq!(
        boundary::SuperblockBoundaryLatency.name(),
        "redline/superblock_boundary_latency"
    );
    assert_eq!(sustain::StorageProdsizeSustain.name(), "redline/storage_prodsize_sustain");
    assert_eq!(
        selftest::ProtocolBoundarySelftest.name(),
        "redline/protocol_boundary_selftest"
    );
    assert_eq!(stall::EnsureGateStall.name(), "redline/ensure_gate_stall");
    assert_eq!(
        ceiling::CommitThroughputCeiling.name(),
        "redline/commit_throughput_ceiling"
    );
    assert_eq!(high_cu::HighCu.name(), "redline/high_cu");
    assert_eq!(cliff::HotAccountCliff.name(), "redline/hot_account_cliff");
    assert_eq!(
        cold_hydration_tail::ColdHydrationTail.name(),
        "redline/cold_hydration_tail"
    );
    assert_eq!(conns::WsConnCapacity.name(), "redline/ws_conn_capacity");
    assert_eq!(blast::RpcCapacityBlast.name(), "redline/rpc_capacity_blast");
    assert_eq!(simple_load::SimpleLoad.name(), "redline/simple_load");
    assert_eq!(restart::RestartUnderLoad.name(), "redline/restart_under_load");
}

#[test]
fn a_transaction_is_judged_by_failure_first() {
    let status = |failed, confirmed| Some(TxStatus { failed, confirmed });
    assert_eq!(watch(status(Some(Some(7)), true), false), Watch::Rejected(Some(7)));
    assert_eq!(watch(status(None, true), true), Watch::Confirmed);
    assert_eq!(watch(status(None, false), true), Watch::TimedOut);
    assert_eq!(watch(None, false), Watch::Waiting);
}

#[test]
fn lists_of_accounts_agree_in_any_order() {
    assert!(same_accounts(&[key(1), key(2), key(1)], &[key(1), key(1), key(2)]));
    assert!(!same_accounts(&[key(1), key(2), key(2)], &[key(1), key(1), key(2)]));
    assert!(!same_accounts(&[key(1)], &[key(1), key(1)]));
    assert!(same_accounts(&[], &[]));
    assert_eq!(first_missing(&[true, false, true]), Some(1));
    assert_eq!(first_missing(&[true]), None);
}

#[test]
fn preparation_is_batched_by_transaction() {
    assert_eq!(ceil_div(7, 3), 3);
    assert_eq!(ceil_div(6, 3), 2);
    let prep = init_delegated_accounts(key(1), 7, 256, key(2)).expect("the addresses are found");
    assert_eq!(prep.pdas.len(), 7);
    assert_eq!(prep.txs.len(), 7);
    assert!(prep.txs.iter().all(|tx| tx.len() == 2));
    let batched = init_delegated_accounts_batched(&[key(1)], 7, 256, key(2)).expect("a payer is there");
    assert_eq!(batched[0].txs.len(), 3);
    assert_eq!(batched[0].txs[0].len(), 2 * PREP_PAIRS_PER_TX);
    assert_eq!(batched[0].txs[2].len(), 2);
    for (one, other) in prep.pdas.iter().zip(batched[0].pdas.iter()) {
        assert_eq!(one.bytes, other.bytes);
    }
    let plain = init_accounts_batched(&[key(1), key(2)], 13, 256, key(3)).expect("payers are there");
    assert_eq!(plain.iter().map(|p| p.pdas.len()).sum::<usize>(), 13);
    assert_eq!(plain[0].txs[0].len(), PREP_INITS_PER_TX);
    assert!(matches!(
        init_accounts_batched(&[], 1, 256, key(3)),
        Err(PrepError::NoPayer)
    ));
    assert!(matches!(
        init_delegated_accounts_batched(&[key(1)], 300, 256, key(3)),
        Err(PrepError::SeedsExhausted)
    ));
    let mut seen: Vec<[u8; 32]> = prep.pdas.iter().map(|k| k.bytes).collect();
    seen.sort();
    seen.dedup();
    assert_eq!(seen.len(), 7);
}

#[test]
fn writes_carry_their_id_and_payers_are_dealt_out() {
    let mut data = vec![0u8; 40];
    data[32..40].copy_from_slice(&9u64.to_le_bytes());
    assert_eq!(account_update_id(&data), Some(9));
    assert_eq!(account_update_id(&data[..39]), None);
    assert_eq!(thread_payers(5, 2, 0), vec![0, 2, 4]);
    assert_eq!(thread_payers(5, 2, 1), vec![1, 3]);
    let ix = shape(&pool(5), 2);
    assert_eq!(
        names(&ix.accounts.iter().map(|m| m.pubkey).collect::<Vec<_>>()),
        vec![3, 4, 0]
    );
    assert!(!ix.accounts[0].is_writable);
    assert!(ix.accounts[1].is_writable && ix.accounts[2].is_writable);
}

#[test]
fn fanout_writes_are_known_beforehand() {
    let (ix, dests) = fanout::shape(&pool(5), 2);
    assert_eq!(names(&dests), vec![4, 0]);
    assert_eq!(ix.data, Instruction::AccountDataCopy { id: 2 }.encode());
    let writes = fanout::cell_expected_writes(5, 10, 6);
    assert_eq!(writes.len(), 5);
    assert_eq!(writes.iter().map(|w| w.len()).sum::<usize>(), 12);
    for (place, ids) in writes.iter().enumerate() {
        for id in ids {
            let (first, second) = fanout::shape_dests(5, *id);
            assert!(place == first || place == second);
        }
    }
    assert_eq!(fanout::cell_first_id(100, 600, 2), 1_300);
    let gathered = fanout::gather(&[
        fanout::ConnReport { received: 4, over_threshold: 1 },
        fanout::ConnReport { received: 9, over_threshold: 2 },
    ]);
    assert_eq!(
        (gathered.min, gathered.max, gathered.total, gathered.over_threshold),
        (4, 9, 13, 3)
    );
    let cell = |connections, missing_final, lag| fanout::CellOutcome {
        connections,
        delivered: 1,
        missing_final,
        incomplete: 0,
        received_min: 3,
        received_max: 3,
        lag_p95_us: lag,
    };
    assert_eq!(fanout::cliff(&[cell(2, 0, 5), cell(4, 1, 5), cell(8, 2, 5)]), 4);
    assert_eq!(fanout::cliff(&[cell(2, 0, 5), cell(4, 0, 1_000_000)]), 4);
    assert_eq!(fanout::cliff(&[cell(2, 0, 999_999)]), 0);
    let mut missed = cell(6, 0, 5);
    missed.incomplete = 1;
    assert_eq!(fanout::cliff(&[cell(2, 0, 5), missed]), 6);
    assert_eq!(fanout::first_idle_cell(&[cell(2, 0, 1)]), None);
    assert_eq!(fanout::baseline_warnings(&cell(2, 1, 1)), (false, true, false));
}

#[test]
fn commit_sets_rotate_through_the_pool() {
    assert_eq!(envelope::widths(), [1, 2, 4]);
    assert_eq!(names(&envelope::commit_set(&pool(5), 2, 3)), vec![4, 0]);
    assert_eq!(envelope::cell_offsets(8, 2), (20, 22));
    let text = |t: &str| t.to_string();
    let earlier = envelope::BaseFlowSnapshot::new(&[text("a")], &[text("b")], &[]);
    let later = envelope::BaseFlowSnapshot::new(
        &[text("a"), text("c"), text("c")],
        &[text("b"), text("c")],
        &[text("t")],
    );
    assert_eq!(later.new_flow_since(&earlier), 1);
    assert_eq!(later.new_alt_since(&earlier), 1);
    assert_eq!(names(&envelope::probe_accounts(&pool(3), 15)), vec![0, 1, 2]);
    assert_eq!(envelope::probe_id(30, envelope::Probe::Wide, 10), 97);
    assert_eq!(envelope::probe_id(30, envelope::Probe::Oversized, 10), 98);
    assert_eq!(envelope::probe_id(30, envelope::Probe::Sponsored { round: 1 }, 10), 99);
    assert_eq!(envelope::probe_id(30, envelope::Probe::OverLimit, 10), 109);
}

fn clean_cell() -> envelope::CellFacts {
    envelope::CellFacts {
        failed: 0,
        intents: Some(8),
        failed_intents: 0,
        alt_tables_used: 0,
        alt_base_txs: 0,
        backlog: 0,
        included_mismatch: 0,
        round_trips: 8,
        base_signatures: 8,
    }
}

#[test]
fn a_commit_cell_is_refused_for_each_of_its_faults() {
    let with = |change: fn(&mut envelope::CellFacts)| {
        let mut facts = clean_cell();
        change(&mut facts);
        envelope::check_cell(&facts, 8)
    };
    assert_eq!(with(|_| {}), Ok(()));
    assert_eq!(with(|f| f.failed = 1), Err(envelope::CellFault::CommitFailed));
    assert_eq!(with(|f| f.intents = Some(7)), Err(envelope::CellFault::IntentsMissing));
    assert_eq!(with(|f| f.failed_intents = 1), Err(envelope::CellFault::IntentFailed));
    assert_eq!(with(|f| f.alt_tables_used = 1), Err(envelope::CellFault::LookupTablesUsed));
    assert_eq!(with(|f| f.alt_base_txs = 1), Err(envelope::CellFault::LookupTablesWritten));
    assert_eq!(with(|f| f.backlog = 1), Err(envelope::CellFault::Backlog));
    assert_eq!(with(|f| f.included_mismatch = 1), Err(envelope::CellFault::WrongAccounts));
    assert_eq!(with(|f| f.round_trips = 7), Err(envelope::CellFault::ReceiptMissing));
    assert_eq!(with(|f| f.base_signatures = 7), Err(envelope::CellFault::TooFewBaseTxs));
}

#[test]
fn probes_are_judged_by_what_became_of_them() {
    let facts = envelope::WideProbeFacts {
        intent_failed: false,
        alt_tables_used: Some(1),
        alt_base_txs: 2,
    };
    let rejected = |code| envelope::SchedulingOutcome::Rejected(code);
    let confirmed = envelope::SchedulingOutcome::Confirmed;
    assert_eq!(
        envelope::judge_wide_probe(rejected(Some(5)), facts, 5),
        Ok(envelope::ProbeNote::RefusedAtScheduling)
    );
    assert_eq!(
        envelope::judge_wide_probe(rejected(None), facts, 5),
        Err(envelope::ProbeFault::UnexpectedCode)
    );
    assert_eq!(
        envelope::judge_wide_probe(confirmed, facts, 5),
        Ok(envelope::ProbeNote::DeliveredViaTables)
    );
    let receipt = |succeeded, code| envelope::ProbeReceipt::Fetched { succeeded, code };
    assert_eq!(
        envelope::judge_oversized_probe(confirmed, receipt(false, Some(6)), 0, 5, 6),
        Ok(envelope::ProbeNote::IntentFailed)
    );
    assert_eq!(
        envelope::judge_oversized_probe(confirmed, receipt(true, None), 0, 5, 6),
        Err(envelope::ProbeFault::Succeeded)
    );
    assert_eq!(
        envelope::judge_oversized_probe(confirmed, envelope::ProbeReceipt::Missing, 1, 5, 6),
        Ok(envelope::ProbeNote::NoReceipt)
    );
    assert_eq!(
        envelope::judge_oversized_probe(confirmed, envelope::ProbeReceipt::Missing, 0, 5, 6),
        Err(envelope::ProbeFault::NoTrace)
    );
    assert_eq!(envelope::judge_commit_limit(rejected(Some(9)), 9), Ok(()));
    assert_eq!(
        envelope::judge_commit_limit(confirmed, 9),
        Err(envelope::ProbeFault::Succeeded)
    );
}

#[test]
fn bursts_are_split_without_a_gap() {
    let spans = saturation::split_burst(100, 10, 4);
    let parts: Vec<(u64, u64)> = spans.iter().map(|s| (s.first_id, s.iterations)).collect();
    assert_eq!(parts, vec![(100, 3), (103, 3), (106, 2), (108, 2)]);
    assert_eq!(saturation::split_burst(0, 2, 4).len(), 2);
    assert_eq!(saturation::thread_concurrency(10, 4), 2);
    assert_eq!(saturation::thread_concurrency(3, 4), 1);
    assert_eq!(saturation::requests_for(1_001, 500), 3);
    assert_eq!(saturation::requests_for(7, 0), 7);
    assert_eq!(saturation::slot_of(6, 5), 0);
    let slots: Vec<usize> = (8..13).map(|id| saturation::slot_of(id, 5)).collect();
    assert_eq!(slots, vec![2, 3, 4, 0, 1]);
    assert_eq!(saturation::build_ixs(&pool(3), 2, 180, true).len(), 2);
    assert_eq!(
        saturation::check_workers(false, 3, 4),
        Err(saturation::WorkerFault::Silent)
    );
    assert_eq!(
        saturation::check_workers(true, 4, 4),
        Err(saturation::WorkerFault::Panicked)
    );
    assert_eq!(saturation::check_workers(false, 4, 4), Ok(()));
}

#[test]
fn compute_units_are_read_from_the_log() {
    let line = b"Program abc consumed 1234 of 200000 compute units";
    assert_eq!(saturation::line_cus(line), Some(&b"1234"[..]));
    let line_of = |cus: &str| format!("Program abc consumed {cus} of 9 compute units").into_bytes();
    for cus in ["1e3", "0.5", "inf", "18446744073709551616"] {
        assert_eq!(saturation::line_cus(&line_of(cus)), Some(cus.as_bytes()));
    }
    assert_eq!(saturation::line_cus(b"Program abc consumed 7 of 1 units"), None);
    assert_eq!(saturation::line_cus(b"Program abc consumed x of 1 compute units"), None);
    assert_eq!(saturation::line_cus(b"Program abc success"), None);
    let logs = vec![b"Program abc invoke [1]".to_vec(), line.to_vec()];
    assert_eq!(saturation::consumed_cus(&logs), Some(&b"1234"[..]));
    let logs = vec![line_of("1,5"), line_of("2.5e-1"), line.to_vec()];
    assert_eq!(saturation::consumed_cus(&logs), Some(&b"2.5e-1"[..]));
    assert_eq!(saturation::consumed_cus(&[line_of("none")]), None);
    let mut data = vec![0u8; 72];
    data[40..72].copy_from_slice(&hash_chain(redsuite::scenarios::conflict_ordering::HASH_INIT, 3));
    assert!(saturation::holds_heavy_chain(&data, 3));
    assert!(!saturation::holds_heavy_chain(&data, 4));
    let samples = saturation::busy_samples(&[1, 5, 2]);
    assert_eq!((samples.sum, samples.max, samples.count), (8, 5, 3));
}

#[test]
fn floating_point_numbers_are_told_by_their_text() {
    let fronts = ["", "+", "-", "+-", " "];
    let middles = [
        "", "0", "12", ".", "1.", ".5", "1.5", "1..5", "1.5.", "1_0", "inf", "INF", "Infinity",
        "infinit", "nan", "NaN", "nano", "x", "18446744073709551616", "e", "0x1", "1f",
    ];
    let backs = ["", "e", "E", "e5", "E5", "e+5", "e-400", "e400", "e+", "e5.", "e1e1", " ", "\u{e9}"];
    let mut told = [0usize; 2];
    for front in fronts {
        for middle in middles {
            for back in backs {
                let text = format!("{front}{middle}{back}");
                let number = text.parse::<f64>().is_ok();
                assert_eq!(reads_as_float(text.as_bytes()), number, "{text:?}");
                told[usize::from(number)] += 1;
            }
        }
    }
    assert!(told[0] > 0 && told[1] > 0);
}

#[test]
fn a_saturation_cell_is_refused_for_each_of_its_faults() {
    let facts = saturation::CellFacts {
        failed: 0,
        dropped: Some(0),
        execution_failed: None,
        probe_captured: true,
        probe_failed: false,
        cus_named: true,
    };
    let with = |change: fn(&mut saturation::CellFacts)| {
        let mut changed = facts;
        change(&mut changed);
        saturation::check_cell(&changed)
    };
    assert_eq!(with(|_| {}), Ok(()));
    assert_eq!(with(|f| f.failed = 1), Err(saturation::CellFault::DeliveryFailed));
    assert_eq!(with(|f| f.dropped = Some(1)), Err(saturation::CellFault::Dropped));
    assert_eq!(
        with(|f| f.execution_failed = Some(1)),
        Err(saturation::CellFault::ExecutionFailed)
    );
    assert_eq!(with(|f| f.probe_captured = false), Err(saturation::CellFault::NoProbe));
    assert_eq!(with(|f| f.probe_failed = true), Err(saturation::CellFault::ProbeFailed));
    assert_eq!(with(|f| f.cus_named = false), Err(saturation::CellFault::NoComputeUnits));
}

#[test]
fn churn_has_to_stay_in_lockstep() {
    let profile = clone_lru_churn::profile(Tier::Lite).unwrap();
    let cells = clone_lru_churn::cells(&profile);
    let labels: Vec<&str> = cells.iter().map(|c| c.name.as_str()).collect();
    assert_eq!(labels, vec!["closure", "cap360", "cap200", "cap50"]);
    assert!(cells[0].closure && !cells[1].closure);
    assert!(clone_lru_churn::settled(Some(1), Some(1), None, None));
    assert!(!clone_lru_churn::settled(Some(1), Some(2), None, None));
    assert!(clone_lru_churn::lockstep(100, 100));
    assert!(!clone_lru_churn::lockstep(101, 100));
    assert!(!clone_lru_churn::lockstep(99, 100));
    let cell = |delivered, failed, evictions, fetched| clone_lru_churn::CellOutcome {
        delivered,
        failed,
        p50_us: 10,
        evictions,
        fetches_found: fetched,
    };
    let closure = cell(5, 0, 0, None);
    assert_eq!(clone_lru_churn::check_cells(&[closure, cell(5, 0, 9, Some(9))]), Ok(false));
    assert_eq!(
        clone_lru_churn::check_cells(&[cell(5, 1, 0, None)]),
        Err(clone_lru_churn::ChurnFault::ClosureFailed)
    );
    assert_eq!(
        clone_lru_churn::check_cells(&[cell(5, 0, 1, None)]),
        Err(clone_lru_churn::ChurnFault::ClosureEvicted)
    );
    assert_eq!(
        clone_lru_churn::check_cells(&[closure, cell(0, 0, 1, None)]),
        Err(clone_lru_churn::ChurnFault::NothingDelivered { cell: 1 })
    );
    assert_eq!(
        clone_lru_churn::check_cells(&[closure, cell(1, 0, 0, None)]),
        Err(clone_lru_churn::ChurnFault::NoEvictions { cell: 1 })
    );
    assert_eq!(
        clone_lru_churn::check_cells(&[closure, cell(5, 0, 100, Some(115))]),
        Err(clone_lru_churn::ChurnFault::LeftLockstep { cell: 1 })
    );
    assert_eq!(
        clone_lru_churn::check_cells(&[closure, cell(1, 0, 10, Some(90))]),
        Err(clone_lru_churn::ChurnFault::LeftLockstep { cell: 1 })
    );
    let seed: u64 = 12;
    let mut x = seed.wrapping_mul(0x9E37_79B9_7F4A_7C15) | 1;
    x ^= x << 13;
    x ^= x >> 7;
    x ^= x << 17;
    let picked = clone_lru_churn::pick_account(&pool(100), seed);
    assert_eq!(picked.bytes[0] as u64, x % 100);
}

#[test]
fn boundaries_are_told_from_normal_blocks() {
    let mut watch = boundary::SlotWatch::new(4);
    for (slot, at) in [(3u64, 0u64), (4, 50), (5, 170), (7, 300), (8, 355)] {
        watch.notice(slot, at);
    }
    assert_eq!(boundary::durations_of(&watch.intervals, boundary::Kind::Boundary), vec![120]);
    assert_eq!(
        boundary::durations_of(&watch.intervals, boundary::Kind::Normal),
        vec![50, 55]
    );
    assert_eq!(boundary::sort_durations(&[3, 1, 2]), vec![1, 2, 3]);
    let samples: Vec<u32> = (1..=100).collect();
    let timings = boundary::timings(&samples);
    assert_eq!((timings.p50, timings.p95, timings.p99, timings.max), (51, 95, 99, 100));
    assert_eq!((timings.count, timings.sum), (100, 5_050));
    assert!(boundary::fill_recorded(Some(12), Some(2), 10));
    assert!(!boundary::fill_recorded(Some(11), Some(2), 10));
    let mut health = boundary::Health::new();
    health.observe(Some(3), None, Some(1));
    health.observe(Some(2), Some(4), None);
    assert_eq!((health.blocked_peak, health.busy_peak, health.pending_peak), (3, 4, 1));
    assert_eq!(boundary::check_boundaries(0, 8, 1, 8), Ok(()));
    assert_eq!(
        boundary::check_boundaries(1, 8, 1, 8),
        Err(boundary::BoundaryFault::Failed)
    );
    assert_eq!(
        boundary::check_boundaries(0, 7, 1, 8),
        Err(boundary::BoundaryFault::TooFewBoundaries { observed: 7 })
    );
    assert_eq!(
        boundary::check_boundaries(0, 8, 0, 8),
        Err(boundary::BoundaryFault::NoNormalBlocks)
    );
    assert_eq!(boundary::storage_growth(7, 5), 0);
}

#[test]
fn storage_is_sustained_at_both_cadences() {
    let profile = sustain::profile(Tier::Lite).unwrap();
    assert_eq!(sustain::window_starts(&profile), [2_000, 4_000]);
    assert_eq!(sustain::Cadence::Production.superblock_slots(&profile), 72_000);
    assert_eq!(sustain::Cadence::FrequentSnapshot.superblock_slots(&profile), 150);
    let cell = |growth, failed, p50| sustain::CellOutcome {
        fill_growth_bytes: growth,
        failed,
        p50_us: p50,
    };
    assert_eq!(
        sustain::check_cells(&[cell(1, [0, 0], [10, 15]), cell(1, [0, 0], [10, 16])]),
        Ok(vec![false, true])
    );
    assert_eq!(
        sustain::check_cells(&[cell(0, [0, 0], [1, 1])]),
        Err(sustain::SustainFault::NoGrowth { cell: 0 })
    );
    assert_eq!(
        sustain::check_cells(&[cell(1, [0, 2], [1, 1])]),
        Err(sustain::SustainFault::Failed { cell: 0, window: 1 })
    );
}

#[test]
fn the_client_is_told_from_the_validator() {
    let verdict = selftest::judge(500, 100, true);
    assert!(verdict.artifact_detected && !verdict.missing && !verdict.unexpected);
    let verdict = selftest::judge(499, 100, true);
    assert!(!verdict.artifact_detected && verdict.missing);
    let verdict = selftest::judge(5, 0, false);
    assert!(verdict.artifact_detected && verdict.unexpected);
    let profile = selftest::profile(Tier::Full).unwrap();
    let cells = selftest::cells(&profile);
    assert_eq!((cells[0].threads, cells[1].threads), (1, 8));
    assert_eq!((cells[0].id_offset, cells[1].id_offset), (2_000, 27_000));
}

#[test]
fn sampled_accounts_differ() {
    let accounts = stall::sample_accounts(&pool(50), 3, 4).expect("enough accounts");
    let mut places = names(&accounts);
    places.sort();
    places.dedup();
    assert_eq!(places.len(), 4);
    let ix = stall::request(&pool(50), 3).expect("enough accounts");
    assert_eq!(
        names(&ix.accounts.iter().map(|m| m.pubkey).collect::<Vec<_>>()),
        names(&accounts)
    );
    let cell = |delivered, failed, evictions| stall::CellOutcome {
        delivered,
        failed,
        p50_us: 1_000_000,
        evictions,
    };
    assert_eq!(stall::check_cells(&cell(1, 0, 0), &cell(1, 0, 1)), Ok(true));
    assert_eq!(
        stall::check_cells(&cell(1, 1, 0), &cell(1, 0, 1)),
        Err(stall::StallFault::HealthyFailed)
    );
    assert_eq!(
        stall::check_cells(&cell(1, 0, 2), &cell(1, 0, 1)),
        Err(stall::StallFault::HealthyEvicted)
    );
    assert_eq!(
        stall::check_cells(&cell(1, 0, 0), &cell(0, 0, 1)),
        Err(stall::StallFault::NothingDelivered)
    );
    assert_eq!(
        stall::check_cells(&cell(1, 0, 0), &cell(1, 0, 0)),
        Err(stall::StallFault::NoEvictions)
    );
}

#[test]
fn commits_drain_or_are_given_up() {
    let sets = ceiling::fresh_sets(&pool(17));
    assert_eq!(sets.len(), 2);
    assert_eq!(names(&sets[1]), (8..16).collect::<Vec<u8>>());
    let contrast = ceiling::contrast_sets(&pool(240), 31);
    assert_eq!(names(&contrast[30]), names(&contrast[0]));
    let ix = ceiling::commit_request(&sets, key(99), 100, 2);
    assert_eq!(ix.data, Instruction::CommitAccounts { id: 102 }.encode());
    assert_eq!(ix.accounts.len(), 11);
    assert!(ceiling::is_quiet(None, Some(3), Some(3)));
    assert!(!ceiling::is_quiet(Some(1), Some(3), Some(3)));
    assert_eq!(
        ceiling::drain_step(10, 5, Some(15), false),
        ceiling::Drain::Full { drained: 5 }
    );
    assert_eq!(
        ceiling::drain_step(10, 5, Some(13), true),
        ceiling::Drain::Partial { drained: 3 }
    );
    assert_eq!(ceiling::drain_step(10, 5, None, false), ceiling::Drain::Waiting);
    assert_eq!(
        ceiling::check_drain(0, None, None),
        Err(ceiling::DrainFault::NothingDrained)
    );
    assert_eq!(
        ceiling::check_drain(1, Some(2), None),
        Err(ceiling::DrainFault::FailedIntents { failed: 2 })
    );
    assert_eq!(
        ceiling::check_drain(1, None, Some(0)),
        Err(ceiling::DrainFault::NoLookupTables)
    );
    assert_eq!(ceiling::check_drain(1, None, Some(1)), Ok(()));
    // Eight in ten seconds is past the band, fewer are a convoy.
    assert_eq!(
        ceiling::deep_remarks(8, 10_000_000_000, 0, 0, false),
        ceiling::DeepRemarks::PastTheBand
    );
    assert_eq!(
        ceiling::deep_remarks(7, 10_000_000_000, 51, 40, true),
        ceiling::DeepRemarks::Convoy {
            not_pressured: false,
            unsaturated: false,
            not_overloaded: false
        }
    );
}

#[test]
fn the_last_write_of_a_heavy_cell_is_known() {
    let profile = high_cu::profile(Tier::Full).unwrap();
    let cells = high_cu::cells(&profile);
    assert_eq!((cells[0].offset, cells[1].offset), (0, 22_000));
    assert_eq!(high_cu::last_turn(1, 10, 4, 1), Some(10));
    assert_eq!(high_cu::last_turn(9, 10, 4, 3), None);
    assert!(high_cu::all_accounted(7, 3, 10));
    let ix = high_cu::request(&pool(4), 4, 2, 20);
    assert_eq!(ix.accounts[0].pubkey.bytes[0], 1);
    let mut data = vec![0u8; 72];
    data[32..40].copy_from_slice(&6u64.to_le_bytes());
    data[40..72].copy_from_slice(&hash_chain(
        redsuite::scenarios::conflict_ordering::HASH_INIT,
        high_cu::HEAVY_ITERS,
    ));
    assert!(high_cu::holds_last_write(&data, 6));
    assert!(!high_cu::holds_last_write(&data, 7));
}

#[test]
fn the_cliff_is_the_first_cell_past_it() {
    assert_eq!(cliff::hot_sets(Tier::Full), Some(vec![32, 16, 8, 4]));
    assert_eq!(cliff::pool_size(&[16, 32, 4]), Some(32));
    assert_eq!(cliff::pool_size(&[]), None);
    let cell = |hot, p50_us| cliff::CellResult { hot, p50_us };
    assert_eq!(cliff::cliff(&[cell(32, 10), cell(16, 50), cell(8, 51)]), Some(8));
    assert_eq!(cliff::cliff(&[cell(32, 10)]), None);
    assert!(cliff::baseline_healthy(&cell(32, 15_000)));
    assert!(cliff::is_not_flat(&cell(16, 30_001), &cell(32, 10_000)));
    assert!(!cliff::is_not_flat(&cell(8, 30_001), &cell(32, 10_000)));
    let profile = cliff::profile(Tier::Lite).unwrap();
    assert_eq!(cliff::cell_offsets(&profile, 1), (11_000, 12_000));
}

#[test]
fn cold_accounts_are_slower_than_warm_ones() {
    let pools = cold_hydration_tail::split_pools(&pool(8), 3);
    assert_eq!(names(&pools.cold), vec![0, 1, 2]);
    assert_eq!(pools.prewarm.bytes[0], 3);
    assert_eq!(names(&pools.burst_cold), vec![4, 5]);
    assert_eq!(names(&pools.burst_warm), vec![6, 7]);
    assert!(cold_hydration_tail::is_hydrated(Some(2_048)));
    assert!(!cold_hydration_tail::is_hydrated(None));
    assert_eq!(cold_hydration_tail::check_touches(1_000, 100, 10), Ok(()));
    assert_eq!(
        cold_hydration_tail::check_touches(999, 100, 10),
        Err(cold_hydration_tail::TouchFault::NoCollapse)
    );
    assert_eq!(
        cold_hydration_tail::check_touches(1_000, 100, 100_000),
        Err(cold_hydration_tail::TouchFault::SlowWarm)
    );
    let outcome = |failed, slow| cold_hydration_tail::BurstOutcome { failed, slow };
    assert_eq!(
        cold_hydration_tail::check_bursts(&outcome(0, 1), &outcome(0, 2)),
        Ok(true)
    );
    assert_eq!(
        cold_hydration_tail::check_bursts(&outcome(1, 1), &outcome(0, 2)),
        Err(cold_hydration_tail::BurstFault::ColdFailed)
    );
    assert_eq!(
        cold_hydration_tail::check_bursts(&outcome(0, 1), &outcome(1, 2)),
        Err(cold_hydration_tail::BurstFault::WarmFailed)
    );
    assert!(!cold_hydration_tail::is_slow(100_000_000));
    assert!(cold_hydration_tail::is_slow(100_000_001));
}

#[test]
fn connections_are_held_and_given_back() {
    assert_eq!(conns::batches(130), vec![64, 64, 2]);
    assert!(conns::batches(0).is_empty());
    assert!(conns::settled(10, 10, false));
    assert!(!conns::settled(11, 10, false));
    assert!(conns::settled(11, 10, true));
    let rung = |fds_idle, fds_after_close, unsubscribe_failures| conns::RungOutcome {
        connections: 100,
        fds_idle,
        fds_after_close,
        unsubscribe_failures,
    };
    assert_eq!(conns::check_rung(&rung(110, 10, 0), 10), Ok(()));
    assert_eq!(conns::check_rung(&rung(101, 10, 0), 10), Err(conns::RungFault::NotHeld));
    assert_eq!(
        conns::check_rung(&rung(175, 10, 0), 10),
        Err(conns::RungFault::TooManyDescriptors)
    );
    assert_eq!(
        conns::check_rung(&rung(110, 10, 1), 10),
        Err(conns::RungFault::UnsubscribeFailed)
    );
    assert_eq!(conns::check_rung(&rung(110, 11, 0), 10), Err(conns::RungFault::Leaked));
    assert_eq!(conns::check_churn(0, 10, 10, 900, 900), Ok(()));
    assert_eq!(conns::check_churn(0, 9, 10, 899, 900), Ok(()));
    assert_eq!(
        conns::check_churn(1, 10, 10, 900, 900),
        Err(conns::ChurnFault::Failed)
    );
    assert_eq!(
        conns::check_churn(0, 11, 10, 900, 900),
        Err(conns::ChurnFault::Leaked)
    );
    assert_eq!(
        conns::check_churn(0, 10, 10, 901, 900),
        Err(conns::ChurnFault::LeakedMemory)
    );
}

#[test]
fn a_blast_is_accepted_whole() {
    assert_eq!(
        blast::check_blast(0, 999, 1_000_000_000, 10, Some(10), Some(0)),
        Ok(true)
    );
    assert_eq!(blast::check_blast(0, 1_000, 1_000_000_000, 10, None, None), Ok(false));
    assert_eq!(
        blast::check_blast(1, 1, 1, 1, None, None),
        Err(blast::BlastFault::Failed)
    );
    assert_eq!(
        blast::check_blast(0, 1, 1, 10, Some(9), None),
        Err(blast::BlastFault::NotProcessed)
    );
    assert_eq!(
        blast::check_blast(0, 1, 1, 10, None, Some(1)),
        Err(blast::BlastFault::FailedOnValidator)
    );
    assert_eq!(blast::request(&pool(4), 6).accounts[0].pubkey.bytes[0], 2);
}

#[test]
fn the_last_writes_of_a_simple_load_are_known() {
    assert_eq!(
        (0..4).map(simple_load::last_id).collect::<Vec<u64>>(),
        vec![37, 38, 39, 40]
    );
    assert_eq!(simple_load::target_of(&pool(4), 6).bytes[0], 1);
    let mut data = vec![0u8; 48];
    assert!(simple_load::is_untouched(&data));
    data[32..40].copy_from_slice(&37u64.to_le_bytes());
    assert!(simple_load::holds_id(&data, 37));
    assert!(!simple_load::is_untouched(&data));
    assert!(simple_load::is_delegated(&Pubkey::new(
        redsuite::ids::DELEGATION_PROGRAM_ID
    )));
}

#[test]
fn a_restart_keeps_what_was_confirmed() {
    let record = |id, lane, outcome| restart::Record { id, lane, outcome };
    let records = vec![
        record(1, 0, restart::Outcome::Confirmed),
        record(2, 1, restart::Outcome::Failed),
        record(3, 0, restart::Outcome::Confirmed),
        record(4, 1, restart::Outcome::Dropped),
    ];
    assert_eq!(restart::expected_ids(&records, 2), vec![Some(3), None]);
    let tally = restart::Tally::of(&records);
    assert_eq!((tally.confirmed, tally.failed, tally.dropped), (2, 1, 1));
    assert_eq!(restart::sampled(&records), vec![0, 2]);
    let many = vec![record(7, 0, restart::Outcome::Confirmed); 9_001];
    assert_eq!(restart::sampled(&many), (0..9_001).collect::<Vec<usize>>());
    assert!(restart::still_confirmed(Some(true)));
    assert!(!restart::still_confirmed(Some(false)));
    assert!(!restart::still_confirmed(None));
    let mut data = vec![0u8; 40];
    data[32..40].copy_from_slice(&3u64.to_le_bytes());
    assert_eq!(restart::check_account(&data, 3), Ok(()));
    assert_eq!(
        restart::check_account(&data, 4),
        Err(restart::StateFault::WrongId { found: 3 })
    );
    assert_eq!(restart::check_account(&data[..39], 3), Err(restart::StateFault::TooShort));
    assert_eq!(restart::resolve(None, true), Some(restart::Outcome::Dropped));
    assert_eq!(restart::resolve(Some(false), false), Some(restart::Outcome::Failed));
    assert_eq!(restart::resolve(None, false), None);
    assert!(restart::needs_resolving(restart::Outcome::Rejected));
    assert_eq!(
        restart::await_status(None, true),
        Some(restart::Outcome::Unresolved)
    );
}

#[test]
fn an_exit_is_judged_by_how_it_was_asked_for() {
    let timing = restart::RestartTiming {
        needed_sigkill: false,
        exit_code: Some(0),
        exit_signal: None,
        slot_before: Some(100),
        slot_after: Some(50),
    };
    let with = |mode, change: fn(&mut restart::RestartTiming)| {
        let mut changed = timing;
        change(&mut changed);
        restart::check_exit(mode, &changed)
    };
    let graceful = restart::Mode::Graceful;
    assert_eq!(with(graceful, |_| {}), Ok(()));
    assert_eq!(
        with(graceful, |t| t.needed_sigkill = true),
        Err(restart::ExitFault::NotGraceful)
    );
    assert_eq!(
        with(graceful, |t| t.exit_code = Some(1)),
        Err(restart::ExitFault::NotClean)
    );
    assert_eq!(
        with(restart::Mode::Sigkill, |_| {}),
        Err(restart::ExitFault::NotKilled)
    );
    assert_eq!(
        with(graceful, |t| t.slot_after = Some(49)),
        Err(restart::ExitFault::SlotCollapsed)
    );
    let tally = |confirmed, failed, unresolved| restart::Tally {
        confirmed,
        failed,
        unresolved,
        rejected: 0,
        dropped: 0,
    };
    assert_eq!(restart::check_fill(0, &tally(1, 0, 0)), Err(restart::LoadFault::NoGrowth));
    assert_eq!(
        restart::check_fill(1, &tally(0, 0, 0)),
        Err(restart::LoadFault::NothingConfirmed)
    );
    assert_eq!(
        restart::check_resolved(&tally(1, 0, 1)),
        Err(restart::LoadFault::StillOpen)
    );
    assert_eq!(
        restart::check_resume(&tally(0, 0, 0)),
        Err(restart::LoadFault::NothingResumed)
    );
    assert_eq!(
        restart::check_resume(&tally(1, 1, 0)),
        Err(restart::LoadFault::ResumeNotClean)
    );
    assert_eq!(restart::check_resume(&tally(1, 0, 0)), Ok(()));
}

#[test]
fn restarts_are_timed_from_the_log() {
    assert!(restart::Mode::Sigkill.hard_kill());
    assert!(!restart::Mode::Graceful.hard_kill());
    let anchor = restart::LEDGER_TIMING_ANCHOR;
    let mut log = b"duration_ms=7 boot ".to_vec();
    assert_eq!(restart::replay_ran(&log), None);
    assert_eq!(restart::timing_ms(&log, &anchor), None);
    log.extend(anchor);
    assert_eq!(restart::timing_ms(&log, &anchor), None);
    log.extend(b" duration_ms=");
    assert_eq!(restart::timing_ms(&log, &anchor), None);
    log.extend(b" 1234ms duration_ms=9");
    assert_eq!(restart::timing_ms(&log, &anchor), Some(b"1234".to_vec()));
    assert_eq!(restart::replay_ran(&log), Some(false));
    log.extend(restart::REPLAY_STEP);
    assert_eq!(restart::replay_ran(&log), Some(true));
}

#[test]
fn cells_have_their_own_load() {
    let profile = saturation::profile(Tier::Soak).unwrap();
    assert_eq!(profile.cell_iterations(saturation::CellKind::Light), 1_000_000);
    assert_eq!(profile.cell_iterations(saturation::CellKind::Heavy), 100_000);
    assert_eq!(
        profile.cell_iters(saturation::CellKind::Light),
        saturation::LIGHT_ITERS
    );
    assert_eq!(profile.cell_iters(saturation::CellKind::Heavy), 180);
    assert_eq!(
        profile.cell_concurrency(saturation::CellKind::Heavy),
        profile.heavy_concurrency
    );
    assert_eq!(
        profile.cell_concurrency(saturation::CellKind::Light),
        profile.concurrency
    );
}

#[test]
fn cold_accounts_are_read_one_by_one() {
    let profile = cold_hydration_tail::profile(Tier::Lite).unwrap();
    assert_eq!(
        cold_hydration_tail::account_count(&profile),
        profile.cold_accounts + profile.burst_accounts + 1
    );
    let ix = cold_hydration_tail::burst_request(&pool(3), 5);
    assert_eq!(ix.accounts.len(), 1);
    assert_eq!(ix.accounts[0].pubkey.bytes, [1; 32]);
    assert!(!ix.accounts[0].is_writable && !ix.accounts[0].is_signer);
    assert_eq!(ix.data, Instruction::ReadAccountsData { id: 5 }.encode());
    let first = cold_hydration_tail::prewarm_request(key(9));
    assert_eq!(first.accounts[0].pubkey.bytes, [9; 32]);
    assert_eq!(first.data, Instruction::ReadAccountsData { id: 0 }.encode());
}
