use std::collections::HashSet;

use redsuite::chain::Pubkey;
use redsuite::scenarios::mixed_sustained_load::{
    build_ixs, check_counts, check_lane, check_profile, gcd, id_for, lane_of, lane_spans,
    last_id_for_lane, mode_count, mode_for, pipeline_idle, profile, CountFault, LaneFault, LaneSpan,
    MixedSustainedLoad, Mode, ProfileFault, MIX_PERIOD,
};
use redsuite::suite::Tier;

#[test]
fn the_mix_holds_the_qualified_split() {
    let total = MIX_PERIOD * 1_000;
    assert_eq!(mode_count(Mode::HighCu, total), total / 10);
    assert_eq!(mode_count(Mode::SimpleWrite, total), total * 45 / 100);
    assert_eq!(mode_count(Mode::ReadWrite, total), total * 45 / 100);
}

#[test]
fn per_mode_counts_reconcile_with_the_total() {
    for total in [1, 7, 20, 21, 63_000, 40_000_000] {
        let counted: u64 = Mode::all().into_iter().map(|m| mode_count(m, total)).sum();
        assert_eq!(counted, total, "total {total}");
        let walked = (1..=total.min(10_000))
            .filter(|id| mode_for(*id) == Mode::HighCu)
            .count() as u64;
        assert_eq!(walked, mode_count(Mode::HighCu, total.min(10_000)));
    }
}

#[test]
fn every_lane_sees_every_mode() {
    for tier in [Tier::Lite, Tier::Full, Tier::Soak] {
        let lanes = profile(tier).expect("the tier has a profile").lanes;
        assert_eq!(gcd(lanes, MIX_PERIOD), 1, "lanes {lanes}");
        let modes: HashSet<Mode> = (0..MIX_PERIOD)
            .map(|round| mode_for(id_for(round, 0, lanes)))
            .collect();
        assert_eq!(modes.len(), 3, "lanes {lanes}");
    }
}

#[test]
fn lane_spans_partition_the_workload_exactly() {
    for (lanes, threads, total) in [
        (63u64, 1usize, 63_000u64),
        (511, 4, 1_022_000),
        (2_047, 8, 40_000_000),
        (63, 3, 100),
    ] {
        let spans = lane_spans(lanes, threads);
        assert_eq!(
            spans.iter().map(|span| span.len).sum::<u64>(),
            lanes,
            "spans must cover every lane"
        );
        let jobs: u64 = spans.iter().map(|span| span.jobs(lanes, total)).sum();
        assert_eq!(jobs, total, "lanes {lanes} threads {threads}");

        let mut seen = vec![false; total as usize];
        for span in &spans {
            for job in 0..span.jobs(lanes, total) {
                let id = span.job_id(job, lanes, total);
                assert!(id >= 1 && id <= total, "id {id} out of range");
                assert!(!seen[(id - 1) as usize], "id {id} driven twice");
                seen[(id - 1) as usize] = true;
                assert!(
                    (span.lo..span.lo + span.len).contains(&lane_of(id, lanes)),
                    "id {id} left its span"
                );
            }
        }
        assert!(seen.into_iter().all(|hit| hit), "an id was never driven");
    }
}

#[test]
fn a_lanes_ids_ascend_with_its_jobs() {
    let (lanes, total) = (63u64, 1_000u64);
    let span = LaneSpan { lo: 0, len: lanes };
    let mut last = vec![0u64; lanes as usize];
    for job in 0..span.jobs(lanes, total) {
        let id = span.job_id(job, lanes, total);
        let lane = lane_of(id, lanes) as usize;
        assert!(id > last[lane], "lane {lane} went backwards at job {job}");
        last[lane] = id;
    }
    for (lane, seen) in last.iter().enumerate() {
        assert_eq!(
            Some(*seen),
            last_id_for_lane(lane as u64, lanes, total),
            "lane {lane}"
        );
    }
}

#[test]
fn every_tier_has_a_sound_profile() {
    assert_eq!(MixedSustainedLoad.name(), "redline/mixed_sustained_load");
    for tier in [Tier::Lite, Tier::Full, Tier::Soak] {
        let mut found = profile(tier).expect("the tier has a profile");
        assert!(check_profile(&found).is_ok());
        assert!(found.concurrency_per_thread() >= 1);
        assert!(found.rate_per_thread() >= 1);
        found.lanes = 40;
        assert_eq!(check_profile(&found), Err(ProfileFault::NotCoprime));
    }
}

#[test]
fn one_instruction_carries_each_id() {
    let pool: Vec<Pubkey> = (0..7u8).map(|n| Pubkey::new([n; 32])).collect();
    for id in 1..=MIX_PERIOD {
        let ixs = build_ixs(id, &pool, 3, 20);
        assert!(!ixs.is_empty());
        let written = &ixs[ixs.len() - 1];
        assert!(written.accounts.iter().any(|m| m.pubkey.bytes
            == pool[(lane_of(id, 7)) as usize].bytes));
    }
}

#[test]
fn a_lane_is_judged_by_its_last_id() {
    let id = (1..=MIX_PERIOD)
        .find(|id| mode_for(*id) == Mode::SimpleWrite)
        .expect("every mode occurs");
    let mut data = vec![0u8; 256];
    for at in (32..256).step_by(8) {
        data[at..at + 8].copy_from_slice(&id.to_le_bytes());
    }
    assert_eq!(check_lane(&data, id, 20, 3), Ok(()));
    assert_eq!(check_lane(&data, id + MIX_PERIOD, 20, 3), Err(LaneFault::WrongId));
    data[100] ^= 1;
    assert_eq!(check_lane(&data, id, 20, 3), Err(LaneFault::NotFilled));
    let heavy = (1..=MIX_PERIOD)
        .find(|id| mode_for(*id) == Mode::HighCu)
        .expect("every mode occurs");
    let mut data = vec![0u8; 256];
    data[32..40].copy_from_slice(&heavy.to_le_bytes());
    assert_eq!(check_lane(&data, heavy, 20, 3), Err(LaneFault::WrongHash));
    let reads = (1..=MIX_PERIOD)
        .find(|id| mode_for(*id) == Mode::ReadWrite)
        .expect("every mode occurs");
    let mut data = vec![0u8; 256];
    data[32..40].copy_from_slice(&reads.to_le_bytes());
    assert_eq!(check_lane(&data, reads, 20, 3), Err(LaneFault::WrongSum));
    data[40..48].copy_from_slice(&(3u64 * 256).to_le_bytes());
    assert_eq!(check_lane(&data, reads, 20, 3), Ok(()));
}

#[test]
fn counts_have_to_agree() {
    assert_eq!(check_counts(0, 5, 5, Some(7), Some(5)), Ok(2));
    assert_eq!(check_counts(0, 5, 5, Some(5), None), Ok(0));
    assert_eq!(check_counts(1, 5, 5, Some(5), Some(5)), Err(CountFault::Failed));
    assert_eq!(check_counts(0, 4, 5, Some(5), Some(5)), Err(CountFault::NotDelivered));
    assert_eq!(check_counts(0, 5, 5, Some(4), Some(5)), Err(CountFault::NotExecuted));
    assert_eq!(check_counts(0, 5, 5, Some(5), Some(6)), Err(CountFault::NotAccepted));
    assert!(pipeline_idle(Some(0), Some(0), Some(0)));
    assert!(pipeline_idle(Some(0), None, Some(0)));
    assert!(!pipeline_idle(Some(0), Some(1), Some(0)));
}

#[test]
fn any_whole_mix_of_rounds_holds_the_split_on_every_lane() {
    for lanes in [1u64, 3, 63, 511] {
        for (lane, from) in [(0, 0), (lanes - 1, 7), (lanes / 2, 1_000)] {
            let count = |mode: Mode| {
                (from..from + MIX_PERIOD)
                    .filter(|round| mode_for(id_for(*round, lane, lanes)) == mode)
                    .count()
            };
            assert_eq!(count(Mode::HighCu), 2);
            assert_eq!(count(Mode::SimpleWrite), 9);
            assert_eq!(count(Mode::ReadWrite), 9);
        }
    }
}

#[test]
fn an_empty_span_has_no_jobs() {
    assert_eq!(LaneSpan { lo: 0, len: 0 }.jobs(63, 1_000), 0);
    assert_eq!(LaneSpan { lo: 63, len: 0 }.jobs(63, u64::MAX), 0);
    assert_eq!(LaneSpan { lo: 2, len: 3 }.jobs(5, 13), 7);
}

#[test]
fn the_ids_of_a_span_ascend_over_all_its_lanes() {
    for span in [LaneSpan { lo: 0, len: 63 }, LaneSpan { lo: 5, len: 7 }] {
        let ids: Vec<u64> = (0..span.jobs(63, 1_000))
            .map(|job| span.job_id(job, 63, 1_000))
            .collect();
        assert!(ids.windows(2).all(|pair| pair[0] < pair[1]));
    }
}
