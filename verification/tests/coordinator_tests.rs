use essentia_mining::config::MiningConfig;
use essentia_mining::coordinator::{
    check_nonce, nonce_partition, plan_start, worker_step, MiningCoordinator,
    NonceRange, WorkAssignment, WorkerProgress, WorkerReport,
};
use essentia_mining::errors::ErrorKind;
use essentia_mining::hardware::{MiningHardwareProfile, GIB};
use essentia_mining::sha256::double_sha256;
use essentia_mining::types::{BlockHeader, HashTarget, MiningJob};
use std::sync::atomic::{AtomicBool, AtomicU64, Ordering};

fn job() -> MiningJob {
    MiningJob {
        job_id: "job".to_string(),
        header: BlockHeader {
            version: 2,
            prev_block_hash: [7; 32],
            merkle_root: [9; 32],
            timestamp: 1_700_000_000,
            bits: 0x207f_ffff,
            nonce: 0,
        },
        target: HashTarget::from_bits(0x207f_ffff),
        extranonce1: Vec::new(),
        extranonce2_size: 4,
    }
}

#[test]
fn coordinator_test_coordinator_creation() {
    let config = MiningConfig::default();
    let coordinator = MiningCoordinator::new(config);
    assert!(coordinator.is_ok());
}

#[test]
fn coordinator_test_coordinator_not_running_initially() {
    let config = MiningConfig::default();
    let coordinator = MiningCoordinator::new(config).unwrap();
    assert!(!coordinator.is_running());
}

#[test]
fn coordinator_test_stats_initial() {
    let config = MiningConfig::default();
    let coordinator = MiningCoordinator::new(config).unwrap();
    let stats = coordinator.stats();
    assert_eq!(stats.total_hashes, 0);
    assert_eq!(stats.shares_found, 0);
}

#[test]
fn test_coordinator_creation() {
    let config = MiningConfig::default();
    let coordinator = MiningCoordinator::new(config);
    assert!(coordinator.is_ok());
}

#[test]
fn test_coordinator_not_running_initially() {
    let config = MiningConfig::default();
    let coordinator = MiningCoordinator::new(config).expect("test assertion");
    assert!(!coordinator.is_running());
}

#[test]
fn test_stats_initial() {
    let config = MiningConfig::default();
    let coordinator = MiningCoordinator::new(config).expect("test assertion");
    let stats = coordinator.stats();
    assert_eq!(stats.total_hashes, 0);
    assert_eq!(stats.shares_found, 0);
}

#[test]
fn partition_for_four_workers() {
    let ranges = nonce_partition(4);
    assert_eq!(
        ranges,
        vec![
            NonceRange { start: 0, end: 0x3FFF_FFFE },
            NonceRange { start: 0x3FFF_FFFF, end: 0x7FFF_FFFD },
            NonceRange { start: 0x7FFF_FFFE, end: 0xBFFF_FFFC },
            NonceRange { start: 0xBFFF_FFFD, end: 0xFFFF_FFFF },
        ]
    );
}

#[test]
fn partitions_are_disjoint_and_cover_the_nonce_space() {
    for threads in [1u32, 2, 3, 4, 5, 7, 16, 33, 1000, 65_537] {
        let ranges = nonce_partition(threads);
        assert_eq!(ranges.len(), threads as usize);
        assert_eq!(ranges[0].start, 0);
        assert_eq!(ranges[ranges.len() - 1].end, u32::MAX);
        for i in 0..ranges.len() {
            assert!(ranges[i].start <= ranges[i].end);
            if i + 1 < ranges.len() {
                assert_eq!(ranges[i].end + 1, ranges[i + 1].start);
            }
        }
    }
}

#[test]
fn single_worker_gets_everything() {
    assert_eq!(nonce_partition(1), vec![NonceRange { start: 0, end: u32::MAX }]);
}

#[test]
fn start_plans_once_and_refuses_a_second_start() {
    let coordinator = MiningCoordinator::new(MiningConfig::default().with_thread_count(2)).unwrap();
    assert_eq!(coordinator.thread_count(), 2);
    let plan = coordinator.start(job()).unwrap();
    assert!(coordinator.is_running());
    assert_eq!(plan.len(), 2);
    assert_eq!(plan[0].range, NonceRange { start: 0, end: 0x7FFF_FFFE });
    assert_eq!(plan[1].range, NonceRange { start: 0x7FFF_FFFF, end: u32::MAX });
    assert_eq!(plan[0].header.version, 2);
    assert_eq!(plan[1].target.target, job().target.target);

    let again = coordinator.start(job()).unwrap_err();
    assert_eq!(again.kind(), ErrorKind::Coordinator);
    assert_eq!(again.message(), "Mining already running");

    coordinator.stop();
    assert!(!coordinator.is_running());
    coordinator.stop();
    assert!(!coordinator.is_running());
    assert!(coordinator.start(job()).is_ok());
}

#[test]
fn plan_start_decides_by_the_running_flag() {
    let e = plan_start(true, &job(), 3).unwrap_err();
    assert_eq!((e.kind(), e.message()), (ErrorKind::Coordinator, "Mining already running"));
    let plan = plan_start(false, &job(), 3).unwrap();
    assert_eq!(plan.len(), 3);
    assert_eq!(plan[2].range.end, u32::MAX);
}

#[test]
fn default_config_runs_one_worker_on_the_fallback_hardware() {
    let coordinator = MiningCoordinator::new(MiningConfig::default()).unwrap();
    assert_eq!(coordinator.thread_count(), 1);
    let all = MiningCoordinator::new(MiningConfig::default().with_max_cpu_usage(100)).unwrap();
    assert_eq!(all.thread_count(), 2);
}

#[test]
fn unsuitable_hardware_is_refused() {
    let weak = MiningHardwareProfile::from_probe(2, 8 * GIB);
    let e = MiningCoordinator::with_hardware(MiningConfig::default(), weak).err().unwrap();
    assert_eq!(e.kind(), ErrorKind::HardwareDetection);
    assert_eq!(e.message(), "Hardware does not meet minimum requirements for mining");
    let strong = MiningHardwareProfile::from_probe(16, 8 * GIB);
    let coordinator = MiningCoordinator::with_hardware(MiningConfig::default().with_max_cpu_usage(50), strong).unwrap();
    assert_eq!(coordinator.thread_count(), 4);
}

#[test]
fn check_nonce_hashes_the_header_with_that_nonce() {
    let job = job();
    for nonce in [0u32, 1, 77, u32::MAX] {
        let header = BlockHeader { nonce, ..job.header };
        let hash = double_sha256(&header.serialize());
        assert_eq!(check_nonce(job.header, &job.target, nonce), job.target.is_valid_hash(&hash));
    }
    let everything = HashTarget { target: [0xFF; 32] };
    let nothing = HashTarget { target: [0; 32] };
    assert!(check_nonce(job.header, &everything, 5));
    assert!(!check_nonce(job.header, &nothing, 5));
}

#[test]
fn worker_counts_hashes_and_shares() {
    let running = AtomicBool::new(true);
    let total = AtomicU64::new(0);
    let shares = AtomicU64::new(0);
    let job = job();
    let everything = HashTarget { target: [0xFF; 32] };
    let report = MiningCoordinator::mining_thread(&running, &total, &shares, job.header, everything, 10, 2514);
    assert_eq!(report.hashes, 2505);
    assert_eq!(report.shares, 2505);
    assert_eq!(total.load(Ordering::Relaxed), 2505);
    assert_eq!(shares.load(Ordering::Relaxed), 2505);

    let total = AtomicU64::new(0);
    let shares = AtomicU64::new(0);
    let report = MiningCoordinator::mining_thread(&running, &total, &shares, job.header, job.target, 0, 499);
    let expected = (0..500u32).filter(|n| check_nonce(job.header, &job.target, *n)).count() as u64;
    assert_eq!(report.hashes, 500);
    assert_eq!(report.shares, expected);
    assert_eq!(shares.load(Ordering::Relaxed), expected);
    assert!(expected > 0 && expected < 500);
}

#[test]
fn worker_reaches_the_last_nonce_and_stops() {
    let running = AtomicBool::new(true);
    let total = AtomicU64::new(0);
    let shares = AtomicU64::new(0);
    let nothing = HashTarget { target: [0; 32] };
    let report =
        MiningCoordinator::mining_thread(&running, &total, &shares, job().header, nothing, u32::MAX - 2, u32::MAX);
    assert_eq!(report.hashes, 3);
    assert_eq!(report.shares, 0);
    assert_eq!(total.load(Ordering::Relaxed), 3);
}

#[test]
fn stopped_worker_does_nothing() {
    let running = AtomicBool::new(false);
    let total = AtomicU64::new(0);
    let shares = AtomicU64::new(0);
    let report = MiningCoordinator::mining_thread(&running, &total, &shares, job().header, job().target, 0, 100);
    assert_eq!(report.hashes, 0);
    assert_eq!(report.shares, 0);
    assert_eq!(total.load(Ordering::Relaxed), 0);
}

#[test]
fn coordinator_runs_a_worker_and_keeps_the_counters() {
    let coordinator = MiningCoordinator::new(MiningConfig::default()).unwrap();
    let plan = coordinator.start(job()).unwrap();
    let work = WorkAssignment { range: NonceRange { start: 0, end: 1499 }, ..plan[0] };
    let report = coordinator.run_worker(work);
    assert_eq!(report.hashes, 1500);
    let stats = coordinator.stats();
    assert_eq!(stats.total_hashes, 1500);
    assert_eq!(stats.shares_found, report.shares);
    coordinator.stop();
    let idle = coordinator.run_worker(work);
    assert_eq!(idle.hashes, 0);
    assert_eq!(coordinator.stats().total_hashes, 1500);
}

fn progress(nonce: u32, batch_count: u64, hashes: u64, shares: u64, more: bool) -> WorkerProgress {
    WorkerProgress { nonce, batch_count, report: WorkerReport { hashes, shares }, more }
}

#[test]
fn a_clear_flag_or_an_exhausted_range_stops_the_worker() {
    let job = job();
    assert!(worker_step(false, progress(10, 0, 0, 0, true), job.header, &job.target, 10, 20).is_none());
    assert!(worker_step(true, progress(20, 0, 11, 0, false), job.header, &job.target, 10, 20).is_none());
    assert!(worker_step(false, progress(20, 0, 11, 0, false), job.header, &job.target, 10, 20).is_none());
}

#[test]
fn a_step_hashes_one_nonce_and_moves_on() {
    let job = job();
    let everything = HashTarget { target: [0xFF; 32] };
    let nothing = HashTarget { target: [0; 32] };

    let step = worker_step(true, progress(10, 0, 0, 0, true), job.header, &everything, 10, 20).unwrap();
    assert_eq!(step.progress, progress(11, 1, 1, 1, true));
    assert!(step.share_found);
    assert_eq!(step.flushed, 0);

    let step = worker_step(true, progress(15, 5, 5, 2, true), job.header, &nothing, 10, 20).unwrap();
    assert_eq!(step.progress, progress(16, 6, 6, 2, true));
    assert!(!step.share_found);

    let step = worker_step(true, progress(20, 10, 10, 0, true), job.header, &nothing, 10, 20).unwrap();
    assert_eq!(step.progress, progress(20, 11, 11, 0, false));

    let step = worker_step(true, progress(u32::MAX, 0, 0, 0, true), job.header, &nothing, u32::MAX, u32::MAX).unwrap();
    assert_eq!(step.progress, progress(u32::MAX, 1, 1, 0, false));

    for nonce in [3u32, 4, 5, 6] {
        let step = worker_step(true, progress(nonce, 0, (nonce - 3) as u64, 0, true), job.header, &job.target, 3, 9).unwrap();
        assert_eq!(step.share_found, check_nonce(job.header, &job.target, nonce));
    }
}

#[test]
fn a_full_batch_goes_to_the_shared_total() {
    let job = job();
    let nothing = HashTarget { target: [0; 32] };
    let step = worker_step(true, progress(998, 998, 998, 0, true), job.header, &nothing, 0, 5_000).unwrap();
    assert_eq!(step.flushed, 0);
    assert_eq!(step.progress.batch_count, 999);
    let step = worker_step(true, step.progress, job.header, &nothing, 0, 5_000).unwrap();
    assert_eq!(step.flushed, 1_000);
    assert_eq!(step.progress, progress(1_000, 0, 1_000, 0, true));
}

#[test]
fn the_shared_total_gets_every_hash_in_batches() {
    let running = AtomicBool::new(true);
    let total = AtomicU64::new(5);
    let shares = AtomicU64::new(2);
    let nothing = HashTarget { target: [0; 32] };
    let report = MiningCoordinator::mining_thread(&running, &total, &shares, job().header, nothing, 0, 999);
    assert_eq!((report.hashes, report.shares), (1_000, 0));
    assert_eq!(total.load(Ordering::Relaxed), 1_005);
    assert_eq!(shares.load(Ordering::Relaxed), 2);
}

#[test]
fn an_empty_range_is_left_at_once() {
    let running = AtomicBool::new(true);
    let total = AtomicU64::new(0);
    let shares = AtomicU64::new(0);
    let everything = HashTarget { target: [0xFF; 32] };
    let report = MiningCoordinator::mining_thread(&running, &total, &shares, job().header, everything, 10, 9);
    assert_eq!((report.hashes, report.shares), (0, 0));
    assert_eq!(total.load(Ordering::Relaxed), 0);
    assert_eq!(shares.load(Ordering::Relaxed), 0);
    let report = MiningCoordinator::mining_thread(&running, &total, &shares, job().header, everything, 10, 10);
    assert_eq!((report.hashes, report.shares), (1, 1));

    let coordinator = MiningCoordinator::new(MiningConfig::default()).unwrap();
    let plan = coordinator.start(job()).unwrap();
    let work = WorkAssignment { range: NonceRange { start: 5, end: 4 }, ..plan[0] };
    assert_eq!(coordinator.run_worker(work).hashes, 0);
}
