use essentia_mining::traits::{MiningCoordinatorTrait, MiningHardwareTrait, PoolClientTrait};
use essentia_mining::{
    BlockHeader, HashTarget, MiningConfig, MiningCoordinator, MiningHardwareProfile, MiningJob,
    PoolConnection, StratumClient,
};

fn threads_at_half<H: MiningHardwareTrait>(hardware: &H) -> (usize, usize, bool, usize) {
    (
        hardware.physical_cores(),
        hardware.logical_cores(),
        hardware.is_suitable_for_mining(),
        hardware.recommended_threads(50),
    )
}

fn cycle<C: PoolClientTrait>(client: &mut C) -> (bool, bool, bool) {
    let before = client.is_connected();
    client.connect().unwrap();
    let during = client.is_connected() && client.get_job().unwrap().is_none()
        && client.submit_share("job", &[0; 4], 1, 2).unwrap();
    client.disconnect();
    (before, during, matches!(client.state(), PoolConnection::Disconnected))
}

fn run<C: MiningCoordinatorTrait>(coordinator: &C, job: MiningJob) -> (bool, usize, bool, bool) {
    let before = coordinator.is_running();
    let plan = coordinator.start(job).unwrap();
    let during = coordinator.is_running();
    coordinator.stop();
    (before, plan.len(), during, coordinator.is_running())
}

#[test]
fn hardware_profile_through_its_trait() {
    let profile = MiningHardwareProfile::from_probe(16, 1 << 34);
    assert_eq!(threads_at_half(&profile), (8, 16, true, 4));
}

#[test]
fn stratum_client_through_its_trait() {
    let mut client = StratumClient::new("stratum://pool:1", "w");
    assert_eq!(cycle(&mut client), (false, true, true));
}

#[test]
fn coordinator_through_its_trait() {
    let coordinator = MiningCoordinator::new(MiningConfig::default().with_thread_count(2)).unwrap();
    let job = MiningJob {
        job_id: "j".to_string(),
        header: BlockHeader {
            version: 1,
            prev_block_hash: [0; 32],
            merkle_root: [0; 32],
            timestamp: 0,
            bits: 0,
            nonce: 0,
        },
        target: HashTarget::from_bits(0),
        extranonce1: Vec::new(),
        extranonce2_size: 4,
    };
    assert_eq!(run(&coordinator, job), (false, 2, true, false));
    assert_eq!(MiningCoordinatorTrait::stats(&coordinator).total_hashes, 0);
}
