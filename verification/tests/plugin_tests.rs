use essentia_mining::errors::ErrorKind;
use essentia_mining::hardware::{MiningHardwareProfile, GIB};
use essentia_mining::{MiningConfig, MiningPlugin, PoolConnection};

#[test]
fn plugin_test_plugin_creation() {
    let config = MiningConfig::default();
    let plugin = MiningPlugin::new(config);
    assert!(plugin.is_ok());
}

#[test]
fn test_plugin_not_mining_initially() {
    let plugin = MiningPlugin::new(MiningConfig::default()).expect("test assertion");
    assert!(!plugin.is_mining());
}

#[test]
fn test_invalid_cpu_percentage() {
    let config = MiningConfig::default().with_max_cpu_usage(0);
    let result = MiningPlugin::new(config);
    assert!(result.is_err());
}

#[test]
fn test_hardware_profile_access() {
    let plugin = MiningPlugin::new(MiningConfig::default()).expect("test assertion");
    let profile = plugin.hardware_profile();
    assert!(profile.logical_cores > 0);
}

#[test]
fn test_pool_not_connected_initially() {
    let plugin = MiningPlugin::new(MiningConfig::default()).expect("test assertion");
    assert!(matches!(
        plugin.pool_connection_state(),
        PoolConnection::Disconnected
    ));
}

#[test]
fn cpu_percentage_is_validated_on_construction_and_update() {
    let e = MiningPlugin::new(MiningConfig::default().with_max_cpu_usage(0)).err().unwrap();
    assert_eq!(e.kind(), ErrorKind::Configuration);
    assert_eq!(e.message(), "CPU percentage must be between 1 and 100");
    let mut over = MiningConfig::default();
    over.max_cpu_percentage = 101;
    assert!(MiningPlugin::new(over).is_err());
    assert!(MiningPlugin::new(MiningConfig::default().with_max_cpu_usage(1)).is_ok());
    assert!(MiningPlugin::new(MiningConfig::default().with_max_cpu_usage(100)).is_ok());

    let mut plugin = MiningPlugin::new(MiningConfig::default()).unwrap();
    let e = plugin.update_config(MiningConfig::default().with_max_cpu_usage(0)).unwrap_err();
    assert_eq!(e.message(), "CPU percentage must be between 1 and 100");
    assert_eq!(plugin.config().max_cpu_percentage, 25);
    assert!(plugin.update_config(MiningConfig::default().with_max_cpu_usage(60)).is_ok());
    assert_eq!(plugin.config().max_cpu_percentage, 60);
}

#[test]
fn pool_connection_needs_a_url() {
    let mut plugin = MiningPlugin::new(MiningConfig::default()).unwrap();
    let e = plugin.connect_to_pool().unwrap_err();
    assert_eq!((e.kind(), e.message()), (ErrorKind::Configuration, "No pool URL configured"));
    assert!(matches!(plugin.pool_connection_state(), PoolConnection::Disconnected));

    let config = MiningConfig::default().with_pool_url("stratum+tcp://pool.example.com:3333").with_worker_name("rig");
    let mut plugin = MiningPlugin::new(config).unwrap();
    plugin.connect_to_pool().unwrap();
    match plugin.pool_connection_state() {
        PoolConnection::Connected { url, worker } => {
            assert_eq!(url, "stratum+tcp://pool.example.com:3333");
            assert_eq!(worker, "rig");
        }
        other => panic!("unexpected state {:?}", other),
    }
    plugin.disconnect_from_pool();
    assert!(matches!(plugin.pool_connection_state(), PoolConnection::Disconnected));
}

#[test]
fn background_mining_starts_once_and_stops() {
    let mut plugin = MiningPlugin::new(MiningConfig::default()).unwrap();
    assert!(plugin.coordinator_handle().is_none());
    let plan = plugin.start_background_mining().unwrap();
    assert!(plan.is_empty());
    assert!(plugin.coordinator_handle().is_some());
    assert!(!plugin.is_mining());
    let e = plugin.start_background_mining().unwrap_err();
    assert_eq!((e.kind(), e.message()), (ErrorKind::Coordinator, "Mining already active"));
    assert_eq!(plugin.stats().total_hashes, 0);
    plugin.stop_background_mining();
    assert!(plugin.coordinator_handle().is_none());
    assert!(!plugin.is_mining());
    assert!(plugin.start_background_mining().is_ok());
    plugin.shutdown();
    assert!(plugin.coordinator_handle().is_none());
    assert!(matches!(plugin.pool_connection_state(), PoolConnection::Disconnected));
}

#[test]
fn background_mining_with_a_connected_pool_and_no_job_idles() {
    let config = MiningConfig::default().with_pool_url("stratum://pool:3333");
    let mut plugin = MiningPlugin::new(config).unwrap();
    plugin.connect_to_pool().unwrap();
    let plan = plugin.start_background_mining().unwrap();
    assert!(plan.is_empty());
    assert!(!plugin.is_mining());
    let stats = plugin.stats();
    assert_eq!(stats.total_hashes, 0);
    assert_eq!(stats.shares_found, 0);
}

fn job() -> essentia_mining::MiningJob {
    essentia_mining::MiningJob {
        job_id: "job".to_string(),
        header: essentia_mining::BlockHeader {
            version: 2,
            prev_block_hash: [1; 32],
            merkle_root: [2; 32],
            timestamp: 3,
            bits: 0x207f_ffff,
            nonce: 0,
        },
        target: essentia_mining::HashTarget { target: [0xFF; 32] },
        extranonce1: Vec::new(),
        extranonce2_size: 4,
    }
}

#[test]
fn background_mining_plans_the_newest_job_of_the_pool() {
    let config = MiningConfig::default().with_pool_url("stratum://pool:3333").with_max_cpu_usage(100);
    let mut plugin = MiningPlugin::new(config).unwrap();
    assert!(!plugin.notify(job()));
    plugin.connect_to_pool().unwrap();
    assert!(plugin.notify(job()));
    let plan = plugin.start_background_mining().unwrap();
    assert_eq!(plan.len(), 2);
    assert_eq!(plan[0].range.start, 0);
    assert_eq!(plan[1].range.end, u32::MAX);
    assert_eq!(plan[0].header.version, 2);
    assert!(plugin.is_mining());

    let handle = plugin.coordinator_handle().unwrap();
    assert!(handle.is_running());
    let mut work = plan[0];
    work.range.end = work.range.start + 9;
    let report = handle.run_worker(work);
    assert_eq!((report.hashes, report.shares), (10, 10));
    assert_eq!(plugin.stats().total_hashes, 10);
    assert_eq!(plugin.stats().shares_found, 10);

    plugin.stop_background_mining();
    assert!(!handle.is_running());
    assert!(!plugin.is_mining());
    assert_eq!(plugin.stats().total_hashes, 0);
}

#[test]
fn the_handle_shares_the_coordinator_of_the_plugin() {
    let mut plugin = MiningPlugin::new(MiningConfig::default()).unwrap();
    plugin.start_background_mining().unwrap();
    let handle = plugin.coordinator_handle().unwrap();
    assert!(!plugin.is_mining());
    handle.start(job()).unwrap();
    assert!(plugin.is_mining());
    handle.stop();
    assert!(!plugin.is_mining());
}

#[test]
fn the_plugin_mines_on_the_hardware_it_is_given() {
    let strong = MiningHardwareProfile::from_probe(32, 64 * GIB);
    let config = MiningConfig::default().with_pool_url("stratum://pool:1").with_max_cpu_usage(50);
    let mut plugin = MiningPlugin::with_hardware(config, strong).unwrap();
    assert_eq!(plugin.hardware_profile().physical_cores, 16);
    plugin.connect_to_pool().unwrap();
    assert!(plugin.notify(job()));
    let plan = plugin.start_background_mining().unwrap();
    assert_eq!(plan.len(), 8);
    assert_eq!(plugin.coordinator_handle().unwrap().thread_count(), 8);

    let weak = MiningHardwareProfile::from_probe(2, 64 * GIB);
    let mut plugin = MiningPlugin::with_hardware(MiningConfig::default(), weak).unwrap();
    let e = plugin.start_background_mining().unwrap_err();
    assert_eq!(e.kind(), ErrorKind::HardwareDetection);
    assert_eq!(e.message(), "Hardware does not meet minimum requirements for mining");
    assert!(plugin.coordinator_handle().is_none());

    let e = MiningPlugin::with_hardware(MiningConfig::default().with_max_cpu_usage(0), strong).err().unwrap();
    assert_eq!(e.message(), "CPU percentage must be between 1 and 100");
}
