use essentia_mining::MiningConfig;

#[test]
fn lib_test_plugin_creation() {
    let config = MiningConfig::default();
    assert!(config.max_cpu_percentage <= 100);
}

#[test]
fn lib_test_default_config() {
    let config = MiningConfig::default();
    assert_eq!(config.max_cpu_percentage, 25);
    assert!(config.background_priority);
}

#[test]
fn test_effective_thread_count_auto() {
    let config = MiningConfig::default().with_max_cpu_usage(50);
    assert_eq!(config.effective_thread_count(8), 4);
}

#[test]
fn test_effective_thread_count_explicit() {
    let config = MiningConfig::default().with_thread_count(2);
    assert_eq!(config.effective_thread_count(8), 2);
}

#[test]
fn test_builder_pattern() {
    let config = MiningConfig::new()
        .with_max_cpu_usage(75)
        .with_pool_url("stratum+tcp://pool.example.com:3333")
        .with_worker_name("my_worker");

    assert_eq!(config.max_cpu_percentage, 75);
    assert!(config.pool_url.is_some());
    assert_eq!(config.pool_url.as_deref(), Some("stratum+tcp://pool.example.com:3333"));
    assert_eq!(config.worker_name, "my_worker");
}

#[test]
fn default_config_values() {
    let config = MiningConfig::default();
    assert_eq!(config.thread_count, 0);
    assert!(config.pool_url.is_none());
    assert_eq!(config.worker_name, "essentia_worker");
    assert!(!config.gpu_enabled);
    assert_eq!(config.min_hashrate, 0);
    assert!(config.auto_pause_on_load);
    assert_eq!(config.thermal_throttle_temp, Some(80));
}

#[test]
fn cpu_usage_is_capped_at_100() {
    assert_eq!(MiningConfig::default().with_max_cpu_usage(255).max_cpu_percentage, 100);
    assert_eq!(MiningConfig::default().with_max_cpu_usage(0).max_cpu_percentage, 0);
    assert!(MiningConfig::default().with_gpu_enabled(true).gpu_enabled);
    assert!(!MiningConfig::default().with_background_priority(false).background_priority);
}

#[test]
fn effective_thread_count_rounds_up_and_is_at_least_one() {
    let quarter = MiningConfig::default();
    assert_eq!(quarter.effective_thread_count(1), 1);
    assert_eq!(quarter.effective_thread_count(2), 1);
    assert_eq!(quarter.effective_thread_count(4), 1);
    assert_eq!(quarter.effective_thread_count(5), 2);
    assert_eq!(quarter.effective_thread_count(8), 2);
    assert_eq!(quarter.effective_thread_count(0), 1);
    let none = MiningConfig::default().with_max_cpu_usage(0);
    assert_eq!(none.effective_thread_count(16), 1);
    for cores in 1..200usize {
        for pct in [0u8, 1, 25, 50, 99, 100] {
            assert!(MiningConfig::default().with_max_cpu_usage(pct).effective_thread_count(cores) >= 1);
        }
    }
}

#[test]
fn explicit_thread_count_is_clamped_to_cores() {
    let config = MiningConfig::default().with_thread_count(64);
    assert_eq!(config.effective_thread_count(8), 8);
    assert_eq!(config.effective_thread_count(64), 64);
    assert_eq!(config.effective_thread_count(100), 64);
}

#[test]
fn config_clone_keeps_every_field() {
    let config = MiningConfig::new().with_pool_url("stratum://a:1").with_worker_name("w").with_thread_count(3);
    let copy = config.clone();
    assert_eq!(copy.pool_url, config.pool_url);
    assert_eq!(copy.worker_name, config.worker_name);
    assert_eq!(copy.thread_count, 3);
    assert_eq!(copy.max_cpu_percentage, config.max_cpu_percentage);
}
