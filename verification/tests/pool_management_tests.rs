use essentia_mining::errors::ErrorKind;
use essentia_mining::pool_management::{
    PoolConfig, PoolManager, PoolManagerConfig, PoolPriority, PoolState, PoolStatus,
};
use essentia_mining::ratio::Ratio;

fn value(ratio: Ratio) -> f64 {
    ratio.numerator as f64 / ratio.denominator as f64
}

fn pool(id: &str, priority: PoolPriority) -> PoolConfig {
    PoolConfig { id: id.to_string(), priority, ..Default::default() }
}

#[test]
fn test_pool_state() {
    let config = PoolConfig::default();
    let state = PoolState::new(config);
    assert_eq!(value(state.acceptance_rate()), 1.0);
    assert_eq!(state.status, PoolStatus::Disconnected);
}

#[test]
fn test_pool_manager() {
    let mut manager = PoolManager::new(PoolManagerConfig::default());
    let config = PoolConfig {
        id: "pool1".to_string(),
        ..Default::default()
    };
    assert!(manager.add_pool(config).is_ok());
    assert!(manager.get_pool("pool1").is_some());
}

#[test]
fn test_select_best_pool() {
    let mut manager = PoolManager::new(PoolManagerConfig::default());

    manager.add_pool(PoolConfig {
        id: "primary".to_string(),
        priority: PoolPriority::Primary,
        ..Default::default()
    }).unwrap();

    manager.add_pool(PoolConfig {
        id: "backup".to_string(),
        priority: PoolPriority::Backup,
        ..Default::default()
    }).unwrap();

    let best = manager.select_best_pool();
    assert_eq!(best, Some("primary".to_string()));
}

#[test]
fn test_failover() {
    let mut manager = PoolManager::new(PoolManagerConfig::default());

    manager.add_pool(PoolConfig {
        id: "primary".to_string(),
        priority: PoolPriority::Primary,
        ..Default::default()
    }).unwrap();

    manager.add_pool(PoolConfig {
        id: "backup".to_string(),
        priority: PoolPriority::Backup,
        ..Default::default()
    }).unwrap();

    manager.set_active_pool("primary").unwrap();

    let new_pool = manager.failover("Connection lost", 1_000);
    assert_eq!(new_pool, Some("backup".to_string()));
}

#[test]
fn failover_marks_the_active_pool_and_records_the_event() {
    let mut manager = PoolManager::new(PoolManagerConfig::default());
    manager.add_pool(pool("primary", PoolPriority::Primary)).unwrap();
    manager.add_pool(pool("backup", PoolPriority::Backup)).unwrap();
    manager.set_active_pool("primary").unwrap();

    assert_eq!(manager.failover("lost", 42), Some("backup".to_string()));
    assert_eq!(manager.active_pool_id(), Some("backup".to_string()));
    assert_eq!(
        manager.get_pool("primary").unwrap().status,
        PoolStatus::Failed { reason: "lost".to_string() }
    );
    assert_eq!(manager.get_pool("backup").unwrap().status, PoolStatus::Disconnected);
    let history = manager.failover_history();
    assert_eq!(history.len(), 1);
    assert_eq!(history[0].from_pool, Some("primary".to_string()));
    assert_eq!(history[0].to_pool, "backup");
    assert_eq!(history[0].reason, "lost");
    assert_eq!(history[0].timestamp, 42);
}

#[test]
fn failover_without_a_candidate_leaves_no_active_pool_and_no_event() {
    let mut manager = PoolManager::new(PoolManagerConfig::default());
    manager.add_pool(pool("only", PoolPriority::Primary)).unwrap();
    manager.set_active_pool("only").unwrap();
    assert_eq!(manager.failover("down", 1), None);
    assert_eq!(manager.active_pool_id(), None);
    assert!(manager.failover_history().is_empty());
    assert_eq!(manager.get_pool("only").unwrap().status, PoolStatus::Failed { reason: "down".to_string() });
    assert_eq!(manager.select_best_pool(), None);
}

#[test]
fn failover_without_an_active_pool_selects_the_best() {
    let mut manager = PoolManager::new(PoolManagerConfig::default());
    manager.add_pool(pool("b", PoolPriority::Backup)).unwrap();
    manager.add_pool(pool("a", PoolPriority::Primary)).unwrap();
    assert_eq!(manager.failover("start", 7), Some("a".to_string()));
    let history = manager.failover_history();
    assert_eq!(history.len(), 1);
    assert_eq!(history[0].from_pool, None);
    assert_eq!(history[0].to_pool, "a");
    assert_eq!(manager.get_pool("a").unwrap().status, PoolStatus::Disconnected);
}

#[test]
fn registry_is_bounded_and_replaces_by_id() {
    let mut manager = PoolManager::new(PoolManagerConfig { max_pools: 2, ..Default::default() });
    manager.add_pool(pool("a", PoolPriority::Primary)).unwrap();
    manager.record_share("a", true, 5).unwrap();
    manager.add_pool(pool("a", PoolPriority::Emergency)).unwrap();
    let replaced = manager.get_pool("a").unwrap();
    assert_eq!(replaced.shares_submitted, 0);
    assert_eq!(replaced.config.priority, PoolPriority::Emergency);
    assert_eq!(manager.all_pools().len(), 1);
    manager.add_pool(pool("b", PoolPriority::Primary)).unwrap();
    let e = manager.add_pool(pool("c", PoolPriority::Primary)).unwrap_err();
    assert_eq!(e.kind(), ErrorKind::Configuration);
    assert_eq!(e.message(), "Maximum number of pools (2) exceeded");
    let e = manager.add_pool(pool("a", PoolPriority::Primary)).unwrap_err();
    assert_eq!(e.message(), "Maximum number of pools (2) exceeded");
    let ids: Vec<String> = manager.all_pools().into_iter().map(|p| p.config.id).collect();
    assert_eq!(ids, vec!["a".to_string(), "b".to_string()]);
}

#[test]
fn unknown_pools_are_reported() {
    let mut manager = PoolManager::new(PoolManagerConfig::default());
    manager.add_pool(pool("a", PoolPriority::Primary)).unwrap();
    for e in [
        manager.remove_pool("x").unwrap_err(),
        manager.set_active_pool("x").unwrap_err(),
        manager.update_status("x", PoolStatus::Connected).unwrap_err(),
        manager.record_share("x", true, 0).unwrap_err(),
    ] {
        assert_eq!(e.kind(), ErrorKind::PoolConnection);
        assert_eq!(e.message(), "Pool not found: x");
    }
    assert!(manager.get_pool("x").is_none());
    assert_eq!(manager.active_pool_id(), None);
}

#[test]
fn removing_the_active_pool_clears_it() {
    let mut manager = PoolManager::new(PoolManagerConfig::default());
    manager.add_pool(pool("a", PoolPriority::Primary)).unwrap();
    manager.add_pool(pool("b", PoolPriority::Backup)).unwrap();
    manager.set_active_pool("a").unwrap();
    manager.remove_pool("b").unwrap();
    assert_eq!(manager.active_pool_id(), Some("a".to_string()));
    manager.remove_pool("a").unwrap();
    assert_eq!(manager.active_pool_id(), None);
    assert!(manager.all_pools().is_empty());
}

#[test]
fn shares_keep_accepted_plus_rejected_within_submitted() {
    let mut manager = PoolManager::new(PoolManagerConfig::default());
    manager.add_pool(pool("a", PoolPriority::Primary)).unwrap();
    for i in 0..10u64 {
        manager.record_share("a", i % 3 != 0, i).unwrap();
        let state = manager.get_pool("a").unwrap();
        assert!(state.shares_accepted + state.shares_rejected <= state.shares_submitted);
    }
    let state = manager.get_pool("a").unwrap();
    assert_eq!(state.shares_submitted, 10);
    assert_eq!(state.shares_accepted, 6);
    assert_eq!(state.shares_rejected, 4);
    assert_eq!(state.last_share, Some(9));
    assert_eq!(state.acceptance_rate(), Ratio { numerator: 6, denominator: 10 });
    assert_eq!(state.rejection_rate(), Ratio { numerator: 4, denominator: 10 });
    assert_eq!(state.stale_rate(), Ratio { numerator: 0, denominator: 10 });
}

#[test]
fn rates_of_a_pool_state() {
    let mut state = PoolState::new(PoolConfig::default());
    assert_eq!(state.acceptance_rate(), Ratio { numerator: 1, denominator: 1 });
    assert_eq!(state.rejection_rate(), Ratio { numerator: 0, denominator: 1 });
    assert_eq!(state.stale_rate(), Ratio { numerator: 0, denominator: 1 });
    state.shares_submitted = 20;
    state.shares_accepted = 15;
    state.shares_rejected = 2;
    assert_eq!(value(state.acceptance_rate()), 0.75);
    assert_eq!(value(state.rejection_rate()), 0.1);
    assert_eq!(value(state.stale_rate()), 0.15);
}

#[test]
fn selection_orders_by_priority_then_acceptance_then_registration() {
    let mut manager = PoolManager::new(PoolManagerConfig::default());
    manager.add_pool(pool("e", PoolPriority::Emergency)).unwrap();
    manager.add_pool(pool("b1", PoolPriority::Backup)).unwrap();
    manager.add_pool(pool("b2", PoolPriority::Backup)).unwrap();
    manager.add_pool(pool("b3", PoolPriority::Backup)).unwrap();
    assert_eq!(manager.select_best_pool(), Some("b1".to_string()));
    manager.record_share("b1", false, 0).unwrap();
    manager.record_share("b1", true, 0).unwrap();
    assert_eq!(manager.select_best_pool(), Some("b2".to_string()));
    manager.record_share("b2", true, 0).unwrap();
    manager.record_share("b2", true, 0).unwrap();
    manager.record_share("b2", false, 0).unwrap();
    manager.record_share("b3", true, 0).unwrap();
    assert_eq!(manager.select_best_pool(), Some("b3".to_string()));
    manager.update_status("b3", PoolStatus::Disabled { reason: "maintenance".to_string() }).unwrap();
    assert_eq!(manager.select_best_pool(), Some("b2".to_string()));
    manager.update_status("b2", PoolStatus::Failed { reason: "x".to_string() }).unwrap();
    manager.update_status("b1", PoolStatus::Failed { reason: "x".to_string() }).unwrap();
    assert_eq!(manager.select_best_pool(), Some("e".to_string()));
    manager.update_status("e", PoolStatus::Authorized).unwrap();
    assert_eq!(manager.select_best_pool(), Some("e".to_string()));
}

#[test]
fn health_check_sorts_the_pools() {
    let mut manager = PoolManager::new(PoolManagerConfig::default());
    manager.add_pool(pool("fresh", PoolPriority::Primary)).unwrap();
    manager.add_pool(pool("good", PoolPriority::Primary)).unwrap();
    manager.add_pool(pool("poor", PoolPriority::Primary)).unwrap();
    manager.add_pool(pool("failed", PoolPriority::Primary)).unwrap();
    for i in 0..100u64 {
        manager.record_share("good", i >= 5, i).unwrap();
        manager.record_share("poor", i >= 6, i).unwrap();
    }
    manager.update_status("failed", PoolStatus::Failed { reason: "x".to_string() }).unwrap();
    let result = manager.health_check(99);
    assert_eq!(result.healthy_pools, vec!["fresh".to_string(), "good".to_string()]);
    assert_eq!(result.unhealthy_pools, vec!["poor".to_string(), "failed".to_string()]);
    assert_eq!(result.checked_at, 99);
}

#[test]
fn aggregate_stats_sum_the_pools() {
    let mut manager = PoolManager::new(PoolManagerConfig::default());
    let empty = manager.aggregate_stats();
    assert_eq!(empty.pools_count, 0);
    assert_eq!(empty.total_shares_submitted, 0);
    assert_eq!(value(empty.overall_acceptance_rate), 0.0);

    manager.add_pool(pool("a", PoolPriority::Primary)).unwrap();
    manager.add_pool(pool("b", PoolPriority::Backup)).unwrap();
    manager.add_pool(pool("c", PoolPriority::Backup)).unwrap();
    manager.update_status("a", PoolStatus::Authorized).unwrap();
    manager.update_status("b", PoolStatus::Connecting).unwrap();
    manager.update_status("c", PoolStatus::Subscribed).unwrap();
    manager.record_share("a", true, 0).unwrap();
    manager.record_share("a", true, 0).unwrap();
    manager.record_share("b", false, 0).unwrap();
    manager.record_share("c", true, 0).unwrap();
    let stats = manager.aggregate_stats();
    assert_eq!(stats.pools_count, 3);
    assert_eq!(stats.connected_pools, 2);
    assert_eq!(stats.total_shares_submitted, 4);
    assert_eq!(stats.total_shares_accepted, 3);
    assert_eq!(stats.total_shares_rejected, 1);
    assert_eq!(value(stats.overall_acceptance_rate), 0.75);
}

#[test]
fn defaults_of_the_pool_types() {
    let config = PoolConfig::default();
    assert_eq!(config.id, "default");
    assert_eq!(config.url, "stratum+tcp://localhost:3333");
    assert_eq!(config.worker, "worker1");
    assert_eq!(config.password, None);
    assert_eq!(config.priority, PoolPriority::Primary);
    assert_eq!(config.connect_timeout, 30_000_000_000);
    assert_eq!(config.keepalive_interval, 30_000_000_000);
    assert_eq!(config.max_retries, 3);
    assert_eq!(config.retry_delay, 5_000_000_000);
    assert_eq!(config.fee_basis_points, 100);
    let manager = PoolManagerConfig::default();
    assert!(manager.auto_failover);
    assert_eq!(manager.max_pools, 10);
    assert_eq!(manager.min_acceptance_basis_points, 9500);
    assert_eq!(manager.failover_timeout, 30_000_000_000);
    assert_eq!(manager.health_check_interval, 60_000_000_000);
    assert!(PoolPriority::Primary < PoolPriority::Backup && PoolPriority::Backup < PoolPriority::Emergency);
    assert_eq!(PoolPriority::Emergency.rank(), 2);
}

#[test]
fn share_counters_can_be_checked_before_recording() {
    let mut manager = PoolManager::new(PoolManagerConfig::default());
    manager.add_pool(pool("a", PoolPriority::Primary)).unwrap();
    assert!(manager.can_record_share("a"));
    assert!(manager.can_record_share("unknown"));
}

#[test]
fn health_result_clones() {
    let mut manager = PoolManager::new(PoolManagerConfig::default());
    manager.add_pool(pool("a", PoolPriority::Primary)).unwrap();
    let result = manager.health_check(3);
    let copy = result.clone();
    assert_eq!(copy.healthy_pools, result.healthy_pools);
    assert_eq!(copy.unhealthy_pools, result.unhealthy_pools);
    assert_eq!(copy.checked_at, 3);
}
