use essentia_mining::errors::ErrorKind;
use essentia_mining::ratio::Ratio;
use essentia_mining::reward_distribution::{
    decay_power, distributable_of, portion_of, BlockReward, PayoutStatus, RewardConfig,
    RewardDistributor, RewardMethod, WorkerStats,
};
use essentia_mining::reward_map::RewardMap;

const SEC: u64 = 1_000_000_000;

fn value(ratio: Ratio) -> f64 {
    ratio.numerator as f64 / ratio.denominator as f64
}

fn block(height: u64, reward_sats: u64, fees_sats: u64) -> BlockReward {
    BlockReward {
        height,
        hash: "abc".to_string(),
        reward_sats,
        fees_sats,
        found_at: 0,
        is_mature: false,
        confirmations: 0,
    }
}

fn distributor(method: RewardMethod) -> RewardDistributor {
    RewardDistributor::new(RewardConfig { method, pool_fee_basis_points: 0, ..Default::default() })
}

#[test]
fn test_worker_stats() {
    let mut stats = WorkerStats::new("worker1");
    stats.shares_submitted = 100;
    stats.shares_accepted = 95;
    assert!((value(stats.acceptance_rate()) - 0.95).abs() < 0.01);
}

#[test]
fn test_block_reward() {
    let reward = BlockReward {
        height: 100,
        hash: "abc".to_string(),
        reward_sats: 625_000_000,
        fees_sats: 1_000_000,
        found_at: 0,
        is_mature: true,
        confirmations: 100,
    };
    assert_eq!(reward.total_sats(), 626_000_000);
    assert!((value(reward.total_btc()) - 6.26).abs() < 0.01);
}

#[test]
fn test_reward_distributor() {
    let config = RewardConfig::default();
    let mut distributor = RewardDistributor::new(config);

    distributor.register_worker("worker1", 0);
    distributor.record_share("worker1", 1, true, 0);

    let stats = distributor.get_worker_stats("worker1").unwrap();
    assert_eq!(stats.shares_accepted, 1);
}

#[test]
fn test_pplns_calculation() {
    let config = RewardConfig {
        method: RewardMethod::Pplns,
        pool_fee_basis_points: 0,
        ..Default::default()
    };
    let mut distributor = RewardDistributor::new(config);

    distributor.set_block_height(100);
    distributor.register_worker("worker1", 0);
    distributor.register_worker("worker2", 0);

    distributor.record_share("worker1", 2, true, 0);
    distributor.record_share("worker2", 1, true, 0);

    distributor.record_block(BlockReward {
        height: 100,
        hash: "abc".to_string(),
        reward_sats: 300,
        fees_sats: 0,
        found_at: 0,
        is_mature: true,
        confirmations: 100,
    });

    let rewards = distributor.calculate_rewards(100, 0).unwrap();
    assert_eq!(rewards.get("worker1"), Some(200));
    assert_eq!(rewards.get("worker2"), Some(100));
}

#[test]
fn acceptance_rate_lies_in_the_unit_interval() {
    let fresh = WorkerStats::new("w");
    assert_eq!(fresh.acceptance_rate(), Ratio { numerator: 1, denominator: 1 });
    assert_eq!(WorkerStats::default().worker_id, "");
    let mut distributor = distributor(RewardMethod::Pplns);
    for i in 0..20u64 {
        distributor.record_share("w", 1, i % 4 != 0, i);
        let rate = value(distributor.get_worker_stats("w").unwrap().acceptance_rate());
        assert!((0.0..=1.0).contains(&rate));
    }
    let stats = distributor.get_worker_stats("w").unwrap();
    assert_eq!(stats.acceptance_rate(), Ratio { numerator: 15, denominator: 20 });
    assert_eq!(stats.shares_accepted + stats.shares_rejected, stats.shares_submitted);
}

#[test]
fn amounts_in_btc_are_exact_fractions() {
    let reward = block(1, u64::MAX, u64::MAX);
    assert_eq!(
        reward.total_btc(),
        Ratio { numerator: 2 * (u64::MAX as u128), denominator: 100_000_000 }
    );
    assert!(!reward.has_total());
    assert!(block(1, u64::MAX, 0).has_total());
    let mut stats = WorkerStats::new("w");
    stats.pending_reward_sats = 150_000_000;
    stats.paid_reward_sats = 50_000_000;
    assert_eq!(value(stats.total_earnings_btc()), 2.0);
}

#[test]
fn method_names() {
    assert_eq!(RewardMethod::Pps.name(), "Pay Per Share");
    assert_eq!(RewardMethod::Pplns.name(), "Pay Per Last N Shares");
    assert_eq!(RewardMethod::Prop.name(), "Proportional");
    assert_eq!(RewardMethod::Score.name(), "Score-Based");
    assert_eq!(RewardMethod::Solo.name(), "Solo Mining");
}

#[test]
fn default_reward_config() {
    let config = RewardConfig::default();
    assert_eq!(config.method, RewardMethod::Pplns);
    assert_eq!(config.pool_fee_basis_points, 100);
    assert_eq!(config.min_payout_sats, 10_000);
    assert_eq!(config.pplns_window, 100_000);
    assert_eq!(config.maturity_confirmations, 100);
    assert_eq!(config.score_decay_ppm, 999_900);
    assert!(config.is_valid());
    assert!(!RewardConfig { pool_fee_basis_points: 10_001, ..config }.is_valid());
    assert!(!RewardConfig { score_decay_ppm: 1_000_001, ..config }.is_valid());
}

#[test]
fn share_ids_grow_and_unknown_workers_become_known() {
    let mut distributor = distributor(RewardMethod::Prop);
    distributor.register_worker("known", 5);
    distributor.register_worker("known", 9);
    assert_eq!(distributor.record_share("known", 3, true, 10), 1);
    assert_eq!(distributor.record_share("new", 4, false, 11), 2);
    assert_eq!(distributor.record_share("known", 5, true, 12), 3);
    let known = distributor.get_worker_stats("known").unwrap();
    assert_eq!(known.worker_id, "known");
    assert_eq!(known.active_since, Some(5));
    assert_eq!(known.shares_submitted, 2);
    assert_eq!(known.shares_accepted, 2);
    assert_eq!(known.total_difficulty, 8);
    assert_eq!(known.last_share, Some(12));
    let new = distributor.get_worker_stats("new").unwrap();
    assert_eq!(new.worker_id, "");
    assert_eq!(new.active_since, Some(11));
    assert_eq!(new.shares_submitted, 1);
    assert_eq!(new.shares_rejected, 1);
    assert_eq!(new.total_difficulty, 0);
    assert!(distributor.get_worker_stats("nobody").is_none());
    let all = distributor.all_worker_stats();
    assert_eq!(all.len(), 2);
    assert_eq!(all[0].worker_id, "known");
}

#[test]
fn fee_is_taken_before_distribution() {
    assert_eq!(distributable_of(1_000, 100), 990);
    assert_eq!(distributable_of(999, 100), 989);
    assert_eq!(distributable_of(300, 0), 300);
    assert_eq!(distributable_of(300, 10_000), 0);
    assert_eq!(distributable_of(300, 20_000), 0);
    assert_eq!(distributable_of(u64::MAX, 0), u64::MAX);
    assert_eq!(distributable_of(626_000_000, 100), 619_740_000);
    assert_eq!(portion_of(300, 2, 3), 200);
    assert_eq!(portion_of(100, 1, 3), 33);
    assert_eq!(portion_of(100, 1, 0), 0);
    assert_eq!(portion_of(u64::MAX, u64::MAX, u64::MAX as u128), u64::MAX);
}

#[test]
fn missing_block_is_an_error() {
    let distributor = distributor(RewardMethod::Pplns);
    let e = distributor.calculate_rewards(77, 0).unwrap_err();
    assert_eq!(e.kind(), ErrorKind::Configuration);
    assert_eq!(e.message(), "Block 77 not found");
}

#[test]
fn pps_pays_nothing_per_block() {
    let mut distributor = distributor(RewardMethod::Pps);
    distributor.record_share("a", 10, true, 0);
    distributor.record_block(block(0, 5_000, 0));
    let rewards = distributor.calculate_rewards(0, 0).unwrap();
    assert!(rewards.is_empty());
    assert_eq!(rewards.total(), 0);
}

#[test]
fn pplns_counts_accepted_shares_up_to_the_block_and_floors() {
    let mut distributor = RewardDistributor::new(RewardConfig {
        method: RewardMethod::Pplns,
        pool_fee_basis_points: 100,
        ..Default::default()
    });
    distributor.set_block_height(9);
    distributor.record_share("a", 1, true, 0);
    distributor.record_share("b", 1, false, 0);
    distributor.set_block_height(10);
    distributor.record_share("b", 1, true, 0);
    distributor.record_share("a", 1, true, 0);
    distributor.set_block_height(11);
    distributor.record_share("c", 100, true, 0);
    distributor.record_block(block(10, 900, 101));
    let rewards = distributor.calculate_rewards(10, 0).unwrap();
    assert_eq!(rewards.len(), 2);
    assert_eq!(rewards.get("a"), Some(660));
    assert_eq!(rewards.get("b"), Some(330));
    assert_eq!(rewards.get("c"), None);
    assert_eq!(rewards.total(), 990);
    assert!(rewards.total() <= distributable_of(1001, 100) as u128);
}

#[test]
fn pplns_keeps_only_the_window() {
    let mut distributor = RewardDistributor::new(RewardConfig {
        method: RewardMethod::Pplns,
        pool_fee_basis_points: 0,
        pplns_window: 2,
        ..Default::default()
    });
    distributor.record_share("old", 5, true, 0);
    distributor.record_share("mid", 1, true, 0);
    distributor.record_share("new", 3, true, 0);
    distributor.record_block(block(0, 400, 0));
    let rewards = distributor.calculate_rewards(0, 0).unwrap();
    assert_eq!(rewards.get("old"), None);
    assert_eq!(rewards.get("mid"), Some(100));
    assert_eq!(rewards.get("new"), Some(300));
}

#[test]
fn proportional_counts_only_the_round_of_the_block() {
    let mut distributor = distributor(RewardMethod::Prop);
    distributor.set_block_height(1);
    distributor.record_share("a", 7, true, 0);
    distributor.set_block_height(2);
    distributor.record_share("a", 1, true, 0);
    distributor.record_share("b", 2, true, 0);
    distributor.record_share("b", 9, false, 0);
    distributor.record_block(block(2, 100, 0));
    distributor.record_block(block(3, 100, 0));
    let rewards = distributor.calculate_rewards(2, 0).unwrap();
    assert_eq!(rewards.get("a"), Some(33));
    assert_eq!(rewards.get("b"), Some(66));
    assert_eq!(rewards.total(), 99);
    assert!(distributor.calculate_rewards(3, 0).unwrap().is_empty());
}

#[test]
fn zero_difficulty_shares_earn_nothing() {
    let mut distributor = distributor(RewardMethod::Prop);
    distributor.record_share("a", 0, true, 0);
    distributor.record_block(block(0, 100, 0));
    let rewards = distributor.calculate_rewards(0, 0).unwrap();
    assert_eq!(rewards.get("a"), Some(0));
}

#[test]
fn solo_pays_the_latest_accepted_share() {
    let mut distributor = distributor(RewardMethod::Solo);
    distributor.record_block(block(0, 1_000, 24));
    assert!(distributor.calculate_rewards(0, 0).unwrap().is_empty());
    distributor.record_share("a", 1, true, 0);
    distributor.record_share("b", 1, true, 0);
    distributor.record_share("c", 1, false, 0);
    let rewards = distributor.calculate_rewards(0, 0).unwrap();
    assert_eq!(rewards.len(), 1);
    assert_eq!(rewards.get("b"), Some(1_024));
}

#[test]
fn decay_powers_in_parts_per_million() {
    assert_eq!(decay_power(999_900, 0), 1_000_000);
    assert_eq!(decay_power(999_900, 1), 999_900);
    assert_eq!(decay_power(500_000, 1), 500_000);
    assert_eq!(decay_power(500_000, 2), 250_000);
    assert_eq!(decay_power(500_000, 3), 125_000);
    assert_eq!(decay_power(500_000, 10), 976);
    assert_eq!(decay_power(1_000_000, u64::MAX), 1_000_000);
    assert_eq!(decay_power(0, 5), 0);
    assert_eq!(decay_power(0, 0), 1_000_000);
    assert_eq!(decay_power(500_000, u64::MAX), 0);
}

#[test]
fn score_weights_shares_by_age() {
    let mut distributor = RewardDistributor::new(RewardConfig {
        method: RewardMethod::Score,
        pool_fee_basis_points: 0,
        score_decay_ppm: 500_000,
        ..Default::default()
    });
    distributor.record_block(block(0, 900, 0));
    assert!(distributor.calculate_rewards(0, 0).unwrap().is_empty());
    distributor.record_share("old", 400, true, 0);
    distributor.record_share("new", 100, true, 2 * SEC);
    distributor.record_share("new", 50, false, 2 * SEC);
    let rewards = distributor.calculate_rewards(0, 2 * SEC).unwrap();
    assert_eq!(rewards.get("old"), Some(450));
    assert_eq!(rewards.get("new"), Some(450));
    let later = distributor.calculate_rewards(0, 3 * SEC + SEC / 2).unwrap();
    assert_eq!(later.get("old"), Some(450));
    assert_eq!(later.get("new"), Some(450));
    let much_later = distributor.calculate_rewards(0, 100 * SEC).unwrap();
    assert!(much_later.is_empty());
}

#[test]
fn distribution_credits_known_workers_within_the_pool() {
    let mut distributor = distributor(RewardMethod::Prop);
    distributor.register_worker("a", 0);
    distributor.register_worker("b", 0);
    distributor.record_share("a", 1, true, 0);
    distributor.record_share("b", 1, true, 0);
    distributor.record_share("b", 1, true, 0);
    distributor.record_block(block(0, 1_000, 0));
    let rewards = distributor.calculate_rewards(0, 0).unwrap();
    let before = distributor.pool_stats().total_pending_sats;
    distributor.distribute_rewards(&rewards);
    let after = distributor.pool_stats().total_pending_sats;
    assert_eq!(after - before, 999);
    assert!(after - before <= 1_000);
    assert_eq!(distributor.get_worker_stats("a").unwrap().pending_reward_sats, 333);
    assert_eq!(distributor.get_worker_stats("b").unwrap().pending_reward_sats, 666);

    let mut extra = RewardMap::new();
    extra.credit("a", 7);
    extra.credit("stranger", 1_000);
    extra.credit("a", 3);
    assert_eq!(extra.get("a"), Some(10));
    assert_eq!(extra.total(), 1_010);
    distributor.distribute_rewards(&extra);
    assert_eq!(distributor.get_worker_stats("a").unwrap().pending_reward_sats, 343);
    assert_eq!(distributor.pool_stats().total_pending_sats, 1_009);
    assert!(distributor.get_worker_stats("stranger").is_none());
}

#[test]
fn payout_threshold_and_completion() {
    let mut distributor = RewardDistributor::new(RewardConfig::default());
    distributor.register_worker("w", 0);
    let mut credit = RewardMap::new();
    credit.credit("w", 9_999);
    distributor.distribute_rewards(&credit);
    assert!(distributor.create_payout("w", "addr", 1).unwrap().is_none());
    assert_eq!(distributor.get_worker_stats("w").unwrap().pending_reward_sats, 9_999);
    assert!(distributor.pending_payouts().is_empty());

    let mut more = RewardMap::new();
    more.credit("w", 15_001);
    distributor.distribute_rewards(&more);
    let payout = distributor.create_payout("w", "addr", 2).unwrap().unwrap();
    assert_eq!(payout.id, 1);
    assert_eq!(payout.amount_sats, 25_000);
    assert_eq!(payout.worker_id, "w");
    assert_eq!(payout.address, "addr");
    assert_eq!(payout.txid, None);
    assert_eq!(payout.status, PayoutStatus::Pending);
    assert_eq!(payout.created_at, 2);
    assert_eq!(payout.completed_at, None);
    assert_eq!(distributor.get_worker_stats("w").unwrap().pending_reward_sats, 0);
    let pending = distributor.pending_payouts();
    assert_eq!(pending.len(), 1);
    assert_eq!(pending[0].amount_sats, 25_000);
    assert_eq!(pending[0].id, payout.id);

    distributor.complete_payout(payout.id, "tx0", 3).unwrap();
    assert!(distributor.pending_payouts().is_empty());
    let stats = distributor.get_worker_stats("w").unwrap();
    assert_eq!(stats.paid_reward_sats, 25_000);
    assert_eq!(stats.pending_reward_sats, 0);
    assert_eq!(distributor.pool_stats().total_paid_sats, 25_000);
}

#[test]
fn payout_ids_grow_and_unknown_ids_fail() {
    let mut distributor = RewardDistributor::new(RewardConfig { min_payout_sats: 1, ..Default::default() });
    let e = distributor.create_payout("ghost", "addr", 0).unwrap_err();
    assert_eq!((e.kind(), e.message()), (ErrorKind::Configuration, "Worker not found: ghost"));
    let e = distributor.complete_payout(1, "tx", 0).unwrap_err();
    assert_eq!((e.kind(), e.message()), (ErrorKind::Configuration, "Payout 1 not found"));

    distributor.register_worker("a", 0);
    distributor.register_worker("b", 0);
    let mut credit = RewardMap::new();
    credit.credit("a", 5);
    credit.credit("b", 6);
    distributor.distribute_rewards(&credit);
    let first = distributor.create_payout("a", "x", 0).unwrap().unwrap();
    let second = distributor.create_payout("b", "y", 0).unwrap().unwrap();
    assert!(distributor.create_payout("a", "x", 0).unwrap().is_none());
    assert_eq!((first.id, second.id), (1, 2));
    assert!(first.id < second.id);
    distributor.complete_payout(2, "tx2", 9).unwrap();
    let pending = distributor.pending_payouts();
    assert_eq!(pending.len(), 1);
    assert_eq!(pending[0].id, 1);
    assert_eq!(distributor.get_worker_stats("b").unwrap().paid_reward_sats, 6);
    assert_eq!(distributor.get_worker_stats("a").unwrap().paid_reward_sats, 0);
}

#[test]
fn confirmations_decide_maturity() {
    let mut distributor = RewardDistributor::new(RewardConfig::default());
    distributor.record_block(block(5, 100, 0));
    distributor.record_block(block(6, 100, 0));
    assert_eq!(distributor.pool_stats().blocks_found, 2);
    assert_eq!(distributor.pool_stats().mature_blocks, 0);
    distributor.update_confirmations(5, 99);
    assert_eq!(distributor.pool_stats().mature_blocks, 0);
    distributor.update_confirmations(5, 100);
    assert_eq!(distributor.pool_stats().mature_blocks, 1);
    distributor.update_confirmations(6, 1_000);
    assert_eq!(distributor.pool_stats().mature_blocks, 2);
    distributor.update_confirmations(5, 3);
    assert_eq!(distributor.pool_stats().mature_blocks, 1);
    distributor.update_confirmations(7, 1_000);
    assert_eq!(distributor.pool_stats().mature_blocks, 1);
}

#[test]
fn pool_stats_sum_the_workers() {
    let mut distributor = distributor(RewardMethod::Prop);
    let empty = distributor.pool_stats();
    assert_eq!(empty.total_workers, 0);
    assert_eq!(empty.total_shares, 0);
    distributor.record_share("a", 10, true, 0);
    distributor.record_share("a", 20, false, 0);
    distributor.record_share("b", 30, true, 0);
    let stats = distributor.pool_stats();
    assert_eq!(stats.total_workers, 2);
    assert_eq!(stats.total_shares, 2);
    assert_eq!(stats.total_difficulty, 40);
    assert_eq!(stats.total_pending_sats, 0);
    assert_eq!(stats.total_paid_sats, 0);
}

#[test]
fn an_empty_window_keeps_no_share() {
    let mut distributor = RewardDistributor::new(RewardConfig {
        method: RewardMethod::Pplns,
        pool_fee_basis_points: 0,
        pplns_window: 0,
        ..Default::default()
    });
    assert_eq!(distributor.record_share("a", 5, true, 0), 1);
    assert_eq!(distributor.record_share("a", 5, true, 0), 2);
    assert_eq!(distributor.share_count(), 2);
    assert_eq!(distributor.get_worker_stats("a").unwrap().shares_accepted, 2);
    distributor.record_block(block(0, 100, 0));
    assert!(distributor.calculate_rewards(0, 0).unwrap().is_empty());
}

#[test]
fn duplicate_heights_use_the_first_block() {
    let mut distributor = distributor(RewardMethod::Solo);
    distributor.record_share("a", 1, true, 0);
    distributor.record_block(block(4, 100, 0));
    distributor.record_block(block(4, 900, 0));
    assert_eq!(distributor.calculate_rewards(4, 0).unwrap().get("a"), Some(100));
}

#[test]
fn precondition_checks_report_exhaustion() {
    let mut distributor = RewardDistributor::new(RewardConfig { min_payout_sats: 1, ..Default::default() });
    distributor.register_worker("w", 0);
    let mut most = RewardMap::new();
    most.credit("w", u64::MAX - 1);
    assert!(distributor.can_distribute(&most));
    distributor.distribute_rewards(&most);
    let mut two = RewardMap::new();
    two.credit("w", 2);
    assert!(!distributor.can_distribute(&two));
    let mut one = RewardMap::new();
    one.credit("w", 1);
    one.credit("other", u64::MAX);
    assert!(distributor.can_distribute(&one));
    assert!(distributor.can_create_payout("w"));
    assert!(distributor.can_create_payout("nobody"));
    let payout = distributor.create_payout("w", "addr", 0).unwrap().unwrap();
    assert_eq!(payout.amount_sats, u64::MAX - 1);
    assert!(distributor.can_complete(payout.id));
    assert!(distributor.can_complete(99));
    distributor.complete_payout(payout.id, "tx", 1).unwrap();
    assert!(distributor.can_complete(payout.id));
    distributor.distribute_rewards(&one);
    let again = distributor.create_payout("w", "addr", 2).unwrap().unwrap();
    assert_eq!(again.amount_sats, 1);
    assert!(distributor.can_complete(again.id));
    distributor.complete_payout(again.id, "tx", 3).unwrap();
    assert_eq!(distributor.get_worker_stats("w").unwrap().paid_reward_sats, u64::MAX);
    assert_eq!(distributor.payout_count(), 2);
}

#[test]
fn a_recorded_block_is_mature_by_its_confirmations_alone() {
    let mut distributor = RewardDistributor::new(RewardConfig::default());
    distributor.record_block(BlockReward { is_mature: true, confirmations: 99, ..block(1, 10, 0) });
    assert_eq!(distributor.pool_stats().blocks_found, 1);
    assert_eq!(distributor.pool_stats().mature_blocks, 0);
    distributor.record_block(BlockReward { is_mature: false, confirmations: 100, ..block(2, 10, 0) });
    assert_eq!(distributor.pool_stats().mature_blocks, 1);
    distributor.record_block(BlockReward { is_mature: true, confirmations: 500, ..block(3, 10, 0) });
    assert_eq!(distributor.pool_stats().mature_blocks, 2);
    distributor.record_block(BlockReward { is_mature: false, confirmations: 0, ..block(4, u64::MAX, u64::MAX) });
    assert_eq!(distributor.pool_stats().blocks_found, 4);
    assert_eq!(distributor.pool_stats().mature_blocks, 2);
}

#[test]
fn a_payout_is_paid_once() {
    let mut distributor = RewardDistributor::new(RewardConfig::default());
    distributor.register_worker("w", 0);
    let mut credit = RewardMap::new();
    credit.credit("w", 25_000);
    distributor.distribute_rewards(&credit);
    let payout = distributor.create_payout("w", "addr", 1).unwrap().unwrap();
    distributor.complete_payout(payout.id, "tx0", 2).unwrap();
    assert_eq!(distributor.get_worker_stats("w").unwrap().paid_reward_sats, 25_000);

    let again = distributor.complete_payout(payout.id, "tx1", 3).unwrap_err();
    assert_eq!(again.kind(), ErrorKind::Configuration);
    assert_eq!(again.message(), "Payout 1 already settled");
    assert_eq!(distributor.get_worker_stats("w").unwrap().paid_reward_sats, 25_000);
    assert_eq!(distributor.pool_stats().total_paid_sats, 25_000);
    assert!(distributor.pending_payouts().is_empty());
    assert!(PayoutStatus::Pending.is_open());
    assert!(PayoutStatus::Processing.is_open());
    assert!(!PayoutStatus::Completed.is_open());
    assert!(!PayoutStatus::Failed { reason: "x".to_string() }.is_open());
}

#[test]
fn rewards_can_be_calculated_for_valid_settings_and_totals() {
    let mut distributor = RewardDistributor::new(RewardConfig { pool_fee_basis_points: 10_001, ..Default::default() });
    distributor.record_block(block(1, 10, 0));
    assert!(!distributor.can_calculate_rewards(1));
    let mut distributor = RewardDistributor::new(RewardConfig { score_decay_ppm: 1_000_001, ..Default::default() });
    assert!(!distributor.can_calculate_rewards(1));
    distributor.set_block_height(1);
    let mut distributor = RewardDistributor::new(RewardConfig::default());
    assert!(distributor.can_calculate_rewards(1));
    distributor.record_block(block(1, u64::MAX, 1));
    distributor.record_block(block(2, u64::MAX, 0));
    assert!(!distributor.can_calculate_rewards(1));
    assert!(distributor.can_calculate_rewards(2));
    assert!(distributor.can_calculate_rewards(3));
}

#[test]
fn decay_powers_stay_close_to_the_exact_power() {
    for (base, exp) in [(999_900u64, 1_000u64), (999_900, 86_400), (900_000, 50), (500_000, 7), (999_999, 1_000_000)] {
        let power = decay_power(base, exp) as f64 / 1_000_000.0;
        let exact = (base as f64 / 1_000_000.0).powf(exp as f64);
        assert!(power <= exact + 1e-9);
        assert!(exact <= power + (2 * exp) as f64 / 1_000_000.0);
    }
}
