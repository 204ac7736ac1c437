use essentia_mining::hash_rate_monitor::{
    AlertType, HashRateMonitor, HashRateMonitorConfig, HashRateSample, HashRateUnit,
};

const SEC: u64 = 1_000_000_000;
const MS: u64 = 1_000_000;

#[test]
fn test_hash_rate_sample() {
    let sample = HashRateSample {
        timestamp: 0,
        hashes: 1000,
        duration: SEC,
    };
    assert!((sample.hash_rate() as f64 - 1000.0).abs() < 0.01);
}

#[test]
fn test_hash_rate_unit() {
    assert_eq!(HashRateUnit::auto_select(500), HashRateUnit::HashPerSec);
    assert_eq!(HashRateUnit::auto_select(5_000), HashRateUnit::KiloHashPerSec);
    assert_eq!(HashRateUnit::auto_select(5_000_000), HashRateUnit::MegaHashPerSec);
}

#[test]
fn test_hash_rate_monitor() {
    let config = HashRateMonitorConfig {
        sample_interval: MS,
        ..Default::default()
    };
    let mut monitor = HashRateMonitor::new(config);

    monitor.start(0);

    let sample = monitor.record(5 * MS, 1000);
    assert!(sample.is_some());

    let stats = monitor.statistics();
    assert_eq!(stats.sample_count, 1);
}

#[test]
fn test_format_hash_rate() {
    assert_eq!(HashRateMonitor::format_hash_rate(1_500_000), "1.50 MH/s");
    assert_eq!(HashRateMonitor::format_hash_rate(2_500_000_000), "2.50 GH/s");
}

#[test]
fn rates_round_down_and_saturate() {
    let rate = |hashes: u64, duration: u64| HashRateSample { timestamp: 0, hashes, duration }.hash_rate();
    assert_eq!(rate(1000, 0), 0);
    assert_eq!(rate(0, SEC), 0);
    assert_eq!(rate(1000, 2 * SEC), 500);
    assert_eq!(rate(1000, 3 * SEC), 333);
    assert_eq!(rate(1, MS), 1000);
    assert_eq!(rate(7, 2 * SEC), 3);
    assert_eq!(rate(u64::MAX, SEC), u64::MAX);
    assert_eq!(rate(u64::MAX, 1), u64::MAX);
    assert_eq!(rate(u64::MAX, 2 * SEC), u64::MAX / 2);
}

#[test]
fn units_scale_at_powers_of_a_thousand() {
    assert_eq!(HashRateUnit::auto_select(0), HashRateUnit::HashPerSec);
    assert_eq!(HashRateUnit::auto_select(999), HashRateUnit::HashPerSec);
    assert_eq!(HashRateUnit::auto_select(1_000), HashRateUnit::KiloHashPerSec);
    assert_eq!(HashRateUnit::auto_select(999_999), HashRateUnit::KiloHashPerSec);
    assert_eq!(HashRateUnit::auto_select(1_000_000), HashRateUnit::MegaHashPerSec);
    assert_eq!(HashRateUnit::auto_select(1_000_000_000), HashRateUnit::GigaHashPerSec);
    assert_eq!(HashRateUnit::auto_select(1_000_000_000_000), HashRateUnit::TeraHashPerSec);
    assert_eq!(HashRateUnit::auto_select(u64::MAX), HashRateUnit::TeraHashPerSec);
    assert_eq!(HashRateUnit::HashPerSec.suffix(), "H/s");
    assert_eq!(HashRateUnit::KiloHashPerSec.suffix(), "KH/s");
    assert_eq!(HashRateUnit::MegaHashPerSec.suffix(), "MH/s");
    assert_eq!(HashRateUnit::GigaHashPerSec.suffix(), "GH/s");
    assert_eq!(HashRateUnit::TeraHashPerSec.suffix(), "TH/s");
    let converted = HashRateUnit::MegaHashPerSec.convert(1_500_000);
    assert_eq!(converted.numerator as f64 / converted.denominator as f64, 1.5);
    assert_eq!(HashRateUnit::GigaHashPerSec.divisor(), 1_000_000_000);
}

#[test]
fn formatting_rounds_to_two_places() {
    assert_eq!(HashRateMonitor::format_hash_rate(0), "0.00 H/s");
    assert_eq!(HashRateMonitor::format_hash_rate(500), "500.00 H/s");
    assert_eq!(HashRateMonitor::format_hash_rate(999), "999.00 H/s");
    assert_eq!(HashRateMonitor::format_hash_rate(1_000), "1.00 KH/s");
    assert_eq!(HashRateMonitor::format_hash_rate(1_234), "1.23 KH/s");
    assert_eq!(HashRateMonitor::format_hash_rate(1_235), "1.24 KH/s");
    assert_eq!(HashRateMonitor::format_hash_rate(1_006), "1.01 KH/s");
    assert_eq!(HashRateMonitor::format_hash_rate(999_999), "1000.00 KH/s");
    assert_eq!(HashRateMonitor::format_hash_rate(12_345_678_900_000), "12.35 TH/s");
    assert_eq!(HashRateMonitor::format_hash_rate(u64::MAX), "18446744.07 TH/s");
}

#[test]
fn empty_monitor_reports_zeros() {
    let monitor = HashRateMonitor::new(HashRateMonitorConfig::default());
    let stats = monitor.statistics();
    assert_eq!(stats.sample_count, 0);
    assert_eq!(stats.current, 0);
    assert_eq!(stats.average, 0);
    assert_eq!(stats.peak, 0);
    assert_eq!(stats.minimum, 0);
    assert_eq!(stats.std_dev, 0);
    assert_eq!(stats.total_hashes, 0);
    assert_eq!(stats.monitoring_duration, 0);
    assert_eq!(monitor.moving_average(), 0);
    assert_eq!(monitor.effective_hash_rate(10, 10), 0);
    assert!(monitor.recent_samples(5).is_empty());
    assert!(monitor.alerts().is_empty());
}

#[test]
fn record_within_the_interval_changes_nothing_but_the_count() {
    let mut monitor = HashRateMonitor::new(HashRateMonitorConfig::default());
    monitor.start(0);
    assert!(monitor.record(SEC - 1, 5_000).is_none());
    assert_eq!(monitor.statistics().sample_count, 0);
    let first = monitor.record(SEC, 1_000).unwrap();
    assert_eq!((first.timestamp, first.hashes, first.duration), (SEC, 1_000, SEC));
    let before = monitor.statistics();
    assert!(monitor.record(SEC + SEC / 2, 1_000_000).is_none());
    assert!(monitor.record(2 * SEC - 1, 9_000_000).is_none());
    let after = monitor.statistics();
    assert_eq!(after.sample_count, 1);
    assert_eq!(after.peak, before.peak);
    assert_eq!(after.minimum, before.minimum);
    assert_eq!(after.current, before.current);
    let second = monitor.record(2 * SEC, 4_000).unwrap();
    assert_eq!((second.timestamp, second.hashes, second.duration), (2 * SEC, 3_000, SEC));
}

#[test]
fn first_record_without_start_spans_one_second() {
    let mut monitor = HashRateMonitor::new(HashRateMonitorConfig::default());
    let sample = monitor.record(123, 700).unwrap();
    assert_eq!((sample.timestamp, sample.hashes, sample.duration), (123, 700, SEC));
    assert_eq!(sample.hash_rate(), 700);
}

#[test]
fn falling_counts_and_clocks_give_empty_samples() {
    let config = HashRateMonitorConfig { sample_interval: 0, ..Default::default() };
    let mut monitor = HashRateMonitor::new(config);
    monitor.start(10 * SEC);
    let sample = monitor.record(11 * SEC, 500).unwrap();
    assert_eq!(sample.hashes, 500);
    let sample = monitor.record(12 * SEC, 100).unwrap();
    assert_eq!(sample.hashes, 0);
    let sample = monitor.record(5 * SEC, 100).unwrap();
    assert_eq!(sample.duration, 0);
    assert_eq!(sample.hash_rate(), 0);
    let stats = monitor.statistics();
    assert_eq!(stats.minimum, 500);
    assert_eq!(stats.peak, 500);
    assert_eq!(stats.monitoring_duration, 0);
}

#[test]
fn statistics_of_known_samples() {
    let config = HashRateMonitorConfig { min_samples_for_stats: 100, ..Default::default() };
    let mut monitor = HashRateMonitor::new(config);
    monitor.start(0);
    let mut count = 0u64;
    for (i, rate) in [2u64, 4, 4, 4, 5, 5, 7, 9].iter().enumerate() {
        count += rate;
        monitor.record((i as u64 + 1) * SEC, count).unwrap();
    }
    let stats = monitor.statistics();
    assert_eq!(stats.sample_count, 8);
    assert_eq!(stats.current, 9);
    assert_eq!(stats.average, 5);
    assert_eq!(stats.std_dev, 2);
    assert_eq!(stats.peak, 9);
    assert_eq!(stats.minimum, 2);
    assert_eq!(stats.total_hashes, 40);
    assert_eq!(stats.monitoring_duration, 7 * SEC);
    assert_eq!(monitor.effective_hash_rate(7, 1), 4_294_967_296);
    assert_eq!(monitor.effective_hash_rate(0, 1), 0);
    assert_eq!(monitor.effective_hash_rate(u64::MAX, u64::MAX), u64::MAX);
    let recent = monitor.recent_samples(3);
    assert_eq!(recent.iter().map(|s| s.hashes).collect::<Vec<u64>>(), vec![9, 7, 5]);
    assert_eq!(monitor.recent_samples(100).len(), 8);
}

#[test]
fn moving_average_uses_the_newest_window() {
    let config = HashRateMonitorConfig { moving_average_window: 3, min_samples_for_stats: 100, ..Default::default() };
    let mut monitor = HashRateMonitor::new(config);
    monitor.start(0);
    monitor.record(SEC, 100).unwrap();
    assert_eq!(monitor.moving_average(), 100);
    monitor.record(2 * SEC, 300).unwrap();
    assert_eq!(monitor.moving_average(), 150);
    monitor.record(3 * SEC, 600).unwrap();
    monitor.record(4 * SEC, 1_000).unwrap();
    assert_eq!(monitor.moving_average(), 300);
    assert_eq!(monitor.statistics().average, 250);
}

#[test]
fn samples_beyond_the_maximum_are_dropped_from_the_front() {
    let config = HashRateMonitorConfig { max_samples: 3, min_samples_for_stats: 100, ..Default::default() };
    let mut monitor = HashRateMonitor::new(config);
    monitor.start(0);
    for i in 1..=5u64 {
        monitor.record(i * SEC, i * i * 10).unwrap();
    }
    let stats = monitor.statistics();
    assert_eq!(stats.sample_count, 3);
    assert_eq!(stats.total_hashes, 50 + 70 + 90);
    assert_eq!(stats.monitoring_duration, 2 * SEC);
    assert_eq!(stats.peak, 90);
    assert_eq!(stats.minimum, 10);
    let recent = monitor.recent_samples(10);
    assert_eq!(recent.iter().map(|s| s.timestamp).collect::<Vec<u64>>(), vec![5 * SEC, 4 * SEC, 3 * SEC]);

    let none = HashRateMonitorConfig { max_samples: 0, ..Default::default() };
    let mut monitor = HashRateMonitor::new(none);
    assert!(monitor.record(SEC, 10).is_some());
    assert_eq!(monitor.statistics().sample_count, 0);
}

#[test]
fn a_drop_below_the_average_raises_an_alert() {
    let config = HashRateMonitorConfig { min_samples_for_stats: 3, ..Default::default() };
    let mut monitor = HashRateMonitor::new(config);
    monitor.start(0);
    monitor.record(SEC, 1_000).unwrap();
    monitor.record(2 * SEC, 2_000).unwrap();
    assert!(monitor.alerts().is_empty());
    monitor.record(3 * SEC, 2_100).unwrap();
    let alerts = monitor.alerts();
    assert_eq!(alerts.len(), 1);
    assert_eq!(alerts[0].alert_type, AlertType::HashRateDrop);
    assert_eq!(alerts[0].timestamp, 3 * SEC);
    assert_eq!(alerts[0].value, 100);
    assert_eq!(alerts[0].threshold, 560);
    assert_eq!(alerts[0].message, "Hash rate dropped to 100.00 H/s (average: 700.00 H/s)");

    monitor.record(4 * SEC, 3_100).unwrap();
    assert_eq!(monitor.alerts().len(), 1);
    monitor.record(5 * SEC, 3_100).unwrap();
    assert_eq!(monitor.alerts().len(), 1);
    monitor.clear_alerts();
    assert!(monitor.alerts().is_empty());
    assert_eq!(monitor.statistics().sample_count, 5);
}

#[test]
fn reset_forgets_samples_extremes_and_alerts() {
    let config = HashRateMonitorConfig { min_samples_for_stats: 1, ..Default::default() };
    let mut monitor = HashRateMonitor::new(config);
    monitor.start(0);
    monitor.record(SEC, 1_000).unwrap();
    monitor.record(2 * SEC, 1_001).unwrap();
    assert_eq!(monitor.alerts().len(), 1);
    monitor.reset();
    let stats = monitor.statistics();
    assert_eq!(stats.sample_count, 0);
    assert_eq!(stats.peak, 0);
    assert_eq!(stats.minimum, 0);
    assert!(monitor.alerts().is_empty());
    assert!(monitor.record(2 * SEC + 1, 1_002).is_none());
    let sample = monitor.record(3 * SEC, 1_501).unwrap();
    assert_eq!(sample.hashes, 500);
    let stats = monitor.statistics();
    assert_eq!(stats.peak, 500);
    assert_eq!(stats.minimum, 500);
}

#[test]
fn default_monitor_config() {
    let config = HashRateMonitorConfig::default();
    assert_eq!(config.sample_interval, SEC);
    assert_eq!(config.max_samples, 3600);
    assert_eq!(config.moving_average_window, 60);
    assert_eq!(config.alert_threshold_basis_points, 2000);
    assert_eq!(config.min_samples_for_stats, 10);
}

#[test]
fn a_rate_below_one_hash_per_second_is_still_above_zero() {
    let slow = HashRateSample { timestamp: 0, hashes: 1, duration: 2 * SEC };
    assert_eq!(slow.hash_rate(), 0);
    assert!(slow.is_positive());
    assert!(!HashRateSample { timestamp: 0, hashes: 0, duration: SEC }.is_positive());
    assert!(!HashRateSample { timestamp: 0, hashes: 5, duration: 0 }.is_positive());

    let config = HashRateMonitorConfig { min_samples_for_stats: 2, sample_interval: SEC, ..Default::default() };
    let mut monitor = HashRateMonitor::new(config);
    monitor.start(0);
    monitor.record(SEC, 1_000).unwrap();
    assert_eq!(monitor.statistics().minimum, 1_000);
    assert!(monitor.alerts().is_empty());
    let sample = monitor.record(3 * SEC, 1_001).unwrap();
    assert_eq!((sample.hashes, sample.duration, sample.hash_rate()), (1, 2 * SEC, 0));
    assert_eq!(monitor.statistics().minimum, 0);
    let alerts = monitor.alerts();
    assert_eq!(alerts.len(), 1);
    assert_eq!(alerts[0].value, 0);
    assert_eq!(alerts[0].threshold, 400);
    assert_eq!(alerts[0].message, "Hash rate dropped to 0.00 H/s (average: 500.00 H/s)");
    monitor.record(5 * SEC, 1_001).unwrap();
    assert_eq!(monitor.alerts().len(), 1);
}
