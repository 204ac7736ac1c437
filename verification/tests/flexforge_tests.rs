use essentia_mining::flexforge::{
    FieldKind, MiningDisplayStats, MiningPluginFlexForge, MiningUiConfig, PanelCapability,
};
use essentia_mining::number::parse_number;

#[test]
fn test_panel_id() {
    let panel = MiningPluginFlexForge::new();
    assert_eq!(panel.panel_id(), "essentia_mining_plugin");
}

#[test]
fn flexforge_test_default_config() {
    let panel = MiningPluginFlexForge::new();
    assert!(!panel.config().mining_enabled);
    assert!(panel.config().gpu_mining);
    assert!(!panel.config().cpu_mining);
    assert_eq!(panel.config().gpu_intensity, 70);
    assert_eq!(panel.config().temp_limit, 80);
}

#[test]
fn test_config_validation() {
    let mut panel = MiningPluginFlexForge::new();
    assert!(panel.on_config_changed("mining_enabled", "true").is_ok());
    assert!(panel.config().mining_enabled);
    assert!(panel.on_config_changed("gpu_intensity", "85").is_ok());
    assert_eq!(panel.config().gpu_intensity, 85);
    assert!(
        panel
            .on_config_changed("pool_address", "stratum+tcp://pool.example.com:3333")
            .is_ok()
    );
    assert!(panel.on_config_changed("invalid_key", "value").is_err());
}

#[test]
fn test_streaming() {
    let mut panel = MiningPluginFlexForge::new();
    panel.on_config_changed("mining_enabled", "true").expect("test assertion");
    assert!(!panel.is_streaming());

    let id = panel.start_stream().expect("test assertion");
    assert!(panel.is_streaming());
    assert!(panel.render_frame(id, 500));

    panel.stop_stream(id).expect("test assertion");
    assert!(!panel.is_streaming());
    assert!(!panel.render_frame(id, 500));
}

#[test]
fn test_stats_update() {
    let mut panel = MiningPluginFlexForge::new();
    let stats = MiningDisplayStats {
        hashrate: 1_500_000,
        shares_accepted: 100,
        shares_rejected: 2,
        difficulty: 65536,
        earnings_per_day: 50000,
        gpu_temp: 68,
        cpu_usage: 25,
    };
    panel.update_stats(stats);
    assert_eq!(panel.stats().shares_accepted, 100);
    assert_eq!(panel.stats().gpu_temp, 68);
}

#[test]
fn default_ui_config_values() {
    let config = MiningUiConfig::default();
    assert!(!config.mining_enabled);
    assert_eq!(config.pool_address, "");
    assert_eq!(config.wallet_address, "");
    assert_eq!(config.worker_name, "essentia-worker");
    assert_eq!(config.cpu_threads, 2);
    assert_eq!(MiningDisplayStats::default().hashrate, 0);
}

#[test]
fn stream_ids_grow_and_errors_are_named() {
    let mut panel = MiningPluginFlexForge::new();
    assert_eq!(panel.stop_stream(1).unwrap_err(), "No active stream");
    assert_eq!(panel.start_stream().unwrap(), 1);
    assert_eq!(panel.start_stream().unwrap_err(), "Stream already active");
    assert_eq!(panel.stop_stream(2).unwrap_err(), "Invalid stream ID");
    assert!(panel.is_streaming());
    assert!(!panel.render_frame(2, 0));
    panel.stop_stream(1).unwrap();
    assert_eq!(panel.start_stream().unwrap(), 2);
    assert!(!panel.render_frame(1, 0));
    assert!(panel.render_frame(2, 0));
    assert_eq!(panel.target_fps(), 2);
}

#[test]
fn panel_activation_follows_the_mining_switch() {
    let mut panel = MiningPluginFlexForge::new();
    panel.on_panel_activate();
    assert!(!panel.is_streaming());
    assert!(!panel.on_refresh());
    panel.on_config_changed("mining_enabled", "true").unwrap();
    panel.on_panel_activate();
    assert!(panel.is_streaming());
    assert!(panel.on_refresh());
    panel.on_panel_activate();
    assert!(panel.render_frame(1, 0));
    panel.on_config_changed("mining_enabled", "false").unwrap();
    assert!(!panel.on_refresh());
    panel.on_panel_deactivate();
    assert!(!panel.is_streaming());
    panel.on_panel_deactivate();
    assert!(!panel.is_streaming());
}

#[test]
fn numbers_are_read_as_whole_parts() {
    assert_eq!(parse_number("85"), Some(85));
    assert_eq!(parse_number("0"), Some(0));
    assert_eq!(parse_number("007"), Some(7));
    assert_eq!(parse_number("255"), Some(255));
    assert_eq!(parse_number("256"), Some(255));
    assert_eq!(parse_number("99999999999999999999999"), Some(255));
    assert_eq!(parse_number("85.9"), Some(85));
    assert_eq!(parse_number("85."), Some(85));
    assert_eq!(parse_number(".5"), Some(0));
    assert_eq!(parse_number("+12"), Some(12));
    assert_eq!(parse_number("-12"), Some(0));
    assert_eq!(parse_number("-.5"), Some(0));
    assert_eq!(parse_number(""), None);
    assert_eq!(parse_number("+"), None);
    assert_eq!(parse_number("."), None);
    assert_eq!(parse_number("+."), None);
    assert_eq!(parse_number("1.2.3"), None);
    assert_eq!(parse_number("12a"), None);
    assert_eq!(parse_number("1.a"), None);
    assert_eq!(parse_number("abc"), None);
    assert_eq!(parse_number(" 1"), None);
    assert_eq!(parse_number("1 "), None);
    assert_eq!(parse_number("--1"), None);
}

#[test]
fn exponents_move_the_point() {
    assert_eq!(parse_number("1e2"), Some(100));
    assert_eq!(parse_number("1E2"), Some(100));
    assert_eq!(parse_number("1e+2"), Some(100));
    assert_eq!(parse_number("2.5e1"), Some(25));
    assert_eq!(parse_number("2.55e2"), Some(255));
    assert_eq!(parse_number("2.56e2"), Some(255));
    assert_eq!(parse_number("25e-1"), Some(2));
    assert_eq!(parse_number("1e-1"), Some(0));
    assert_eq!(parse_number("1234e-2"), Some(12));
    assert_eq!(parse_number("1234.5e-3"), Some(1));
    assert_eq!(parse_number("0.0255e4"), Some(255));
    assert_eq!(parse_number("0.0099e2"), Some(0));
    assert_eq!(parse_number(".5e1"), Some(5));
    assert_eq!(parse_number("5.e1"), Some(50));
    assert_eq!(parse_number("1e0"), Some(1));
    assert_eq!(parse_number("1e-0"), Some(1));
    assert_eq!(parse_number("1e3"), Some(255));
    assert_eq!(parse_number("0e99999999999999999999999999999999"), Some(0));
    assert_eq!(parse_number("1e99999999999999999999999999999999"), Some(255));
    assert_eq!(parse_number("1e-99999999999999999999999999999999"), Some(0));
    assert_eq!(parse_number("0.000e36893488147419103235"), Some(0));
    assert_eq!(parse_number("-1e2"), Some(0));
    assert_eq!(parse_number("e5"), None);
    assert_eq!(parse_number("1e"), None);
    assert_eq!(parse_number("1e+"), None);
    assert_eq!(parse_number("1e5x"), None);
    assert_eq!(parse_number("1e5.0"), None);
    assert_eq!(parse_number("1ee5"), None);
    assert_eq!(parse_number(".e5"), None);
}

#[test]
fn infinity_and_nan_are_numbers() {
    assert_eq!(parse_number("inf"), Some(255));
    assert_eq!(parse_number("+inf"), Some(255));
    assert_eq!(parse_number("-inf"), Some(0));
    assert_eq!(parse_number("Infinity"), Some(255));
    assert_eq!(parse_number("INFINITY"), Some(255));
    assert_eq!(parse_number("-infinity"), Some(0));
    assert_eq!(parse_number("nan"), Some(0));
    assert_eq!(parse_number("NaN"), Some(0));
    assert_eq!(parse_number("-NAN"), Some(0));
    assert_eq!(parse_number("in"), None);
    assert_eq!(parse_number("infinit"), None);
    assert_eq!(parse_number("infinityy"), None);
    assert_eq!(parse_number("na"), None);
    assert_eq!(parse_number("nane"), None);
}

#[test]
fn changes_by_key() {
    let mut panel = MiningPluginFlexForge::new();
    panel.on_config_changed("wallet_address", "bc1q").unwrap();
    panel.on_config_changed("worker_name", "rig").unwrap();
    panel.on_config_changed("cpu_mining", "true").unwrap();
    panel.on_config_changed("gpu_mining", "yes").unwrap();
    panel.on_config_changed("cpu_threads", "8").unwrap();
    panel.on_config_changed("temp_limit", "90.5").unwrap();
    assert_eq!(panel.config().wallet_address, "bc1q");
    assert_eq!(panel.config().worker_name, "rig");
    assert!(panel.config().cpu_mining);
    assert!(!panel.config().gpu_mining);
    assert_eq!(panel.config().cpu_threads, 8);
    assert_eq!(panel.config().temp_limit, 90);
    assert_eq!(panel.on_config_changed("cpu_threads", "many").unwrap_err(), "Invalid thread count");
    assert_eq!(panel.on_config_changed("gpu_intensity", "").unwrap_err(), "Invalid intensity");
    assert_eq!(panel.on_config_changed("temp_limit", "hot").unwrap_err(), "Invalid temperature");
    assert_eq!(panel.on_config_changed("invalid_key", "value").unwrap_err(), "Unknown configuration key: invalid_key");
    assert_eq!(panel.config().cpu_threads, 8);
    let pairs = panel.get_current_config();
    let expected = [
        ("mining_enabled", "false"),
        ("pool_address", ""),
        ("wallet_address", "bc1q"),
        ("worker_name", "rig"),
        ("cpu_mining", "true"),
        ("gpu_mining", "false"),
        ("cpu_threads", "8"),
        ("gpu_intensity", "70"),
        ("temp_limit", "90"),
    ];
    assert_eq!(pairs.len(), expected.len());
    for (pair, want) in pairs.iter().zip(expected.iter()) {
        assert_eq!((pair.0.as_str(), pair.1.as_str()), *want);
    }
    panel.reset_to_defaults();
    assert_eq!(panel.config().worker_name, "essentia-worker");
    assert_eq!(panel.config().cpu_threads, 2);
}

#[test]
fn apply_config_stops_at_the_first_error() {
    let mut panel = MiningPluginFlexForge::new();
    let changes = vec![
        ("cpu_threads".to_string(), "4".to_string()),
        ("gpu_intensity".to_string(), "x".to_string()),
        ("temp_limit".to_string(), "60".to_string()),
    ];
    assert_eq!(panel.apply_config(&changes).unwrap_err(), "Invalid intensity");
    assert_eq!(panel.config().cpu_threads, 4);
    assert_eq!(panel.config().gpu_intensity, 70);
    assert_eq!(panel.config().temp_limit, 80);
    let current = panel.get_current_config();
    let mut other = MiningPluginFlexForge::new();
    assert!(other.apply_config(&current).is_ok());
    assert_eq!(other.get_current_config(), current);
    assert!(other.apply_config(&[]).is_ok());
}

#[test]
fn schema_and_panel_info() {
    let panel = MiningPluginFlexForge::new();
    let schema = panel.config_schema();
    let keys: Vec<&str> = schema.iter().map(|f| f.key).collect();
    assert_eq!(
        keys,
        vec![
            "mining_enabled",
            "pool_address",
            "wallet_address",
            "worker_name",
            "cpu_mining",
            "gpu_mining",
            "cpu_threads",
            "gpu_intensity",
            "temp_limit"
        ]
    );
    assert_eq!(schema[0].kind, FieldKind::Toggle { on: false });
    assert_eq!(schema[5].kind, FieldKind::Toggle { on: true });
    assert_eq!(schema[6].kind, FieldKind::Number { default: 2, min: 1, max: 32 });
    assert_eq!(schema[7].kind, FieldKind::Number { default: 70, min: 10, max: 100 });
    assert_eq!(schema[8].kind, FieldKind::Number { default: 80, min: 50, max: 95 });
    assert_eq!(schema[8].group, "Safety");
    assert_eq!(schema[1].label, "Pool Address");
    let info = panel.panel_info();
    assert_eq!(info.id, "essentia_mining_plugin");
    assert_eq!(info.name, "Crypto Mining");
    assert_eq!(info.icon.as_deref(), Some("\u{E8A7}"));
    assert_eq!(info.priority, 25);
    assert_eq!(
        info.capabilities,
        vec![PanelCapability::Configuration, PanelCapability::Streaming, PanelCapability::Dashboard]
    );
    assert_eq!(panel.display_name(), "Crypto Mining");
    assert_eq!(panel.icon_glyph(), Some("\u{E8A7}"));
    assert_eq!(panel.priority(), 25);
}
