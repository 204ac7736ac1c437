use essentia_mining::errors::{ErrorKind, MiningError};
use essentia_mining::stratum::parse_port;
use essentia_mining::types::{BlockHeader, HashTarget, MiningJob};
use essentia_mining::{parse_stratum_url, PoolConnection, StratumClient};

#[test]
fn test_stratum_client_creation() {
    let client = StratumClient::new("stratum+tcp://pool.example.com:3333", "worker1");
    assert!(!client.is_connected());
}

#[test]
fn test_parse_stratum_url() {
    let result = parse_stratum_url("stratum+tcp://pool.example.com:3333");
    assert!(result.is_ok());
    let (host, port) = result.unwrap();
    assert_eq!(host, "pool.example.com");
    assert_eq!(port, 3333);
}

#[test]
fn test_parse_stratum_url_invalid() {
    let result = parse_stratum_url("http://invalid.com");
    assert!(result.is_err());
}

#[test]
fn test_connection_state() {
    let client = StratumClient::new("stratum+tcp://pool.example.com:3333", "worker1");
    assert!(matches!(client.state(), PoolConnection::Disconnected));
}

fn error_of<T: std::fmt::Debug>(result: Result<T, MiningError>) -> (ErrorKind, String) {
    let e = result.unwrap_err();
    (e.kind(), e.message().to_string())
}

#[test]
fn url_errors_name_the_faulty_part() {
    assert_eq!(
        error_of(parse_stratum_url("http://invalid.com")),
        (ErrorKind::Configuration, "Invalid stratum URL prefix".to_string())
    );
    assert_eq!(
        error_of(parse_stratum_url("")),
        (ErrorKind::Configuration, "Invalid stratum URL prefix".to_string())
    );
    assert_eq!(
        error_of(parse_stratum_url("stratum+tcp://pool.example.com")),
        (ErrorKind::Configuration, "Invalid stratum URL format".to_string())
    );
    assert_eq!(
        error_of(parse_stratum_url("stratum+tcp://a:b:3333")),
        (ErrorKind::Configuration, "Invalid stratum URL format".to_string())
    );
    assert_eq!(
        error_of(parse_stratum_url("stratum://pool:http")),
        (ErrorKind::Configuration, "Invalid port number".to_string())
    );
    assert_eq!(
        error_of(parse_stratum_url("stratum://pool:")),
        (ErrorKind::Configuration, "Invalid port number".to_string())
    );
    assert_eq!(
        error_of(parse_stratum_url("stratum://pool:65536")),
        (ErrorKind::Configuration, "Invalid port number".to_string())
    );
    assert_eq!(
        error_of(parse_stratum_url("stratum://pool:0")),
        (ErrorKind::Configuration, "Invalid port number".to_string())
    );
    assert_eq!(
        error_of(parse_stratum_url("stratum://pool:-1")),
        (ErrorKind::Configuration, "Invalid port number".to_string())
    );
}

#[test]
fn url_with_either_scheme_parses() {
    assert_eq!(parse_stratum_url("stratum://h:1").unwrap(), ("h".to_string(), 1));
    assert_eq!(parse_stratum_url("stratum+tcp://h:65535").unwrap(), ("h".to_string(), 65535));
    assert_eq!(parse_stratum_url("stratum://10.0.0.1:0080").unwrap(), ("10.0.0.1".to_string(), 80));
    assert_eq!(parse_stratum_url("stratum://:3333").unwrap(), (String::new(), 3333));
    assert_eq!(parse_stratum_url("stratum://pöol.example:+42").unwrap(), ("pöol.example".to_string(), 42));
}

#[test]
fn ports_are_decimal_from_1_to_65535() {
    assert_eq!(parse_port("3333"), Some(3333));
    assert_eq!(parse_port("+3333"), Some(3333));
    assert_eq!(parse_port("65535"), Some(65535));
    assert_eq!(parse_port("000000000000000000000000065535"), Some(65535));
    assert_eq!(parse_port("65536"), None);
    assert_eq!(parse_port("99999999999999999999"), None);
    assert_eq!(parse_port("0"), None);
    assert_eq!(parse_port(""), None);
    assert_eq!(parse_port("+"), None);
    assert_eq!(parse_port("++1"), None);
    assert_eq!(parse_port("12a"), None);
    assert_eq!(parse_port(" 12"), None);
    assert_eq!(parse_port("١٢"), None);
}

fn job(id: &str) -> MiningJob {
    MiningJob {
        job_id: id.to_string(),
        header: BlockHeader {
            version: 1,
            prev_block_hash: [0; 32],
            merkle_root: [0; 32],
            timestamp: 0,
            bits: 0x1d00ffff,
            nonce: 0,
        },
        target: HashTarget::from_bits(0x1d00ffff),
        extranonce1: vec![1, 2],
        extranonce2_size: 4,
    }
}

#[test]
fn session_follows_connect_and_disconnect() {
    let mut client = StratumClient::new("stratum+tcp://pool.example.com:3333", "worker1");
    assert_eq!(client.extranonce2_size(), 4);
    assert!(client.extranonce1().is_empty());
    assert_eq!(
        error_of(client.get_job()),
        (ErrorKind::PoolConnection, "Not connected to pool".to_string())
    );
    assert_eq!(
        error_of(client.submit_share("j", &[0, 0, 0, 1], 0, 7)),
        (ErrorKind::PoolConnection, "Not connected to pool".to_string())
    );

    assert!(client.connect().is_ok());
    assert!(client.is_connected());
    match client.state() {
        PoolConnection::Connected { url, worker } => {
            assert_eq!(url, "stratum+tcp://pool.example.com:3333");
            assert_eq!(worker, "worker1");
        }
        other => panic!("unexpected state {:?}", other),
    }
    assert!(client.get_job().unwrap().is_none());
    assert_eq!(client.submit_share("j", &[0, 0, 0, 1], 0, 7).unwrap(), true);

    client.disconnect();
    assert!(!client.is_connected());
    assert!(matches!(client.state(), PoolConnection::Disconnected));
}

#[test]
fn only_the_newest_job_is_kept_and_taken_once() {
    let mut client = StratumClient::new("stratum://pool:1", "w");
    client.connect().unwrap();
    client.notify(job("first"));
    client.notify(job("second"));
    let taken = client.get_job().unwrap().unwrap();
    assert_eq!(taken.job_id, "second");
    assert!(client.get_job().unwrap().is_none());
    client.subscribed(vec![0xAB, 0xCD], 8);
    assert_eq!(client.extranonce1(), &[0xAB, 0xCD]);
    assert_eq!(client.extranonce2_size(), 8);
}

#[test]
fn errors_render_with_their_kind() {
    let e = parse_stratum_url("nope").unwrap_err();
    assert_eq!(e.to_string(), "Configuration error: Invalid stratum URL prefix");
    assert_eq!(MiningError::HardwareDetection("x".into()).to_string(), "Hardware detection error: x");
    assert_eq!(MiningError::PoolConnection("x".into()).to_string(), "Pool connection error: x");
    assert_eq!(MiningError::StratumProtocol("x".into()).to_string(), "Stratum protocol error: x");
    assert_eq!(MiningError::ResourceAllocation("x".into()).to_string(), "Resource allocation error: x");
    assert_eq!(MiningError::Coordinator("x".into()).to_string(), "Mining coordinator error: x");
    assert_eq!(MiningError::HashComputation("".into()).to_string(), "Hash computation error: ");
    assert_eq!(MiningError::StratumProtocol("x".into()).kind(), ErrorKind::StratumProtocol);
}
