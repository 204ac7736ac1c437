use essentia_mining::types::{BlockHeader, HashTarget, MiningStats, Nonce, PoolConnection};

fn sample_header() -> BlockHeader {
    let mut prev = [0u8; 32];
    let mut root = [0u8; 32];
    for i in 0..32 {
        prev[i] = i as u8;
        root[i] = 0xA0 + i as u8;
    }
    BlockHeader {
        version: 0x0102_0304,
        prev_block_hash: prev,
        merkle_root: root,
        timestamp: 0x1122_3344,
        bits: 0x1d00_ffff,
        nonce: 0xDEAD_BEEF,
    }
}

#[test]
fn serialize_is_80_bytes_in_wire_order() {
    let header = sample_header();
    let bytes = header.serialize();
    assert_eq!(bytes.len(), 80);
    assert_eq!(&bytes[0..4], &[0x04, 0x03, 0x02, 0x01]);
    assert_eq!(&bytes[4..36], &header.prev_block_hash[..]);
    assert_eq!(&bytes[36..68], &header.merkle_root[..]);
    assert_eq!(&bytes[68..72], &[0x44, 0x33, 0x22, 0x11]);
    assert_eq!(&bytes[72..76], &[0xff, 0xff, 0x00, 0x1d]);
    assert_eq!(&bytes[76..80], &[0xEF, 0xBE, 0xAD, 0xDE]);
}

#[test]
fn serialize_round_trips_through_a_field_by_field_parse() {
    let header = sample_header();
    let bytes = header.serialize();
    let word = |at: usize| u32::from_le_bytes([bytes[at], bytes[at + 1], bytes[at + 2], bytes[at + 3]]);
    assert_eq!(word(0), header.version);
    assert_eq!(&bytes[4..36], &header.prev_block_hash[..]);
    assert_eq!(&bytes[36..68], &header.merkle_root[..]);
    assert_eq!(word(68), header.timestamp);
    assert_eq!(word(72), header.bits);
    assert_eq!(word(76), header.nonce);
}

#[test]
fn target_from_bits_genesis() {
    let target = HashTarget::from_bits(0x1d00ffff).target;
    let mut expected = [0u8; 32];
    expected[4] = 0xFF;
    expected[5] = 0xFF;
    assert_eq!(target, expected);
    assert_eq!(&target[0..6], &[0x00, 0x00, 0x00, 0x00, 0xFF, 0xFF]);
}

#[test]
fn target_from_bits_places_mantissa_by_exponent() {
    let target = HashTarget::from_bits(0x0312_3456).target;
    let mut expected = [0u8; 32];
    expected[29] = 0x12;
    expected[30] = 0x34;
    expected[31] = 0x56;
    assert_eq!(target, expected);

    let target = HashTarget::from_bits(0x20AB_CDEF).target;
    let mut expected = [0u8; 32];
    expected[0] = 0xAB;
    expected[1] = 0xCD;
    expected[2] = 0xEF;
    assert_eq!(target, expected);
}

#[test]
fn target_from_bits_out_of_range_exponent_is_zero() {
    assert_eq!(HashTarget::from_bits(0x02FF_FFFF).target, [0u8; 32]);
    assert_eq!(HashTarget::from_bits(0x21FF_FFFF).target, [0u8; 32]);
    assert_eq!(HashTarget::from_bits(0xFFFF_FFFF).target, [0u8; 32]);
    assert_eq!(HashTarget::from_bits(0).target, [0u8; 32]);
}

#[test]
fn valid_hash_compares_big_endian() {
    let target = HashTarget::from_bits(0x1d00ffff);
    let mut equal = [0u8; 32];
    equal[4] = 0xFF;
    equal[5] = 0xFF;
    assert!(target.is_valid_hash(&equal));

    let mut below = [0xFFu8; 32];
    below[0] = 0;
    below[1] = 0;
    below[2] = 0;
    below[3] = 0;
    below[4] = 0xFF;
    below[5] = 0xFE;
    assert!(target.is_valid_hash(&below));

    let mut above = [0u8; 32];
    above[3] = 0x01;
    assert!(!target.is_valid_hash(&above));

    let mut just_above = equal;
    just_above[31] = 1;
    assert!(!target.is_valid_hash(&just_above));
}

#[test]
fn valid_hash_is_monotone() {
    let target = HashTarget { target: [0x40; 32] };
    let mut higher = [0x40u8; 32];
    higher[31] = 0x3F;
    let mut lower = higher;
    lower[10] = 0x00;
    assert!(target.is_valid_hash(&higher));
    assert!(target.is_valid_hash(&lower));
    assert!(target.is_valid_hash(&[0u8; 32]));
    assert!(!HashTarget { target: [0u8; 32] }.is_valid_hash(&lower));
}

#[test]
fn nonce_increment_stops_at_the_end() {
    let mut nonce = Nonce(41);
    assert_eq!(nonce.increment(), Some(42));
    assert_eq!(nonce.0, 42);
    let mut last = Nonce(u32::MAX);
    assert_eq!(last.increment(), None);
    assert_eq!(last.0, u32::MAX);
    let mut almost = Nonce(u32::MAX - 1);
    assert_eq!(almost.increment(), Some(u32::MAX));
    assert_eq!(Nonce::default().0, 0);
}

#[test]
fn defaults_are_empty() {
    let stats = MiningStats::default();
    assert_eq!(stats.total_hashes, 0);
    assert_eq!(stats.hashrate, 0);
    assert_eq!(stats.shares_found, 0);
    assert_eq!(stats.estimated_time_to_block, None);
    assert!(matches!(PoolConnection::default(), PoolConnection::Disconnected));
}

fn hex(text: &str) -> Vec<u8> {
    (0..text.len())
        .step_by(2)
        .map(|i| u8::from_str_radix(&text[i..i + 2], 16).unwrap())
        .collect()
}

#[test]
fn genesis_header_hashes_to_the_genesis_hash() {
    let mut merkle_root = [0u8; 32];
    merkle_root.copy_from_slice(&hex("3ba3edfd7a7b12b27ac72c3e67768f617fc81bc3888a51323a9fb8aa4b1e5e4a"));
    let header = BlockHeader {
        version: 1,
        prev_block_hash: [0; 32],
        merkle_root,
        timestamp: 1_231_006_505,
        bits: 0x1d00ffff,
        nonce: 2_083_236_893,
    };
    let hash = essentia_mining::sha256::double_sha256(&header.serialize());
    assert_eq!(
        hash.to_vec(),
        hex("6fe28c0ab6f1b372c1a6a246ae63f74f931e8365e15a089c68d6190000000000")
    );
}
