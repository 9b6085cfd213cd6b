use kvserver::geo::{compact_int64_to_int32, deinterleave, interleave, spread_int32_to_int64};
use kvserver::rdb::{parse_expiry, parse_key_value, parse_len, parse_string, parse_value_by_type, HeaderMetadata};
use kvserver::rdb::parse_snapshot;
use kvserver::replication::empty_snapshot;
use kvserver::utils::{is_matched, num_bytes, offset_difference};

#[test]
fn spread_and_compact() {
    assert_eq!(spread_int32_to_int64(0b1011), 0b1_00_01_01);
    assert_eq!(spread_int32_to_int64(u32::MAX), 0x5555_5555_5555_5555);
    assert_eq!(compact_int64_to_int32(0x5555_5555_5555_5555), u32::MAX);
    assert_eq!(compact_int64_to_int32(0xAAAA_AAAA_AAAA_AAAA), 0);
    assert_eq!(interleave(1, 0), 1);
    assert_eq!(interleave(0, 1), 2);
    assert_eq!(interleave(3, 1), 0b0111);
}

#[test]
fn interleave_round_trip() {
    for (x, y) in [(0u32, 0u32), (12345, 67890), (u32::MAX, 1), ((1 << 26) - 1, 3 << 20)] {
        let code = interleave(x, y);
        assert_eq!(deinterleave(code), (x, y));
    }
}

#[test]
fn geohash_of_known_cell() {
    // The 52-bit code the server stores for a point is two 26-bit grid numbers interleaved.
    let lat: u32 = 0x2AB_CDEF & ((1 << 26) - 1);
    let lon: u32 = 0x155_4321 & ((1 << 26) - 1);
    let code = interleave(lat, lon);
    assert!(code < (1u64 << 52));
    assert_eq!(deinterleave(code), (lat, lon));
}

#[test]
fn rdb_lengths() {
    assert_eq!(parse_len(&[0x0A]), (10, 1));
    assert_eq!(parse_len(&[0x41, 0x02]), (258, 2));
    assert_eq!(parse_len(&[0x80, 0, 1, 0, 0]), (65536, 5));
}

#[test]
fn rdb_strings() {
    assert_eq!(parse_string(&[3, b'a', b'b', b'c', 9]), (b"abc".to_vec(), 4));
    assert_eq!(parse_string(&[0xC0, 0xFF]), (b"-1".to_vec(), 2));
    assert_eq!(parse_string(&[0xC1, 0x01, 0x00]), (b"256".to_vec(), 3));
    assert_eq!(parse_string(&[0xC2, 0x80, 0, 0, 0]), (b"-2147483648".to_vec(), 5));
    assert_eq!(parse_value_by_type(0, &[1, b'z']), (b"z".to_vec(), 2));
    assert_eq!(parse_key_value(&[0, 2, b'k', b'1']), (b"k1".to_vec(), 4, 0));
}

#[test]
fn rdb_expiry() {
    assert_eq!(parse_expiry(&[0xFD, 1, 0, 0, 0]), Some((1000, false, 5)));
    assert_eq!(parse_expiry(&[0xFC, 0x15, 0x72, 0xE7, 0x07, 0x8F, 0x01, 0, 0]), Some((0x018F07E77215, true, 9)));
    assert_eq!(parse_expiry(&[0x00]), None);
}

#[test]
fn rdb_header() {
    let mut bytes = b"REDIS0011".to_vec();
    bytes.extend_from_slice(&[0xFA, 9]);
    bytes.extend_from_slice(b"redis-ver");
    bytes.extend_from_slice(&[5]);
    bytes.extend_from_slice(b"7.2.0");
    bytes.extend_from_slice(&[0xFA, 10]);
    bytes.extend_from_slice(b"redis-bits");
    bytes.extend_from_slice(&[0xC0, 64]);
    let end = bytes.len();
    bytes.push(0xFE);
    let (h, idx) = HeaderMetadata::from_bytes(&bytes);
    assert_eq!(idx, end);
    assert_eq!(h.magic_string, b"REDIS".to_vec());
    assert_eq!(h.version_number_string, b"0011".to_vec());
    assert_eq!(h.metadata_map.get(b"redis-ver"), Some(&b"7.2.0".to_vec()));
    assert_eq!(h.metadata_map.get(b"redis-bits"), Some(&b"64".to_vec()));
    assert_eq!(h.metadata_map.len(), 2);
}

#[test]
fn glob_matching() {
    assert!(is_matched(b"*", b"anything"));
    assert!(!is_matched(b"", b""));
    assert!(is_matched(b"ab*", b"abc"));
    assert!(is_matched(b"*bc", b"abc"));
    assert!(is_matched(b"a*c", b"abc"));
    assert!(!is_matched(b"ab*bc", b"abc"));
    assert!(is_matched(b"abc", b"abc"));
    assert!(!is_matched(b"abc", b"abd"));
}

#[test]
fn offsets() {
    assert_eq!(offset_difference(100, 37), 63);
    assert_eq!(num_bytes(b"*1\r\n$4\r\nPING\r\n"), 14);
}

#[test]
fn snapshot_with_keys() {
    let empty = parse_snapshot(&empty_snapshot()).expect("the empty snapshot is well formed");
    assert!(empty.is_empty());

    let mut bytes = b"REDIS0011".to_vec();
    bytes.extend_from_slice(&[0xFA, 3]);
    bytes.extend_from_slice(b"ver");
    bytes.extend_from_slice(&[1, b'7']);
    bytes.extend_from_slice(&[0xFE, 0x00, 0xFB, 2, 1]);
    bytes.extend_from_slice(&[0xFC, 0x15, 0x72, 0xE7, 0x07, 0x8F, 0x01, 0, 0]);
    bytes.extend_from_slice(&[0x00, 3]);
    bytes.extend_from_slice(b"foo");
    bytes.extend_from_slice(&[3]);
    bytes.extend_from_slice(b"bar");
    bytes.extend_from_slice(&[0x00, 1, b'n', 0xC0, 7]);
    bytes.push(0xFF);
    bytes.extend_from_slice(&[0; 8]);
    let keys = parse_snapshot(&bytes).expect("well formed");
    assert_eq!(keys.len(), 2);
    assert_eq!(keys[0].key, b"foo".to_vec());
    assert_eq!(keys[0].value, b"bar".to_vec());
    assert_eq!(keys[0].expire_at, Some(0x018F07E77215));
    assert_eq!(keys[1].key, b"n".to_vec());
    assert_eq!(keys[1].value, b"7".to_vec());
    assert_eq!(keys[1].expire_at, None);

    let mut truncated = bytes.clone();
    truncated.truncate(30);
    assert!(parse_snapshot(&truncated).is_none());
    assert!(parse_snapshot(b"REDIS").is_none());
}
