use resp_server::db::{KeyValueType, DB, RDB};
use resp_server::rdb::parse_rdb_file;

fn sample() -> Vec<u8> {
    let mut b = b"REDIS0011".to_vec();
    b.extend_from_slice(&[0xFA, 9]);
    b.extend_from_slice(b"redis-ver");
    b.extend_from_slice(&[5]);
    b.extend_from_slice(b"7.2.0");
    b.extend_from_slice(&[0xFE, 0x00, 0xFB, 0x03, 0x02]);
    b.extend_from_slice(&[0x00, 3]);
    b.extend_from_slice(b"foo");
    b.extend_from_slice(&[3]);
    b.extend_from_slice(b"bar");
    b.push(0xFC);
    b.extend_from_slice(&1_000u64.to_le_bytes());
    b.extend_from_slice(&[0x00, 3]);
    b.extend_from_slice(b"old");
    b.extend_from_slice(&[1]);
    b.extend_from_slice(b"x");
    b.push(0xFC);
    b.extend_from_slice(&5_000u64.to_le_bytes());
    b.extend_from_slice(&[0x00, 3]);
    b.extend_from_slice(b"new");
    b.extend_from_slice(&[1]);
    b.extend_from_slice(b"y");
    b.push(0xFF);
    b.extend_from_slice(&[0; 8]);
    b
}

#[test]
fn snapshot_keys_decode() {
    let keys = parse_rdb_file(&sample()).expect("decodes");
    assert_eq!(keys.len(), 3);
    assert_eq!(keys[0].key, b"foo".to_vec());
    assert_eq!(keys[0].value, b"bar".to_vec());
    assert_eq!(keys[0].expires_at_ms, None);
    assert_eq!(keys[1].expires_at_ms, Some(1_000));
    assert_eq!(keys[2].key, b"new".to_vec());
    assert_eq!(keys[2].expires_at_ms, Some(5_000));
}

#[test]
fn snapshot_seconds_expiry_and_bad_bytes() {
    let mut b = b"REDIS0011".to_vec();
    b.push(0xFD);
    b.extend_from_slice(&7u32.to_le_bytes());
    b.extend_from_slice(&[0x00, 1, b'k', 1, b'v', 0xFF]);
    let keys = parse_rdb_file(&b).unwrap();
    assert_eq!(keys[0].expires_at_ms, Some(7_000));
    assert!(parse_rdb_file(b"REDIS").is_none());
    let mut bad = b"REDIS0011".to_vec();
    bad.extend_from_slice(&[0x00, 9, b'k']);
    assert!(parse_rdb_file(&bad).is_none());
}

#[test]
fn snapshot_loads_live_keys_only() {
    let keys = parse_rdb_file(&sample()).unwrap();
    let mut db = DB::new(false, None, None);
    RDB::load_keys(&mut db, &keys, 2_000, 100);
    let mut names = db.keys(100);
    names.sort();
    assert_eq!(names, vec![b"foo".to_vec(), b"new".to_vec()]);
    assert!(matches!(db.get(b"new", 100 + 2_999), Some(KeyValueType::StringType(_))));
    assert!(db.get(b"new", 100 + 3_000).is_none());
}

#[test]
fn empty_snapshot_is_framed() {
    let framed = RDB::empty().expect("the embedded text decodes");
    assert!(framed.starts_with(b"$88\r\nREDIS0011"));
    assert_eq!(framed.len(), 5 + 88);
    assert_eq!(framed[framed.len() - 9], 0xFF);
}
