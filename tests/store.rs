use resp_server::db::{KeyValueType, SetOptions, DB};
use resp_server::dispatch::{Server, Step};

fn cmd(parts: &[&str]) -> Vec<u8> {
    let mut out = format!("*{}\r\n", parts.len()).into_bytes();
    for p in parts {
        out.extend_from_slice(format!("${}\r\n{}\r\n", p.len(), p).as_bytes());
    }
    out
}

fn run(server: &mut Server, parts: &[&str], now: u64) -> Vec<u8> {
    let wire = cmd(parts);
    match server.process_next(&wire, 0, false, "127.0.0.1", "127.0.0.1:50000", now) {
        Step::Handled(out, _) => out.reply,
        other => panic!("unexpected step: {:?}", other),
    }
}

fn get_string(db: &mut DB, key: &[u8], now: u64) -> Option<Vec<u8>> {
    match db.get(key, now) {
        Some(KeyValueType::StringType(s)) => Some(s),
        _ => None,
    }
}

#[test]
fn get_returns_value_until_overwritten_or_deleted() {
    let mut db = DB::new(true, None, None);
    db.add(b"k".to_vec(), KeyValueType::StringType(b"v".to_vec()), &SetOptions::new(), 0);
    assert_eq!(get_string(&mut db, b"k", 1), Some(b"v".to_vec()));
    assert_eq!(get_string(&mut db, b"k", u64::MAX), Some(b"v".to_vec()));
    db.add(b"other".to_vec(), KeyValueType::StringType(b"x".to_vec()), &SetOptions::new(), 2);
    assert_eq!(get_string(&mut db, b"k", 3), Some(b"v".to_vec()));
    db.add(b"k".to_vec(), KeyValueType::StringType(b"w".to_vec()), &SetOptions::new(), 4);
    assert_eq!(get_string(&mut db, b"k", 5), Some(b"w".to_vec()));
    assert!(db.remove(b"k").is_some());
    assert_eq!(get_string(&mut db, b"k", 6), None);
    assert!(db.remove(b"k").is_none());
}

#[test]
fn expiry_is_exclusive_of_the_instant() {
    let mut db = DB::new(true, None, None);
    db.add(b"k".to_vec(), KeyValueType::StringType(b"v".to_vec()), &SetOptions { expiry_in_ms: 10 }, 100);
    assert_eq!(get_string(&mut db, b"k", 109), Some(b"v".to_vec()));
    assert_eq!(get_string(&mut db, b"k", 110), None);
    assert_eq!(db.keys(110).len(), 0);
}

#[test]
fn ttl_past_clock_range_expires_at_its_end() {
    let mut db = DB::new(true, None, None);
    db.add(b"k".to_vec(), KeyValueType::StringType(b"v".to_vec()), &SetOptions { expiry_in_ms: 10 }, u64::MAX - 5);
    assert_eq!(get_string(&mut db, b"k", u64::MAX - 1), Some(b"v".to_vec()));
    assert_eq!(get_string(&mut db, b"k", u64::MAX), None);
}

#[test]
fn sweep_drops_expired_entries_only() {
    let mut db = DB::new(true, None, None);
    db.add(b"a".to_vec(), KeyValueType::StringType(b"1".to_vec()), &SetOptions { expiry_in_ms: 5 }, 0);
    db.add(b"b".to_vec(), KeyValueType::StringType(b"2".to_vec()), &SetOptions::new(), 0);
    db.add(b"c".to_vec(), KeyValueType::StringType(b"3".to_vec()), &SetOptions { expiry_in_ms: 50 }, 0);
    db.remove_expired(10);
    let mut keys = db.keys(0);
    keys.sort();
    assert_eq!(keys, vec![b"b".to_vec(), b"c".to_vec()]);
}

#[test]
fn del_type_keys() {
    let mut s = Server::new(true, None, None, None);
    run(&mut s, &["SET", "a", "1"], 0);
    run(&mut s, &["SET", "b", "2"], 0);
    run(&mut s, &["XADD", "st", "1-1", "f", "v"], 0);
    assert_eq!(run(&mut s, &["TYPE", "a"], 0), b"+string\r\n".to_vec());
    assert_eq!(run(&mut s, &["TYPE", "st"], 0), b"+stream\r\n".to_vec());
    assert_eq!(run(&mut s, &["TYPE", "zz"], 0), b"+none\r\n".to_vec());
    let keys = run(&mut s, &["KEYS", "*"], 0);
    assert!(keys.starts_with(b"*3\r\n"));
    assert_eq!(run(&mut s, &["DEL", "a", "a", "zz", "b"], 0), b":2\r\n".to_vec());
    assert_eq!(run(&mut s, &["KEYS", "*"], 0), b"*1\r\n$2\r\nst\r\n".to_vec());
    assert_eq!(run(&mut s, &["GET", "st"], 0), b"-WRONGTYPE Operation against a key holding the wrong kind of value\r\n".to_vec());
}

#[test]
fn set_errors() {
    let mut s = Server::new(true, None, None, None);
    assert_eq!(run(&mut s, &["SET", "k"], 0), b"-ERR wrong number of arguments for command\r\n".to_vec());
    assert_eq!(run(&mut s, &["SET", "k", "v", "PX", "x"], 0), b"-ERR value is not an integer or out of range\r\n".to_vec());
    assert_eq!(run(&mut s, &["SET", "k", "v", "PX", "0"], 0), b"-ERR value is not an integer or out of range\r\n".to_vec());
    assert_eq!(run(&mut s, &["SET", "k", "v", "EX", "5"], 0), b"-ERR syntax error\r\n".to_vec());
    assert_eq!(run(&mut s, &["GET", "k"], 0), b"$-1\r\n".to_vec());
    assert_eq!(run(&mut s, &["FOO"], 0), b"-ERR unknown command\r\n".to_vec());
    assert_eq!(run(&mut s, &["set", "k", "V"], 0), b"+OK\r\n".to_vec());
    assert_eq!(run(&mut s, &["GET", "k"], 0), b"$1\r\nV\r\n".to_vec());
}

#[test]
fn info_and_config() {
    let mut s = Server::new(true, Some("/tmp/x".to_string()), Some("dump.rdb".to_string()), None);
    let info = run(&mut s, &["INFO", "replication"], 0);
    let text = String::from_utf8(info).unwrap();
    assert!(text.contains("role:master"));
    assert!(text.contains("master_repl_offset:0"));
    assert_eq!(run(&mut s, &["CONFIG", "GET", "dir"], 0), b"*2\r\n$3\r\ndir\r\n$6\r\n/tmp/x\r\n".to_vec());
    assert_eq!(
        run(&mut s, &["CONFIG", "GET", "dbfilename"], 0),
        b"*2\r\n$10\r\ndbfilename\r\n$8\r\ndump.rdb\r\n".to_vec()
    );
    assert_eq!(
        run(&mut s, &["CONFIG", "GET", "dir", "dbfilename"], 0),
        b"*4\r\n$3\r\ndir\r\n$6\r\n/tmp/x\r\n$10\r\ndbfilename\r\n$8\r\ndump.rdb\r\n".to_vec()
    );
    assert_eq!(run(&mut s, &["CONFIG", "GET", "dir", "port"], 0), b"-ERR syntax error\r\n".to_vec());
    let mut r = Server::new(false, None, None, None);
    assert_eq!(run(&mut r, &["INFO", "replication"], 0), b"$10\r\nrole:slave\r\n".to_vec());
}
