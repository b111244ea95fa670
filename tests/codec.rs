use bytes::BytesMut;
use resp_server::codec::{parse_buffer, parse_rdb_at, parse_value_at, DataType, ParseError};

fn encode(d: &DataType) -> Vec<u8> {
    d.encode()
}

fn same(a: &DataType, b: &DataType) -> bool {
    match (a, b) {
        (DataType::Array(x, _, _), DataType::Array(y, _, _)) => {
            x.len() == y.len() && x.iter().zip(y.iter()).all(|(p, q)| same(p, q))
        }
        (DataType::SimpleString(x, _, _), DataType::SimpleString(y, _, _)) => x == y,
        (DataType::SimpleError(x, _, _), DataType::SimpleError(y, _, _)) => x == y,
        (DataType::Integers(x, _, _), DataType::Integers(y, _, _)) => x == y,
        (DataType::BulkString(x, _, _), DataType::BulkString(y, _, _)) => x == y,
        (DataType::Nil(_, _), DataType::Nil(_, _)) => true,
        (DataType::NilArray(_, _), DataType::NilArray(_, _)) => true,
        _ => false,
    }
}

fn round_trip(d: DataType) {
    let wire = encode(&d);
    let frames = parse_buffer(&wire).expect("parses");
    assert_eq!(frames.consumed, wire.len());
    assert!(!frames.incomplete);
    assert_eq!(frames.values.len(), 1);
    assert!(same(&frames.values[0], &d), "{:?} vs {:?}", frames.values[0], d);
    assert_eq!(frames.values[0].len(), wire.len());
}

#[test]
fn round_trip_each_kind() {
    round_trip(DataType::SimpleString(b"OK".to_vec(), 0, 0));
    round_trip(DataType::SimpleError(b"ERR bad".to_vec(), 0, 0));
    round_trip(DataType::Integers(0, 0, 0));
    round_trip(DataType::Integers(-42, 0, 0));
    round_trip(DataType::Integers(i64::MIN, 0, 0));
    round_trip(DataType::Integers(i64::MAX, 0, 0));
    round_trip(DataType::BulkString(b"".to_vec(), 0, 0));
    round_trip(DataType::BulkString(b"a\r\nb".to_vec(), 0, 0));
    round_trip(DataType::Nil(0, 0));
    round_trip(DataType::Array(vec![], 0, 0));
    round_trip(DataType::NilArray(0, 0));
}

#[test]
fn round_trip_nested_array() {
    let inner = DataType::Array(
        vec![DataType::BulkString(b"5-0".to_vec(), 0, 0), DataType::Integers(7, 0, 0)],
        0,
        0,
    );
    round_trip(DataType::Array(vec![inner, DataType::Nil(0, 0), DataType::SimpleString(b"x".to_vec(), 0, 0)], 0, 0));
}

#[test]
fn exact_encodings() {
    assert_eq!(encode(&DataType::Integers(-12, 0, 0)), b":-12\r\n".to_vec());
    assert_eq!(encode(&DataType::BulkString(b"hey".to_vec(), 0, 0)), b"$3\r\nhey\r\n".to_vec());
    assert_eq!(encode(&DataType::Nil(0, 0)), b"$-1\r\n".to_vec());
    assert_eq!(encode(&DataType::NilArray(0, 0)), b"*-1\r\n".to_vec());
    let arr = DataType::Array(vec![DataType::BulkString(b"PING".to_vec(), 0, 0)], 0, 0);
    assert_eq!(encode(&arr), b"*1\r\n$4\r\nPING\r\n".to_vec());
}

#[test]
fn pipeline_of_two_commands() {
    let wire = b"*1\r\n$4\r\nPING\r\n*2\r\n$4\r\nECHO\r\n$3\r\nhey\r\n";
    let frames = parse_buffer(wire).unwrap();
    assert_eq!(frames.values.len(), 2);
    assert_eq!(frames.consumed, wire.len());
    assert_eq!(frames.values[0].len(), 14);
    assert_eq!(frames.values[1].len(), wire.len() - 14);
}

#[test]
fn incomplete_tail_is_reported() {
    let wire = b"+OK\r\n*2\r\n$4\r\nECHO\r\n";
    let frames = parse_buffer(wire).unwrap();
    assert_eq!(frames.values.len(), 1);
    assert_eq!(frames.consumed, 5);
    assert!(frames.incomplete);
    assert!(matches!(parse_value_at(b"$5\r\nab", 0), Err(ParseError::Incomplete)));
    assert!(matches!(parse_value_at(b"+OK\r", 0), Err(ParseError::Incomplete)));
}

#[test]
fn malformed_bytes_are_refused() {
    assert!(matches!(parse_buffer(b"!x\r\n"), Err(ParseError::Malformed)));
    assert!(matches!(parse_value_at(b":12a\r\n", 0), Err(ParseError::Malformed)));
    assert!(matches!(parse_value_at(b"$-2\r\n", 0), Err(ParseError::Malformed)));
    assert!(matches!(parse_value_at(b"$3\r\nabcd\r\n", 0), Err(ParseError::Malformed)));
    assert!(matches!(parse_value_at(b"+a\nb\r\n", 0), Err(ParseError::Malformed)));
    assert!(matches!(parse_value_at(b":99999999999999999999\r\n", 0), Err(ParseError::Malformed)));
}

#[test]
fn snapshot_framing_without_crlf() {
    let wire = b"$3\r\nabc*1\r\n$4\r\nPING\r\n";
    let (payload, next) = parse_rdb_at(wire, 0).unwrap();
    assert_eq!(payload, b"abc".to_vec());
    assert_eq!(next, 7);
    assert!(matches!(parse_rdb_at(b"$5\r\nab", 0), Err(ParseError::Incomplete)));
}

#[test]
fn new_reads_a_bytes_buffer() {
    let buf = BytesMut::from(&b"+OK\r\n:5\r\n"[..]);
    let values = DataType::new(&buf);
    assert_eq!(values.len(), 2);
    assert!(matches!(&values[0], DataType::SimpleString(s, 0, 5) if s == b"OK"));
    assert!(matches!(&values[1], DataType::Integers(5, 5, 9)));
    let bad = BytesMut::from(&b"?\r\n"[..]);
    let values = DataType::new(&bad);
    assert_eq!(values.len(), 1);
    assert!(matches!(&values[0], DataType::Invalid(_)));
}

#[test]
fn to_wire_uses_kind_of_value() {
    let s = DataType::SimpleString(b"x".to_vec(), 0, 0);
    assert_eq!(s.to_wire(b"hello"), b"+hello\r\n".to_vec());
    let b = DataType::BulkString(b"x".to_vec(), 0, 0);
    assert_eq!(b.to_wire(b"hello"), b"$5\r\nhello\r\n".to_vec());
    let i = DataType::Integers(3, 0, 0);
    assert_eq!(i.to_wire(b"ignored"), b":3\r\n".to_vec());
    let n = DataType::Nil(0, 0);
    assert_eq!(n.to_wire(b"q"), b"-Unsupported value or command: q\r\n".to_vec());
}

#[test]
fn parsed_ping_has_its_wire_length() {
    let v = DataType::new(&BytesMut::from(&b"*1\r\n$4\r\nPING\r\n"[..]));
    assert_eq!(v[0].len(), 14);
}
