use resp_server::dispatch::{Server, Step};
use resp_server::stream_commands::{XRead, XReadOutcome};
use resp_server::streams::{IdSpec, Streams, XAddError};

fn cmd(parts: &[&str]) -> Vec<u8> {
    let mut out = format!("*{}\r\n", parts.len()).into_bytes();
    for p in parts {
        out.extend_from_slice(format!("${}\r\n{}\r\n", p.len(), p).as_bytes());
    }
    out
}

fn run(server: &mut Server, parts: &[&str], now: u64) -> Vec<u8> {
    let wire = cmd(parts);
    match server.process_next(&wire, 0, false, "127.0.0.1", "127.0.0.1:50000", now) {
        Step::Handled(out, _) => out.reply,
        other => panic!("unexpected step: {:?}", other),
    }
}

#[test]
fn ids_stay_in_increasing_order() {
    let mut st = Streams::new(1, 1, vec![b"a".to_vec()]);
    assert_eq!(st.add_entry(IdSpec::Explicit(1, 2), vec![], 0), Ok((1, 2)));
    assert_eq!(st.add_entry(IdSpec::Partial(3), vec![], 0), Ok((3, 0)));
    assert_eq!(st.add_entry(IdSpec::Partial(3), vec![], 0), Ok((3, 1)));
    assert_eq!(st.add_entry(IdSpec::Explicit(2, 9), vec![], 0), Err(XAddError::NotGreater));
    assert_eq!(st.number_entries(), 4);
    let ids: Vec<(u64, u64)> = st.range((0, 0), (u64::MAX, u64::MAX)).iter().map(|e| (e.ms, e.seq)).collect();
    assert_eq!(ids, vec![(1, 1), (1, 2), (3, 0), (3, 1)]);
    assert_eq!(st.last_entry_key(), (3, 1));
}

#[test]
fn refused_add_leaves_stream_unchanged() {
    let mut st = Streams::new(5, 0, vec![]);
    assert_eq!(st.add_entry(IdSpec::Explicit(5, 0), vec![b"g".to_vec()], 0), Err(XAddError::NotGreater));
    assert_eq!(st.add_entry(IdSpec::Explicit(4, 7), vec![], 0), Err(XAddError::NotGreater));
    assert_eq!(st.add_entry(IdSpec::Explicit(0, 0), vec![], 0), Err(XAddError::ZeroId));
    assert_eq!(st.number_entries(), 1);
    assert_eq!(st.last_entry_key(), (5, 0));
}

#[test]
fn partial_and_auto_ids() {
    let mut s = Server::new(true, None, None, None);
    assert_eq!(run(&mut s, &["XADD", "s", "0-*", "f", "v"], 0), b"$3\r\n0-1\r\n".to_vec());
    assert_eq!(run(&mut s, &["XADD", "s", "0-*", "f", "v"], 0), b"$3\r\n0-2\r\n".to_vec());
    assert_eq!(run(&mut s, &["XADD", "s", "7-*", "f", "v"], 0), b"$3\r\n7-0\r\n".to_vec());
    assert_eq!(run(&mut s, &["XADD", "s", "*", "f", "v"], 1234), b"$6\r\n1234-0\r\n".to_vec());
    assert_eq!(run(&mut s, &["XADD", "s", "*", "f", "v"], 1234), b"$6\r\n1234-1\r\n".to_vec());
    assert_eq!(run(&mut s, &["XADD", "t", "0-*", "f", "v"], 0), b"$3\r\n0-1\r\n".to_vec());
}

#[test]
fn xadd_errors() {
    let mut s = Server::new(true, None, None, None);
    run(&mut s, &["SET", "k", "v"], 0);
    assert_eq!(
        run(&mut s, &["XADD", "k", "1-1", "f", "v"], 0),
        b"-WRONGTYPE Operation against a key holding the wrong kind of value\r\n".to_vec()
    );
    assert_eq!(
        run(&mut s, &["XADD", "s", "x-1", "f", "v"], 0),
        b"-ERR Invalid stream ID specified as stream command argument\r\n".to_vec()
    );
    assert_eq!(run(&mut s, &["XADD", "s", "1-1", "f"], 0), b"-ERR wrong number of arguments for command\r\n".to_vec());
}

#[test]
fn xrange_full_and_bounded() {
    let mut s = Server::new(true, None, None, None);
    run(&mut s, &["XADD", "s", "1-1", "a", "1"], 0);
    run(&mut s, &["XADD", "s", "2-0", "b", "2"], 0);
    run(&mut s, &["XADD", "s", "3-5", "c", "3"], 0);
    let all = run(&mut s, &["XRANGE", "s", "-", "+"], 0);
    let expect = b"*3\r\n*2\r\n$3\r\n1-1\r\n*2\r\n$1\r\na\r\n$1\r\n1\r\n*2\r\n$3\r\n2-0\r\n*2\r\n$1\r\nb\r\n$1\r\n2\r\n*2\r\n$3\r\n3-5\r\n*2\r\n$1\r\nc\r\n$1\r\n3\r\n";
    assert_eq!(all, expect.to_vec());
    let mid = run(&mut s, &["XRANGE", "s", "1-2", "3"], 0);
    assert_eq!(mid, b"*2\r\n*2\r\n$3\r\n2-0\r\n*2\r\n$1\r\nb\r\n$1\r\n2\r\n*2\r\n$3\r\n3-5\r\n*2\r\n$1\r\nc\r\n$1\r\n3\r\n".to_vec());
    assert_eq!(run(&mut s, &["XRANGE", "nope", "-", "+"], 0), b"*0\r\n".to_vec());
    assert_eq!(
        run(&mut s, &["XRANGE", "s", "a", "+"], 0),
        b"-ERR Invalid stream ID specified as stream command argument\r\n".to_vec()
    );
}

#[test]
fn xread_is_exclusive() {
    let mut s = Server::new(true, None, None, None);
    run(&mut s, &["XADD", "s", "1-1", "a", "1"], 0);
    run(&mut s, &["XADD", "s", "1-2", "b", "2"], 0);
    let r = run(&mut s, &["XREAD", "streams", "s", "1-1"], 0);
    assert_eq!(r, b"*1\r\n*2\r\n$1\r\ns\r\n*1\r\n*2\r\n$3\r\n1-2\r\n*2\r\n$1\r\nb\r\n$1\r\n2\r\n".to_vec());
    assert_eq!(run(&mut s, &["XREAD", "streams", "s", "1-2"], 0), b"*-1\r\n".to_vec());
    assert_eq!(run(&mut s, &["XREAD", "streams", "s"], 0), b"-ERR syntax error\r\n".to_vec());
}

#[test]
fn xread_block_polls_until_entries() {
    let mut s = Server::new(true, None, None, None);
    run(&mut s, &["XADD", "s", "1-1", "a", "1"], 0);
    let args: Vec<Vec<u8>> = ["XREAD", "block", "100", "streams", "s", "1-1"].iter().map(|p| p.as_bytes().to_vec()).collect();
    let x = XRead::new(&args, false);
    let blocked = match x.handle(&s.db, 10) {
        XReadOutcome::Blocked(b) => b,
        other => panic!("expected blocked, got {:?}", other),
    };
    assert_eq!(blocked.deadline, Some(110));
    assert_eq!(blocked.poll(&s.db, 50), None);
    run(&mut s, &["XADD", "s", "2-0", "b", "2"], 60);
    let r = blocked.poll(&s.db, 70).unwrap();
    assert_eq!(r, b"*1\r\n*2\r\n$1\r\ns\r\n*1\r\n*2\r\n$3\r\n2-0\r\n*2\r\n$1\r\nb\r\n$1\r\n2\r\n".to_vec());
}

#[test]
fn xread_block_times_out_with_nil() {
    let s = Server::new(true, None, None, None);
    let args: Vec<Vec<u8>> = ["XREAD", "BLOCK", "100", "STREAMS", "s", "0-0"].iter().map(|p| p.as_bytes().to_vec()).collect();
    let blocked = match XRead::new(&args, false).handle(&s.db, 0) {
        XReadOutcome::Blocked(b) => b,
        other => panic!("expected blocked, got {:?}", other),
    };
    assert_eq!(blocked.poll(&s.db, 99), None);
    assert_eq!(blocked.poll(&s.db, 100), Some(b"*-1\r\n".to_vec()));
}
