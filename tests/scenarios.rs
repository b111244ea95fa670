use resp_server::dispatch::{Server, Step};

fn run(server: &mut Server, wire: &[u8], now: u64) -> Vec<u8> {
    match server.process_next(wire, 0, false, "127.0.0.1", "127.0.0.1:50000", now) {
        Step::Handled(out, next) => {
            assert_eq!(next, wire.len());
            out.reply
        }
        other => panic!("unexpected step: {:?}", other),
    }
}

fn cmd(parts: &[&str]) -> Vec<u8> {
    let mut out = format!("*{}\r\n", parts.len()).into_bytes();
    for p in parts {
        out.extend_from_slice(format!("${}\r\n{}\r\n", p.len(), p).as_bytes());
    }
    out
}

#[test]
fn ping_replies_pong() {
    let mut s = Server::new(true, None, None, None);
    assert_eq!(run(&mut s, b"*1\r\n$4\r\nPING\r\n", 0), b"+PONG\r\n".to_vec());
}

#[test]
fn echo_replies_bulk() {
    let mut s = Server::new(true, None, None, None);
    assert_eq!(run(&mut s, b"*2\r\n$4\r\nECHO\r\n$3\r\nhey\r\n", 0), b"$3\r\nhey\r\n".to_vec());
}

#[test]
fn set_then_get() {
    let mut s = Server::new(true, None, None, None);
    assert_eq!(run(&mut s, b"*3\r\n$3\r\nSET\r\n$1\r\nk\r\n$1\r\nv\r\n", 0), b"+OK\r\n".to_vec());
    assert_eq!(run(&mut s, b"*2\r\n$3\r\nGET\r\n$1\r\nk\r\n", 1), b"$1\r\nv\r\n".to_vec());
}

#[test]
fn set_px_expires() {
    let mut s = Server::new(true, None, None, None);
    let set = b"*5\r\n$3\r\nSET\r\n$1\r\nk\r\n$1\r\nv\r\n$2\r\nPX\r\n$2\r\n50\r\n";
    assert_eq!(run(&mut s, set, 1000), b"+OK\r\n".to_vec());
    assert_eq!(run(&mut s, b"*2\r\n$3\r\nGET\r\n$1\r\nk\r\n", 1100), b"$-1\r\n".to_vec());
}

#[test]
fn set_px_live_before_expiry() {
    let mut s = Server::new(true, None, None, None);
    run(&mut s, &cmd(&["SET", "k", "v", "px", "50"]), 1000);
    assert_eq!(run(&mut s, &cmd(&["GET", "k"]), 1049), b"$1\r\nv\r\n".to_vec());
    assert_eq!(run(&mut s, &cmd(&["GET", "k"]), 1050), b"$-1\r\n".to_vec());
}

#[test]
fn xadd_zero_id_refused() {
    let mut s = Server::new(true, None, None, None);
    assert_eq!(
        run(&mut s, &cmd(&["XADD", "s", "0-0", "f", "v"]), 0),
        b"-ERR The ID specified in XADD must be greater than 0-0\r\n".to_vec()
    );
}

#[test]
fn xadd_equal_id_refused() {
    let mut s = Server::new(true, None, None, None);
    assert_eq!(run(&mut s, &cmd(&["XADD", "s", "5-0", "f", "v"]), 0), b"$3\r\n5-0\r\n".to_vec());
    assert_eq!(
        run(&mut s, &cmd(&["XADD", "s", "5-0", "g", "w"]), 0),
        b"-ERR The ID specified in XADD is equal or smaller than the target stream top item\r\n".to_vec()
    );
}
