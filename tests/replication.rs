use bytes::BytesMut;
use resp_server::dispatch::Incoming;
use resp_server::dispatch::{Server, Step};
use resp_server::repl::{ReplicationConfig, WaitStart, WaitStep};
use resp_server::slave::{advance, Action, Config, Event, Handshake, MasterNodeConfig};

fn cmd(parts: &[&str]) -> Vec<u8> {
    let mut out = format!("*{}\r\n", parts.len()).into_bytes();
    for p in parts {
        out.extend_from_slice(format!("${}\r\n{}\r\n", p.len(), p).as_bytes());
    }
    out
}

fn run_on(server: &mut Server, parts: &[&str], peer: &str, from_primary: bool, now: u64) -> Vec<u8> {
    let wire = cmd(parts);
    match server.process_next(&wire, 0, from_primary, "127.0.0.1", peer, now) {
        Step::Handled(out, _) => out.reply,
        other => panic!("unexpected step: {:?}", other),
    }
}

#[test]
fn handshake_walks_its_steps() {
    let cfg = MasterNodeConfig::new("127.0.0.1".to_string(), 6379, 6380);
    let (s, a) = advance(Handshake::Init(resp_server::slave::Init::new()), &Event::Start, &cfg);
    assert!(matches!(a, Action::Send(ref c) if c == b"*1\r\n$4\r\nPING\r\n"));
    let (s, a) = advance(s, &Event::Reply(b"+PONG\r\n".to_vec()), &cfg);
    assert!(matches!(a, Action::Send(ref c) if c == &cmd(&["REPLCONF", "listening-port", "6380"])));
    let (s, a) = advance(s, &Event::Reply(b"+OK\r\n".to_vec()), &cfg);
    assert!(matches!(a, Action::Send(ref c) if c == &cmd(&["REPLCONF", "capa", "psync2"])));
    let (s, a) = advance(s, &Event::Reply(b"+OK\r\n".to_vec()), &cfg);
    assert!(matches!(a, Action::Send(ref c) if c == &cmd(&["PSYNC", "?", "-1"])));
    let (s, a) = advance(s, &Event::Reply(b"+FULLRESYNC abc 0\r\n".to_vec()), &cfg);
    assert!(matches!(a, Action::Done));
    assert!(matches!(s, Handshake::Complete(_)));
    let (s2, a) = advance(s, &Event::NoReply, &cfg);
    assert!(matches!(a, Action::Nothing));
    assert_eq!(s2, s);
}

#[test]
fn handshake_retries_then_gives_up() {
    let cfg = MasterNodeConfig::new("127.0.0.1".to_string(), 6379, 6380);
    let (mut s, _) = advance(Handshake::Init(resp_server::slave::Init::new()), &Event::Start, &cfg);
    for k in 1..5u64 {
        let (n, a) = advance(s, &Event::Reply(b"+NOPE\r\n".to_vec()), &cfg);
        assert!(matches!(a, Action::SleepThenSend(ms, _) if ms == 1000 * k));
        s = n;
    }
    let (n, a) = advance(s, &Event::NoReply, &cfg);
    assert!(matches!(a, Action::GiveUp));
    assert_eq!(n, Handshake::Failed);
}

#[test]
fn replica_counts_applied_bytes() {
    let mut cfg = Config::new("127.0.0.1".to_string(), 6379, 6380);
    cfg.track_offset(10);
    assert_eq!(cfg.get_offset(), 0);
    cfg.synced_in();
    cfg.track_offset(10);
    cfg.track_offset(5);
    assert_eq!(cfg.get_offset(), 15);
}

#[test]
fn replica_stream_applies_silently_and_answers_getack() {
    let cfg = Config::new("127.0.0.1".to_string(), 6379, 6380);
    let mut s = Server::new(false, None, None, Some(cfg));
    let mut wire = b"+FULLRESYNC 75cd7bc10c49047e0d163660f3b90625b1af31dc 0\r\n$3\r\nabc".to_vec();
    let set = cmd(&["SET", "k", "v"]);
    wire.extend_from_slice(&set);
    let getack = cmd(&["REPLCONF", "GETACK", "*"]);
    wire.extend_from_slice(&getack);
    let mut pos = 0;
    let mut replies = Vec::new();
    while pos < wire.len() {
        match s.process_next(&wire, pos, true, "127.0.0.1", "127.0.0.1:6379", 0) {
            Step::Handled(out, next) => {
                replies.push(out.reply);
                pos = next;
            }
            other => panic!("unexpected step: {:?}", other),
        }
    }
    assert_eq!(replies.len(), 4);
    assert!(replies[0].is_empty() && replies[1].is_empty() && replies[2].is_empty());
    let n = set.len().to_string();
    let expect = format!("*3\r\n$8\r\nREPLCONF\r\n$3\r\nACK\r\n${}\r\n{}\r\n", n.len(), n);
    assert_eq!(replies[3], expect.into_bytes());
    assert_eq!(run_on(&mut s, &["GET", "k"], "client:1", false, 0), b"$1\r\nv\r\n".to_vec());
}

#[test]
fn primary_registers_syncs_and_fans_out() {
    let mut s = Server::new(true, None, None, None);
    let peer = "127.0.0.1:40000";
    assert_eq!(run_on(&mut s, &["REPLCONF", "listening-port", "6380"], peer, false, 0), b"+OK\r\n".to_vec());
    assert_eq!(run_on(&mut s, &["REPLCONF", "capa", "psync2"], peer, false, 0), b"+OK\r\n".to_vec());
    assert_eq!(s.repl.num_replicas(), 1);
    assert!(!s.repl.replication_connection(peer));
    let reply = run_on(&mut s, &["PSYNC", "?", "-1"], peer, false, 0);
    let line = b"+FULLRESYNC 75cd7bc10c49047e0d163660f3b90625b1af31dc 0\r\n";
    assert!(reply.starts_with(line));
    let rest = &reply[line.len()..];
    assert!(rest.starts_with(b"$88\r\nREDIS0011"));
    assert_eq!(rest.len(), 5 + 88);
    assert!(s.repl.replication_connection(peer));

    let set = cmd(&["SET", "k", "v"]);
    let get = cmd(&["GET", "k"]);
    let bad = cmd(&["SET", "k"]);
    for w in [&set, &get, &bad] {
        match s.process_next(w, 0, false, "127.0.0.1", "127.0.0.1:1", 0) {
            Step::Handled(_, _) => {}
            other => panic!("unexpected step: {:?}", other),
        }
    }
    let out = s.repl.drain();
    assert_eq!(out.len(), 1);
    assert_eq!(out[0].0, peer.to_string());
    assert_eq!(out[0].1, set);
    assert!(s.repl.drain()[0].1.is_empty());

    assert_eq!(s.repl.num_replicas_acked(), 0);
    assert!(s.repl.replication_acked(peer, 1000));
    assert_eq!(s.repl.num_replicas_acked(), 1);
}

#[test]
fn wait_with_nothing_pending_replies_at_once() {
    let mut s = Server::new(true, None, None, None);
    assert_eq!(run_on(&mut s, &["WAIT", "3", "100"], "c:1", false, 0), b":0\r\n".to_vec());
    assert_eq!(run_on(&mut s, &["WAIT", "x", "100"], "c:1", false, 0), b"-ERR value is not an integer or out of range\r\n".to_vec());
}

#[test]
fn wait_polls_until_acked_or_deadline() {
    let mut rc = ReplicationConfig::new();
    rc.add_node("127.0.0.1", 6380, "a:1");
    rc.add_node("127.0.0.1", 6381, "b:1");
    rc.update_psync_repl_id("a:1", -1);
    rc.update_psync_repl_id("b:1", -1);
    rc.append(cmd(&["SET", "k", "v"]));
    let sent = rc.drain();
    assert_eq!(sent.len(), 2);
    let n = sent[0].1.len() as u64;
    let (st, peers) = match rc.begin_wait(5, 500, 1000) {
        WaitStart::Waiting(st, peers) => (st, peers),
        other => panic!("expected waiting, got {:?}", other),
    };
    assert_eq!(peers.len(), 2);
    assert_eq!(st.needed, 2);
    assert_eq!(st.deadline, Some(1500));
    assert!(matches!(rc.poll_wait(&st, 1100), WaitStep::Pending));
    rc.replication_acked("a:1", n);
    assert!(matches!(rc.poll_wait(&st, 1200), WaitStep::Pending));
    assert!(matches!(rc.poll_wait(&st, 1500), WaitStep::Done(1)));
    rc.replication_acked("b:1", n + 37);
    assert!(matches!(rc.poll_wait(&st, 1300), WaitStep::Done(2)));
}

#[test]
fn acks_never_exceed_bytes_sent() {
    let mut rc = ReplicationConfig::new();
    rc.add_node("127.0.0.1", 6380, "a:1");
    rc.update_psync_repl_id("a:1", -1);
    rc.append(b"xyz".to_vec());
    rc.drain();
    rc.replication_acked("a:1", 1_000_000);
    assert_eq!(rc.num_replicas_acked(), 1);
    rc.append(b"more".to_vec());
    rc.drain();
    assert_eq!(rc.num_replicas_acked(), 0);
    rc.remove_node("a:1");
    assert_eq!(rc.num_replicas(), 0);
}

#[test]
fn getack_command_bytes() {
    let g = resp_server::repl::getack_command();
    assert_eq!(g, b"*3\r\n$8\r\nREPLCONF\r\n$6\r\nGETACK\r\n$1\r\n*\r\n".to_vec());
    assert_eq!(g.len() as u64, resp_server::repl::GETACK_LEN);
}

#[test]
fn pipelined_buffer_fans_out_each_command_once() {
    let mut s = Server::new(true, None, None, None);
    let peer = "127.0.0.1:40001";
    run_on(&mut s, &["REPLCONF", "listening-port", "6381"], peer, false, 0);
    run_on(&mut s, &["PSYNC", "?", "-1"], peer, false, 0);
    let a = cmd(&["SET", "a", "1"]);
    let g = cmd(&["GET", "a"]);
    let b = cmd(&["SET", "b", "2"]);
    let mut wire = a.clone();
    wire.extend_from_slice(&g);
    wire.extend_from_slice(&b);
    let inc = Incoming::new(&BytesMut::from(&wire[..]), false);
    let outs = inc.handle(&mut s, "127.0.0.1", "127.0.0.1:2", 0);
    assert_eq!(outs.len(), 3);
    assert_eq!(outs[0].reply, b"+OK\r\n".to_vec());
    assert_eq!(outs[1].reply, b"$1\r\n1\r\n".to_vec());
    let mut expect = a.clone();
    expect.extend_from_slice(&b);
    let sent = s.repl.drain();
    assert_eq!(sent[0].1, expect);
}

#[test]
fn replica_stream_through_incoming() {
    let mut cfg = Config::new("127.0.0.1".to_string(), 6379, 6380);
    cfg.synced_in();
    let mut s = Server::new(false, None, None, Some(cfg));
    let set = cmd(&["SET", "k", "v"]);
    let mut wire = set.clone();
    wire.extend_from_slice(&cmd(&["REPLCONF", "GETACK", "*"]));
    let inc = Incoming::new(&BytesMut::from(&wire[..]), true);
    let outs = inc.handle(&mut s, "127.0.0.1", "127.0.0.1:6379", 0);
    assert_eq!(outs.len(), 2);
    assert!(outs[0].reply.is_empty());
    let n = set.len().to_string();
    assert_eq!(outs[1].reply, format!("*3\r\n$8\r\nREPLCONF\r\n$3\r\nACK\r\n${}\r\n{}\r\n", n.len(), n).into_bytes());
    assert_eq!(s.replica.as_ref().unwrap().get_offset(), wire.len() as u64);
    assert_eq!(run_on(&mut s, &["GET", "k"], "c:1", false, 0), b"$1\r\nv\r\n".to_vec());
    assert!(s.repl.drain().is_empty());
}
