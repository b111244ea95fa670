//! The handlers of the replication commands (REPLCONF, PSYNC, WAIT) and of
//! the replies a replica receives during its handshake.
use vstd::prelude::*;
use crate::args::{eq_ignore_case, parse_u64, same_ignoring_case, u64_of};
use crate::commands::{args_of, error_reply};
use crate::db::RDB;
use crate::rdb::{base64_standard_decoded, empty_rdb_base64, rdb_frame};
use crate::repl::{
    add_sat, all_acked, clamp_offset, node_acked, node_added, node_readied, total_sent, ReplicationConfig,
    WaitStart,
};
use crate::resp::{decimal, encode, Resp};
use crate::slave::bulk_array;
use crate::streams::clone_all;
use crate::words;

verus! {

/// REPLCONF listening-port <port> | capa <cap> ... | GETACK * | ACK <n>
#[derive(Debug)]
pub struct ReplCommand {
    pub cmd: Vec<Vec<u8>>,
    pub replication_conn: bool,
}

/// The reply to `REPLCONF GETACK *` of a replica that has applied `applied` bytes.
pub open spec fn ack_reply(applied: u64) -> Seq<u8> {
    encode(bulk_array(seq![words::cmd_replconf_spec(), words::cmd_ack_spec(), decimal(applied as nat)]))
}

pub open spec fn is_getack(a: Seq<Seq<u8>>) -> bool {
    a.len() == 3 && same_ignoring_case(a[0], words::replconf_spec()) && same_ignoring_case(a[1], words::getack_spec())
}

impl ReplCommand {
    pub fn new(cmd: &Vec<Vec<u8>>, replication_conn: bool) -> (r: Self)
        ensures
            args_of(r.cmd) == args_of(*cmd),
            r.replication_conn == replication_conn,
    {
        ReplCommand { cmd: clone_all(cmd), replication_conn }
    }

    /// `peer_ip` and `peer_addr` name the connection the command came on;
    /// `applied` is the count a replica reports to GETACK.
    pub fn handle(&self, repl: &mut ReplicationConfig, peer_ip: &str, peer_addr: &str, applied: u64) -> (r: Vec<u8>)
        requires
            old(repl).wf(),
        ensures
            final(repl).wf(),
            final(repl).log() == old(repl).log(),
            total_sent(final(repl).nodes()) >= total_sent(old(repl).nodes()),
            ({
                let a = args_of(self.cmd);
                let ok = encode(Resp::Simple(words::reply_ok_spec()));
                if a.len() == 3 && same_ignoring_case(a[1], words::listening_port_spec()) {
                    match u64_of(a[2]) {
                        Some(p) => if p <= 65535 {
                            r@ == ok && node_added(old(repl).nodes(), final(repl).nodes(), peer_addr@, p as u16)
                        } else {
                            r@ == error_reply(words::err_not_integer_spec()) && final(repl).nodes() == old(repl).nodes()
                        },
                        None => r@ == error_reply(words::err_not_integer_spec()) && final(repl).nodes() == old(repl).nodes(),
                    }
                } else if a.len() >= 3 && same_ignoring_case(a[1], words::capa_spec()) {
                    r@ == ok && final(repl).nodes() == old(repl).nodes()
                } else if a.len() == 3 && same_ignoring_case(a[1], words::getack_spec()) {
                    r@ == ack_reply(applied) && final(repl).nodes() == old(repl).nodes()
                } else if a.len() == 3 && same_ignoring_case(a[1], words::ack_spec()) {
                    match u64_of(a[2]) {
                        Some(n) => r@.len() == 0 && node_acked(old(repl).nodes(), final(repl).nodes(), peer_addr@, n),
                        None => r@ == error_reply(words::err_not_integer_spec()) && final(repl).nodes() == old(repl).nodes(),
                    }
                } else {
                    r@ == error_reply(words::err_syntax_spec()) && final(repl).nodes() == old(repl).nodes()
                }
            }),
    {
        let n = self.cmd.len();
        if n == 3 && eq_ignore_case(self.cmd[1].as_slice(), words::listening_port().as_slice()) {
            return match parse_u64(self.cmd[2].as_slice()) {
                Some(p) => if p <= 65535 {
                    repl.add_node(peer_ip, p as u16, peer_addr);
                    crate::reply::simple(words::reply_ok().as_slice())
                } else {
                    crate::reply::error(words::err_not_integer().as_slice())
                },
                None => crate::reply::error(words::err_not_integer().as_slice()),
            };
        }
        if n >= 3 && eq_ignore_case(self.cmd[1].as_slice(), words::capa().as_slice()) {
            return crate::reply::simple(words::reply_ok().as_slice());
        }
        if n == 3 && eq_ignore_case(self.cmd[1].as_slice(), words::getack().as_slice()) {
            let mut items: Vec<Vec<u8>> = Vec::new();
            items.push(words::cmd_replconf());
            items.push(words::cmd_ack());
            let mut d: Vec<u8> = Vec::new();
            crate::codec::push_decimal(&mut d, applied);
            assert(d@ =~= decimal(applied as nat));
            items.push(d);
            let r = crate::slave::bulk_command(&items);
            assert(crate::streams::bytes_list(items@) =~= seq![words::cmd_replconf_spec(), words::cmd_ack_spec(), decimal(applied as nat)]);
            return r;
        }
        if n == 3 && eq_ignore_case(self.cmd[1].as_slice(), words::ack().as_slice()) {
            return match parse_u64(self.cmd[2].as_slice()) {
                Some(v) => {
                    repl.replication_acked(peer_addr, v);
                    Vec::new()
                },
                None => crate::reply::error(words::err_not_integer().as_slice()),
            };
        }
        crate::reply::error(words::err_syntax().as_slice())
    }
}

/// PSYNC <replid> <offset>
#[derive(Debug)]
pub struct PSync {
    pub cmd: Vec<Vec<u8>>,
    pub replication_conn: bool,
}

/// The log offset PSYNC asks for: a number within `i64`, else -1 (`?`, `-1`).
pub open spec fn psync_offset(a: Seq<Seq<u8>>) -> i64 {
    if a.len() >= 3 {
        match u64_of(a[2]) {
            Some(n) => if n <= i64::MAX { n as i64 } else { -1i64 },
            None => -1i64,
        }
    } else {
        -1i64
    }
}

/// `+FULLRESYNC <replid> 0`
pub open spec fn full_resync_reply() -> Seq<u8> {
    encode(Resp::Simple(words::full_resync_line_spec()))
}

impl PSync {
    pub fn new(cmd: &Vec<Vec<u8>>, replication_conn: bool) -> (r: Self)
        ensures
            args_of(r.cmd) == args_of(*cmd),
            r.replication_conn == replication_conn,
    {
        PSync { cmd: clone_all(cmd), replication_conn }
    }

    /// The full-resync line and the framed empty snapshot; the replica on
    /// `peer_addr` is marked ready.
    pub fn handle(&self, repl: &mut ReplicationConfig, peer_addr: &str) -> (r: Vec<u8>)
        requires
            old(repl).wf(),
        ensures
            final(repl).wf(),
            final(repl).log() == old(repl).log(),
            total_sent(final(repl).nodes()) >= total_sent(old(repl).nodes()),
            node_readied(old(repl).nodes(), final(repl).nodes(), peer_addr@,
                clamp_offset(psync_offset(args_of(self.cmd)), old(repl).log().len())),
            r@ == full_resync_reply() + rdb_frame(base64_standard_decoded(empty_rdb_base64())),
    {
        let mut out = crate::reply::simple(words::full_resync_line().as_slice());
        let ghost head = out@;
        match RDB::empty() {
            Ok(rdb) => crate::codec::push_all(&mut out, rdb.as_slice()),
            Err(_) => {},
        }
        let offset: i64 = if self.cmd.len() >= 3 {
            match parse_u64(self.cmd[2].as_slice()) {
                Some(n) => if n <= 9223372036854775807u64 {
                    n as i64
                } else {
                    -1
                },
                None => -1,
            }
        } else {
            -1
        };
        repl.update_psync_repl_id(peer_addr, offset);
        out
    }
}

/// WAIT <numreplicas> <timeout-ms>
#[derive(Debug)]
pub struct Wait {
    pub cmd: Vec<Vec<u8>>,
    pub replication_conn: bool,
}

impl Wait {
    pub fn new(cmd: &Vec<Vec<u8>>, replication_conn: bool) -> (r: Self)
        ensures
            args_of(r.cmd) == args_of(*cmd),
            r.replication_conn == replication_conn,
    {
        Wait { cmd: clone_all(cmd), replication_conn }
    }

    /// Starts the wait; an error reply where the arguments are not two numbers.
    pub fn repl_config(&self, repl: &mut ReplicationConfig, now_ms: u64) -> (r: Result<WaitStart, Vec<u8>>)
        requires
            old(repl).wf(),
        ensures
            final(repl).wf(),
            final(repl).log() == old(repl).log(),
            total_sent(final(repl).nodes()) >= total_sent(old(repl).nodes()),
            ({
                let a = args_of(self.cmd);
                if a.len() == 3 && u64_of(a[1]) is Some && u64_of(a[2]) is Some {
                    let n = u64_of(a[1])->0;
                    let t = u64_of(a[2])->0;
                    match r {
                        Ok(WaitStart::Done(c)) => c == old(repl).nodes().len() && all_acked(old(repl).nodes()),
                        Ok(WaitStart::Waiting(st, _)) => !all_acked(old(repl).nodes())
                            && st.needed == (if n < old(repl).nodes().len() { n as nat } else { old(repl).nodes().len() })
                            && st.deadline == (if t == 0 { None } else { Some(add_sat(now_ms as int, t as int)) }),
                        Err(_) => false,
                    }
                } else {
                    r matches Err(b) && b@ == error_reply(words::err_not_integer_spec())
                        && final(repl).nodes() == old(repl).nodes()
                }
            }),
    {
        if self.cmd.len() != 3 {
            return Err(crate::reply::error(words::err_not_integer().as_slice()));
        }
        match (parse_u64(self.cmd[1].as_slice()), parse_u64(self.cmd[2].as_slice())) {
            (Some(n), Some(t)) => Ok(repl.begin_wait(n, t, now_ms)),
            _ => Err(crate::reply::error(words::err_not_integer().as_slice())),
        }
    }
}

/// A command this server does not know.
#[derive(Debug, Clone, Copy)]
pub struct InvalidCommand {
    pub replication_conn: bool,
}

impl InvalidCommand {
    pub fn new(replication_conn: bool) -> (r: Self)
        ensures
            r.replication_conn == replication_conn,
    {
        InvalidCommand { replication_conn }
    }

    pub fn handle(&self) -> (r: Vec<u8>)
        ensures
            r@ == error_reply(words::err_unknown_spec()),
    {
        crate::reply::error(words::err_unknown().as_slice())
    }
}

/// A `+OK` received from the primary.
#[derive(Debug, Clone, Copy)]
pub struct OkResponse {
    pub replication_conn: bool,
}

impl OkResponse {
    pub fn new(replication_conn: bool) -> (r: Self)
        ensures
            r.replication_conn == replication_conn,
    {
        OkResponse { replication_conn }
    }
}

/// A `+FULLRESYNC` received from the primary.
#[derive(Debug, Clone, Copy)]
pub struct FullResync {
    pub replication_conn: bool,
}

impl FullResync {
    pub fn new(replication_conn: bool) -> (r: Self)
        ensures
            r.replication_conn == replication_conn,
    {
        FullResync { replication_conn }
    }
}

/// The snapshot received from the primary.
#[derive(Debug)]
pub struct RDBFile {
    pub cmd: Vec<u8>,
    pub replication_conn: bool,
}

impl RDBFile {
    pub fn new(cmd: &Vec<u8>, replication_conn: bool) -> (r: Self)
        ensures
            r.cmd@ == cmd@,
            r.replication_conn == replication_conn,
    {
        RDBFile { cmd: crate::streams::clone_bytes(cmd), replication_conn }
    }

    /// Taking the snapshot in starts the replica's count of applied bytes.
    pub fn track_offset(&self, slavecfg: &mut Option<crate::slave::Config>)
        ensures
            match (*old(slavecfg), *final(slavecfg)) {
                (Some(o), Some(f)) => f.synced() && f.applied() == o.applied() && f.state == o.state,
                (None, None) => true,
                _ => false,
            },
    {
        match slavecfg {
            Some(cfg) => cfg.synced_in(),
            None => {},
        }
    }
}

/// What a simple string from the primary is.
#[derive(Debug, Clone, Copy)]
pub enum SimpleReply {
    Ping(crate::commands::Ping),
    Okay(OkResponse),
    FullResync(FullResync),
    Invalid(InvalidCommand),
}

/// `w` occurs in `s`.
pub open spec fn contains_bytes(s: Seq<u8>, w: Seq<u8>) -> bool {
    exists|i: int| 0 <= i && i + w.len() <= s.len() && #[trigger] s.subrange(i, i + w.len()) == w
}

fn find_bytes(s: &[u8], w: &[u8]) -> (r: bool)
    ensures
        r == contains_bytes(s@, w@),
{
    if w.len() > s.len() {
        return false;
    }
    if w.len() == 0 {
        assert(s@.subrange(0, 0 + w@.len() as int) =~= w@);
        return true;
    }
    let mut i: usize = 0;
    while i <= s.len() - w.len()
        invariant
            1 <= w.len() <= s.len(),
            i <= s.len() - w.len() + 1,
            forall|j: int| 0 <= j < i ==> #[trigger] s@.subrange(j, j + w.len()) != w@,
        decreases s.len() - i,
    {
        let part = crate::codec::copy_range(s, i, i + w.len());
        if crate::args::eq_bytes(part.as_slice(), w) {
            return true;
        }
        i = i + 1;
    }
    proof {
        assert forall|j: int| 0 <= j && j + w.len() <= s.len() implies #[trigger] s@.subrange(j, j + w.len()) != w@ by {
            assert(j < i);
        }
    }
    false
}

/// Classifies a simple string received on a connection: it holds `ping`,
/// `ok` or `fullresync` (checked in that order), or none of them.
pub fn simple_string_command_handler(cmd: &Vec<u8>, replication_conn: bool) -> (r: SimpleReply)
    ensures
        if contains_bytes(cmd@, words::ping_spec()) {
            r matches SimpleReply::Ping(p) && p.replication_conn == replication_conn
        } else if contains_bytes(cmd@, words::ok_spec()) {
            r matches SimpleReply::Okay(p) && p.replication_conn == replication_conn
        } else if contains_bytes(cmd@, words::fullresync_spec()) {
            r matches SimpleReply::FullResync(p) && p.replication_conn == replication_conn
        } else {
            r matches SimpleReply::Invalid(p) && p.replication_conn == replication_conn
        },
{
    if find_bytes(cmd.as_slice(), words::ping().as_slice()) {
        SimpleReply::Ping(crate::commands::Ping::new(replication_conn))
    } else if find_bytes(cmd.as_slice(), words::ok().as_slice()) {
        SimpleReply::Okay(OkResponse::new(replication_conn))
    } else if find_bytes(cmd.as_slice(), words::fullresync().as_slice()) {
        SimpleReply::FullResync(FullResync::new(replication_conn))
    } else {
        SimpleReply::Invalid(InvalidCommand::new(replication_conn))
    }
}

/// A bulk string received on its own is the snapshot.
pub fn bulk_string_type_handler(cmd: &Vec<u8>, replication_conn: bool) -> (r: RDBFile)
    ensures
        r.cmd@ == cmd@,
        r.replication_conn == replication_conn,
{
    RDBFile::new(cmd, replication_conn)
}

} // verus!
