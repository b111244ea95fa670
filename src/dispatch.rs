//! The dispatcher: it names the command an array holds, runs it against the
//! store and the replication state, decides what the connection sends back
//! (nothing, on the stream from a primary, but for GETACK), appends applied
//! mutating commands to the fan-out log, and counts the bytes a replica
//! applies. The caller reads and writes the sockets.
use vstd::prelude::*;
use crate::args::{eq_ignore_case, same_ignoring_case};
use crate::codec::{bytes_mut_content, bytes_mut_copy, copy_range, parse_rdb_at, parse_value_at, parse_buffer,
    resp_items, DataType, ParseError, ParsedFrames};
use crate::commands::{args_of, del_upto, echo_reply, error_reply, get_reply, set_ttl, type_reply, Config, Del,
    Echo, GetCommand, Info, Keys, Ping, SetCommand, TType};
use crate::db::DB;
use crate::repl::{ReplicationConfig, WaitStart};
use crate::repl_commands::{is_getack, InvalidCommand, PSync, RDBFile, ReplCommand, Wait};
use crate::resp::{encode, Parsed, Resp};
use crate::stream_commands::{xadd_applies, xadd_reply, xrange_reply, BlockedRead, Stream, XRange, XRead, XReadOutcome};
use crate::streams::{bytes_list, clone_all};
use crate::words;

verus! {

/// Which command a name is, ASCII case aside; 0 for none.
pub open spec fn kind_of(name: Seq<u8>) -> int {
    if same_ignoring_case(name, words::ping_spec()) { 1 }
    else if same_ignoring_case(name, words::echo_spec()) { 2 }
    else if same_ignoring_case(name, words::set_spec()) { 3 }
    else if same_ignoring_case(name, words::get_spec()) { 4 }
    else if same_ignoring_case(name, words::del_spec()) { 5 }
    else if same_ignoring_case(name, words::type_cmd_spec()) { 6 }
    else if same_ignoring_case(name, words::keys_spec()) { 7 }
    else if same_ignoring_case(name, words::info_spec()) { 8 }
    else if same_ignoring_case(name, words::config_spec()) { 9 }
    else if same_ignoring_case(name, words::replconf_spec()) { 10 }
    else if same_ignoring_case(name, words::psync_spec()) { 11 }
    else if same_ignoring_case(name, words::wait_spec()) { 12 }
    else if same_ignoring_case(name, words::xadd_spec()) { 13 }
    else if same_ignoring_case(name, words::xrange_spec()) { 14 }
    else if same_ignoring_case(name, words::xread_spec()) { 15 }
    else { 0 }
}

pub open spec fn kind_of_args(a: Seq<Seq<u8>>) -> int {
    if a.len() == 0 { 0 } else { kind_of(a[0]) }
}

/// A command, ready to run.
#[derive(Debug)]
pub enum Command {
    Ping(Ping),
    Echo(Echo),
    SetCmd(SetCommand),
    Get(GetCommand),
    Del(Del),
    Type(TType),
    Keys(Keys),
    Info(Info),
    Config(Config),
    ReplConf(ReplCommand),
    PSync(PSync),
    Wait(Wait),
    XAdd(Stream),
    XRange(XRange),
    XRead(XRead),
    Invalid(InvalidCommand),
}

pub open spec fn command_kind(c: Command) -> int {
    match c {
        Command::Ping(_) => 1,
        Command::Echo(_) => 2,
        Command::SetCmd(_) => 3,
        Command::Get(_) => 4,
        Command::Del(_) => 5,
        Command::Type(_) => 6,
        Command::Keys(_) => 7,
        Command::Info(_) => 8,
        Command::Config(_) => 9,
        Command::ReplConf(_) => 10,
        Command::PSync(_) => 11,
        Command::Wait(_) => 12,
        Command::XAdd(_) => 13,
        Command::XRange(_) => 14,
        Command::XRead(_) => 15,
        Command::Invalid(_) => 0,
    }
}

pub open spec fn command_args(c: Command) -> Seq<Seq<u8>> {
    match c {
        Command::Echo(x) => args_of(x.cmd),
        Command::SetCmd(x) => args_of(x.cmd),
        Command::Get(x) => args_of(x.cmd),
        Command::Del(x) => args_of(x.cmd),
        Command::Type(x) => args_of(x.cmd),
        Command::Keys(x) => args_of(x.cmd),
        Command::Info(x) => args_of(x.cmd),
        Command::Config(x) => args_of(x.cmd),
        Command::ReplConf(x) => args_of(x.cmd),
        Command::PSync(x) => args_of(x.cmd),
        Command::Wait(x) => args_of(x.cmd),
        Command::XAdd(x) => args_of(x.cmd),
        Command::XRange(x) => args_of(x.cmd),
        Command::XRead(x) => args_of(x.cmd),
        _ => Seq::empty(),
    }
}

/// The command that `cmd` (its name first) asks for.
pub fn array_type_handler(cmd: &Vec<Vec<u8>>, replication_conn: bool) -> (r: Command)
    ensures
        command_kind(r) == kind_of_args(args_of(*cmd)),
        command_kind(r) != 0 && command_kind(r) != 1 ==> command_args(r) == args_of(*cmd),
{
    if cmd.len() == 0 {
        return Command::Invalid(InvalidCommand::new(replication_conn));
    }
    assert(args_of(*cmd)[0] == cmd@[0]@);
    let name = cmd[0].as_slice();
    if eq_ignore_case(name, words::ping().as_slice()) {
        Command::Ping(Ping::new(replication_conn))
    } else if eq_ignore_case(name, words::echo().as_slice()) {
        Command::Echo(Echo::new(cmd, replication_conn))
    } else if eq_ignore_case(name, words::set().as_slice()) {
        Command::SetCmd(SetCommand::new(cmd, replication_conn))
    } else if eq_ignore_case(name, words::get().as_slice()) {
        Command::Get(GetCommand::new(cmd, replication_conn))
    } else if eq_ignore_case(name, words::del().as_slice()) {
        Command::Del(Del::new(cmd, replication_conn))
    } else if eq_ignore_case(name, words::type_cmd().as_slice()) {
        Command::Type(TType::new(cmd, replication_conn))
    } else if eq_ignore_case(name, words::keys().as_slice()) {
        Command::Keys(Keys::new(cmd, replication_conn))
    } else if eq_ignore_case(name, words::info().as_slice()) {
        Command::Info(Info::new(cmd))
    } else if eq_ignore_case(name, words::config().as_slice()) {
        Command::Config(Config::new(cmd, replication_conn))
    } else if eq_ignore_case(name, words::replconf().as_slice()) {
        Command::ReplConf(ReplCommand::new(cmd, replication_conn))
    } else if eq_ignore_case(name, words::psync().as_slice()) {
        Command::PSync(PSync::new(cmd, replication_conn))
    } else if eq_ignore_case(name, words::wait().as_slice()) {
        Command::Wait(Wait::new(cmd, replication_conn))
    } else if eq_ignore_case(name, words::xadd().as_slice()) {
        Command::XAdd(Stream::new(cmd, replication_conn))
    } else if eq_ignore_case(name, words::xrange().as_slice()) {
        Command::XRange(XRange::new(cmd, replication_conn))
    } else if eq_ignore_case(name, words::xread().as_slice()) {
        Command::XRead(XRead::new(cmd, replication_conn))
    } else {
        Command::Invalid(InvalidCommand::new(replication_conn))
    }
}

/// Whether a command changes the store when run on `m` at `now`: SET that
/// is well formed, DEL that removes a live key, XADD that appends.
pub open spec fn mutation_applied(a: Seq<Seq<u8>>, m: Map<Seq<u8>, crate::db::EntryView>, now: u64) -> bool {
    let k = kind_of_args(a);
    if k == 3 {
        set_ttl(a) is Ok
    } else if k == 5 {
        a.len() >= 2 && del_upto(m, a.drop_first(), a.len() - 1, now).1 > 0
    } else if k == 13 {
        xadd_applies(a, m, now)
    } else {
        false
    }
}

/// The reply a client gets, for the commands whose reply depends on the
/// arguments and the store alone.
pub open spec fn client_reply(a: Seq<Seq<u8>>, m: Map<Seq<u8>, crate::db::EntryView>, now: u64) -> Option<Seq<u8>> {
    let k = kind_of_args(a);
    if k == 0 {
        Some(error_reply(words::err_unknown_spec()))
    } else if k == 1 {
        Some(encode(Resp::Simple(words::reply_pong_spec())))
    } else if k == 2 {
        Some(echo_reply(a))
    } else if k == 3 {
        Some(match set_ttl(a) {
            Ok(_) => encode(Resp::Simple(words::reply_ok_spec())),
            Err(msg) => error_reply(msg),
        })
    } else if k == 4 {
        Some(get_reply(a, m, now))
    } else if k == 5 {
        Some(if a.len() < 2 {
            error_reply(words::err_arity_spec())
        } else {
            encode(Resp::Integer(del_upto(m, a.drop_first(), a.len() - 1, now).1 as int))
        })
    } else if k == 6 {
        Some(type_reply(a, m, now))
    } else if k == 13 {
        Some(xadd_reply(a, m, now))
    } else if k == 14 {
        Some(xrange_reply(a, m, now))
    } else {
        None
    }
}

/// The store after a command.
pub open spec fn db_after(a: Seq<Seq<u8>>, m: Map<Seq<u8>, crate::db::EntryView>, now: u64) -> Map<Seq<u8>, crate::db::EntryView> {
    let k = kind_of_args(a);
    if k == 3 {
        match set_ttl(a) {
            Ok(t) => crate::db::set_view(m, a[1], crate::db::ValueView::Str(a[2]), t, now),
            Err(_) => m,
        }
    } else if k == 4 || k == 6 {
        if a.len() == 2 { crate::db::after_lookup(m, a[1], now) } else { m }
    } else if k == 5 {
        if a.len() < 2 { m } else { del_upto(m, a.drop_first(), a.len() - 1, now).0 }
    } else if k == 13 {
        if crate::stream_commands::xadd_shape_ok(a) && crate::args::id_spec_of(a[2]) is Some {
            crate::db::xadd_view(m, a[1], crate::args::id_spec_of(a[2])->0, a.subrange(3, a.len() as int), now)
        } else {
            m
        }
    } else {
        m
    }
}

/// What the dispatcher's contracts follow of a server: the store, the
/// fan-out log, and, on a replica, whether the snapshot is in and the count
/// of applied bytes.
pub struct Track {
    pub db: Map<Seq<u8>, crate::db::EntryView>,
    pub log: Seq<Seq<u8>>,
    pub replica: Option<(bool, u64)>,
}

pub open spec fn track_of(s: &Server) -> Track {
    Track {
        db: s.db.view(),
        log: s.repl.log(),
        replica: match s.replica {
            Some(c) => Some((c.synced(), c.applied())),
            None => None,
        },
    }
}

/// The state after running a command with wire bytes `raw`: its effect on
/// the store; on a client connection an applied mutating command joins the
/// log; on the stream from a primary its bytes count as applied once the
/// snapshot is in.
pub open spec fn exec_track(t: Track, a: Seq<Seq<u8>>, raw: Seq<u8>, from_primary: bool, now: u64) -> Track {
    Track {
        db: db_after(a, t.db, now),
        log: if !from_primary && mutation_applied(a, t.db, now) { t.log.push(raw) } else { t.log },
        replica: match t.replica {
            Some((s, n)) => Some((s, if from_primary && s { crate::repl::add_sat(n as int, raw.len() as int) } else { n })),
            None => None,
        },
    }
}

/// The reply to a command, where the contracts fix it: on the stream from a
/// primary nothing but the ACK to GETACK, with the count before the GETACK;
/// to a client what `client_reply` gives.
pub open spec fn exec_reply(t: Track, a: Seq<Seq<u8>>, from_primary: bool, now: u64) -> Option<Seq<u8>> {
    if from_primary {
        if is_getack(a) {
            Some(crate::repl_commands::ack_reply(match t.replica { Some((_, n)) => n, None => 0 }))
        } else {
            Some(Seq::empty())
        }
    } else {
        client_reply(a, t.db, now)
    }
}

/// The wire bytes of the mutating commands that the steps from `pos` on a
/// client connection apply, in order.
pub open spec fn applied_raws(buf: Seq<u8>, pos: int, t: Track, now: u64) -> Seq<Seq<u8>>
    decreases buf.len() - pos,
{
    if pos < 0 || pos >= buf.len() {
        Seq::empty()
    } else {
        match step_spec(buf, pos, t, false, now) {
            StepSpec::Handled(t2, _, e) => if pos < e <= buf.len() {
                let rest = applied_raws(buf, e, t2, now);
                match crate::resp::parse_value(buf, pos) {
                    Parsed::Done(v, _) => match bulk_args(v) {
                        Some(a) => if mutation_applied(a, t.db, now) { seq![buf.subrange(pos, e)] + rest } else { rest },
                        None => rest,
                    },
                    _ => rest,
                }
            } else {
                Seq::empty()
            },
            _ => Seq::empty(),
        }
    }
}

/// On a client connection, handling a buffer appends to the fan-out log
/// exactly the wire bytes of each applied mutating command, once each, in
/// the order of the buffer, and keeps what the log held.
pub proof fn lemma_fan_out_in_order(buf: Seq<u8>, pos: int, t: Track, now: u64)
    ensures
        run_spec(buf, pos, t, false, now).0.log == t.log + applied_raws(buf, pos, t, now),
    decreases buf.len() - pos,
{
    if pos < 0 || pos >= buf.len() {
        assert(t.log + Seq::<Seq<u8>>::empty() =~= t.log);
    } else {
        match step_spec(buf, pos, t, false, now) {
            StepSpec::Handled(t2, _, e) => if pos < e <= buf.len() {
                lemma_fan_out_in_order(buf, e, t2, now);
                let rest = applied_raws(buf, e, t2, now);
                assert(t.log.push(buf.subrange(pos, e)) + rest =~= t.log + (seq![buf.subrange(pos, e)] + rest));
            } else {
                assert(t.log + Seq::<Seq<u8>>::empty() =~= t.log);
            },
            _ => {
                assert(t.log + Seq::<Seq<u8>>::empty() =~= t.log);
            },
        }
    }
}

/// The state a server keeps: the store, the replica registry and fan-out
/// log, and, on a replica, its replication state.
pub struct Server {
    pub db: DB,
    pub repl: ReplicationConfig,
    pub replica: Option<crate::slave::Config>,
}

/// What running one command gives the connection.
#[derive(Debug)]
pub struct Outcome {
    /// Bytes to send back.
    pub reply: Vec<u8>,
    /// A WAIT that is to be polled before its reply is sent.
    pub wait: Option<(crate::repl::WaitState, Vec<String>)>,
    /// An XREAD BLOCK that is to be polled before its reply is sent.
    pub blocked: Option<BlockedRead>,
}

impl Server {
    pub open spec fn wf(&self) -> bool {
        self.db.wf() && self.repl.wf()
    }

    pub fn new(role_master: bool, dir: Option<String>, db_filename: Option<String>, replica: Option<crate::slave::Config>) -> (r: Self)
        ensures
            r.wf(),
            r.db.view() == Map::<Seq<u8>, crate::db::EntryView>::empty(),
            r.db.is_master() == role_master,
            r.repl.log().len() == 0,
            r.repl.nodes().len() == 0,
    {
        Server { db: DB::new(role_master, dir, db_filename), repl: ReplicationConfig::new(), replica }
    }

    /// Runs the command `cmd`, whose wire form is `raw`, that came on the
    /// connection from `peer_addr` (address `peer_ip`). On the stream from a
    /// primary (`replication_conn`) the reply is dropped but for GETACK, and
    /// the bytes count as applied; elsewhere an applied mutating command
    /// joins the fan-out log, once.
    pub fn execute(&mut self, cmd: &Vec<Vec<u8>>, raw: &[u8], replication_conn: bool, peer_ip: &str,
        peer_addr: &str, now_ms: u64) -> (r: Outcome)
        requires
            old(self).wf(),
        ensures
            final(self).wf(),
            final(self).db.is_master() == old(self).db.is_master(),
            track_of(final(self)) == exec_track(track_of(old(self)), args_of(*cmd), raw@, replication_conn, now_ms),
            exec_reply(track_of(old(self)), args_of(*cmd), replication_conn, now_ms) matches Some(x) ==> r.reply@ == x,
    {
        let ghost a = args_of(*cmd);
        let applied_before: u64 = match &self.replica {
            Some(c) => c.get_offset(),
            None => 0,
        };
        let command = array_type_handler(cmd, replication_conn);
        let mut mutated = false;
        let mut wait: Option<(crate::repl::WaitState, Vec<String>)> = None;
        let mut blocked: Option<BlockedRead> = None;
        let reply: Vec<u8> = match &command {
            Command::Ping(c) => c.handle(),
            Command::Echo(c) => c.handle(),
            Command::SetCmd(c) => {
                let (b, m) = c.handle(&mut self.db, now_ms);
                mutated = m;
                b
            },
            Command::Get(c) => c.handle(&mut self.db, now_ms),
            Command::Del(c) => {
                let (b, n) = c.handle(&mut self.db, now_ms);
                mutated = n > 0;
                b
            },
            Command::Type(c) => c.handle(&mut self.db, now_ms),
            Command::Keys(c) => c.handle(&self.db, now_ms),
            Command::Info(c) => c.handle(&self.db),
            Command::Config(c) => c.handle(&self.db),
            Command::ReplConf(c) => c.handle(&mut self.repl, peer_ip, peer_addr, applied_before),
            Command::PSync(c) => c.handle(&mut self.repl, peer_addr),
            Command::Wait(c) => match c.repl_config(&mut self.repl, now_ms) {
                Ok(WaitStart::Done(n)) => crate::reply::count(n as u64),
                Ok(WaitStart::Waiting(st, peers)) => {
                    wait = Some((st, peers));
                    Vec::new()
                },
                Err(b) => b,
            },
            Command::XAdd(c) => {
                let (b, m) = c.handle(&mut self.db, now_ms);
                mutated = m;
                b
            },
            Command::XRange(c) => c.handle(&self.db, now_ms),
            Command::XRead(c) => match c.handle(&self.db, now_ms) {
                XReadOutcome::Reply(b) => b,
                XReadOutcome::Blocked(br) => {
                    blocked = Some(br);
                    Vec::new()
                },
            },
            Command::Invalid(c) => c.handle(),
        };
        if mutated && !replication_conn {
            self.repl.append(copy_range(raw, 0, raw.len()));
            assert(raw@.subrange(0, raw@.len() as int) =~= raw@);
        }
        let mut out = reply;
        if replication_conn {
            let getack = cmd.len() == 3 && eq_ignore_case(cmd[0].as_slice(), words::replconf().as_slice())
                && eq_ignore_case(cmd[1].as_slice(), words::getack().as_slice());
            proof {
                if cmd@.len() == 3 {
                    assert(a[0] == cmd@[0]@ && a[1] == cmd@[1]@);
                }
            }
            if !getack {
                out = Vec::new();
                wait = None;
                blocked = None;
            }
            match &mut self.replica {
                Some(c) => c.track_offset(raw.len() as u64),
                None => {},
            }
        }
        Outcome { reply: out, wait, blocked }
    }
}

/// What handling the bytes at one position gives.
#[derive(Debug)]
pub enum Step {
    /// One value was handled; the next starts at `next`.
    Handled(Outcome, usize),
    /// The bytes stop inside a value: read more.
    Incomplete,
    /// The bytes are not RESP: close the connection.
    Malformed,
}

/// The arguments of an array of bulk strings.
pub open spec fn bulk_args(v: Resp) -> Option<Seq<Seq<u8>>> {
    match v {
        Resp::Array(items) => if forall|i: int| 0 <= i < items.len() ==> (#[trigger] items[i]) is Bulk {
            Some(items.map_values(|x: Resp| x->Bulk_0))
        } else {
            None
        },
        _ => None,
    }
}

/// The arguments of an array of bulk strings.
pub fn command_of(d: &DataType) -> (r: Option<Vec<Vec<u8>>>)
    ensures
        match r {
            Some(v) => bulk_args(d.resp()) == Some(bytes_list(v@)),
            None => bulk_args(d.resp()) is None,
        },
{
    match d {
        DataType::Array(items, _, _) => {
            proof {
                crate::codec::lemma_resp_items(items@);
            }
            let ghost rs = resp_items(items@);
            let mut out: Vec<Vec<u8>> = Vec::new();
            let mut i: usize = 0;
            while i < items.len()
                invariant
                    i <= items@.len(),
                    rs == resp_items(items@),
                    d.resp() == Resp::Array(rs),
                    rs.len() == items@.len(),
                    forall|j: int| 0 <= j < items@.len() ==> #[trigger] rs[j] == items@[j].resp(),
                    out@.len() == i,
                    forall|j: int| 0 <= j < i ==> (#[trigger] rs[j]) is Bulk && rs[j]->Bulk_0 == out@[j]@,
                decreases items.len() - i,
            {
                match &items[i] {
                    DataType::BulkString(s, _, _) => {
                        out.push(crate::streams::clone_bytes(s));
                    },
                    _ => {
                        assert(!(rs[i as int] is Bulk));
                        return None;
                    },
                }
                i = i + 1;
            }
            assert(bytes_list(out@) =~= rs.map_values(|x: Resp| x->Bulk_0));
            Some(out)
        },
        _ => None,
    }
}

/// What handling the bytes at one position does.
pub enum StepSpec {
    Handled(Track, Option<Seq<u8>>, int),
    Incomplete,
    Malformed,
}

/// One step of the dispatcher at `pos`. On the stream from a primary, while
/// the snapshot is not in, a `$` starts the snapshot: reading it makes the
/// replica synced. Otherwise one value is read; an array of bulk strings is
/// run as a command with its own wire bytes; any other value changes
/// nothing (an array that is not a command gets an error on a client
/// connection).
pub open spec fn step_spec(buf: Seq<u8>, pos: int, t: Track, from_primary: bool, now: u64) -> StepSpec {
    let intake = from_primary && (t.replica matches Some((s, _)) && !s);
    if intake && 0 <= pos < buf.len() && buf[pos] == 36u8 {
        match crate::codec::parse_rdb(buf, pos) {
            Parsed::Done(_, e) => StepSpec::Handled(
                Track { replica: Some((true, match t.replica { Some((_, n)) => n, None => 0 })), ..t }, Some(Seq::empty()), e),
            Parsed::Incomplete => StepSpec::Incomplete,
            Parsed::Malformed => StepSpec::Malformed,
        }
    } else {
        match crate::resp::parse_value(buf, pos) {
            Parsed::Done(v, e) => match bulk_args(v) {
                Some(a) => StepSpec::Handled(exec_track(t, a, buf.subrange(pos, e), from_primary, now),
                    exec_reply(t, a, from_primary, now), e),
                None => StepSpec::Handled(t,
                    Some(if !from_primary && v is Array { error_reply(words::err_unknown_spec()) } else { Seq::empty() }), e),
            },
            Parsed::Incomplete => StepSpec::Incomplete,
            Parsed::Malformed => StepSpec::Malformed,
        }
    }
}

/// Steps from `pos` to the end of the buffer or the first incomplete or
/// malformed value: the state after, and the reply of each step.
pub open spec fn run_spec(buf: Seq<u8>, pos: int, t: Track, from_primary: bool, now: u64) -> (Track, Seq<Option<Seq<u8>>>)
    decreases buf.len() - pos,
{
    if pos < 0 || pos >= buf.len() {
        (t, Seq::empty())
    } else {
        match step_spec(buf, pos, t, from_primary, now) {
            StepSpec::Handled(t2, rep, e) => if pos < e <= buf.len() {
                let rest = run_spec(buf, e, t2, from_primary, now);
                (rest.0, seq![rep] + rest.1)
            } else {
                (t, Seq::empty())
            },
            _ => (t, Seq::empty()),
        }
    }
}

impl Server {
    /// Handles what stands at `pos` of a buffer read from a connection. On
    /// the stream from a primary before its snapshot is in, the full-resync
    /// line is skipped and the snapshot taken in. Otherwise an array of bulk
    /// strings is run as a command; other values are skipped.
    pub fn process_next(&mut self, buf: &[u8], pos: usize, replication_conn: bool, peer_ip: &str,
        peer_addr: &str, now_ms: u64) -> (r: Step)
        requires
            old(self).wf(),
        ensures
            final(self).wf(),
            r matches Step::Handled(_, next) ==> pos < next <= buf@.len(),
            match step_spec(buf@, pos as int, track_of(old(self)), replication_conn, now_ms) {
                StepSpec::Handled(t, rep, e) => (r matches Step::Handled(o, next) && next == e
                    && (rep matches Some(x) ==> o.reply@ == x)) && track_of(final(self)) == t,
                StepSpec::Incomplete => r is Incomplete && track_of(final(self)) == track_of(old(self)),
                StepSpec::Malformed => r is Malformed && track_of(final(self)) == track_of(old(self)),
            },
    {
        let intake = replication_conn && match &self.replica {
            Some(c) => !c.in_sync,
            None => false,
        };
        if intake && pos < buf.len() && buf[pos] == 36u8 {
            proof {
                crate::codec::lemma_rdb_bounds(buf@, pos as int);
            }
            return match parse_rdb_at(buf, pos) {
                Ok((payload, e)) => {
                    if !(pos < e && e <= buf.len()) {
                        return Step::Malformed;
                    }
                    let file = RDBFile::new(&payload, replication_conn);
                    file.track_offset(&mut self.replica);
                    Step::Handled(Outcome { reply: Vec::new(), wait: None, blocked: None }, e)
                },
                Err(ParseError::Incomplete) => Step::Incomplete,
                Err(ParseError::Malformed) => Step::Malformed,
            };
        }
        proof {
            crate::codec::lemma_value_bounds(buf@, pos as int);
        }
        match parse_value_at(buf, pos) {
            Ok((d, e)) => {
                match command_of(&d) {
                    Some(args) => {
                        let raw = copy_range(buf, pos, e);
                        let out = self.execute(&args, raw.as_slice(), replication_conn, peer_ip, peer_addr, now_ms);
                        Step::Handled(out, e)
                    },
                    None => {
                        let reply = match d {
                            DataType::Array(..) => if replication_conn {
                                Vec::new()
                            } else {
                                crate::reply::error(words::err_unknown().as_slice())
                            },
                            _ => Vec::new(),
                        };
                        Step::Handled(Outcome { reply, wait: None, blocked: None }, e)
                    },
                }
            },
            Err(ParseError::Incomplete) => Step::Incomplete,
            Err(ParseError::Malformed) => Step::Malformed,
        }
    }
}

/// The values in one buffer read from a connection.
#[derive(Debug)]
pub struct Incoming {
    pub buf: Vec<u8>,
    pub commands: Vec<DataType>,
    pub replication_conn: bool,
}

impl Incoming {
    /// Reads the buffer; a single `Invalid` marker stands for malformed bytes.
    pub fn new(buf: &bytes::BytesMut, replication_conn: bool) -> (r: Self)
        ensures
            r.buf@ == bytes_mut_content(*buf),
            r.replication_conn == replication_conn,
            match crate::resp::parse_frames(bytes_mut_content(*buf), 0) {
                crate::resp::Frames::Read(s, _, _) => resp_items(r.commands@) == s
                    && crate::codec::spans_ok(bytes_mut_content(*buf), r.commands@),
                crate::resp::Frames::Bad => r.commands@.len() == 1 && r.commands@[0] is Invalid,
            },
    {
        let bytes = bytes_mut_copy(buf);
        let commands = DataType::new(buf);
        Incoming { buf: bytes, commands, replication_conn }
    }

    /// Handles the buffer from its start, value after value, until its end
    /// or the first incomplete or malformed value: each step is
    /// `Server::process_next`'s, so each command runs with its own wire
    /// bytes. Returns what each step gave.
    pub fn handle(&self, server: &mut Server, peer_ip: &str, peer_addr: &str, now_ms: u64) -> (r: Vec<Outcome>)
        requires
            old(server).wf(),
        ensures
            final(server).wf(),
            ({
                let res = run_spec(self.buf@, 0, track_of(old(server)), self.replication_conn, now_ms);
                &&& track_of(final(server)) == res.0
                &&& r@.len() == res.1.len()
                &&& forall|i: int| 0 <= i < r@.len() ==> (res.1[i] matches Some(x) ==> (#[trigger] r@[i]).reply@ == x)
            }),
    {
        let ghost t0 = track_of(server);
        let ghost buf = self.buf@;
        let rc = self.replication_conn;
        let mut outs: Vec<Outcome> = Vec::new();
        let ghost mut reps: Seq<Option<Seq<u8>>> = Seq::empty();
        let mut pos: usize = 0;
        let mut done = false;
        proof {
            let res = run_spec(buf, 0, t0, rc, now_ms);
            assert(reps + res.1 =~= res.1);
        }
        while pos < self.buf.len() && !done
            invariant
                server.wf(),
                pos <= self.buf@.len(),
                buf == self.buf@,
                rc == self.replication_conn,
                run_spec(buf, 0, t0, rc, now_ms) == ({
                    let rest = run_spec(buf, pos as int, track_of(server), rc, now_ms);
                    (rest.0, reps + rest.1)
                }),
                done ==> run_spec(buf, pos as int, track_of(server), rc, now_ms) == (track_of(server), Seq::<Option<Seq<u8>>>::empty()),
                outs@.len() == reps.len(),
                forall|i: int| 0 <= i < outs@.len() ==> (reps[i] matches Some(x) ==> (#[trigger] outs@[i]).reply@ == x),
            decreases self.buf.len() - pos, if done { 0int } else { 1int },
        {
            let ghost t = track_of(server);
            let ghost rep = match step_spec(buf, pos as int, t, rc, now_ms) {
                StepSpec::Handled(_, rep, _) => rep,
                _ => None,
            };
            match server.process_next(self.buf.as_slice(), pos, rc, peer_ip, peer_addr, now_ms) {
                Step::Handled(o, next) => {
                    proof {
                        let t2 = track_of(server);
                        let rest = run_spec(buf, next as int, t2, rc, now_ms);
                        assert(run_spec(buf, pos as int, t, rc, now_ms) == (rest.0, seq![rep] + rest.1));
                        assert((reps + seq![rep]) + rest.1 =~= reps + (seq![rep] + rest.1));
                        reps = reps.push(rep);
                    }
                    outs.push(o);
                    pos = next;
                },
                _ => {
                    done = true;
                },
            }
        }
        proof {
            let rest = run_spec(buf, pos as int, track_of(server), rc, now_ms);
            assert(reps + Seq::<Option<Seq<u8>>>::empty() =~= reps);
        }
        outs
    }

    /// The first token of value `id`: a simple string's text or an array's
    /// first bulk string.
    pub fn get_command(&self, id: usize) -> (r: Vec<u8>)
        ensures
            id >= self.commands@.len() ==> r@ == words::invalid_index_spec(),
            id < self.commands@.len() ==> r@ == match self.commands@[id as int] {
                DataType::SimpleString(s, _, _) => s@,
                DataType::Array(items, _, _) => if items@.len() > 0 && items@[0] is BulkString {
                    items@[0]->BulkString_0@
                } else {
                    words::not_implemented_spec()
                },
                _ => words::not_implemented_spec(),
            },
    {
        if id >= self.commands.len() {
            return words::invalid_index();
        }
        match &self.commands[id] {
            DataType::SimpleString(s, _, _) => crate::streams::clone_bytes(s),
            DataType::Array(items, _, _) => {
                if items.len() > 0 {
                    match &items[0] {
                        DataType::BulkString(s, _, _) => crate::streams::clone_bytes(s),
                        _ => words::not_implemented(),
                    }
                } else {
                    words::not_implemented()
                }
            },
            _ => words::not_implemented(),
        }
    }
}

} // verus!
