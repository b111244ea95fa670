//! The replica's side of replication: the outbound handshake
//! (PING, REPLCONF listening-port, REPLCONF capa, PSYNC) as a state machine
//! that maps a state and an event to the next state and an action, and the
//! counter of bytes applied from the primary.
use vstd::prelude::*;
use crate::args::{lower, to_lower};
use crate::codec::{push_array_header, push_bulk, push_decimal, DataType, parse_value_at};
use crate::resp::{decimal, encode, parse_value, Parsed, Resp};
use crate::words;

verus! {

/// Attempts per handshake step before the replica gives up.
pub const MAX_RETRIES: u8 = 5;

#[derive(Debug, Clone, Copy, PartialEq, Eq, Structural)]
pub struct Init {}

impl Init {
    pub fn new() -> (r: Self) {
        Init {}
    }
}

/// Waiting for the reply to PING; `retries` attempts made.
#[derive(Debug, Clone, Copy, PartialEq, Eq, Structural)]
pub struct Ping {
    pub retries: u8,
}

impl Ping {
    pub fn new() -> (r: Self)
        ensures
            r.retries == 0,
    {
        Ping { retries: 0 }
    }
}

/// Waiting for the reply to REPLCONF listening-port.
#[derive(Debug, Clone, Copy, PartialEq, Eq, Structural)]
pub struct ReplConf1 {
    pub retries: u8,
}

impl ReplConf1 {
    pub fn new() -> (r: Self)
        ensures
            r.retries == 0,
    {
        ReplConf1 { retries: 0 }
    }
}

/// Waiting for the reply to REPLCONF capa.
#[derive(Debug, Clone, Copy, PartialEq, Eq, Structural)]
pub struct ReplConf2 {
    pub retries: u8,
}

impl ReplConf2 {
    pub fn new() -> (r: Self)
        ensures
            r.retries == 0,
    {
        ReplConf2 { retries: 0 }
    }
}

/// Waiting for the reply to PSYNC.
#[derive(Debug, Clone, Copy, PartialEq, Eq, Structural)]
pub struct PSync {
    pub retries: u8,
}

impl PSync {
    pub fn new() -> (r: Self)
        ensures
            r.retries == 0,
    {
        PSync { retries: 0 }
    }
}

#[derive(Debug, Clone, Copy, PartialEq, Eq, Structural)]
pub struct Complete {}

impl Complete {
    pub fn new() -> (r: Self) {
        Complete {}
    }
}

/// Where the handshake stands. `Complete` and `Failed` never change.
#[derive(Debug, Clone, Copy, PartialEq, Eq, Structural)]
pub enum Handshake {
    Init(Init),
    Ping(Ping),
    ReplConf1(ReplConf1),
    ReplConf2(ReplConf2),
    PSync(PSync),
    Complete(Complete),
    Failed,
}

/// What happened since the last step.
#[derive(Debug)]
pub enum Event {
    /// The connection to the primary is up.
    Start,
    /// Bytes came back from the primary.
    Reply(Vec<u8>),
    /// Nothing came back, or the send failed.
    NoReply,
}

/// What to do next.
#[derive(Debug)]
pub enum Action {
    Send(Vec<u8>),
    /// Wait this many milliseconds, then send.
    SleepThenSend(u64, Vec<u8>),
    /// The handshake is over: the connection now carries the primary's stream.
    Done,
    /// All attempts failed.
    GiveUp,
    Nothing,
}

/// The primary to replicate from, and the port this node listens on.
#[derive(Debug)]
pub struct MasterNodeConfig {
    pub master_ip_addr: String,
    pub master_port: u16,
    pub my_port: u16,
}

impl MasterNodeConfig {
    pub fn new(master_ip_addr: String, master_port: u16, my_port: u16) -> (r: Self)
        ensures
            r.master_ip_addr == master_ip_addr,
            r.master_port == master_port,
            r.my_port == my_port,
    {
        MasterNodeConfig { master_ip_addr, master_port, my_port }
    }
}

pub open spec fn bulk_array(items: Seq<Seq<u8>>) -> Resp {
    Resp::Array(items.map_values(|b: Seq<u8>| Resp::Bulk(b)))
}

/// The command sent at step `stage` (1 to 4) of the handshake.
pub open spec fn command_for(stage: int, port: u16) -> Seq<u8> {
    if stage == 1 {
        encode(bulk_array(seq![words::cmd_ping_spec()]))
    } else if stage == 2 {
        encode(bulk_array(seq![words::cmd_replconf_spec(), words::listening_port_spec(), decimal(port as nat)]))
    } else if stage == 3 {
        encode(bulk_array(seq![words::cmd_replconf_spec(), words::capa_spec(), words::psync2_spec()]))
    } else {
        encode(bulk_array(seq![words::cmd_psync_spec(), words::question_spec(), words::minus_one_spec()]))
    }
}

/// The word that the reply at step `stage` must hold.
pub open spec fn expected_word(stage: int) -> Seq<u8> {
    if stage == 1 {
        words::pong_spec()
    } else if stage == 2 || stage == 3 {
        words::ok_spec()
    } else {
        words::fullresync_spec()
    }
}

/// `w` occurs in `s` once ASCII case is folded.
pub open spec fn contains_folded(s: Seq<u8>, w: Seq<u8>) -> bool {
    exists|i: int| 0 <= i && i + w.len() <= s.len() && #[trigger] folded_at(s, w, i)
}

/// `w` stands at `i` in `s` once ASCII case is folded.
pub open spec fn folded_at(s: Seq<u8>, w: Seq<u8>, i: int) -> bool {
    forall|k: int| 0 <= k < w.len() ==> lower(#[trigger] s[i + k]) == w[k]
}

/// The reply starts with a simple string that holds `w`.
pub open spec fn reply_holds(b: Seq<u8>, w: Seq<u8>) -> bool {
    parse_value(b, 0) matches Parsed::Done(Resp::Simple(s), _) && contains_folded(s, w)
}

pub open spec fn stage_of(h: Handshake) -> int {
    match h {
        Handshake::Init(_) => 0,
        Handshake::Ping(_) => 1,
        Handshake::ReplConf1(_) => 2,
        Handshake::ReplConf2(_) => 3,
        Handshake::PSync(_) => 4,
        Handshake::Complete(_) => 5,
        Handshake::Failed => 6,
    }
}

pub open spec fn attempts_of(h: Handshake) -> u8 {
    match h {
        Handshake::Ping(p) => p.retries,
        Handshake::ReplConf1(p) => p.retries,
        Handshake::ReplConf2(p) => p.retries,
        Handshake::PSync(p) => p.retries,
        _ => 0,
    }
}

/// The state at step `stage` after `attempts` attempts.
pub open spec fn at_stage(stage: int, attempts: u8) -> Handshake {
    if stage == 1 {
        Handshake::Ping(Ping { retries: attempts })
    } else if stage == 2 {
        Handshake::ReplConf1(ReplConf1 { retries: attempts })
    } else if stage == 3 {
        Handshake::ReplConf2(ReplConf2 { retries: attempts })
    } else {
        Handshake::PSync(PSync { retries: attempts })
    }
}

/// A state the handshake can reach: a step's attempts lie between 1 and
/// `MAX_RETRIES`.
pub open spec fn reachable(h: Handshake) -> bool {
    1 <= stage_of(h) <= 4 ==> 1 <= attempts_of(h) <= MAX_RETRIES
}

fn folded_contains(s: &[u8], w: &[u8]) -> (r: bool)
    ensures
        r == contains_folded(s@, w@),
{
    if w.len() > s.len() {
        return false;
    }
    let mut i: usize = 0;
    while i <= s.len() - w.len()
        invariant
            w.len() <= s.len(),
            i <= s.len() - w.len() + 1,
            forall|j: int| 0 <= j < i ==> !#[trigger] folded_at(s@, w@, j),
        decreases s.len() - i,
    {
        let mut k: usize = 0;
        let mut same = true;
        while k < w.len()
            invariant
                i + w.len() <= s.len(),
                k <= w.len(),
                same == (forall|m: int| 0 <= m < k ==> lower(#[trigger] s@[i + m]) == w@[m]),
            decreases w.len() - k,
        {
            if to_lower(s[i + k]) != w[k] {
                same = false;
            }
            k = k + 1;
        }
        if same {
            assert(folded_at(s@, w@, i as int));
            return true;
        }
        i = i + 1;
    }
    proof {
        assert forall|j: int| 0 <= j && j + w.len() <= s.len() implies !#[trigger] folded_at(s@, w@, j) by {
            assert(j < i);
        }
    }
    false
}

fn reply_matches(b: &[u8], w: &[u8]) -> (r: bool)
    ensures
        r == reply_holds(b@, w@),
{
    match parse_value_at(b, 0) {
        Ok((DataType::SimpleString(s, _, _), _)) => folded_contains(s.as_slice(), w),
        _ => false,
    }
}

/// A command as an array of bulk strings.
pub fn bulk_command(items: &Vec<Vec<u8>>) -> (r: Vec<u8>)
    ensures
        r@ == encode(bulk_array(crate::streams::bytes_list(items@))),
{
    let ghost parts = crate::streams::bytes_list(items@);
    let mut out: Vec<u8> = Vec::new();
    push_array_header(&mut out, items.len());
    let ghost head = out@;
    let mut i: usize = 0;
    while i < items.len()
        invariant
            i <= items.len(),
            parts == crate::streams::bytes_list(items@),
            out@ == head + crate::resp::encode_items(parts.subrange(0, i as int).map_values(|b: Seq<u8>| Resp::Bulk(b))),
        decreases items.len() - i,
    {
        push_bulk(&mut out, items[i].as_slice());
        proof {
            let a = parts.subrange(0, i as int).map_values(|b: Seq<u8>| Resp::Bulk(b));
            let c = parts.subrange(0, i + 1).map_values(|b: Seq<u8>| Resp::Bulk(b));
            assert(c.drop_last() =~= a);
            assert(c.last() == Resp::Bulk(items@[i as int]@));
        }
        i = i + 1;
    }
    proof {
        assert(parts.subrange(0, i as int) =~= parts);
        assert(parts.len() == items@.len());
    }
    out
}

/// The command of step `stage` (1 to 4).
pub fn command(stage: u8, port: u16) -> (r: Vec<u8>)
    requires
        1 <= stage <= 4,
    ensures
        r@ == command_for(stage as int, port),
{
    let mut items: Vec<Vec<u8>> = Vec::new();
    if stage == 1 {
        items.push(words::cmd_ping());
    } else if stage == 2 {
        items.push(words::cmd_replconf());
        items.push(words::listening_port());
        let mut p: Vec<u8> = Vec::new();
        push_decimal(&mut p, port as u64);
        assert(p@ =~= decimal(port as nat));
        items.push(p);
    } else if stage == 3 {
        items.push(words::cmd_replconf());
        items.push(words::capa());
        items.push(words::psync2());
    } else {
        items.push(words::cmd_psync());
        items.push(words::question());
        items.push(words::minus_one());
    }
    let r = bulk_command(&items);
    proof {
        let parts = crate::streams::bytes_list(items@);
        if stage == 1 {
            assert(parts =~= seq![words::cmd_ping_spec()]);
        } else if stage == 2 {
            assert(parts =~= seq![words::cmd_replconf_spec(), words::listening_port_spec(), decimal(port as nat)]);
        } else if stage == 3 {
            assert(parts =~= seq![words::cmd_replconf_spec(), words::capa_spec(), words::psync2_spec()]);
        } else {
            assert(parts =~= seq![words::cmd_psync_spec(), words::question_spec(), words::minus_one_spec()]);
        }
    }
    r
}

fn expected(stage: u8) -> (r: Vec<u8>)
    ensures
        r@ == expected_word(stage as int),
{
    if stage == 1 {
        words::pong()
    } else if stage == 2 || stage == 3 {
        words::ok()
    } else {
        words::fullresync()
    }
}

fn stage_state(stage: u8, attempts: u8) -> (r: Handshake)
    ensures
        r == at_stage(stage as int, attempts),
{
    if stage == 1 {
        Handshake::Ping(Ping { retries: attempts })
    } else if stage == 2 {
        Handshake::ReplConf1(ReplConf1 { retries: attempts })
    } else if stage == 3 {
        Handshake::ReplConf2(ReplConf2 { retries: attempts })
    } else {
        Handshake::PSync(PSync { retries: attempts })
    }
}

/// One step of the handshake. From `Init` the first command goes out. At a
/// step, a reply that holds the expected word moves to the next step and
/// sends its command (after PSYNC: done). Anything else, while attempts
/// remain, waits `1000 * attempts` ms and sends the command again; after the
/// last attempt the handshake fails.
pub fn advance(state: Handshake, event: &Event, config: &MasterNodeConfig) -> (r: (Handshake, Action))
    requires
        reachable(state),
    ensures
        reachable(r.0),
        ({
            let s = stage_of(state);
            let k = attempts_of(state);
            let port = config.my_port;
            if s == 0 {
                r.0 == at_stage(1, 1) && (r.1 matches Action::Send(c) && c@ == command_for(1, port))
            } else if s >= 5 {
                r.0 == state && r.1 is Nothing
            } else if event matches Event::Reply(b) && reply_holds(b@, expected_word(s)) {
                if s < 4 {
                    r.0 == at_stage(s + 1, 1) && (r.1 matches Action::Send(c) && c@ == command_for(s + 1, port))
                } else {
                    r.0 == Handshake::Complete(Complete {}) && r.1 is Done
                }
            } else if k < MAX_RETRIES {
                r.0 == at_stage(s, (k + 1) as u8) && (r.1 matches Action::SleepThenSend(ms, c)
                    && ms == 1000 * k && c@ == command_for(s, port))
            } else {
                r.0 == Handshake::Failed && r.1 is GiveUp
            }
        }),
{
    let (stage, k): (u8, u8) = match state {
        Handshake::Init(_) => (0, 0),
        Handshake::Ping(p) => (1, p.retries),
        Handshake::ReplConf1(p) => (2, p.retries),
        Handshake::ReplConf2(p) => (3, p.retries),
        Handshake::PSync(p) => (4, p.retries),
        Handshake::Complete(_) => (5, 0),
        Handshake::Failed => (6, 0),
    };
    let port = config.my_port;
    if stage == 0 {
        return (Handshake::Ping(Ping { retries: 1 }), Action::Send(command(1, port)));
    }
    if stage >= 5 {
        return (state, Action::Nothing);
    }
    let good = match event {
        Event::Reply(b) => reply_matches(b.as_slice(), expected(stage).as_slice()),
        _ => false,
    };
    if good {
        if stage < 4 {
            (stage_state(stage + 1, 1), Action::Send(command(stage + 1, port)))
        } else {
            (Handshake::Complete(Complete {}), Action::Done)
        }
    } else if k < MAX_RETRIES {
        (stage_state(stage, k + 1), Action::SleepThenSend(1000 * (k as u64), command(stage, port)))
    } else {
        (Handshake::Failed, Action::GiveUp)
    }
}

/// The replica's replication state: the handshake, whether the snapshot has
/// been taken in, and the bytes applied from the primary since.
#[derive(Debug)]
pub struct Config {
    pub master_node: MasterNodeConfig,
    pub state: Handshake,
    pub in_sync: bool,
    pub offset: u64,
}

impl Config {
    pub open spec fn synced(&self) -> bool {
        self.in_sync
    }

    pub open spec fn applied(&self) -> u64 {
        self.offset
    }

    pub fn new(master_ip_addr: String, master_port: u16, my_port: u16) -> (r: Self)
        ensures
            !r.synced(),
            r.applied() == 0,
            r.state == Handshake::Init(Init {}),
            r.master_node.my_port == my_port,
            r.master_node.master_port == master_port,
            r.master_node.master_ip_addr == master_ip_addr,
    {
        Config {
            master_node: MasterNodeConfig::new(master_ip_addr, master_port, my_port),
            state: Handshake::Init(Init::new()),
            in_sync: false,
            offset: 0,
        }
    }

    /// The snapshot has been taken in: counting starts.
    pub fn synced_in(&mut self)
        ensures
            final(self).synced(),
            final(self).applied() == old(self).applied(),
            final(self).state == old(self).state,
    {
        self.in_sync = true;
    }

    /// `len` bytes from the primary were applied; they count once the
    /// snapshot is in (held at `u64::MAX`).
    pub fn track_offset(&mut self, len: u64)
        ensures
            final(self).synced() == old(self).synced(),
            final(self).state == old(self).state,
            final(self).applied() == (if old(self).synced() {
                crate::repl::add_sat(old(self).applied() as int, len as int)
            } else {
                old(self).applied()
            }),
    {
        if self.in_sync {
            self.offset = if len > u64::MAX - self.offset { u64::MAX } else { self.offset + len };
        }
    }

    /// The connection to the primary is closed: the handshake starts over.
    pub fn shutdown(&mut self)
        ensures
            final(self).state == Handshake::Init(Init {}),
            final(self).synced() == old(self).synced(),
            final(self).applied() == old(self).applied(),
    {
        self.state = Handshake::Init(Init::new());
    }

    pub fn get_offset(&self) -> (r: u64)
        ensures
            r == self.applied(),
    {
        self.offset
    }
}

} // verus!
