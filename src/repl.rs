//! The primary's side of replication: the registry of replicas, the fan-out
//! log of mutating commands, per-replica byte accounting, and the decisions
//! of WAIT. Sockets stay with the caller, which hands over what came in and
//! sends what these functions return.
use vstd::prelude::*;
use crate::codec::push_all;
use crate::resp::{decimal, encode, encode_items, Resp};
use crate::slave::{bulk_array, bulk_command};
use crate::streams::bytes_list;
use crate::words;

verus! {

/// The length of `REPLCONF GETACK *` on the wire.
pub const GETACK_LEN: u64 = 37;

/// `REPLCONF GETACK *`, which asks a replica for its count of applied bytes.
pub fn getack_command() -> (r: Vec<u8>)
    ensures
        r@ == encode(bulk_array(seq![words::cmd_replconf_spec(), words::cmd_getack_spec(), words::star_spec()])),
        r@.len() == GETACK_LEN,
{
    let mut items: Vec<Vec<u8>> = Vec::new();
    items.push(words::cmd_replconf());
    items.push(words::cmd_getack());
    items.push(words::star());
    assert(bytes_list(items@) =~= seq![words::cmd_replconf_spec(), words::cmd_getack_spec(), words::star_spec()]);
    let r = bulk_command(&items);
    proof {
        let parts = seq![words::cmd_replconf_spec(), words::cmd_getack_spec(), words::star_spec()];
        let rs = parts.map_values(|b: Seq<u8>| Resp::Bulk(b));
        lemma_decimal_small(3);
        lemma_decimal_small(8);
        lemma_decimal_small(6);
        lemma_decimal_small(1);
        assert(rs.drop_last().drop_last().drop_last() =~= Seq::<Resp>::empty());
        assert(encode_items(Seq::<Resp>::empty()).len() == 0);
        assert(encode(rs[0]).len() == 14);
        assert(encode(rs[1]).len() == 12);
        assert(encode(rs[2]).len() == 7);
        assert(rs.drop_last().drop_last() =~= seq![rs[0]]);
        assert(rs.drop_last() =~= seq![rs[0], rs[1]]);
        assert(encode_items(seq![rs[0]]).len() == 14);
        assert(encode_items(seq![rs[0], rs[1]]).len() == 26);
        assert(encode_items(rs).len() == 33);
    }
    r
}

proof fn lemma_decimal_small(n: nat)
    requires
        n < 10,
    ensures
        decimal(n).len() == 1,
{
}

/// One replica.
#[derive(Debug)]
pub struct ReplicationNode {
    ip: String,
    peer_addr: String,
    port: u16,
    ready: bool,
    /// How many commands of the fan-out log this replica has been sent.
    cursor: usize,
    bytes_sent: u64,
    bytes_acked: u64,
}

/// What the registry knows of one replica.
pub struct NodeView {
    pub peer: Seq<char>,
    pub port: u16,
    pub ready: bool,
    pub position: nat,
    pub sent: u64,
    pub acked: u64,
}

impl ReplicationNode {
    pub open spec fn view(&self) -> NodeView {
        NodeView {
            peer: self.peer(),
            port: self.listening_port(),
            ready: self.is_ready(),
            position: self.position(),
            sent: self.sent(),
            acked: self.acked(),
        }
    }

    pub closed spec fn peer(&self) -> Seq<char> {
        self.peer_addr@
    }

    pub closed spec fn listening_port(&self) -> u16 {
        self.port
    }

    pub closed spec fn is_ready(&self) -> bool {
        self.ready
    }

    pub closed spec fn sent(&self) -> u64 {
        self.bytes_sent
    }

    pub closed spec fn acked(&self) -> u64 {
        self.bytes_acked
    }

    pub closed spec fn position(&self) -> nat {
        self.cursor as nat
    }

    pub closed spec fn wf(&self) -> bool {
        self.bytes_acked <= self.bytes_sent
    }

    /// A replica that has announced its port and has not synced yet.
    pub fn new(ip: &str, port: u16, peer_addr: &str) -> (r: Self)
        ensures
            r.wf(),
            r.peer() == peer_addr@,
            r.listening_port() == port,
            !r.is_ready(),
            r.sent() == 0,
            r.acked() == 0,
            r.position() == 0,
    {
        ReplicationNode {
            ip: ip.to_owned(),
            peer_addr: peer_addr.to_owned(),
            port,
            ready: false,
            cursor: 0,
            bytes_sent: 0,
            bytes_acked: 0,
        }
    }

    /// The replica has its snapshot: from now on it is sent the log from
    /// `offset` on.
    pub fn mark_ready(&mut self, offset: usize)
        requires
            old(self).wf(),
        ensures
            final(self).wf(),
            final(self).is_ready(),
            final(self).position() == offset,
            final(self).peer() == old(self).peer(),
            final(self).listening_port() == old(self).listening_port(),
            final(self).sent() == old(self).sent(),
            final(self).acked() == old(self).acked(),
    {
        self.ready = true;
        self.cursor = offset;
    }

    /// The bytes of the log that a ready replica has not been sent yet, all
    /// at once; counts them as sent. A replica that is not ready gets none.
    pub fn replicate(&mut self, buffers: &Vec<Vec<u8>>) -> (r: Vec<u8>)
        requires
            old(self).wf(),
            old(self).position() <= buffers@.len(),
        ensures
            final(self).wf(),
            r@ == (if old(self).is_ready() { log_bytes(bytes_list(buffers@), old(self).position() as int) } else { Seq::empty() }),
            final(self).position() == (if old(self).is_ready() { buffers@.len() } else { old(self).position() }),
            final(self).sent() == add_sat(old(self).sent() as int, r@.len() as int),
            final(self).acked() == old(self).acked(),
            final(self).is_ready() == old(self).is_ready(),
            final(self).peer() == old(self).peer(),
            final(self).listening_port() == old(self).listening_port(),
    {
        let mut out: Vec<u8> = Vec::new();
        if !self.ready {
            return out;
        }
        let start = self.cursor;
        let mut i = self.cursor;
        while i < buffers.len()
            invariant
                start <= i <= buffers@.len(),
                out@ + log_bytes(bytes_list(buffers@), i as int) == log_bytes(bytes_list(buffers@), start as int),
            decreases buffers.len() - i,
        {
            push_all(&mut out, buffers[i].as_slice());
            proof {
                assert(bytes_list(buffers@)[i as int] == buffers@[i as int]@);
                assert(log_bytes(bytes_list(buffers@), i as int) == buffers@[i as int]@ + log_bytes(bytes_list(buffers@), i + 1));
                assert(out@ + log_bytes(bytes_list(buffers@), i + 1) =~= log_bytes(bytes_list(buffers@), start as int));
            }
            i = i + 1;
        }
        assert(out@ + Seq::<u8>::empty() =~= out@);
        self.cursor = i;
        self.bytes_sent = sat_add(self.bytes_sent, out.len() as u64);
        out
    }

    /// A REPLCONF ACK of `n` bytes: the acknowledged count moves up to `n`,
    /// never past what was sent, and never down.
    pub fn replication_acked(&mut self, n: u64)
        requires
            old(self).wf(),
        ensures
            final(self).wf(),
            final(self).acked() == ack_after(old(self).acked(), old(self).sent(), n),
            final(self).sent() == old(self).sent(),
            final(self).is_ready() == old(self).is_ready(),
            final(self).position() == old(self).position(),
            final(self).peer() == old(self).peer(),
            final(self).listening_port() == old(self).listening_port(),
    {
        let capped = if n > self.bytes_sent { self.bytes_sent } else { n };
        if capped > self.bytes_acked {
            self.bytes_acked = capped;
        }
    }

    /// A GETACK is being sent: its bytes count as sent.
    pub fn get_ack(&mut self)
        requires
            old(self).wf(),
        ensures
            final(self).wf(),
            final(self).sent() == add_sat(old(self).sent() as int, GETACK_LEN as int),
            final(self).acked() == old(self).acked(),
            final(self).is_ready() == old(self).is_ready(),
            final(self).position() == old(self).position(),
            final(self).peer() == old(self).peer(),
            final(self).listening_port() == old(self).listening_port(),
    {
        self.bytes_sent = sat_add(self.bytes_sent, GETACK_LEN);
    }

    /// It has acknowledged everything it was sent.
    pub fn pending(&self) -> (r: bool)
        ensures
            r == (self.acked() < self.sent()),
    {
        self.bytes_acked < self.bytes_sent
    }
}

/// The log's commands from index `i` on, one after the other.
pub open spec fn log_bytes(log: Seq<Seq<u8>>, i: int) -> Seq<u8>
    decreases log.len() - i,
{
    if i < 0 || i >= log.len() {
        Seq::empty()
    } else {
        log[i] + log_bytes(log, i + 1)
    }
}

/// `a + b`, held at `u64::MAX`.
pub open spec fn add_sat(a: int, b: int) -> u64 {
    if a + b > u64::MAX { u64::MAX } else { (a + b) as u64 }
}

pub open spec fn ack_after(acked: u64, sent: u64, n: u64) -> u64 {
    let capped = if n > sent { sent } else { n };
    if capped > acked { capped } else { acked }
}

fn sat_add(a: u64, b: u64) -> (r: u64)
    ensures
        r == add_sat(a as int, b as int),
{
    if b > u64::MAX - a { u64::MAX } else { a + b }
}

/// The sum of `bytes-sent` over the replicas.
pub open spec fn total_sent(nodes: Seq<ReplicationNode>) -> int
    decreases nodes.len(),
{
    if nodes.len() == 0 { 0 } else { total_sent(nodes.drop_last()) + nodes.last().sent() }
}

pub proof fn lemma_total_sent_grows(a: Seq<ReplicationNode>, b: Seq<ReplicationNode>)
    requires
        a.len() == b.len(),
        forall|i: int| 0 <= i < a.len() ==> (#[trigger] a[i]).sent() <= b[i].sent(),
    ensures
        total_sent(a) <= total_sent(b),
    decreases a.len(),
{
    if a.len() > 0 {
        lemma_total_sent_grows(a.drop_last(), b.drop_last());
    }
}

proof fn lemma_total_sent_push(a: Seq<ReplicationNode>, n: ReplicationNode)
    ensures
        total_sent(a.push(n)) == total_sent(a) + n.sent(),
{
    assert(a.push(n).drop_last() =~= a);
}

/// How a WAIT starts.
#[derive(Debug)]
pub enum WaitStart {
    /// Nothing is pending: reply with this count at once.
    Done(usize),
    /// Send `REPLCONF GETACK *` to these peers and poll the state.
    Waiting(WaitState, Vec<String>),
}

/// What the WAIT loop does next.
#[derive(Debug)]
pub enum WaitStep {
    /// Reply with this count.
    Done(usize),
    /// Poll again later.
    Pending,
}

/// A WAIT in progress: the bytes each replica had been sent when it began,
/// how many replicas it waits for, and when it gives up.
#[derive(Debug)]
pub struct WaitState {
    pub targets: Vec<(String, u64)>,
    pub needed: usize,
    pub deadline: Option<u64>,
}

/// The registry of replicas and the fan-out log.
pub struct ReplicationConfig {
    nodes: Vec<ReplicationNode>,
    commands: Vec<Vec<u8>>,
}

impl ReplicationConfig {
    pub closed spec fn nodes(&self) -> Seq<ReplicationNode> {
        self.nodes@
    }

    /// The fan-out log: the wire bytes of each mutating command, in the
    /// order they were applied.
    pub closed spec fn log(&self) -> Seq<Seq<u8>> {
        bytes_list(self.commands@)
    }

    /// Peers are unique; each replica has acknowledged no more than it was
    /// sent, and its cursor lies within the log.
    pub closed spec fn wf(&self) -> bool {
        &&& forall|i: int, j: int| 0 <= i < j < self.nodes@.len()
            ==> (#[trigger] self.nodes@[i]).peer() != (#[trigger] self.nodes@[j]).peer()
        &&& forall|i: int| 0 <= i < self.nodes@.len() ==> (#[trigger] self.nodes@[i]).wf()
            && self.nodes@[i].position() <= self.commands@.len()
    }

    pub fn new() -> (r: Self)
        ensures
            r.wf(),
            r.nodes().len() == 0,
            r.log().len() == 0,
    {
        ReplicationConfig { nodes: Vec::new(), commands: Vec::new() }
    }

    fn find(&self, peer_addr: &str) -> (r: Option<usize>)
        ensures
            match r {
                Some(i) => i < self.nodes@.len() && self.nodes@[i as int].peer() == peer_addr@,
                None => forall|j: int| 0 <= j < self.nodes@.len() ==> (#[trigger] self.nodes@[j]).peer() != peer_addr@,
            },
    {
        let p = peer_addr.to_owned();
        let mut i: usize = 0;
        while i < self.nodes.len()
            invariant
                i <= self.nodes@.len(),
                p@ == peer_addr@,
                forall|j: int| 0 <= j < i ==> (#[trigger] self.nodes@[j]).peer() != peer_addr@,
            decreases self.nodes.len() - i,
        {
            if self.nodes[i].peer_addr == p {
                return Some(i);
            }
            i = i + 1;
        }
        None
    }

    /// REPLCONF listening-port from `peer_addr`: registers the replica, or
    /// updates the port of the one already registered there.
    pub fn add_node(&mut self, ip: &str, port: u16, peer_addr: &str)
        requires
            old(self).wf(),
        ensures
            final(self).wf(),
            final(self).log() == old(self).log(),
            total_sent(final(self).nodes()) >= total_sent(old(self).nodes()),
            node_added(old(self).nodes(), final(self).nodes(), peer_addr@, port),
    {
        proof {
            lemma_index_of_peer(self.nodes@, peer_addr@);
        }
        match self.find(peer_addr) {
            Some(i) => {
                let mut n = self.nodes.remove(i);
                n.port = port;
                self.nodes.insert(i, n);
                proof {
                    assert(self.nodes@ =~= old(self).nodes@.update(i as int, n));
                    lemma_total_sent_grows(old(self).nodes@, self.nodes@);
                }
            },
            None => {
                let n = ReplicationNode::new(ip, port, peer_addr);
                proof {
                    lemma_total_sent_push(self.nodes@, n);
                }
                self.nodes.push(n);
            },
        }
    }

    /// PSYNC from `peer_addr` was answered with the snapshot: the replica is
    /// ready and will be sent the log from `repl_id` on (held within the
    /// log; a negative one means its start). Returns whether the peer is
    /// registered.
    pub fn update_psync_repl_id(&mut self, peer_addr: &str, repl_id: i64) -> (r: bool)
        requires
            old(self).wf(),
        ensures
            final(self).wf(),
            final(self).log() == old(self).log(),
            total_sent(final(self).nodes()) >= total_sent(old(self).nodes()),
            final(self).nodes().len() == old(self).nodes().len(),
            r == (index_of_peer(old(self).nodes(), peer_addr@) is Some),
            node_readied(old(self).nodes(), final(self).nodes(), peer_addr@, clamp_offset(repl_id, old(self).log().len())),
    {
        proof {
            lemma_index_of_peer(self.nodes@, peer_addr@);
        }
        match self.find(peer_addr) {
            Some(i) => {
                let offset: usize = if repl_id <= 0 {
                    0
                } else if repl_id as u64 >= self.commands.len() as u64 {
                    self.commands.len()
                } else {
                    repl_id as usize
                };
                let mut n = self.nodes.remove(i);
                n.mark_ready(offset);
                self.nodes.insert(i, n);
                proof {
                    assert(self.nodes@ =~= old(self).nodes@.update(i as int, n));
                    lemma_total_sent_grows(old(self).nodes@, self.nodes@);
                }
                true
            },
            None => false,
        }
    }

    /// A mutating command was applied: its wire bytes join the log.
    pub fn append(&mut self, cmd: Vec<u8>)
        requires
            old(self).wf(),
        ensures
            final(self).wf(),
            final(self).log() == old(self).log().push(cmd@),
            final(self).nodes() == old(self).nodes(),
    {
        let ghost c = cmd@;
        self.commands.push(cmd);
        proof {
            assert(self.log() =~= old(self).log().push(c));
        }
    }

    /// What each replica is to be sent now, by peer, in registry order: for
    /// a ready one the log from its cursor on, counted as sent; for another,
    /// nothing.
    pub fn drain(&mut self) -> (r: Vec<(String, Vec<u8>)>)
        requires
            old(self).wf(),
        ensures
            final(self).wf(),
            final(self).log() == old(self).log(),
            final(self).nodes().len() == old(self).nodes().len(),
            total_sent(final(self).nodes()) >= total_sent(old(self).nodes()),
            forall|j: int| 0 <= j < old(self).nodes().len() ==> {
                let o = #[trigger] old(self).nodes()[j].view();
                let n = final(self).nodes()[j].view();
                &&& n.peer == o.peer && n.port == o.port && n.ready == o.ready && n.acked == o.acked
                &&& n.position == (if o.ready { old(self).log().len() } else { o.position })
                &&& n.sent >= o.sent
            },
            r@.len() == old(self).nodes().len(),
            forall|j: int| 0 <= j < r@.len() ==> final(self).nodes()[j].sent()
                == add_sat(old(self).nodes()[j].sent() as int, (#[trigger] r@[j]).1@.len() as int),
            forall|j: int| 0 <= j < r@.len() ==> (#[trigger] r@[j]).0@ == old(self).nodes()[j].peer()
                && r@[j].1@ == (if old(self).nodes()[j].is_ready() {
                    log_bytes(old(self).log(), old(self).nodes()[j].position() as int)
                } else {
                    Seq::empty()
                }),
    {
        let mut out: Vec<(String, Vec<u8>)> = Vec::new();
        let mut i: usize = 0;
        while i < self.nodes.len()
            invariant
                i <= self.nodes@.len() == old(self).nodes@.len(),
                self.wf(),
                self.commands == old(self).commands,
                out@.len() == i,
                forall|j: int| 0 <= j < i ==> self.nodes@[j].sent()
                    == add_sat(old(self).nodes@[j].sent() as int, (#[trigger] out@[j]).1@.len() as int),
                forall|j: int| 0 <= j < i ==> (#[trigger] out@[j]).0@ == old(self).nodes@[j].peer()
                    && out@[j].1@ == (if old(self).nodes@[j].is_ready() {
                        log_bytes(bytes_list(old(self).commands@), old(self).nodes@[j].position() as int)
                    } else {
                        Seq::empty()
                    }),
                forall|j: int| 0 <= j < self.nodes@.len() ==> (#[trigger] self.nodes@[j]).sent() >= old(self).nodes@[j].sent(),
                forall|j: int| i <= j < self.nodes@.len() ==> #[trigger] self.nodes@[j] == old(self).nodes@[j],
                forall|j: int| 0 <= j < i ==> {
                    let o = #[trigger] old(self).nodes@[j].view();
                    let n = self.nodes@[j].view();
                    &&& n.peer == o.peer && n.port == o.port && n.ready == o.ready && n.acked == o.acked
                    &&& n.position == (if o.ready { self.commands@.len() } else { o.position })
                },
            decreases self.nodes.len() - i,
        {
            let mut n = self.nodes.remove(i);
            let bytes = n.replicate(&self.commands);
            let peer = n.peer_addr.clone();
            self.nodes.insert(i, n);
            out.push((peer, bytes));
            i = i + 1;
        }
        proof {
            lemma_total_sent_grows(old(self).nodes@, self.nodes@);
            assert(self.log() =~= old(self).log());
        }
        out
    }

    /// Asks every ready replica for its count: returns their peers, to which
    /// `REPLCONF GETACK *` goes, and counts those bytes as sent.
    pub fn get_acks(&mut self) -> (r: Vec<String>)
        requires
            old(self).wf(),
        ensures
            final(self).wf(),
            final(self).log() == old(self).log(),
            final(self).nodes().len() == old(self).nodes().len(),
            total_sent(final(self).nodes()) >= total_sent(old(self).nodes()),
            forall|j: int| 0 <= j < old(self).nodes().len() ==> {
                let o = #[trigger] old(self).nodes()[j].view();
                let n = final(self).nodes()[j].view();
                n == (if o.ready { NodeView { sent: add_sat(o.sent as int, GETACK_LEN as int), ..o } } else { o })
            },
    {
        let mut out: Vec<String> = Vec::new();
        let mut i: usize = 0;
        while i < self.nodes.len()
            invariant
                i <= self.nodes@.len() == old(self).nodes@.len(),
                self.wf(),
                self.commands == old(self).commands,
                forall|j: int| i <= j < self.nodes@.len() ==> #[trigger] self.nodes@[j] == old(self).nodes@[j],
                forall|j: int| 0 <= j < i ==> {
                    let o = #[trigger] old(self).nodes@[j].view();
                    let n = self.nodes@[j].view();
                    n == (if o.ready { NodeView { sent: add_sat(o.sent as int, GETACK_LEN as int), ..o } } else { o })
                },
            decreases self.nodes.len() - i,
        {
            if self.nodes[i].ready {
                let mut n = self.nodes.remove(i);
                n.get_ack();
                out.push(n.peer_addr.clone());
                self.nodes.insert(i, n);
            }
            i = i + 1;
        }
        proof {
            assert forall|j: int| 0 <= j < self.nodes@.len() implies (#[trigger] old(self).nodes@[j]).sent() <= self.nodes@[j].sent() by {
                let o = old(self).nodes@[j].view();
                assert(self.nodes@[j].view() == (if o.ready { NodeView { sent: add_sat(o.sent as int, GETACK_LEN as int), ..o } } else { o }));
            }
            lemma_total_sent_grows(old(self).nodes@, self.nodes@);
        }
        out
    }

    pub fn num_replicas(&self) -> (r: usize)
        ensures
            r == self.nodes().len(),
    {
        self.nodes.len()
    }

    /// The replicas that have acknowledged every byte they were sent.
    pub fn num_replicas_acked(&self) -> (r: usize)
        ensures
            r == count_acked(self.nodes()),
    {
        let mut c: usize = 0;
        let mut i: usize = 0;
        while i < self.nodes.len()
            invariant
                i <= self.nodes@.len(),
                c == count_acked(self.nodes@.subrange(0, i as int)),
                c <= i,
            decreases self.nodes.len() - i,
        {
            assert(self.nodes@.subrange(0, i + 1).drop_last() =~= self.nodes@.subrange(0, i as int));
            if !self.nodes[i].pending() {
                c = c + 1;
            }
            i = i + 1;
        }
        assert(self.nodes@.subrange(0, i as int) =~= self.nodes@);
        c
    }

    /// REPLCONF ACK `n` from `peer_addr`.
    pub fn replication_acked(&mut self, peer_addr: &str, n: u64) -> (r: bool)
        requires
            old(self).wf(),
        ensures
            final(self).wf(),
            final(self).log() == old(self).log(),
            final(self).nodes().len() == old(self).nodes().len(),
            total_sent(final(self).nodes()) == total_sent(old(self).nodes()),
            r == (index_of_peer(old(self).nodes(), peer_addr@) is Some),
            node_acked(old(self).nodes(), final(self).nodes(), peer_addr@, n),
    {
        proof {
            lemma_index_of_peer(self.nodes@, peer_addr@);
        }
        match self.find(peer_addr) {
            Some(i) => {
                let mut node = self.nodes.remove(i);
                node.replication_acked(n);
                self.nodes.insert(i, node);
                proof {
                    assert(self.nodes@ =~= old(self).nodes@.update(i as int, node));
                    lemma_total_sent_grows(old(self).nodes@, self.nodes@);
                    lemma_total_sent_grows(self.nodes@, old(self).nodes@);
                }
                true
            },
            None => false,
        }
    }

    /// Whether `peer_addr` is a replica that has synced.
    pub fn replication_connection(&self, peer_addr: &str) -> (r: bool)
        requires
            self.wf(),
        ensures
            r == (match index_of_peer(self.nodes(), peer_addr@) {
                Some(i) => self.nodes()[i].is_ready(),
                None => false,
            }),
    {
        proof {
            lemma_index_of_peer(self.nodes@, peer_addr@);
        }
        match self.find(peer_addr) {
            Some(i) => self.nodes[i].ready,
            None => false,
        }
    }

    /// WAIT `n` `timeout_ms` at `now_ms`: where every replica has
    /// acknowledged all it was sent, the reply is the number of replicas at
    /// once; otherwise the bytes sent so far are noted per replica, a GETACK
    /// goes to each ready one, and the wait asks for `n` replicas, or for all
    /// of them where there are fewer.
    pub fn begin_wait(&mut self, n: u64, timeout_ms: u64, now_ms: u64) -> (r: WaitStart)
        requires
            old(self).wf(),
        ensures
            final(self).wf(),
            final(self).log() == old(self).log(),
            total_sent(final(self).nodes()) >= total_sent(old(self).nodes()),
            match r {
                WaitStart::Done(c) => c == old(self).nodes().len() && all_acked(old(self).nodes())
                    && final(self).nodes() == old(self).nodes(),
                WaitStart::Waiting(st, peers) => !all_acked(old(self).nodes())
                    && st.targets@.len() == old(self).nodes().len()
                    && (forall|j: int| 0 <= j < st.targets@.len() ==>
                        (#[trigger] st.targets@[j]).0@ == old(self).nodes()[j].peer()
                        && st.targets@[j].1 == old(self).nodes()[j].sent())
                    && st.needed == (if n < old(self).nodes().len() { n as nat } else { old(self).nodes().len() })
                    && st.deadline == (if timeout_ms == 0 { None } else { Some(add_sat(now_ms as int, timeout_ms as int)) }),
            },
    {
        let total = self.nodes.len();
        if self.num_replicas_acked() == total {
            proof {
                lemma_count_acked_all(self.nodes@);
            }
            return WaitStart::Done(total);
        }
        proof {
            lemma_count_acked_all(self.nodes@);
        }
        let mut targets: Vec<(String, u64)> = Vec::new();
        let mut i: usize = 0;
        while i < self.nodes.len()
            invariant
                i <= self.nodes@.len(),
                targets@.len() == i,
                forall|j: int| 0 <= j < i ==> (#[trigger] targets@[j]).0@ == self.nodes@[j].peer()
                    && targets@[j].1 == self.nodes@[j].sent(),
            decreases self.nodes.len() - i,
        {
            targets.push((self.nodes[i].peer_addr.clone(), self.nodes[i].bytes_sent));
            i = i + 1;
        }
        let needed: usize = if n < total as u64 { n as usize } else { total };
        let deadline = if timeout_ms == 0 {
            None
        } else {
            Some(sat_add(now_ms, timeout_ms))
        };
        let peers = self.get_acks();
        WaitStart::Waiting(WaitState { targets, needed, deadline }, peers)
    }

    /// One poll of a WAIT at `now_ms`: done, with the count of replicas that
    /// have acknowledged what they had been sent when it began, once that
    /// count reaches what it waits for or its deadline has come.
    pub fn poll_wait(&self, st: &WaitState, now_ms: u64) -> (r: WaitStep)
        requires
            self.wf(),
        ensures
            ({
                let c = synced_count(self.nodes(), st.targets@);
                let due = st.deadline matches Some(d) && now_ms >= d;
                match r {
                    WaitStep::Done(k) => k == c && (c >= st.needed || due),
                    WaitStep::Pending => c < st.needed && !due,
                }
            }),
    {
        let mut c: usize = 0;
        let mut i: usize = 0;
        while i < st.targets.len()
            invariant
                i <= st.targets@.len(),
                self.wf(),
                c == synced_count(self.nodes@, st.targets@.subrange(0, i as int)),
                c <= i,
            decreases st.targets.len() - i,
        {
            assert(st.targets@.subrange(0, i + 1).drop_last() =~= st.targets@.subrange(0, i as int));
            let (peer, sent) = &st.targets[i];
            proof {
                lemma_index_of_peer(self.nodes@, peer@);
            }
            let ok = match self.find(peer.as_str()) {
                Some(j) => self.nodes[j].bytes_acked >= *sent,
                None => false,
            };
            if ok {
                c = c + 1;
            }
            i = i + 1;
        }
        assert(st.targets@.subrange(0, i as int) =~= st.targets@);
        let due = match st.deadline {
            Some(d) => now_ms >= d,
            None => false,
        };
        if c >= st.needed || due {
            WaitStep::Done(c)
        } else {
            WaitStep::Pending
        }
    }

    /// The connection to `peer_addr` is gone: its replica leaves the registry.
    pub fn remove_node(&mut self, peer_addr: &str)
        requires
            old(self).wf(),
        ensures
            final(self).wf(),
            final(self).log() == old(self).log(),
            match index_of_peer(old(self).nodes(), peer_addr@) {
                Some(i) => final(self).nodes() == old(self).nodes().remove(i),
                None => final(self).nodes() == old(self).nodes(),
            },
    {
        proof {
            lemma_index_of_peer(self.nodes@, peer_addr@);
        }
        match self.find(peer_addr) {
            Some(i) => {
                self.nodes.remove(i);
                proof {
                    let s = old(self).nodes@;
                    assert forall|a: int, b: int| 0 <= a < b < self.nodes@.len() implies
                        (#[trigger] self.nodes@[a]).peer() != (#[trigger] self.nodes@[b]).peer() by {
                        let ia = if a < i { a } else { a + 1 };
                        let ib = if b < i { b } else { b + 1 };
                        assert(self.nodes@[a] == s[ia] && self.nodes@[b] == s[ib]);
                    }
                    assert forall|a: int| 0 <= a < self.nodes@.len() implies (#[trigger] self.nodes@[a]).wf()
                        && self.nodes@[a].position() <= self.commands@.len() by {
                        let ia = if a < i { a } else { a + 1 };
                        assert(self.nodes@[a] == s[ia]);
                    }
                }
            },
            None => {},
        }
    }
}

/// Where `peer` stands among the replicas.
pub open spec fn index_of_peer(nodes: Seq<ReplicationNode>, peer: Seq<char>) -> Option<int> {
    if exists|i: int| 0 <= i < nodes.len() && (#[trigger] nodes[i]).peer() == peer {
        Some(choose|i: int| 0 <= i < nodes.len() && (#[trigger] nodes[i]).peer() == peer)
    } else {
        None
    }
}

proof fn lemma_index_of_peer(nodes: Seq<ReplicationNode>, peer: Seq<char>)
    requires
        forall|i: int, j: int| 0 <= i < j < nodes.len() ==> (#[trigger] nodes[i]).peer() != (#[trigger] nodes[j]).peer(),
    ensures
        forall|i: int| 0 <= i < nodes.len() && (#[trigger] nodes[i]).peer() == peer ==> index_of_peer(nodes, peer) == Some(i),
        (forall|i: int| 0 <= i < nodes.len() ==> (#[trigger] nodes[i]).peer() != peer) ==> index_of_peer(nodes, peer) is None,
{
}

/// The offset PSYNC asks for, held within a log of `len` commands.
pub open spec fn clamp_offset(repl_id: i64, len: nat) -> nat {
    if repl_id <= 0 { 0 } else if repl_id >= len { len } else { repl_id as nat }
}

/// The replicas that have acknowledged every byte they were sent.
pub open spec fn count_acked(nodes: Seq<ReplicationNode>) -> nat
    decreases nodes.len(),
{
    if nodes.len() == 0 {
        0
    } else {
        count_acked(nodes.drop_last()) + if nodes.last().acked() >= nodes.last().sent() { 1nat } else { 0nat }
    }
}

/// Every replica has acknowledged every byte it was sent.
pub open spec fn all_acked(nodes: Seq<ReplicationNode>) -> bool {
    forall|i: int| 0 <= i < nodes.len() ==> (#[trigger] nodes[i]).acked() >= nodes[i].sent()
}

proof fn lemma_count_acked_all(nodes: Seq<ReplicationNode>)
    ensures
        count_acked(nodes) <= nodes.len(),
        count_acked(nodes) == nodes.len() <==> all_acked(nodes),
    decreases nodes.len(),
{
    if nodes.len() > 0 {
        let p = nodes.drop_last();
        lemma_count_acked_all(p);
        if all_acked(nodes) {
            assert forall|i: int| 0 <= i < p.len() implies (#[trigger] p[i]).acked() >= p[i].sent() by {
                assert(p[i] == nodes[i]);
            }
        }
        if count_acked(nodes) == nodes.len() {
            assert forall|i: int| 0 <= i < nodes.len() implies (#[trigger] nodes[i]).acked() >= nodes[i].sent() by {
                if i < p.len() {
                    assert(p[i] == nodes[i]);
                }
            }
        }
    }
}

/// The noted replicas that are still registered and have acknowledged at
/// least the bytes noted for them.
pub open spec fn synced_count(nodes: Seq<ReplicationNode>, targets: Seq<(String, u64)>) -> nat
    decreases targets.len(),
{
    if targets.len() == 0 {
        0
    } else {
        synced_count(nodes, targets.drop_last()) + match index_of_peer(nodes, targets.last().0@) {
            Some(i) => if nodes[i].acked() >= targets.last().1 { 1nat } else { 0nat },
            None => 0nat,
        }
    }
}

/// No replica has acknowledged more bytes than it was sent.
pub proof fn lemma_acked_within_sent(rc: &ReplicationConfig, i: int)
    requires
        rc.wf(),
        0 <= i < rc.nodes().len(),
    ensures
        rc.nodes()[i].acked() <= rc.nodes()[i].sent(),
{
    assert(rc.nodes@[i].wf());
}

/// `f` is `o` after REPLCONF listening-port `port` from `peer`.
pub open spec fn node_added(o: Seq<ReplicationNode>, f: Seq<ReplicationNode>, peer: Seq<char>, port: u16) -> bool {
    match index_of_peer(o, peer) {
        Some(i) => f.len() == o.len()
            && (forall|j: int| 0 <= j < o.len() && j != i ==> #[trigger] f[j].view() == o[j].view())
            && f[i].view() == (NodeView { port, ..o[i].view() }),
        None => f.len() == o.len() + 1
            && (forall|j: int| 0 <= j < o.len() ==> #[trigger] f[j].view() == o[j].view())
            && f.last().view() == (NodeView { peer, port, ready: false, position: 0, sent: 0, acked: 0 }),
    }
}

/// `f` is `o` after the full resync of `peer`, sent the log from `offset` on.
pub open spec fn node_readied(o: Seq<ReplicationNode>, f: Seq<ReplicationNode>, peer: Seq<char>, offset: nat) -> bool {
    match index_of_peer(o, peer) {
        Some(i) => (forall|j: int| 0 <= j < o.len() && j != i ==> #[trigger] f[j].view() == o[j].view())
            && f[i].view() == (NodeView { ready: true, position: offset, ..o[i].view() }),
        None => forall|j: int| 0 <= j < o.len() ==> #[trigger] f[j].view() == o[j].view(),
    }
}

/// `f` is `o` after REPLCONF ACK `n` from `peer`.
pub open spec fn node_acked(o: Seq<ReplicationNode>, f: Seq<ReplicationNode>, peer: Seq<char>, n: u64) -> bool {
    match index_of_peer(o, peer) {
        Some(i) => (forall|j: int| 0 <= j < o.len() && j != i ==> #[trigger] f[j].view() == o[j].view())
            && f[i].view() == (NodeView { acked: ack_after(o[i].acked(), o[i].sent(), n), ..o[i].view() }),
        None => f == o,
    }
}

} // verus!
