//! The handlers of the commands that read and write the store. Each holds
//! its arguments (the command name first) and computes its reply; which
//! replies a connection actually sends is the dispatcher's business.
use vstd::prelude::*;
use crate::args::{eq_ignore_case, parse_u64, same_ignoring_case, u64_of};
use crate::db::{after_lookup, get_result, set_view, KeyValueType, SetOptions, ValueView, DB, EntryView};
use crate::reply;
use crate::resp::{encode, Resp};
use crate::streams::{bytes_list, clone_all, clone_bytes};
use crate::words;

verus! {

/// The argument at `id`, if there is one.
pub fn get_nth_arg(values: &Vec<Vec<u8>>, id: usize) -> (r: Option<&Vec<u8>>)
    ensures
        match r {
            Some(v) => id < values@.len() && v@ == values@[id as int]@,
            None => id >= values@.len(),
        },
{
    if values.len() <= id {
        return None;
    }
    Some(&values[id])
}

pub open spec fn args_of(cmd: Vec<Vec<u8>>) -> Seq<Seq<u8>> {
    bytes_list(cmd@)
}

pub open spec fn error_reply(msg: Seq<u8>) -> Seq<u8> {
    encode(Resp::Error(msg))
}

/// PING
#[derive(Debug, Clone, Copy)]
pub struct Ping {
    pub replication_conn: bool,
}

impl Ping {
    pub fn new(replication_conn: bool) -> (r: Self)
        ensures
            r.replication_conn == replication_conn,
    {
        Ping { replication_conn }
    }

    pub fn handle(&self) -> (r: Vec<u8>)
        ensures
            r@ == encode(Resp::Simple(words::reply_pong_spec())),
    {
        reply::simple(words::reply_pong().as_slice())
    }
}

/// ECHO <message>
#[derive(Debug)]
pub struct Echo {
    pub cmd: Vec<Vec<u8>>,
    pub replication_conn: bool,
}

pub open spec fn echo_reply(a: Seq<Seq<u8>>) -> Seq<u8> {
    if a.len() == 2 { encode(Resp::Bulk(a[1])) } else { error_reply(words::err_arity_spec()) }
}

impl Echo {
    pub fn new(cmd: &Vec<Vec<u8>>, replication_conn: bool) -> (r: Self)
        ensures
            args_of(r.cmd) == args_of(*cmd),
            r.replication_conn == replication_conn,
    {
        Echo { cmd: clone_all(cmd), replication_conn }
    }

    pub fn handle(&self) -> (r: Vec<u8>)
        ensures
            r@ == echo_reply(args_of(self.cmd)),
    {
        if self.cmd.len() == 2 {
            reply::bulk(self.cmd[1].as_slice())
        } else {
            reply::error(words::err_arity().as_slice())
        }
    }
}

/// The time to live that SET asks for (0 for none), or the error it gets:
/// `SET k v` or `SET k v PX <ms>` with `ms` > 0.
pub open spec fn set_ttl(a: Seq<Seq<u8>>) -> Result<u64, Seq<u8>> {
    if a.len() == 3 {
        Ok(0)
    } else if a.len() == 5 && same_ignoring_case(a[3], words::px_spec()) {
        match u64_of(a[4]) {
            Some(t) => if t > 0 { Ok(t) } else { Err(words::err_not_integer_spec()) },
            None => Err(words::err_not_integer_spec()),
        }
    } else if a.len() < 3 {
        Err(words::err_arity_spec())
    } else {
        Err(words::err_syntax_spec())
    }
}

/// SET <key> <value> [PX <ms>]
#[derive(Debug)]
pub struct SetCommand {
    pub cmd: Vec<Vec<u8>>,
    pub replication_conn: bool,
}

impl SetCommand {
    pub fn new(cmd: &Vec<Vec<u8>>, replication_conn: bool) -> (r: Self)
        ensures
            args_of(r.cmd) == args_of(*cmd),
            r.replication_conn == replication_conn,
    {
        SetCommand { cmd: clone_all(cmd), replication_conn }
    }

    fn ttl(&self) -> (r: Result<u64, Vec<u8>>)
        ensures
            match set_ttl(args_of(self.cmd)) {
                Ok(t) => r == Ok::<u64, Vec<u8>>(t),
                Err(m) => r is Err && r->Err_0@ == m,
            },
    {
        let n = self.cmd.len();
        if n == 3 {
            return Ok(0);
        }
        if n == 5 && eq_ignore_case(self.cmd[3].as_slice(), words::px().as_slice()) {
            return match parse_u64(self.cmd[4].as_slice()) {
                Some(t) => if t > 0 {
                    Ok(t)
                } else {
                    Err(words::err_not_integer())
                },
                None => Err(words::err_not_integer()),
            };
        }
        if n < 3 {
            Err(words::err_arity())
        } else {
            Err(words::err_syntax())
        }
    }

    /// Sets the key; the flag tells whether the store changed.
    pub fn handle(&self, db: &mut DB, now_ms: u64) -> (r: (Vec<u8>, bool))
        requires
            old(db).wf(),
        ensures
            final(db).wf(),
            final(db).is_master() == old(db).is_master(),
            final(db).rdb_spec() == old(db).rdb_spec(),
            ({
                let a = args_of(self.cmd);
                match set_ttl(a) {
                    Ok(t) => r.0@ == encode(Resp::Simple(words::reply_ok_spec())) && r.1
                        && final(db).view() == set_view(old(db).view(), a[1], ValueView::Str(a[2]), t, now_ms),
                    Err(m) => r.0@ == error_reply(m) && !r.1 && final(db).view() == old(db).view(),
                }
            }),
    {
        match self.ttl() {
            Ok(t) => {
                let key = clone_bytes(&self.cmd[1]);
                let value = clone_bytes(&self.cmd[2]);
                let options = SetOptions { expiry_in_ms: t };
                db.add(key, KeyValueType::StringType(value), &options, now_ms);
                (reply::simple(words::reply_ok().as_slice()), true)
            },
            Err(m) => (reply::error(m.as_slice()), false),
        }
    }
}

/// GET <key>
#[derive(Debug)]
pub struct GetCommand {
    pub cmd: Vec<Vec<u8>>,
    pub replication_conn: bool,
}

pub open spec fn get_reply(a: Seq<Seq<u8>>, m: Map<Seq<u8>, EntryView>, now: u64) -> Seq<u8> {
    if a.len() != 2 {
        error_reply(words::err_arity_spec())
    } else {
        match get_result(m, a[1], now) {
            None => encode(Resp::Nil),
            Some(ValueView::Str(s)) => encode(Resp::Bulk(s)),
            Some(ValueView::Stream(_)) => error_reply(words::err_wrong_type_spec()),
        }
    }
}

impl GetCommand {
    pub fn new(cmd: &Vec<Vec<u8>>, replication_conn: bool) -> (r: Self)
        ensures
            args_of(r.cmd) == args_of(*cmd),
            r.replication_conn == replication_conn,
    {
        GetCommand { cmd: clone_all(cmd), replication_conn }
    }

    pub fn handle(&self, db: &mut DB, now_ms: u64) -> (r: Vec<u8>)
        requires
            old(db).wf(),
        ensures
            final(db).wf(),
            final(db).is_master() == old(db).is_master(),
            final(db).rdb_spec() == old(db).rdb_spec(),
            r@ == get_reply(args_of(self.cmd), old(db).view(), now_ms),
            final(db).view() == (if args_of(self.cmd).len() == 2 {
                after_lookup(old(db).view(), args_of(self.cmd)[1], now_ms)
            } else {
                old(db).view()
            }),
    {
        if self.cmd.len() != 2 {
            return reply::error(words::err_arity().as_slice());
        }
        match db.get(self.cmd[1].as_slice(), now_ms) {
            None => reply::nil(),
            Some(KeyValueType::StringType(s)) => reply::bulk(s.as_slice()),
            Some(KeyValueType::StreamType(_)) => reply::error(words::err_wrong_type().as_slice()),
        }
    }
}

/// The store after DEL of the first `n` of `keys`, and how many of them
/// were live when their turn came.
pub open spec fn del_upto(m: Map<Seq<u8>, EntryView>, keys: Seq<Seq<u8>>, n: int, now: u64) -> (Map<Seq<u8>, EntryView>, nat)
    decreases n,
{
    if n <= 0 {
        (m, 0)
    } else {
        let (m1, c) = del_upto(m, keys, n - 1, now);
        let k = keys[n - 1];
        (m1.remove(k), c + if get_result(m1, k, now) is Some { 1nat } else { 0nat })
    }
}

/// DEL <key> [<key> ...]
#[derive(Debug)]
pub struct Del {
    pub cmd: Vec<Vec<u8>>,
    pub replication_conn: bool,
}

impl Del {
    pub fn new(cmd: &Vec<Vec<u8>>, replication_conn: bool) -> (r: Self)
        ensures
            args_of(r.cmd) == args_of(*cmd),
            r.replication_conn == replication_conn,
    {
        Del { cmd: clone_all(cmd), replication_conn }
    }

    /// Removes the keys; replies with how many were live. The count is also
    /// returned.
    pub fn handle(&self, db: &mut DB, now_ms: u64) -> (r: (Vec<u8>, u64))
        requires
            old(db).wf(),
        ensures
            final(db).wf(),
            final(db).is_master() == old(db).is_master(),
            final(db).rdb_spec() == old(db).rdb_spec(),
            ({
                let a = args_of(self.cmd);
                if a.len() < 2 {
                    r.0@ == error_reply(words::err_arity_spec()) && r.1 == 0 && final(db).view() == old(db).view()
                } else {
                    let (m, c) = del_upto(old(db).view(), a.drop_first(), a.len() - 1, now_ms);
                    final(db).view() == m && r.1 == c && r.0@ == encode(Resp::Integer(c as int))
                }
            }),
    {
        if self.cmd.len() < 2 {
            return (reply::error(words::err_arity().as_slice()), 0);
        }
        let ghost a = args_of(self.cmd);
        let ghost keys = a.drop_first();
        let mut count: u64 = 0;
        let mut i: usize = 1;
        while i < self.cmd.len()
            invariant
                1 <= i <= self.cmd@.len(),
                a == args_of(self.cmd),
                keys == a.drop_first(),
                db.wf(),
                db.is_master() == old(db).is_master(),
                db.rdb_spec() == old(db).rdb_spec(),
                count < i,
                (db.view(), count as nat) == del_upto(old(db).view(), keys, i - 1, now_ms),
            decreases self.cmd.len() - i,
        {
            let key = self.cmd[i].as_slice();
            let ghost m1 = db.view();
            let live = db.get(key, now_ms);
            let removed = db.remove(key);
            proof {
                assert(keys[i - 1] == a[i as int]);
                assert(a[i as int] == self.cmd@[i as int]@);
                if m1.contains_key(key@) && !crate::db::live(m1[key@], now_ms) {
                    assert(m1.remove(key@).remove(key@) =~= m1.remove(key@));
                }
            }
            if live.is_some() {
                count = count + 1;
            }
            i = i + 1;
        }
        (reply::count(count), count)
    }
}

/// TYPE <key>
#[derive(Debug)]
pub struct TType {
    pub cmd: Vec<Vec<u8>>,
    pub replication_conn: bool,
}

pub open spec fn type_reply(a: Seq<Seq<u8>>, m: Map<Seq<u8>, EntryView>, now: u64) -> Seq<u8> {
    if a.len() != 2 {
        error_reply(words::err_arity_spec())
    } else {
        match get_result(m, a[1], now) {
            None => encode(Resp::Simple(words::none_spec())),
            Some(ValueView::Str(_)) => encode(Resp::Simple(words::string_spec())),
            Some(ValueView::Stream(_)) => encode(Resp::Simple(words::stream_spec())),
        }
    }
}

impl TType {
    pub fn new(cmd: &Vec<Vec<u8>>, replication_conn: bool) -> (r: Self)
        ensures
            args_of(r.cmd) == args_of(*cmd),
            r.replication_conn == replication_conn,
    {
        TType { cmd: clone_all(cmd), replication_conn }
    }

    pub fn handle(&self, db: &mut DB, now_ms: u64) -> (r: Vec<u8>)
        requires
            old(db).wf(),
        ensures
            final(db).wf(),
            final(db).is_master() == old(db).is_master(),
            final(db).rdb_spec() == old(db).rdb_spec(),
            r@ == type_reply(args_of(self.cmd), old(db).view(), now_ms),
            final(db).view() == (if args_of(self.cmd).len() == 2 {
                after_lookup(old(db).view(), args_of(self.cmd)[1], now_ms)
            } else {
                old(db).view()
            }),
    {
        if self.cmd.len() != 2 {
            return reply::error(words::err_arity().as_slice());
        }
        match db.get(self.cmd[1].as_slice(), now_ms) {
            None => reply::simple(words::none().as_slice()),
            Some(KeyValueType::StringType(_)) => reply::simple(words::string().as_slice()),
            Some(KeyValueType::StreamType(_)) => reply::simple(words::stream().as_slice()),
        }
    }
}

/// KEYS [pattern]: every live key; the pattern is not looked at.
#[derive(Debug)]
pub struct Keys {
    pub cmd: Vec<Vec<u8>>,
    pub replication_conn: bool,
}

impl Keys {
    pub fn new(cmd: &Vec<Vec<u8>>, replication_conn: bool) -> (r: Self)
        ensures
            args_of(r.cmd) == args_of(*cmd),
            r.replication_conn == replication_conn,
    {
        Keys { cmd: clone_all(cmd), replication_conn }
    }

    /// An array of the live keys, each once, in no set order.
    pub fn handle(&self, db: &DB, now_ms: u64) -> (r: Vec<u8>)
        requires
            db.wf(),
        ensures
            exists|ks: Seq<Seq<u8>>| {
                &&& r@ == encode(crate::slave::bulk_array(ks))
                &&& forall|k: Seq<u8>| ks.contains(k) <==> get_result(db.view(), k, now_ms) is Some
                &&& forall|i: int, j: int| 0 <= i < j < ks.len() ==> ks[i] != ks[j]
            },
    {
        let keys = db.keys(now_ms);
        let ghost ks = bytes_list(keys@);
        let r = crate::slave::bulk_command(&keys);
        proof {
            assert forall|k: Seq<u8>| ks.contains(k) <==> get_result(db.view(), k, now_ms) is Some by {
                if ks.contains(k) {
                    let i = choose|i: int| 0 <= i < ks.len() && ks[i] == k;
                    assert(keys@[i]@ == k);
                }
                if get_result(db.view(), k, now_ms) is Some {
                    let i = choose|i: int| 0 <= i < keys@.len() && (#[trigger] keys@[i])@ == k;
                    assert(ks[i] == k);
                }
            }
            assert forall|i: int, j: int| 0 <= i < j < ks.len() implies ks[i] != ks[j] by {
                assert(ks[i] == keys@[i]@ && ks[j] == keys@[j]@);
            }
        }
        r
    }
}

/// INFO [section]: the replication section, whatever section is named.
#[derive(Debug)]
pub struct Info {
    pub cmd: Vec<Vec<u8>>,
}

impl Info {
    pub fn new(cmd: &Vec<Vec<u8>>) -> (r: Self)
        ensures
            args_of(r.cmd) == args_of(*cmd),
    {
        Info { cmd: clone_all(cmd) }
    }

    pub fn handle(&self, db: &DB) -> (r: Vec<u8>)
        ensures
            r@ == encode(Resp::Bulk(if db.is_master() { words::role_master_spec() } else { words::role_slave_spec() })),
    {
        if db.role_master() {
            reply::bulk(words::role_master().as_slice())
        } else {
            reply::bulk(words::role_slave().as_slice())
        }
    }
}

/// CONFIG GET dir | CONFIG GET dbfilename
#[derive(Debug)]
pub struct Config {
    pub cmd: Vec<Vec<u8>>,
    pub replication_conn: bool,
}

/// The name/value pairs that CONFIG GET gives for `names`, each `dir` or
/// `dbfilename`; `None` where another name is asked for.
pub open spec fn config_pairs(names: Seq<Seq<u8>>, dir: Seq<u8>, file: Seq<u8>) -> Option<Seq<Seq<u8>>>
    decreases names.len(),
{
    if names.len() == 0 {
        Some(Seq::empty())
    } else {
        match config_pairs(names.drop_last(), dir, file) {
            Some(p) => {
                let nm = names.last();
                if same_ignoring_case(nm, words::dir_spec()) {
                    Some(p + seq![nm, dir])
                } else if same_ignoring_case(nm, words::dbfilename_spec()) {
                    Some(p + seq![nm, file])
                } else {
                    None
                }
            },
            None => None,
        }
    }
}

proof fn lemma_config_prefix_fails(names: Seq<Seq<u8>>, dir: Seq<u8>, file: Seq<u8>, k: int)
    requires
        0 < k <= names.len(),
        config_pairs(names.subrange(0, k), dir, file) is None,
    ensures
        config_pairs(names, dir, file) is None,
    decreases names.len() - k,
{
    if k < names.len() {
        assert(names.subrange(0, k + 1).drop_last() =~= names.subrange(0, k));
        lemma_config_prefix_fails(names, dir, file, k + 1);
    } else {
        assert(names.subrange(0, k) =~= names);
    }
}

/// CONFIG GET with one or more of `dir` and `dbfilename`: an array of each
/// name asked for and its value.
pub open spec fn config_reply(a: Seq<Seq<u8>>, dir: Seq<u8>, file: Seq<u8>) -> Seq<u8> {
    if a.len() >= 3 && same_ignoring_case(a[1], words::get_spec()) {
        match config_pairs(a.subrange(2, a.len() as int), dir, file) {
            Some(p) => encode(crate::slave::bulk_array(p)),
            None => error_reply(words::err_syntax_spec()),
        }
    } else {
        error_reply(words::err_syntax_spec())
    }
}

impl Config {
    pub fn new(cmd: &Vec<Vec<u8>>, replication_conn: bool) -> (r: Self)
        ensures
            args_of(r.cmd) == args_of(*cmd),
            r.replication_conn == replication_conn,
    {
        Config { cmd: clone_all(cmd), replication_conn }
    }

    pub fn handle(&self, db: &DB) -> (r: Vec<u8>)
        ensures
            r@ == config_reply(args_of(self.cmd), vstd::utf8::encode_utf8(db.rdb_spec().directory_spec()),
                vstd::utf8::encode_utf8(db.rdb_spec().file_spec())),
    {
        let n = self.cmd.len();
        if n < 3 || !eq_ignore_case(self.cmd[1].as_slice(), words::get().as_slice()) {
            return reply::error(words::err_syntax().as_slice());
        }
        let ghost a = args_of(self.cmd);
        assert(a[1] == self.cmd@[1]@);
        let ghost dir = vstd::utf8::encode_utf8(db.rdb_spec().directory_spec());
        let ghost file = vstd::utf8::encode_utf8(db.rdb_spec().file_spec());
        let dir_bytes = db.rdb_directory().as_bytes();
        let file_bytes = db.rdb_filename().as_bytes();
        let mut items: Vec<Vec<u8>> = Vec::new();
        let mut i: usize = 2;
        proof {
            assert(a.subrange(2, 2) =~= Seq::<Seq<u8>>::empty());
            assert(bytes_list(items@) =~= Seq::<Seq<u8>>::empty());
        }
        while i < n
            invariant
                2 <= i <= n == self.cmd@.len(),
                a == args_of(self.cmd),
                same_ignoring_case(a[1], words::get_spec()),
                dir_bytes@ == dir,
                file_bytes@ == file,
                dir == vstd::utf8::encode_utf8(db.rdb_spec().directory_spec()),
                file == vstd::utf8::encode_utf8(db.rdb_spec().file_spec()),
                config_pairs(a.subrange(2, i as int), dir, file) == Some(bytes_list(items@)),
            decreases n - i,
        {
            let ghost names = a.subrange(2, i + 1);
            proof {
                assert(names.drop_last() =~= a.subrange(2, i as int));
                assert(names.last() == self.cmd@[i as int]@);
            }
            let nm = clone_bytes(&self.cmd[i]);
            let value = if eq_ignore_case(self.cmd[i].as_slice(), words::dir().as_slice()) {
                crate::codec::copy_range(dir_bytes, 0, dir_bytes.len())
            } else if eq_ignore_case(self.cmd[i].as_slice(), words::dbfilename().as_slice()) {
                crate::codec::copy_range(file_bytes, 0, file_bytes.len())
            } else {
                proof {
                    assert(config_pairs(names, dir, file) is None);
                    assert(a.subrange(2, n as int).subrange(0, i - 1) =~= names);
                    lemma_config_prefix_fails(a.subrange(2, n as int), dir, file, i - 1);
                    assert(a.len() == n);
                    assert(a.subrange(2, n as int) =~= a.subrange(2, a.len() as int));
                }
                return reply::error(words::err_syntax().as_slice());
            };
            proof {
                assert(dir_bytes@.subrange(0, dir_bytes@.len() as int) =~= dir_bytes@);
                assert(file_bytes@.subrange(0, file_bytes@.len() as int) =~= file_bytes@);
                crate::streams::lemma_bytes_list_push(items@, nm);
                crate::streams::lemma_bytes_list_push(items@.push(nm), value);
            }
            items.push(nm);
            items.push(value);
            i = i + 1;
            proof {
                let p = config_pairs(a.subrange(2, i - 1), dir, file)->0;
                assert(p + seq![names.last(), value@] =~= p.push(names.last()).push(value@));
            }
        }
        proof {
            assert(a.subrange(2, n as int) =~= a.subrange(2, a.len() as int));
        }
        crate::slave::bulk_command(&items)
    }
}

} // verus!
