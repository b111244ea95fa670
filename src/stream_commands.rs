//! The handlers of XADD, XRANGE and XREAD.
use vstd::prelude::*;
use crate::args::{bound_of, eq_ignore_case, id_of, id_spec_of, parse_bound, parse_id, parse_id_spec, parse_u64,
    same_ignoring_case, u64_of};
use crate::codec::{push_all, push_array_header, push_bulk};
use crate::commands::{args_of, error_reply};
use crate::db::{get_result, xadd_outcome, xadd_view, EntryView, KeyValueType, ValueView, XAddFailure, DB};
use crate::reply::{entries_resp, id_text, lemma_encode_pair};
use crate::resp::{encode, encode_items, Resp};
use crate::streams::{bytes_list, clone_all, clone_bytes, entries_view, select_after, select_range, XAddError};
use crate::words;

verus! {

/// XADD <key> <id> <field> <value> [<field> <value> ...]
#[derive(Debug)]
pub struct Stream {
    pub cmd: Vec<Vec<u8>>,
    pub replication_conn: bool,
}

pub open spec fn xadd_shape_ok(a: Seq<Seq<u8>>) -> bool {
    a.len() >= 5 && (a.len() - 3) % 2 == 0
}

pub open spec fn xadd_reply(a: Seq<Seq<u8>>, m: Map<Seq<u8>, EntryView>, now: u64) -> Seq<u8> {
    if !xadd_shape_ok(a) {
        error_reply(words::err_arity_spec())
    } else {
        match id_spec_of(a[2]) {
            None => error_reply(words::err_stream_id_spec()),
            Some(sp) => match xadd_outcome(m, a[1], sp, now) {
                Ok(id) => encode(Resp::Bulk(id_text(id))),
                Err(XAddFailure::WrongType) => error_reply(words::err_wrong_type_spec()),
                Err(XAddFailure::Id(XAddError::ZeroId)) => error_reply(words::err_zero_id_spec()),
                Err(XAddFailure::Id(XAddError::NotGreater)) => error_reply(words::err_not_greater_spec()),
            },
        }
    }
}

/// Whether XADD appends an entry.
pub open spec fn xadd_applies(a: Seq<Seq<u8>>, m: Map<Seq<u8>, EntryView>, now: u64) -> bool {
    xadd_shape_ok(a) && (id_spec_of(a[2]) matches Some(sp) && xadd_outcome(m, a[1], sp, now) is Ok)
}

impl Stream {
    pub fn new(cmd: &Vec<Vec<u8>>, replication_conn: bool) -> (r: Self)
        ensures
            args_of(r.cmd) == args_of(*cmd),
            r.replication_conn == replication_conn,
    {
        Stream { cmd: clone_all(cmd), replication_conn }
    }

    /// Appends the entry; the flag tells whether it was appended.
    pub fn handle(&self, db: &mut DB, now_ms: u64) -> (r: (Vec<u8>, bool))
        requires
            old(db).wf(),
        ensures
            final(db).wf(),
            final(db).is_master() == old(db).is_master(),
            final(db).rdb_spec() == old(db).rdb_spec(),
            ({
                let a = args_of(self.cmd);
                &&& r.0@ == xadd_reply(a, old(db).view(), now_ms)
                &&& r.1 == xadd_applies(a, old(db).view(), now_ms)
                &&& final(db).view() == (if xadd_shape_ok(a) && id_spec_of(a[2]) is Some {
                    xadd_view(old(db).view(), a[1], id_spec_of(a[2])->0, a.subrange(3, a.len() as int), now_ms)
                } else {
                    old(db).view()
                })
            }),
    {
        let n = self.cmd.len();
        if n < 5 || (n - 3) % 2 != 0 {
            return (crate::reply::error(words::err_arity().as_slice()), false);
        }
        let spec = match parse_id_spec(self.cmd[2].as_slice()) {
            Some(s) => s,
            None => {
                return (crate::reply::error(words::err_stream_id().as_slice()), false);
            },
        };
        let mut fields: Vec<Vec<u8>> = Vec::new();
        let mut i: usize = 3;
        while i < n
            invariant
                3 <= i <= n == self.cmd@.len(),
                bytes_list(fields@) == args_of(self.cmd).subrange(3, i as int),
            decreases n - i,
        {
            let f = clone_bytes(&self.cmd[i]);
            proof {
                crate::streams::lemma_bytes_list_push(fields@, f);
            }
            fields.push(f);
            i = i + 1;
            assert(bytes_list(fields@) =~= args_of(self.cmd).subrange(3, i as int));
        }
        let key = clone_bytes(&self.cmd[1]);
        match db.xadd(key, spec, fields, now_ms) {
            Ok(id) => (crate::reply::bulk(crate::reply::id_bytes(id).as_slice()), true),
            Err(XAddFailure::WrongType) => (crate::reply::error(words::err_wrong_type().as_slice()), false),
            Err(XAddFailure::Id(XAddError::ZeroId)) => (crate::reply::error(words::err_zero_id().as_slice()), false),
            Err(XAddFailure::Id(XAddError::NotGreater)) => (crate::reply::error(words::err_not_greater().as_slice()), false),
        }
    }
}

/// XRANGE <key> <start> <end>
#[derive(Debug)]
pub struct XRange {
    pub cmd: Vec<Vec<u8>>,
    pub replication_conn: bool,
}

pub open spec fn xrange_reply(a: Seq<Seq<u8>>, m: Map<Seq<u8>, EntryView>, now: u64) -> Seq<u8> {
    if a.len() != 4 {
        error_reply(words::err_arity_spec())
    } else {
        match (bound_of(a[2], 0), bound_of(a[3], u64::MAX)) {
            (Some(lo), Some(hi)) => match get_result(m, a[1], now) {
                None => encode(Resp::Array(Seq::empty())),
                Some(ValueView::Str(_)) => error_reply(words::err_wrong_type_spec()),
                Some(ValueView::Stream(es)) => encode(entries_resp(select_range(es, lo, hi))),
            },
            _ => error_reply(words::err_stream_id_spec()),
        }
    }
}

impl XRange {
    pub fn new(cmd: &Vec<Vec<u8>>, replication_conn: bool) -> (r: Self)
        ensures
            args_of(r.cmd) == args_of(*cmd),
            r.replication_conn == replication_conn,
    {
        XRange { cmd: clone_all(cmd), replication_conn }
    }

    /// The bounds: `-`, `+`, `<ms>-<seq>`, or `<ms>` (sequence 0 at the
    /// start, the largest at the end).
    pub fn parse_options(&self) -> (r: Option<((u64, u64), (u64, u64))>)
        requires
            self.cmd@.len() == 4,
        ensures
            r == (match (bound_of(args_of(self.cmd)[2], 0), bound_of(args_of(self.cmd)[3], u64::MAX)) {
                (Some(lo), Some(hi)) => Some((lo, hi)),
                _ => None,
            }),
    {
        match (parse_bound(self.cmd[2].as_slice(), 0), parse_bound(self.cmd[3].as_slice(), u64::MAX)) {
            (Some(lo), Some(hi)) => Some((lo, hi)),
            _ => None,
        }
    }

    pub fn handle(&self, db: &DB, now_ms: u64) -> (r: Vec<u8>)
        requires
            db.wf(),
        ensures
            r@ == xrange_reply(args_of(self.cmd), db.view(), now_ms),
    {
        if self.cmd.len() != 4 {
            return crate::reply::error(words::err_arity().as_slice());
        }
        let (lo, hi) = match self.parse_options() {
            Some(b) => b,
            None => {
                return crate::reply::error(words::err_stream_id().as_slice());
            },
        };
        match db.peek(self.cmd[1].as_slice(), now_ms) {
            None => crate::reply::empty_array(),
            Some(KeyValueType::StringType(_)) => crate::reply::error(words::err_wrong_type().as_slice()),
            Some(KeyValueType::StreamType(st)) => {
                let es = st.range(lo, hi);
                let mut out: Vec<u8> = Vec::new();
                crate::reply::push_entries(&mut out, &es);
                assert(out@ =~= Seq::<u8>::empty() + encode(entries_resp(entries_view(es@))));
                out
            },
        }
    }
}

/// Where the keys of an XREAD start, and its BLOCK time if any.
pub open spec fn xread_layout(a: Seq<Seq<u8>>) -> Option<(Option<u64>, int)> {
    if a.len() >= 4 && same_ignoring_case(a[1], words::block_spec()) {
        match u64_of(a[2]) {
            Some(b) => if same_ignoring_case(a[3], words::streams_spec()) { Some((Some(b), 4)) } else { None },
            None => None,
        }
    } else if a.len() >= 2 && same_ignoring_case(a[1], words::streams_spec()) {
        Some((None, 2))
    } else {
        None
    }
}

/// The ids of XREAD, each `<ms>-<seq>` or `<ms>`.
pub open spec fn xread_ids(t: Seq<Seq<u8>>) -> Option<Seq<(u64, u64)>>
    decreases t.len(),
{
    if t.len() == 0 {
        Some(Seq::empty())
    } else {
        match (xread_ids(t.drop_last()), id_of(t.last(), 0)) {
            (Some(s), Some(id)) => Some(s.push(id)),
            _ => None,
        }
    }
}

/// For the first `n` keys, each that holds a stream with entries after
/// its id: the key and those entries.
pub open spec fn xread_items(m: Map<Seq<u8>, EntryView>, keys: Seq<Seq<u8>>, ids: Seq<(u64, u64)>, now: u64, n: int) -> Seq<Resp>
    decreases n,
{
    if n <= 0 {
        Seq::empty()
    } else {
        let prev = xread_items(m, keys, ids, now, n - 1);
        match get_result(m, keys[n - 1], now) {
            Some(ValueView::Stream(es)) => {
                let sel = select_after(es, ids[n - 1]);
                if sel.len() > 0 {
                    prev.push(Resp::Array(seq![Resp::Bulk(keys[n - 1]), entries_resp(sel)]))
                } else {
                    prev
                }
            },
            _ => prev,
        }
    }
}

/// Some key holds a string.
pub open spec fn xread_wrong_type(m: Map<Seq<u8>, EntryView>, keys: Seq<Seq<u8>>, now: u64) -> bool {
    exists|i: int| 0 <= i < keys.len() && #[trigger] get_result(m, keys[i], now) matches Some(ValueView::Str(_))
}

/// A blocked XREAD: the keys and ids it reads, and when it gives up.
#[derive(Debug)]
pub struct BlockedRead {
    pub keys: Vec<Vec<u8>>,
    pub ids: Vec<(u64, u64)>,
    pub deadline: Option<u64>,
}

/// What XREAD does.
#[derive(Debug)]
pub enum XReadOutcome {
    Reply(Vec<u8>),
    /// Nothing to return yet: poll until entries come or the deadline.
    Blocked(BlockedRead),
}

/// XREAD [BLOCK <ms>] STREAMS <key> ... <id> ...
#[derive(Debug)]
pub struct XRead {
    pub cmd: Vec<Vec<u8>>,
    pub replication_conn: bool,
}

/// Writes the items of XREAD for `keys` after `ids`.
fn collect_items(db: &DB, keys: &Vec<Vec<u8>>, ids: &Vec<(u64, u64)>, now_ms: u64) -> (r: (Vec<u8>, usize, bool))
    requires
        db.wf(),
        keys@.len() == ids@.len(),
    ensures
        r.0@ == encode_items(xread_items(db.view(), bytes_list(keys@), ids@, now_ms, keys@.len() as int)),
        r.1 == xread_items(db.view(), bytes_list(keys@), ids@, now_ms, keys@.len() as int).len(),
        r.2 == xread_wrong_type(db.view(), bytes_list(keys@), now_ms),
{
    let ghost ks = bytes_list(keys@);
    let mut buf: Vec<u8> = Vec::new();
    let mut count: usize = 0;
    let mut wrong = false;
    let mut i: usize = 0;
    while i < keys.len()
        invariant
            i <= keys@.len() == ids@.len(),
            db.wf(),
            ks == bytes_list(keys@),
            buf@ == encode_items(xread_items(db.view(), ks, ids@, now_ms, i as int)),
            count == xread_items(db.view(), ks, ids@, now_ms, i as int).len(),
            count <= i,
            wrong == exists|j: int| 0 <= j < i && #[trigger] get_result(db.view(), ks[j], now_ms) matches Some(ValueView::Str(_)),
        decreases keys.len() - i,
    {
        let ghost prev = xread_items(db.view(), ks, ids@, now_ms, i as int);
        assert(ks[i as int] == keys@[i as int]@);
        match db.peek(keys[i].as_slice(), now_ms) {
            Some(KeyValueType::StreamType(st)) => {
                let es = st.after(ids[i]);
                if es.len() > 0 {
                    let ghost item = Resp::Array(seq![Resp::Bulk(ks[i as int]), entries_resp(entries_view(es@))]);
                    let ghost before = buf@;
                    push_array_header(&mut buf, 2);
                    push_bulk(&mut buf, keys[i].as_slice());
                    crate::reply::push_entries(&mut buf, &es);
                    proof {
                        lemma_encode_pair(Resp::Bulk(ks[i as int]), entries_resp(entries_view(es@)));
                        assert(prev.push(item).drop_last() =~= prev);
                        assert(buf@ =~= before + encode(item));
                    }
                    count = count + 1;
                }
            },
            Some(KeyValueType::StringType(_)) => {
                wrong = true;
            },
            None => {},
        }
        proof {
            assert forall|j: int| 0 <= j < i + 1 && #[trigger] get_result(db.view(), ks[j], now_ms) matches Some(ValueView::Str(_))
                implies (j < i || get_result(db.view(), ks[i as int], now_ms) matches Some(ValueView::Str(_))) by {}
        }
        i = i + 1;
    }
    (buf, count, wrong)
}

fn items_reply(body: Vec<u8>, count: usize) -> (r: Vec<u8>)
    ensures
        forall|items: Seq<Resp>| items.len() == count && body@ == encode_items(items)
            ==> r@ == encode(Resp::Array(items)),
{
    let mut out: Vec<u8> = Vec::new();
    push_array_header(&mut out, count);
    push_all(&mut out, body.as_slice());
    out
}

impl XRead {
    pub fn new(cmd: &Vec<Vec<u8>>, replication_conn: bool) -> (r: Self)
        ensures
            args_of(r.cmd) == args_of(*cmd),
            r.replication_conn == replication_conn,
    {
        XRead { cmd: clone_all(cmd), replication_conn }
    }

    /// The BLOCK time, the keys and the ids; `Err` with the error message.
    pub fn parse_options(&self) -> (r: Result<(Option<u64>, Vec<Vec<u8>>, Vec<(u64, u64)>), Vec<u8>>)
        ensures
            r is Ok ==> r->Ok_0.1@.len() == r->Ok_0.2@.len(),
            ({
                let a = args_of(self.cmd);
                match xread_layout(a) {
                    Some((block, start)) => {
                        let rest = a.subrange(start, a.len() as int);
                        let h = (rest.len() / 2) as int;
                        if rest.len() >= 2 && rest.len() % 2 == 0 {
                            match xread_ids(rest.subrange(h, rest.len() as int)) {
                                Some(ids) => r is Ok && r->Ok_0.0 == block
                                    && bytes_list(r->Ok_0.1@) == rest.subrange(0, h) && r->Ok_0.2@ == ids,
                                None => r is Err && r->Err_0@ == words::err_stream_id_spec(),
                            }
                        } else {
                            r is Err && r->Err_0@ == words::err_syntax_spec()
                        }
                    },
                    None => r is Err && r->Err_0@ == words::err_syntax_spec(),
                }
            }),
    {
        let ghost a = args_of(self.cmd);
        let n = self.cmd.len();
        let mut block: Option<u64> = None;
        let mut start: usize = 0;
        if n >= 4 && eq_ignore_case(self.cmd[1].as_slice(), words::block().as_slice()) {
            match parse_u64(self.cmd[2].as_slice()) {
                Some(b) => {
                    if eq_ignore_case(self.cmd[3].as_slice(), words::streams().as_slice()) {
                        block = Some(b);
                        start = 4;
                    } else {
                        return Err(words::err_syntax());
                    }
                },
                None => {
                    return Err(words::err_syntax());
                },
            }
        } else if n >= 2 && eq_ignore_case(self.cmd[1].as_slice(), words::streams().as_slice()) {
            start = 2;
        } else {
            return Err(words::err_syntax());
        }
        let len = n - start;
        if len < 2 || len % 2 != 0 {
            return Err(words::err_syntax());
        }
        let h = len / 2;
        proof {
            assert(a[1] == self.cmd@[1]@);
            if start == 4 {
                assert(a[2] == self.cmd@[2]@);
                assert(a[3] == self.cmd@[3]@);
            }
        }
        assert(xread_layout(a) == Some((block, start as int)));
        let ghost rest = a.subrange(start as int, n as int);
        let mut keys: Vec<Vec<u8>> = Vec::new();
        let mut ids: Vec<(u64, u64)> = Vec::new();
        let mut i: usize = 0;
        while i < h
            invariant
                i <= h,
                h * 2 == len,
                len == n - start,
                n == self.cmd@.len(),
                a == args_of(self.cmd),
                rest == a.subrange(start as int, n as int),
                bytes_list(keys@) == rest.subrange(0, i as int),
                keys@.len() == i && ids@.len() == i,
                xread_layout(a) == Some((block, start as int)),
                xread_ids(rest.subrange(h as int, h + i)) == Some(ids@),
            decreases h - i,
        {
            let k = clone_bytes(&self.cmd[start + i]);
            proof {
                crate::streams::lemma_bytes_list_push(keys@, k);
            }
            keys.push(k);
            let t = self.cmd[start + h + i].as_slice();
            proof {
                assert(rest.subrange(h as int, h + i + 1).drop_last() =~= rest.subrange(h as int, h + i));
                assert(rest.subrange(h as int, h + i + 1).last() == t@);
            }
            match parse_id(t, 0) {
                Some(id) => {
                    ids.push(id);
                },
                None => {
                    proof {
                        assert(rest.subrange(h as int, rest.len() as int).subrange(0, i + 1) =~= rest.subrange(h as int, h + i + 1));
                        lemma_xread_ids_prefix_fails(rest.subrange(h as int, rest.len() as int), i + 1);
                    }
                    return Err(words::err_stream_id());
                },
            }
            i = i + 1;
            assert(bytes_list(keys@) =~= rest.subrange(0, i as int));
        }
        assert(rest.subrange(h as int, h + i) =~= rest.subrange(h as int, rest.len() as int));
        Ok((block, keys, ids))
    }

    /// Entries after the given ids; where there are none: a nil array, or, with
    /// BLOCK, a read to poll until the deadline (none for BLOCK 0).
    pub fn handle(&self, db: &DB, now_ms: u64) -> (r: XReadOutcome)
        requires
            db.wf(),
        ensures
            match self.parse_options_spec() {
                Err(msg) => r matches XReadOutcome::Reply(b) && b@ == error_reply(msg),
                Ok((block, keys, ids)) => {
                    let items = xread_items(db.view(), keys, ids, now_ms, keys.len() as int);
                    if xread_wrong_type(db.view(), keys, now_ms) {
                        r matches XReadOutcome::Reply(b) && b@ == error_reply(words::err_wrong_type_spec())
                    } else if items.len() > 0 {
                        r matches XReadOutcome::Reply(b) && b@ == encode(Resp::Array(items))
                    } else {
                        match block {
                            None => r matches XReadOutcome::Reply(b) && b@ == encode(Resp::NilArray),
                            Some(ms) => r matches XReadOutcome::Blocked(br) && bytes_list(br.keys@) == keys
                                && br.ids@ == ids && br.deadline == (if ms == 0 { None } else {
                                    Some(crate::repl::add_sat(now_ms as int, ms as int)) }),
                        }
                    }
                },
            },
    {
        match self.parse_options() {
            Err(msg) => XReadOutcome::Reply(crate::reply::error(msg.as_slice())),
            Ok((block, keys, ids)) => {
                let (body, count, wrong) = collect_items(db, &keys, &ids, now_ms);
                if wrong {
                    return XReadOutcome::Reply(crate::reply::error(words::err_wrong_type().as_slice()));
                }
                if count > 0 {
                    return XReadOutcome::Reply(items_reply(body, count));
                }
                match block {
                    None => XReadOutcome::Reply(crate::reply::nil_array()),
                    Some(ms) => {
                        let deadline = if ms == 0 {
                            None
                        } else if ms > u64::MAX - now_ms {
                            Some(u64::MAX)
                        } else {
                            Some(now_ms + ms)
                        };
                        XReadOutcome::Blocked(BlockedRead { keys, ids, deadline })
                    },
                }
            },
        }
    }

    /// What `parse_options` gives, as a spec.
    pub open spec fn parse_options_spec(&self) -> Result<(Option<u64>, Seq<Seq<u8>>, Seq<(u64, u64)>), Seq<u8>> {
        let a = args_of(self.cmd);
        match xread_layout(a) {
            Some((block, start)) => {
                let rest = a.subrange(start, a.len() as int);
                let h = (rest.len() / 2) as int;
                if rest.len() >= 2 && rest.len() % 2 == 0 {
                    match xread_ids(rest.subrange(h, rest.len() as int)) {
                        Some(ids) => Ok((block, rest.subrange(0, h), ids)),
                        None => Err(words::err_stream_id_spec()),
                    }
                } else {
                    Err(words::err_syntax_spec())
                }
            },
            None => Err(words::err_syntax_spec()),
        }
    }
}

proof fn lemma_xread_ids_prefix_fails(t: Seq<Seq<u8>>, k: int)
    requires
        0 < k <= t.len(),
        xread_ids(t.subrange(0, k)) is None,
    ensures
        xread_ids(t) is None,
    decreases t.len() - k,
{
    if k < t.len() {
        assert(t.subrange(0, k + 1).drop_last() =~= t.subrange(0, k));
        lemma_xread_ids_prefix_fails(t, k + 1);
    } else {
        assert(t.subrange(0, k) =~= t);
    }
}

impl BlockedRead {
    /// One poll of a blocked XREAD at `now_ms`: the entries once there are
    /// some, a nil array once the deadline has come, else nothing yet.
    pub fn poll(&self, db: &DB, now_ms: u64) -> (r: Option<Vec<u8>>)
        requires
            db.wf(),
            self.keys@.len() == self.ids@.len(),
        ensures
            ({
                let items = xread_items(db.view(), bytes_list(self.keys@), self.ids@, now_ms, self.keys@.len() as int);
                if items.len() > 0 {
                    r matches Some(b) && b@ == encode(Resp::Array(items))
                } else if self.deadline matches Some(d) && now_ms >= d {
                    r matches Some(b) && b@ == encode(Resp::NilArray)
                } else {
                    r is None
                }
            }),
    {
        let (body, count, _) = collect_items(db, &self.keys, &self.ids, now_ms);
        if count > 0 {
            return Some(items_reply(body, count));
        }
        match self.deadline {
            Some(d) => if now_ms >= d {
                Some(crate::reply::nil_array())
            } else {
                None
            },
            None => None,
        }
    }
}

} // verus!
