//! A stream: entries keyed by `(ms, seq)` ids, kept in strictly increasing
//! id order, with the id resolution and range queries of XADD, XRANGE and
//! XREAD.
use vstd::prelude::*;
use crate::codec::copy_range;

verus! {

/// `a` comes before `b`: by milliseconds, then by sequence number.
pub open spec fn id_lt(a: (u64, u64), b: (u64, u64)) -> bool {
    a.0 < b.0 || (a.0 == b.0 && a.1 < b.1)
}

pub open spec fn id_le(a: (u64, u64), b: (u64, u64)) -> bool {
    a == b || id_lt(a, b)
}

pub fn id_less(a: (u64, u64), b: (u64, u64)) -> (r: bool)
    ensures
        r == id_lt(a, b),
{
    a.0 < b.0 || (a.0 == b.0 && a.1 < b.1)
}

pub fn id_less_eq(a: (u64, u64), b: (u64, u64)) -> (r: bool)
    ensures
        r == id_le(a, b),
{
    (a.0 == b.0 && a.1 == b.1) || id_less(a, b)
}

/// A copy of `v`.
pub fn clone_bytes(v: &Vec<u8>) -> (r: Vec<u8>)
    ensures
        r@ == v@,
{
    let r = copy_range(v.as_slice(), 0, v.len());
    assert(v@.subrange(0, v.len() as int) =~= v@);
    r
}

/// The byte strings of a list.
pub open spec fn bytes_list(v: Seq<Vec<u8>>) -> Seq<Seq<u8>> {
    v.map_values(|b: Vec<u8>| b@)
}

pub proof fn lemma_bytes_list_push(s: Seq<Vec<u8>>, x: Vec<u8>)
    ensures
        bytes_list(s.push(x)) == bytes_list(s).push(x@),
{
    assert(bytes_list(s.push(x)) =~= bytes_list(s).push(x@));
}

/// A copy of a list of byte strings.
pub fn clone_all(v: &Vec<Vec<u8>>) -> (r: Vec<Vec<u8>>)
    ensures
        bytes_list(r@) == bytes_list(v@),
{
    let mut r: Vec<Vec<u8>> = Vec::new();
    let mut i: usize = 0;
    while i < v.len()
        invariant
            i <= v.len(),
            bytes_list(r@) == bytes_list(v@).subrange(0, i as int),
        decreases v.len() - i,
    {
        let b = clone_bytes(&v[i]);
        proof {
            lemma_bytes_list_push(r@, b);
        }
        r.push(b);
        i = i + 1;
        assert(bytes_list(r@) =~= bytes_list(v@).subrange(0, i as int));
    }
    assert(bytes_list(v@).subrange(0, i as int) =~= bytes_list(v@));
    r
}

/// One stream entry: its id and its field/value list.
#[derive(Debug)]
pub struct StreamEntry {
    pub ms: u64,
    pub seq: u64,
    pub fields: Vec<Vec<u8>>,
}

impl StreamEntry {
    pub open spec fn id(self) -> (u64, u64) {
        (self.ms, self.seq)
    }

    pub open spec fn view(self) -> ((u64, u64), Seq<Seq<u8>>) {
        (self.id(), bytes_list(self.fields@))
    }

    /// A copy of this entry.
    pub fn duplicate(&self) -> (r: StreamEntry)
        ensures
            r.view() == self.view(),
    {
        StreamEntry { ms: self.ms, seq: self.seq, fields: clone_all(&self.fields) }
    }
}

pub open spec fn entries_view(s: Seq<StreamEntry>) -> Seq<((u64, u64), Seq<Seq<u8>>)> {
    s.map_values(|e: StreamEntry| e.view())
}

pub proof fn lemma_entries_view_push(s: Seq<StreamEntry>, x: StreamEntry)
    ensures
        entries_view(s.push(x)) == entries_view(s).push(x.view()),
{
    assert(entries_view(s.push(x)) =~= entries_view(s).push(x.view()));
}

/// An entry as the store's model sees it: its id and its field/value list.
pub type EntryModel = ((u64, u64), Seq<Seq<u8>>);

/// The entries whose ids lie between `lo` and `hi`, both included, in order.
pub open spec fn select_range(s: Seq<EntryModel>, lo: (u64, u64), hi: (u64, u64)) -> Seq<EntryModel>
    decreases s.len(),
{
    if s.len() == 0 {
        Seq::empty()
    } else {
        let rest = select_range(s.drop_last(), lo, hi);
        if id_le(lo, s.last().0) && id_le(s.last().0, hi) {
            rest.push(s.last())
        } else {
            rest
        }
    }
}

/// The entries whose ids come after `from`, in order.
pub open spec fn select_after(s: Seq<EntryModel>, from: (u64, u64)) -> Seq<EntryModel>
    decreases s.len(),
{
    if s.len() == 0 {
        Seq::empty()
    } else {
        let rest = select_after(s.drop_last(), from);
        if id_lt(from, s.last().0) {
            rest.push(s.last())
        } else {
            rest
        }
    }
}

/// How an XADD names the id of its new entry.
#[derive(Debug, Clone, Copy, PartialEq, Eq, Structural)]
pub enum IdSpec {
    /// `<ms>-<seq>`
    Explicit(u64, u64),
    /// `<ms>-*` or `<ms>`: the server picks the sequence number.
    Partial(u64),
    /// `*`: the current time, and a sequence number picked as for `Partial`.
    Auto,
}

/// Why an XADD was refused.
#[derive(Debug, Clone, Copy, PartialEq, Eq, Structural)]
pub enum XAddError {
    /// The id resolved to `0-0`.
    ZeroId,
    /// The id is not greater than the stream's last id.
    NotGreater,
}

/// The sequence number picked for `ms` after `last`, if any fits in `u64`.
pub open spec fn pick_seq(last: Option<(u64, u64)>, ms: u64) -> Option<u64> {
    match last {
        Some(l) => if l.0 == ms {
            if l.1 < u64::MAX { Some((l.1 + 1) as u64) } else { None }
        } else {
            Some(0)
        },
        None => if ms == 0 { Some(1) } else { Some(0) },
    }
}

/// The id that an XADD resolves to, given the stream's last id and the
/// time; `None` where no sequence number is left for those milliseconds.
pub open spec fn resolve_id(last: Option<(u64, u64)>, spec: IdSpec, now_ms: u64) -> Option<(u64, u64)> {
    match spec {
        IdSpec::Explicit(ms, seq) => Some((ms, seq)),
        IdSpec::Partial(ms) => match pick_seq(last, ms) {
            Some(q) => Some((ms, q)),
            None => None,
        },
        IdSpec::Auto => match pick_seq(last, now_ms) {
            Some(q) => Some((now_ms, q)),
            None => None,
        },
    }
}

/// What an XADD gives: the new id, or why it is refused.
pub open spec fn xadd_result(last: Option<(u64, u64)>, spec: IdSpec, now_ms: u64) -> Result<(u64, u64), XAddError> {
    match resolve_id(last, spec, now_ms) {
        None => Err(XAddError::NotGreater),
        Some(id) => if id == (0u64, 0u64) {
            Err(XAddError::ZeroId)
        } else if last matches Some(l) && id_le(id, l) {
            Err(XAddError::NotGreater)
        } else {
            Ok(id)
        },
    }
}

pub fn resolve(last: Option<(u64, u64)>, spec: IdSpec, now_ms: u64) -> (r: Result<(u64, u64), XAddError>)
    ensures
        r == xadd_result(last, spec, now_ms),
{
    let ms = match spec {
        IdSpec::Explicit(ms, _) => ms,
        IdSpec::Partial(ms) => ms,
        IdSpec::Auto => now_ms,
    };
    let seq = match spec {
        IdSpec::Explicit(_, seq) => seq,
        _ => match last {
            Some(l) => if l.0 == ms {
                if l.1 < u64::MAX {
                    l.1 + 1
                } else {
                    return Err(XAddError::NotGreater);
                }
            } else {
                0
            },
            None => if ms == 0 {
                1
            } else {
                0
            },
        },
    };
    if ms == 0 && seq == 0 {
        return Err(XAddError::ZeroId);
    }
    match last {
        Some(l) => if id_less_eq((ms, seq), l) {
            return Err(XAddError::NotGreater);
        },
        None => {},
    }
    Ok((ms, seq))
}

/// The entries of one stream.
#[derive(Debug)]
pub struct Streams {
    pub streams: Vec<StreamEntry>,
}

impl Streams {
    /// Ids strictly increase along the entries, and none is `0-0`.
    pub open spec fn wf(self) -> bool {
        &&& forall|i: int, j: int| 0 <= i < j < self.streams.len()
            ==> id_lt(#[trigger] self.streams@[i].id(), #[trigger] self.streams@[j].id())
        &&& forall|i: int| 0 <= i < self.streams.len() ==> #[trigger] self.streams@[i].id() != (0u64, 0u64)
    }

    pub open spec fn last_id(self) -> Option<(u64, u64)> {
        if self.streams.len() == 0 {
            None
        } else {
            Some(self.streams@.last().id())
        }
    }

    /// A stream that holds one entry.
    pub fn new(timestamp: u64, seq: u64, kvpairs: Vec<Vec<u8>>) -> (r: Self)
        requires
            (timestamp, seq) != (0u64, 0u64),
        ensures
            r.wf(),
            r.streams@.len() == 1,
            r.streams@[0].id() == (timestamp, seq),
            bytes_list(r.streams@[0].fields@) == bytes_list(kvpairs@),
    {
        let mut streams: Vec<StreamEntry> = Vec::new();
        streams.push(StreamEntry { ms: timestamp, seq, fields: kvpairs });
        Streams { streams }
    }

    /// The fields of the stream rendered as text; a stream has none.
    pub fn build_kvpairs(&self) -> (r: String)
        ensures
            r@ == Seq::<char>::empty(),
    {
        String::new()
    }

    pub fn number_entries(&self) -> (r: u64)
        ensures
            r == self.streams@.len(),
    {
        self.streams.len() as u64
    }

    pub fn last_entry_key(&self) -> (r: (u64, u64))
        requires
            self.streams@.len() > 0,
        ensures
            Some(r) == self.last_id(),
    {
        let e = &self.streams[self.streams.len() - 1];
        (e.ms, e.seq)
    }

    pub fn last_entry(&self) -> (r: Option<(u64, u64)>)
        ensures
            r == self.last_id(),
    {
        if self.streams.len() == 0 {
            None
        } else {
            Some(self.last_entry_key())
        }
    }

    /// XADD on this stream: resolves the id and appends the entry, or
    /// refuses and leaves the stream as it was.
    pub fn add_entry(&mut self, spec: IdSpec, fields: Vec<Vec<u8>>, now_ms: u64) -> (r: Result<(u64, u64), XAddError>)
        requires
            old(self).wf(),
        ensures
            final(self).wf(),
            r == xadd_result(old(self).last_id(), spec, now_ms),
            r is Ok ==> final(self).streams@ == old(self).streams@.push(
                StreamEntry { ms: r->Ok_0.0, seq: r->Ok_0.1, fields }),
            r is Err ==> *final(self) == *old(self),
    {
        let last = self.last_entry();
        let res = resolve(last, spec, now_ms);
        match res {
            Ok((ms, seq)) => {
                let ghost before = self.streams@;
                self.streams.push(StreamEntry { ms, seq, fields });
                proof {
                    assert forall|i: int, j: int| 0 <= i < j < self.streams.len() implies
                        id_lt(#[trigger] self.streams@[i].id(), #[trigger] self.streams@[j].id()) by {
                        if j == before.len() && i < before.len() - 1 {
                            assert(id_lt(before[i].id(), before[before.len() - 1].id()));
                        }
                    }
                }
                Ok((ms, seq))
            },
            Err(e) => Err(e),
        }
    }

    /// The entries with `lo <= id <= hi`, in order.
    pub fn range(&self, lo: (u64, u64), hi: (u64, u64)) -> (r: Vec<StreamEntry>)
        ensures
            entries_view(r@) == select_range(entries_view(self.streams@), lo, hi),
    {
        let mut out: Vec<StreamEntry> = Vec::new();
        let mut i: usize = 0;
        while i < self.streams.len()
            invariant
                i <= self.streams.len(),
                entries_view(out@) == select_range(entries_view(self.streams@.subrange(0, i as int)), lo, hi),
            decreases self.streams.len() - i,
        {
            let e = &self.streams[i];
            let ghost sub = self.streams@.subrange(0, i + 1);
            assert(sub.drop_last() =~= self.streams@.subrange(0, i as int));
            assert(entries_view(sub).drop_last() =~= entries_view(sub.drop_last()));
            assert(entries_view(sub).last() == e.view());
            if id_less_eq(lo, (e.ms, e.seq)) && id_less_eq((e.ms, e.seq), hi) {
                let d = e.duplicate();
                proof {
                    lemma_entries_view_push(out@, d);
                }
                out.push(d);
            }
            i = i + 1;
        }
        assert(self.streams@.subrange(0, i as int) =~= self.streams@);
        out
    }

    /// The entries with an id after `from`, in order.
    pub fn after(&self, from: (u64, u64)) -> (r: Vec<StreamEntry>)
        ensures
            entries_view(r@) == select_after(entries_view(self.streams@), from),
    {
        let mut out: Vec<StreamEntry> = Vec::new();
        let mut i: usize = 0;
        while i < self.streams.len()
            invariant
                i <= self.streams.len(),
                entries_view(out@) == select_after(entries_view(self.streams@.subrange(0, i as int)), from),
            decreases self.streams.len() - i,
        {
            let e = &self.streams[i];
            let ghost sub = self.streams@.subrange(0, i + 1);
            assert(sub.drop_last() =~= self.streams@.subrange(0, i as int));
            assert(entries_view(sub).drop_last() =~= entries_view(sub.drop_last()));
            assert(entries_view(sub).last() == e.view());
            if id_less(from, (e.ms, e.seq)) {
                let d = e.duplicate();
                proof {
                    lemma_entries_view_push(out@, d);
                }
                out.push(d);
            }
            i = i + 1;
        }
        assert(self.streams@.subrange(0, i as int) =~= self.streams@);
        out
    }
}

/// Ids strictly increase along `s`.
pub open spec fn sorted_ids(s: Seq<EntryModel>) -> bool {
    forall|i: int, j: int| 0 <= i < j < s.len() ==> id_lt(#[trigger] s[i].0, #[trigger] s[j].0)
}

proof fn lemma_wf_sorted(st: Streams)
    requires
        st.wf(),
    ensures
        sorted_ids(entries_view(st.streams@)),
{
    let v = entries_view(st.streams@);
    assert forall|i: int, j: int| 0 <= i < j < v.len() implies id_lt(#[trigger] v[i].0, #[trigger] v[j].0) by {
        assert(v[i].0 == st.streams@[i].id() && v[j].0 == st.streams@[j].id());
    }
}

proof fn lemma_select_range_sorted(s: Seq<EntryModel>, lo: (u64, u64), hi: (u64, u64))
    requires
        sorted_ids(s),
    ensures
        sorted_ids(select_range(s, lo, hi)),
        select_range(s, lo, hi).len() > 0 ==> s.len() > 0 && id_le(select_range(s, lo, hi).last().0, s.last().0),
    decreases s.len(),
{
    if s.len() > 0 {
        let p = s.drop_last();
        assert(sorted_ids(p));
        lemma_select_range_sorted(p, lo, hi);
        let r = select_range(p, lo, hi);
        if r.len() > 0 {
            assert(id_lt(p.last().0, s.last().0));
        }
    }
}

/// Whatever bounds XRANGE is given, the entries it returns come in strictly
/// increasing id order.
pub proof fn lemma_range_in_order(st: Streams, lo: (u64, u64), hi: (u64, u64))
    requires
        st.wf(),
    ensures
        sorted_ids(select_range(entries_view(st.streams@), lo, hi)),
{
    lemma_wf_sorted(st);
    lemma_select_range_sorted(entries_view(st.streams@), lo, hi);
}

/// An XADD whose id resolves to one at or below the stream's last id is
/// refused as not greater; `add_entry` then leaves the stream unchanged.
pub proof fn lemma_add_not_greater_refused(last: (u64, u64), spec: IdSpec, now_ms: u64)
    requires
        resolve_id(Some(last), spec, now_ms) matches Some(id) && id != (0u64, 0u64) && id_le(id, last),
    ensures
        xadd_result(Some(last), spec, now_ms) == Err::<(u64, u64), XAddError>(XAddError::NotGreater),
{
}

proof fn lemma_full_range_keeps_all(s: Seq<EntryModel>)
    ensures
        select_range(s, (0u64, 0u64), (u64::MAX, u64::MAX)) == s,
    decreases s.len(),
{
    if s.len() > 0 {
        lemma_full_range_keeps_all(s.drop_last());
        assert(s.drop_last().push(s.last()) =~= s);
    }
}

/// Every entry of a stream, the one XADD appended last included, is among
/// what XRANGE `-` `+` returns.
pub proof fn lemma_added_entry_in_full_range(st: Streams, spec: IdSpec, fields: Vec<Vec<u8>>, now_ms: u64)
    requires
        st.wf(),
        xadd_result(st.last_id(), spec, now_ms) is Ok,
    ensures
        ({
            let id = xadd_result(st.last_id(), spec, now_ms)->Ok_0;
            let after = st.streams@.push(StreamEntry { ms: id.0, seq: id.1, fields });
            let all = select_range(entries_view(after), (0u64, 0u64), (u64::MAX, u64::MAX));
            exists|i: int| 0 <= i < all.len() && (#[trigger] all[i]).0 == id
        }),
{
    let id = xadd_result(st.last_id(), spec, now_ms)->Ok_0;
    let after = st.streams@.push(StreamEntry { ms: id.0, seq: id.1, fields });
    lemma_full_range_keeps_all(entries_view(after));
    let all = select_range(entries_view(after), (0u64, 0u64), (u64::MAX, u64::MAX));
    assert(all[after.len() - 1].0 == id);
}

} // verus!
