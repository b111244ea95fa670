//! The key/value store: string and stream values, millisecond expiry checked
//! on access and swept in bulk, and the node's role and snapshot settings.
//! Time is a caller-supplied count of milliseconds on a monotonic clock.
use vstd::prelude::*;
use crate::streams::{clone_bytes, entries_view, Streams, StreamEntry, IdSpec, XAddError, xadd_result};
use crate::args::eq_bytes;

verus! {

/// A stored value.
#[derive(Debug)]
pub enum KeyValueType {
    StringType(Vec<u8>),
    StreamType(Streams),
}

/// What a stored value is, as bytes and entries.
pub enum ValueView {
    Str(Seq<u8>),
    Stream(Seq<((u64, u64), Seq<Seq<u8>>)>),
}

impl KeyValueType {
    pub open spec fn view(self) -> ValueView {
        match self {
            KeyValueType::StringType(s) => ValueView::Str(s@),
            KeyValueType::StreamType(st) => ValueView::Stream(entries_view(st.streams@)),
        }
    }

    pub open spec fn wf(self) -> bool {
        match self {
            KeyValueType::StringType(_) => true,
            KeyValueType::StreamType(st) => st.wf(),
        }
    }

    /// A copy of this value.
    pub fn duplicate(&self) -> (r: KeyValueType)
        ensures
            r.view() == self.view(),
            self.wf() ==> r.wf(),
    {
        match self {
            KeyValueType::StringType(s) => KeyValueType::StringType(clone_bytes(s)),
            KeyValueType::StreamType(st) => {
                let mut out: Vec<StreamEntry> = Vec::new();
                let mut i: usize = 0;
                while i < st.streams.len()
                    invariant
                        i <= st.streams.len(),
                        entries_view(out@) == entries_view(st.streams@.subrange(0, i as int)),
                        forall|k: int| 0 <= k < i ==> #[trigger] out@[k].id() == st.streams@[k].id(),
                        out@.len() == i,
                    decreases st.streams.len() - i,
                {
                    let d = st.streams[i].duplicate();
                    proof {
                        crate::streams::lemma_entries_view_push(out@, d);
                        crate::streams::lemma_entries_view_push(st.streams@.subrange(0, i as int), st.streams@[i as int]);
                        assert(st.streams@.subrange(0, i as int).push(st.streams@[i as int]) =~= st.streams@.subrange(0, i + 1));
                    }
                    out.push(d);
                    i = i + 1;
                }
                assert(st.streams@.subrange(0, i as int) =~= st.streams@);
                KeyValueType::StreamType(Streams { streams: out })
            },
        }
    }
}

/// Options of SET.
#[derive(Debug, Clone, Copy, PartialEq, Eq, Structural)]
pub struct SetOptions {
    /// Time to live in milliseconds; 0 for none.
    pub expiry_in_ms: u64,
}

impl SetOptions {
    pub fn new() -> (r: Self)
        ensures
            r.expiry_in_ms == 0,
    {
        SetOptions { expiry_in_ms: 0 }
    }
}

/// When an entry set at `now` with a time to live of `ttl` ms expires:
/// never for a time to live of 0; at the clock's last instant for one that
/// runs past it; never where `now` is that last instant already, as no
/// later instant exists.
pub open spec fn expiry_for(now: u64, ttl: u64) -> Option<u64> {
    if ttl == 0 || now == u64::MAX {
        None
    } else if now + ttl > u64::MAX {
        Some(u64::MAX)
    } else {
        Some((now + ttl) as u64)
    }
}

/// One entry as the store's model sees it.
pub struct EntryView {
    pub value: ValueView,
    pub expires_at: Option<u64>,
    pub inserted_at: u64,
}

/// An entry is live at `now` until its expiry instant.
pub open spec fn live(e: EntryView, now: u64) -> bool {
    match e.expires_at {
        Some(t) => now < t,
        None => true,
    }
}

/// What GET sees of `k` at `now`.
pub open spec fn get_result(m: Map<Seq<u8>, EntryView>, k: Seq<u8>, now: u64) -> Option<ValueView> {
    if m.contains_key(k) && live(m[k], now) { Some(m[k].value) } else { None }
}

/// The store after SET of `k` to `v` at `now` with time to live `ttl`.
pub open spec fn set_view(m: Map<Seq<u8>, EntryView>, k: Seq<u8>, v: ValueView, ttl: u64, now: u64) -> Map<Seq<u8>, EntryView> {
    m.insert(k, EntryView { value: v, expires_at: expiry_for(now, ttl), inserted_at: now })
}

/// The last id among stream entries.
pub open spec fn last_of(es: Seq<((u64, u64), Seq<Seq<u8>>)>) -> Option<(u64, u64)> {
    if es.len() == 0 { None } else { Some(es.last().0) }
}

/// What XADD on `k` at `now` gives.
pub open spec fn xadd_outcome(m: Map<Seq<u8>, EntryView>, k: Seq<u8>, spec: IdSpec, now: u64) -> Result<(u64, u64), XAddFailure> {
    match get_result(m, k, now) {
        Some(ValueView::Str(_)) => Err(XAddFailure::WrongType),
        Some(ValueView::Stream(es)) => match xadd_result(last_of(es), spec, now) {
            Ok(id) => Ok(id),
            Err(e) => Err(XAddFailure::Id(e)),
        },
        None => match xadd_result(None, spec, now) {
            Ok(id) => Ok(id),
            Err(e) => Err(XAddFailure::Id(e)),
        },
    }
}

/// The store after XADD on `k` at `now` with `fields`.
pub open spec fn xadd_view(m: Map<Seq<u8>, EntryView>, k: Seq<u8>, spec: IdSpec, fields: Seq<Seq<u8>>, now: u64) -> Map<Seq<u8>, EntryView> {
    match get_result(m, k, now) {
        Some(ValueView::Str(_)) => m,
        Some(ValueView::Stream(es)) => match xadd_result(last_of(es), spec, now) {
            Ok(id) => m.insert(k, EntryView { value: ValueView::Stream(es.push((id, fields))), ..m[k] }),
            Err(_) => m,
        },
        None => match xadd_result(None, spec, now) {
            Ok(id) => m.insert(k, EntryView { value: ValueView::Stream(seq![(id, fields)]), expires_at: None, inserted_at: now }),
            Err(_) => after_lookup(m, k, now),
        },
    }
}

/// The store after the lookup of `k` at `now`: an expired entry is dropped.
pub open spec fn after_lookup(m: Map<Seq<u8>, EntryView>, k: Seq<u8>, now: u64) -> Map<Seq<u8>, EntryView> {
    if m.contains_key(k) && !live(m[k], now) { m.remove(k) } else { m }
}

#[derive(Debug)]
struct KeyValueData {
    key: Vec<u8>,
    value: KeyValueType,
    expires_at: Option<u64>,
    inserted_at: u64,
}

impl KeyValueData {
    spec fn view(self) -> EntryView {
        EntryView { value: self.value.view(), expires_at: self.expires_at, inserted_at: self.inserted_at }
    }

    spec fn wf(self) -> bool {
        &&& self.value.wf()
        &&& self.expires_at matches Some(t) ==> t > self.inserted_at
    }
}

spec fn unique_keys(s: Seq<KeyValueData>) -> bool {
    forall|i: int, j: int| 0 <= i < j < s.len() ==> (#[trigger] s[i]).key@ != (#[trigger] s[j]).key@
}

spec fn entries_map(s: Seq<KeyValueData>) -> Map<Seq<u8>, EntryView>
    decreases s.len(),
{
    if s.len() == 0 {
        Map::empty()
    } else {
        entries_map(s.drop_last()).insert(s.last().key@, s.last().view())
    }
}

proof fn lemma_map_facts(s: Seq<KeyValueData>)
    requires
        unique_keys(s),
    ensures
        forall|i: int| 0 <= i < s.len() ==> #[trigger] entries_map(s).contains_key(s[i].key@)
            && entries_map(s)[s[i].key@] == s[i].view(),
        forall|k: Seq<u8>| #[trigger] entries_map(s).contains_key(k) ==> exists|i: int| 0 <= i < s.len() && s[i].key@ == k,
    decreases s.len(),
{
    if s.len() > 0 {
        let p = s.drop_last();
        lemma_map_facts(p);
        assert forall|i: int| 0 <= i < s.len() implies #[trigger] entries_map(s).contains_key(s[i].key@)
            && entries_map(s)[s[i].key@] == s[i].view() by {
            if i < s.len() - 1 {
                assert(s[i] == p[i]);
                assert(entries_map(p).contains_key(p[i].key@));
            }
        }
        assert forall|k: Seq<u8>| #[trigger] entries_map(s).contains_key(k) implies exists|i: int| 0 <= i < s.len() && s[i].key@ == k by {
            if k != s.last().key@ {
                let i = choose|i: int| 0 <= i < p.len() && p[i].key@ == k;
                assert(s[i].key@ == k);
            } else {
                assert(s[s.len() - 1].key@ == k);
            }
        }
    }
}

proof fn lemma_map_push(s: Seq<KeyValueData>, x: KeyValueData)
    requires
        unique_keys(s),
        !entries_map(s).contains_key(x.key@),
    ensures
        unique_keys(s.push(x)),
        entries_map(s.push(x)) == entries_map(s).insert(x.key@, x.view()),
{
    lemma_map_facts(s);
    assert(s.push(x).drop_last() =~= s);
}

proof fn lemma_map_update(s: Seq<KeyValueData>, i: int, x: KeyValueData)
    requires
        unique_keys(s),
        0 <= i < s.len(),
        x.key@ == s[i].key@,
    ensures
        unique_keys(s.update(i, x)),
        entries_map(s.update(i, x)) == entries_map(s).insert(x.key@, x.view()),
{
    let s2 = s.update(i, x);
    assert(unique_keys(s2));
    lemma_map_facts(s);
    lemma_map_facts(s2);
    let m1 = entries_map(s).insert(x.key@, x.view());
    let m2 = entries_map(s2);
    assert forall|k: Seq<u8>| m2.contains_key(k) <==> m1.contains_key(k) by {
        if m2.contains_key(k) && k != x.key@ {
            let j = choose|j: int| 0 <= j < s2.len() && s2[j].key@ == k;
            assert(s[j].key@ == k);
        }
        if m1.contains_key(k) && k != x.key@ {
            let j = choose|j: int| 0 <= j < s.len() && s[j].key@ == k;
            assert(s2[j].key@ == k);
        }
        if k == x.key@ {
            assert(m2.contains_key(s2[i].key@));
        }
    }
    assert forall|k: Seq<u8>| m2.contains_key(k) implies m2[k] == m1[k] by {
        let j = choose|j: int| 0 <= j < s2.len() && s2[j].key@ == k;
        if j != i {
            assert(s[j].key@ == k);
        }
    }
    assert(m2 =~= m1);
}

proof fn lemma_map_remove(s: Seq<KeyValueData>, i: int)
    requires
        unique_keys(s),
        0 <= i < s.len(),
    ensures
        unique_keys(s.remove(i)),
        entries_map(s.remove(i)) == entries_map(s).remove(s[i].key@),
{
    let s2 = s.remove(i);
    let key = s[i].key@;
    assert forall|a: int, b: int| 0 <= a < b < s2.len() implies (#[trigger] s2[a]).key@ != (#[trigger] s2[b]).key@ by {
        let ia = if a < i { a } else { a + 1 };
        let ib = if b < i { b } else { b + 1 };
        assert(s2[a] == s[ia] && s2[b] == s[ib]);
    }
    lemma_map_facts(s);
    lemma_map_facts(s2);
    let m1 = entries_map(s).remove(key);
    let m2 = entries_map(s2);
    assert forall|k: Seq<u8>| m2.contains_key(k) <==> m1.contains_key(k) by {
        if m2.contains_key(k) {
            let j = choose|j: int| 0 <= j < s2.len() && s2[j].key@ == k;
            let ij = if j < i { j } else { j + 1 };
            assert(s[ij].key@ == k);
            assert(ij != i);
        }
        if m1.contains_key(k) {
            let j = choose|j: int| 0 <= j < s.len() && s[j].key@ == k;
            assert(j != i);
            let j2 = if j < i { j } else { j - 1 };
            assert(s2[j2].key@ == k);
        }
    }
    assert forall|k: Seq<u8>| m2.contains_key(k) implies m2[k] == m1[k] by {
        let j = choose|j: int| 0 <= j < s2.len() && s2[j].key@ == k;
        let ij = if j < i { j } else { j + 1 };
        assert(s[ij] == s2[j]);
    }
    assert(m2 =~= m1);
}

/// The role of this node: a primary (`master`) or a replica.
#[derive(Debug, Clone, Copy, PartialEq, Eq, Structural)]
pub struct NodeInfo {
    pub master: bool,
}

impl NodeInfo {
    pub fn new(master: bool) -> (r: Self)
        ensures
            r.master == master,
    {
        NodeInfo { master }
    }
}

/// Where the snapshot file lives.
#[derive(Debug)]
pub struct RDB {
    directory: String,
    rdb_file: String,
}

impl RDB {
    pub closed spec fn directory_spec(&self) -> Seq<char> {
        self.directory@
    }

    pub closed spec fn file_spec(&self) -> Seq<char> {
        self.rdb_file@
    }

    /// The settings given; an absent one is empty.
    pub fn new(dir: Option<String>, rdb_file: Option<String>) -> (r: Self)
        ensures
            r.directory_spec() == (match dir { Some(d) => d@, None => Seq::<char>::empty() }),
            r.file_spec() == (match rdb_file { Some(f) => f@, None => Seq::<char>::empty() }),
    {
        let directory = match dir {
            Some(d) => d,
            None => String::new(),
        };
        let rdb_file = match rdb_file {
            Some(f) => f,
            None => String::new(),
        };
        RDB { directory, rdb_file }
    }

    pub fn get_rdb_directory(&self) -> (r: &str)
        ensures
            r@ == self.directory_spec(),
    {
        self.directory.as_str()
    }

    pub fn get_rdb_filename(&self) -> (r: &str)
        ensures
            r@ == self.file_spec(),
    {
        self.rdb_file.as_str()
    }
}

/// Why an XADD on the store was refused.
#[derive(Debug, Clone, Copy, PartialEq, Eq, Structural)]
pub enum XAddFailure {
    /// The key holds a string.
    WrongType,
    /// The id was refused.
    Id(XAddError),
}

/// The store.
pub struct DB {
    store: Vec<KeyValueData>,
    node_info: NodeInfo,
    rdb: RDB,
}

impl DB {
    /// Keys are unique; every value is well formed; an entry that expires
    /// does so after it was inserted.
    pub closed spec fn wf(&self) -> bool {
        &&& unique_keys(self.store@)
        &&& forall|i: int| 0 <= i < self.store@.len() ==> (#[trigger] self.store@[i]).wf()
    }

    pub closed spec fn view(&self) -> Map<Seq<u8>, EntryView> {
        entries_map(self.store@)
    }

    pub closed spec fn is_master(&self) -> bool {
        self.node_info.master
    }

    pub closed spec fn rdb_spec(&self) -> RDB {
        self.rdb
    }

    /// An empty store.
    pub fn new(role_master: bool, dir: Option<String>, db_filename: Option<String>) -> (r: Self)
        ensures
            r.wf(),
            r.view() == Map::<Seq<u8>, EntryView>::empty(),
            r.is_master() == role_master,
            r.rdb_spec().directory_spec() == (match dir { Some(d) => d@, None => Seq::<char>::empty() }),
            r.rdb_spec().file_spec() == (match db_filename { Some(f) => f@, None => Seq::<char>::empty() }),
    {
        DB { store: Vec::new(), node_info: NodeInfo::new(role_master), rdb: RDB::new(dir, db_filename) }
    }

    fn find(&self, key: &[u8]) -> (r: Option<usize>)
        requires
            self.wf(),
        ensures
            match r {
                Some(i) => i < self.store@.len() && self.store@[i as int].key@ == key@
                    && self.view().contains_key(key@),
                None => !self.view().contains_key(key@),
            },
    {
        proof {
            lemma_map_facts(self.store@);
        }
        let mut i: usize = 0;
        while i < self.store.len()
            invariant
                i <= self.store@.len(),
                self.wf(),
                forall|j: int| 0 <= j < i ==> (#[trigger] self.store@[j]).key@ != key@,
            decreases self.store.len() - i,
        {
            if eq_bytes(self.store[i].key.as_slice(), key) {
                proof {
                    lemma_map_facts(self.store@);
                }
                assert(self.view().contains_key(self.store@[i as int].key@));
                return Some(i);
            }
            i = i + 1;
        }
        None
    }

    /// SET: replaces any entry of `key`.
    pub fn add(&mut self, key: Vec<u8>, value: KeyValueType, options: &SetOptions, now_ms: u64)
        requires
            old(self).wf(),
            value.wf(),
        ensures
            final(self).wf(),
            final(self).view() == set_view(old(self).view(), key@, value.view(), options.expiry_in_ms, now_ms),
            final(self).is_master() == old(self).is_master(),
            final(self).rdb_spec() == old(self).rdb_spec(),
    {
        let ttl = options.expiry_in_ms;
        let expires_at = if ttl == 0 || now_ms == u64::MAX {
            None
        } else if ttl > u64::MAX - now_ms {
            Some(u64::MAX)
        } else {
            Some(now_ms + ttl)
        };
        let found = self.find(key.as_slice());
        let entry = KeyValueData { key, value, expires_at, inserted_at: now_ms };
        match found {
            Some(i) => {
                proof {
                    lemma_map_update(self.store@, i as int, entry);
                }
                self.store.set(i, entry);
            },
            None => {
                proof {
                    lemma_map_push(self.store@, entry);
                }
                self.store.push(entry);
            },
        }
    }

    /// DEL: removes the entry of `key` and hands back its value.
    pub fn remove(&mut self, key: &[u8]) -> (r: Option<KeyValueType>)
        requires
            old(self).wf(),
        ensures
            final(self).wf(),
            final(self).view() == old(self).view().remove(key@),
            match r {
                Some(v) => old(self).view().contains_key(key@) && v.view() == old(self).view()[key@].value,
                None => !old(self).view().contains_key(key@),
            },
            final(self).is_master() == old(self).is_master(),
            final(self).rdb_spec() == old(self).rdb_spec(),
    {
        match self.find(key) {
            Some(i) => {
                proof {
                    lemma_map_facts(self.store@);
                    lemma_map_remove(self.store@, i as int);
                }
                let e = self.store.remove(i);
                Some(e.value)
            },
            None => {
                assert(old(self).view().remove(key@) =~= old(self).view());
                None
            },
        }
    }

    /// GET: the value of a live entry; an expired one is removed on the way.
    pub fn get(&mut self, key: &[u8], now_ms: u64) -> (r: Option<KeyValueType>)
        requires
            old(self).wf(),
        ensures
            final(self).wf(),
            final(self).view() == after_lookup(old(self).view(), key@, now_ms),
            match r {
                Some(v) => get_result(old(self).view(), key@, now_ms) == Some(v.view()) && v.wf(),
                None => get_result(old(self).view(), key@, now_ms) is None,
            },
            final(self).is_master() == old(self).is_master(),
            final(self).rdb_spec() == old(self).rdb_spec(),
    {
        match self.find(key) {
            Some(i) => {
                proof {
                    lemma_map_facts(self.store@);
                }
                let live_now = match self.store[i].expires_at {
                    Some(t) => now_ms < t,
                    None => true,
                };
                if live_now {
                    Some(self.store[i].value.duplicate())
                } else {
                    proof {
                        lemma_map_remove(self.store@, i as int);
                    }
                    self.store.remove(i);
                    None
                }
            },
            None => None,
        }
    }

    /// The value of a live entry, with the store left as it is.
    pub fn peek(&self, key: &[u8], now_ms: u64) -> (r: Option<KeyValueType>)
        requires
            self.wf(),
        ensures
            match r {
                Some(v) => get_result(self.view(), key@, now_ms) == Some(v.view()) && v.wf(),
                None => get_result(self.view(), key@, now_ms) is None,
            },
    {
        match self.find(key) {
            Some(i) => {
                proof {
                    lemma_map_facts(self.store@);
                }
                let live_now = match self.store[i].expires_at {
                    Some(t) => now_ms < t,
                    None => true,
                };
                if live_now {
                    Some(self.store[i].value.duplicate())
                } else {
                    None
                }
            },
            None => None,
        }
    }

    /// XADD: appends an entry to the stream of `key`, creating the stream
    /// where `key` has no live entry. A refused XADD changes nothing.
    pub fn xadd(&mut self, key: Vec<u8>, spec: IdSpec, fields: Vec<Vec<u8>>, now_ms: u64) -> (r: Result<(u64, u64), XAddFailure>)
        requires
            old(self).wf(),
        ensures
            final(self).wf(),
            final(self).is_master() == old(self).is_master(),
            final(self).rdb_spec() == old(self).rdb_spec(),
            r == xadd_outcome(old(self).view(), key@, spec, now_ms),
            final(self).view() == xadd_view(old(self).view(), key@, spec, crate::streams::bytes_list(fields@), now_ms),
            match get_result(old(self).view(), key@, now_ms) {
                Some(ValueView::Str(_)) => r == Err::<(u64, u64), XAddFailure>(XAddFailure::WrongType)
                    && final(self).view() == old(self).view(),
                Some(ValueView::Stream(entries)) => {
                    let last = if entries.len() == 0 { None } else { Some(entries.last().0) };
                    match xadd_result(last, spec, now_ms) {
                        Ok(id) => r == Ok::<(u64, u64), XAddFailure>(id) && final(self).view() == old(self).view().insert(
                            key@, EntryView {
                                value: ValueView::Stream(entries.push((id, crate::streams::bytes_list(fields@)))),
                                ..old(self).view()[key@]
                            }),
                        Err(e) => r == Err::<(u64, u64), XAddFailure>(XAddFailure::Id(e))
                            && final(self).view() == old(self).view(),
                    }
                },
                None => match xadd_result(None, spec, now_ms) {
                    Ok(id) => r == Ok::<(u64, u64), XAddFailure>(id) && final(self).view() == old(self).view().insert(
                        key@, EntryView {
                            value: ValueView::Stream(seq![(id, crate::streams::bytes_list(fields@))]),
                            expires_at: None,
                            inserted_at: now_ms,
                        }),
                    Err(e) => r == Err::<(u64, u64), XAddFailure>(XAddFailure::Id(e))
                        && final(self).view() == after_lookup(old(self).view(), key@, now_ms),
                },
            },
    {
        let found = self.find(key.as_slice());
        proof {
            lemma_map_facts(self.store@);
        }
        let idx = match found {
            Some(i) => {
                let live_now = match self.store[i].expires_at {
                    Some(t) => now_ms < t,
                    None => true,
                };
                if live_now {
                    Some(i)
                } else {
                    proof {
                        lemma_map_remove(self.store@, i as int);
                    }
                    self.store.remove(i);
                    None
                }
            },
            None => None,
        };
        match idx {
            Some(i) => {
                let is_stream = match &self.store[i].value {
                    KeyValueType::StreamType(_) => true,
                    KeyValueType::StringType(_) => false,
                };
                if !is_stream {
                    return Err(XAddFailure::WrongType);
                }
                let mut entry = self.store.remove(i);
                let ghost before = entry;
                let ghost pos = i as int;
                let res = match &mut entry.value {
                    KeyValueType::StreamType(st) => st.add_entry(spec, fields, now_ms),
                    KeyValueType::StringType(_) => Err(XAddError::NotGreater),
                };
                let ghost after = entry;
                proof {
                    crate::streams::lemma_entries_view_push(
                        before.value->StreamType_0.streams@,
                        StreamEntry { ms: res->Ok_0.0, seq: res->Ok_0.1, fields });
                }
                self.store.insert(i, entry);
                proof {
                    let s0 = old(self).store@;
                    assert(self.store@ =~= s0.update(pos, after));
                    lemma_map_update(s0, pos, after);
                    if res is Err {
                        assert(after.view() == s0[pos].view());
                        assert(entries_map(s0).insert(after.key@, after.view()) =~= entries_map(s0));
                    }
                }
                match res {
                    Ok(id) => Ok(id),
                    Err(e) => Err(XAddFailure::Id(e)),
                }
            },
            None => {
                let res = crate::streams::resolve(None, spec, now_ms);
                match res {
                    Ok((ms, seq)) => {
                        let st = Streams::new(ms, seq, fields);
                        let entry = KeyValueData {
                            key,
                            value: KeyValueType::StreamType(st),
                            expires_at: None,
                            inserted_at: now_ms,
                        };
                        proof {
                            lemma_map_push(self.store@, entry);
                            assert(entries_view(st.streams@) =~= seq![((ms, seq), crate::streams::bytes_list(st.streams@[0].fields@))]);
                        }
                        self.store.push(entry);
                        Ok((ms, seq))
                    },
                    Err(e) => Err(XAddFailure::Id(e)),
                }
            },
        }
    }

    pub fn role_master(&self) -> (r: bool)
        ensures
            r == self.is_master(),
    {
        self.node_info.master
    }

    pub fn rdb_directory(&self) -> (r: &str)
        ensures
            r@ == self.rdb_spec().directory_spec(),
    {
        self.rdb.get_rdb_directory()
    }

    pub fn rdb_filename(&self) -> (r: &str)
        ensures
            r@ == self.rdb_spec().file_spec(),
    {
        self.rdb.get_rdb_filename()
    }

    /// KEYS: the keys of the entries live at `now`, each once.
    pub fn keys(&self, now_ms: u64) -> (r: Vec<Vec<u8>>)
        requires
            self.wf(),
        ensures
            forall|k: Seq<u8>| (exists|i: int| 0 <= i < r@.len() && (#[trigger] r@[i])@ == k)
                <==> get_result(self.view(), k, now_ms) is Some,
            forall|i: int, j: int| 0 <= i < j < r@.len() ==> (#[trigger] r@[i])@ != (#[trigger] r@[j])@,
    {
        proof {
            lemma_map_facts(self.store@);
        }
        let mut out: Vec<Vec<u8>> = Vec::new();
        let mut i: usize = 0;
        let ghost idx: Seq<int> = Seq::empty();
        while i < self.store.len()
            invariant
                i <= self.store@.len(),
                self.wf(),
                idx.len() == out@.len(),
                forall|a: int| 0 <= a < idx.len() ==> 0 <= #[trigger] idx[a] < i
                    && out@[a]@ == self.store@[idx[a]].key@
                    && live(self.store@[idx[a]].view(), now_ms),
                forall|a: int, b: int| 0 <= a < b < idx.len() ==> #[trigger] idx[a] < #[trigger] idx[b],
                forall|j: int| 0 <= j < i && live(#[trigger] self.store@[j].view(), now_ms)
                    ==> exists|a: int| 0 <= a < idx.len() && idx[a] == j,
            decreases self.store.len() - i,
        {
            let e = &self.store[i];
            let live_now = match e.expires_at {
                Some(t) => now_ms < t,
                None => true,
            };
            if live_now {
                out.push(clone_bytes(&e.key));
                proof {
                    let oi = idx;
                    idx = idx.push(i as int);
                    assert forall|j: int| 0 <= j < i + 1 && live(#[trigger] self.store@[j].view(), now_ms)
                        implies exists|a: int| 0 <= a < idx.len() && idx[a] == j by {
                        if j == i {
                            assert(idx[idx.len() - 1] == j);
                        } else {
                            assert(exists|a: int| 0 <= a < oi.len() && oi[a] == j);
                            let a = choose|a: int| 0 <= a < oi.len() && oi[a] == j;
                            assert(idx[a] == j);
                        }
                    }
                }
            }
            i = i + 1;
        }
        proof {
            lemma_map_facts(self.store@);
            let m = self.view();
            assert forall|k: Seq<u8>| (exists|a: int| 0 <= a < out@.len() && (#[trigger] out@[a])@ == k)
                <==> get_result(m, k, now_ms) is Some by {
                if exists|a: int| 0 <= a < out@.len() && (#[trigger] out@[a])@ == k {
                    let a = choose|a: int| 0 <= a < out@.len() && (#[trigger] out@[a])@ == k;
                    assert(m.contains_key(self.store@[idx[a]].key@));
                }
                if get_result(m, k, now_ms) is Some {
                    let j = choose|j: int| 0 <= j < self.store@.len() && self.store@[j].key@ == k;
                    assert(m.contains_key(self.store@[j].key@));
                    assert(live(self.store@[j].view(), now_ms));
                    let a = choose|a: int| 0 <= a < idx.len() && idx[a] == j;
                    assert(out@[a]@ == k);
                }
            }
            assert forall|a: int, b: int| 0 <= a < b < out@.len() implies (#[trigger] out@[a])@ != (#[trigger] out@[b])@ by {
                assert(idx[a] < idx[b]);
            }
        }
        out
    }

    /// The sweep: drops every entry that has expired at `now`.
    pub fn remove_expired(&mut self, now_ms: u64)
        requires
            old(self).wf(),
        ensures
            final(self).wf(),
            forall|k: Seq<u8>| #[trigger] final(self).view().contains_key(k)
                <==> get_result(old(self).view(), k, now_ms) is Some,
            forall|k: Seq<u8>| #[trigger] final(self).view().contains_key(k)
                ==> final(self).view()[k] == old(self).view()[k],
            final(self).is_master() == old(self).is_master(),
            final(self).rdb_spec() == old(self).rdb_spec(),
    {
        let ghost m0 = self.view();
        let mut i: usize = 0;
        while i < self.store.len()
            invariant
                i <= self.store@.len(),
                self.wf(),
                self.node_info == old(self).node_info,
                self.rdb == old(self).rdb,
                m0 == old(self).view(),
                forall|k: Seq<u8>| #[trigger] self.view().contains_key(k)
                    ==> m0.contains_key(k) && self.view()[k] == m0[k],
                forall|k: Seq<u8>| #[trigger] m0.contains_key(k) && live(m0[k], now_ms)
                    ==> self.view().contains_key(k),
                forall|j: int| 0 <= j < i ==> live(#[trigger] self.store@[j].view(), now_ms),
            decreases self.store.len() - i,
        {
            let live_now = match self.store[i].expires_at {
                Some(t) => now_ms < t,
                None => true,
            };
            if live_now {
                i = i + 1;
            } else {
                let ghost prev = self.view();
                proof {
                    lemma_map_facts(self.store@);
                    lemma_map_remove(self.store@, i as int);
                }
                self.store.remove(i);
                proof {
                    assert forall|k: Seq<u8>| #[trigger] self.view().contains_key(k)
                        implies m0.contains_key(k) && self.view()[k] == m0[k] by {
                        assert(prev.contains_key(k));
                    }
                    assert forall|k: Seq<u8>| #[trigger] m0.contains_key(k) && live(m0[k], now_ms)
                        implies self.view().contains_key(k) by {
                        assert(prev.contains_key(k));
                    }
                }
            }
        }
        proof {
            lemma_map_facts(self.store@);
            assert forall|k: Seq<u8>| #[trigger] self.view().contains_key(k) implies live(m0[k], now_ms) by {
                let j = choose|j: int| 0 <= j < self.store@.len() && self.store@[j].key@ == k;
                assert(self.view().contains_key(self.store@[j].key@));
            }
        }
    }
}

/// Every entry of the store that expires does so strictly after it was
/// inserted.
pub proof fn lemma_expiry_after_insert(db: &DB, k: Seq<u8>)
    requires
        db.wf(),
        db.view().contains_key(k),
    ensures
        db.view()[k].expires_at matches Some(t) ==> t > db.view()[k].inserted_at,
{
    lemma_map_facts(db.store@);
    let j = choose|j: int| 0 <= j < db.store@.len() && db.store@[j].key@ == k;
    assert(db.view().contains_key(db.store@[j].key@));
    assert(db.store@[j].wf());
}

/// After SET of `k` to `v` without a time to live, GET of `k` returns `v`
/// at every later time.
pub proof fn lemma_set_then_get(m: Map<Seq<u8>, EntryView>, k: Seq<u8>, v: ValueView, t_set: u64, t_get: u64)
    ensures
        get_result(set_view(m, k, v, 0, t_set), k, t_get) == Some(v),
        after_lookup(set_view(m, k, v, 0, t_set), k, t_get) == set_view(m, k, v, 0, t_set),
{
}

/// SET and DEL of another key, and the lookup of any key, leave what GET of
/// `k` returns as it was.
pub proof fn lemma_get_unaffected(m: Map<Seq<u8>, EntryView>, k: Seq<u8>, other: Seq<u8>, v: ValueView, ttl: u64, t: u64, now: u64, look: Seq<u8>)
    requires
        other != k,
    ensures
        get_result(set_view(m, other, v, ttl, t), k, now) == get_result(m, k, now),
        get_result(m.remove(other), k, now) == get_result(m, k, now),
        get_result(after_lookup(m, look, t), k, now) == get_result(m, k, now) || t > now,
{
    if m.contains_key(look) && !live(m[look], t) && look == k && t <= now {
        match m[k].expires_at {
            Some(x) => assert(now >= x),
            None => {},
        }
    }
}

/// After SET of `k` with a time to live of `ttl` > 0 ms at `t_set`, GET of
/// `k` at any time `ttl` ms or more later returns nothing.
pub proof fn lemma_set_px_expires(m: Map<Seq<u8>, EntryView>, k: Seq<u8>, v: ValueView, ttl: u64, t_set: u64, t_get: u64)
    requires
        ttl > 0,
        t_set + ttl <= u64::MAX,
        t_get >= t_set + ttl,
    ensures
        get_result(set_view(m, k, v, ttl, t_set), k, t_get) is None,
{
}

} // verus!
