//! The snapshot handed to a replica on a full resync: a fixed empty RDB
//! file, kept as base64 text and decoded with the `base64` crate, framed as
//! `$<len>\r\n<bytes>` without a trailing CRLF.
use vstd::prelude::*;
use base64::Engine;
use crate::codec::{copy_range, push_all, push_crlf, push_decimal};
use crate::db::{set_view, EntryView, KeyValueType, SetOptions, ValueView, DB, RDB};
use crate::resp::{crlf, decimal};

verus! {

#[verifier::external_type_specification]
#[verifier::external_body]
pub struct ExDecodeError(base64::DecodeError);

/// What the standard base64 alphabet, with padding, decodes `input` to.
pub uninterp spec fn base64_standard_decoded(input: Seq<u8>) -> Seq<u8>;

/// The value of a symbol of the standard base64 alphabet; -1 for a byte
/// outside it.
pub open spec fn b64_value(c: u8) -> int {
    if 65 <= c <= 90 {
        c - 65
    } else if 97 <= c <= 122 {
        c - 71
    } else if 48 <= c <= 57 {
        c + 4
    } else if c == 43 {
        62
    } else if c == 47 {
        63
    } else {
        -1
    }
}

/// Canonical padded base64 in the standard alphabet: whole quads; `=` only
/// as the last one or two bytes; every other byte a symbol; and the bits
/// that the last symbol before the padding carries past the last byte are
/// zero.
pub open spec fn std_padded_base64(s: Seq<u8>) -> bool {
    let n = s.len() as int;
    let p: int = if n >= 2 && s[n - 1] == 61u8 { if s[n - 2] == 61u8 { 2 } else { 1 } } else { 0 };
    &&& n > 0 && n % 4 == 0
    &&& forall|i: int| 0 <= i < n - p ==> #[trigger] b64_value(s[i]) >= 0
    &&& p == 1 ==> b64_value(s[n - 2]) % 4 == 0
    &&& p == 2 ==> b64_value(s[n - 3]) % 16 == 0
}

/// Relies on `base64::engine::general_purpose::STANDARD.decode`: on success
/// the result is the decoding of the input, which depends on the input
/// alone; and on canonical padded input (the engine's `PAD` configuration
/// requires canonical padding and rejects trailing bits) it succeeds.
#[verifier::external_body]
fn decode_standard(input: &[u8]) -> (r: Result<Vec<u8>, base64::DecodeError>)
    ensures
        r matches Ok(v) ==> v@ == base64_standard_decoded(input@),
        std_padded_base64(input@) ==> r is Ok,
{
    base64::engine::general_purpose::STANDARD.decode(input)
}

/// The empty RDB file (Redis 7.2) as base64 text.
pub open spec fn empty_rdb_base64() -> Seq<u8> {
    seq![85u8, 107u8, 86u8, 69u8, 83u8, 86u8, 77u8, 119u8, 77u8, 68u8, 69u8, 120u8, 43u8, 103u8, 108u8, 121u8, 90u8, 87u8, 82u8, 112u8, 99u8, 121u8, 49u8, 50u8, 90u8, 88u8, 73u8, 70u8, 78u8, 121u8, 52u8, 121u8, 76u8, 106u8, 68u8, 54u8, 67u8, 110u8, 74u8, 108u8, 90u8, 71u8, 108u8, 122u8, 76u8, 87u8, 74u8, 112u8, 100u8, 72u8, 80u8, 65u8, 81u8, 80u8, 111u8, 70u8, 89u8, 51u8, 82u8, 112u8, 98u8, 87u8, 88u8, 67u8, 98u8, 81u8, 105u8, 56u8, 90u8, 102u8, 111u8, 73u8, 100u8, 88u8, 78u8, 108u8, 90u8, 67u8, 49u8, 116u8, 90u8, 87u8, 51u8, 67u8, 115u8, 77u8, 81u8, 81u8, 65u8, 80u8, 111u8, 73u8, 89u8, 87u8, 57u8, 109u8, 76u8, 87u8, 74u8, 104u8, 99u8, 50u8, 88u8, 65u8, 65u8, 80u8, 47u8, 119u8, 98u8, 106u8, 118u8, 43u8, 119u8, 80u8, 57u8, 97u8, 111u8, 103u8, 61u8, 61u8]
}

pub fn empty_rdb_base64_bytes() -> (r: Vec<u8>)
    ensures
        r@ == empty_rdb_base64(),
{
    let r: Vec<u8> = vec![85u8, 107u8, 86u8, 69u8, 83u8, 86u8, 77u8, 119u8, 77u8, 68u8, 69u8, 120u8, 43u8, 103u8, 108u8, 121u8, 90u8, 87u8, 82u8, 112u8, 99u8, 121u8, 49u8, 50u8, 90u8, 88u8, 73u8, 70u8, 78u8, 121u8, 52u8, 121u8, 76u8, 106u8, 68u8, 54u8, 67u8, 110u8, 74u8, 108u8, 90u8, 71u8, 108u8, 122u8, 76u8, 87u8, 74u8, 112u8, 100u8, 72u8, 80u8, 65u8, 81u8, 80u8, 111u8, 70u8, 89u8, 51u8, 82u8, 112u8, 98u8, 87u8, 88u8, 67u8, 98u8, 81u8, 105u8, 56u8, 90u8, 102u8, 111u8, 73u8, 100u8, 88u8, 78u8, 108u8, 90u8, 67u8, 49u8, 116u8, 90u8, 87u8, 51u8, 67u8, 115u8, 77u8, 81u8, 81u8, 65u8, 80u8, 111u8, 73u8, 89u8, 87u8, 57u8, 109u8, 76u8, 87u8, 74u8, 104u8, 99u8, 50u8, 88u8, 65u8, 65u8, 80u8, 47u8, 119u8, 98u8, 106u8, 118u8, 43u8, 119u8, 80u8, 57u8, 97u8, 111u8, 103u8, 61u8, 61u8];
    assert(r@ =~= empty_rdb_base64());
    r
}

proof fn lemma_empty_rdb_text_canonical()
    ensures
        std_padded_base64(empty_rdb_base64()),
{
    let s = empty_rdb_base64();
    assert(s.len() == 120);
    assert(s[119] == 61u8 && s[118] == 61u8);
    assert(b64_value(s[117]) % 16 == 0);
    assert forall|i: int| 0 <= i < 118 implies #[trigger] b64_value(s[i]) >= 0 by {}
}

/// A snapshot on the wire: `$`, its length, CRLF, then its bytes.
pub open spec fn rdb_frame(payload: Seq<u8>) -> Seq<u8> {
    seq![36u8] + decimal(payload.len()) + crlf() + payload
}

/// Frames `payload` as a snapshot.
pub fn frame_rdb(payload: &[u8]) -> (r: Vec<u8>)
    ensures
        r@ == rdb_frame(payload@),
{
    let mut out: Vec<u8> = Vec::new();
    out.push(36u8);
    push_decimal(&mut out, payload.len() as u64);
    push_crlf(&mut out);
    push_all(&mut out, payload);
    assert(out@ =~= rdb_frame(payload@));
    out
}

impl RDB {
    /// The framed empty snapshot; an error only where the embedded text
    /// does not decode.
    pub fn empty() -> (r: Result<Vec<u8>, base64::DecodeError>)
        ensures
            r is Ok,
            r matches Ok(v) ==> v@ == rdb_frame(base64_standard_decoded(empty_rdb_base64())),
    {
        let text = empty_rdb_base64_bytes();
        proof {
            lemma_empty_rdb_text_canonical();
        }
        match decode_standard(text.as_slice()) {
            Ok(payload) => Ok(frame_rdb(payload.as_slice())),
            Err(e) => Err(e),
        }
    }
}

/// A length at `p` of a snapshot file, and where what follows it starts:
/// six bits; fourteen bits over two bytes; a big-endian `u32` after a
/// marker byte; or, for the special encodings 0, 1 and 2, an integer stored
/// in 1, 2 or 4 bytes.
pub open spec fn rdb_len(b: Seq<u8>, p: int) -> Option<(nat, int)> {
    if p < 0 || p >= b.len() {
        None
    } else {
        let x = b[p];
        if x < 64 {
            Some(((x % 64) as nat, p + 1))
        } else if x < 128 {
            if p + 1 < b.len() { Some((((x % 64) as nat) * 256 + b[p + 1] as nat, p + 2)) } else { None }
        } else if x < 192 {
            if p + 4 < b.len() {
                Some(((b[p + 1] as nat) * 16777216 + (b[p + 2] as nat) * 65536 + (b[p + 3] as nat) * 256
                    + b[p + 4] as nat, p + 5))
            } else {
                None
            }
        } else if x % 64 == 0 {
            Some((1, p + 1))
        } else if x % 64 == 1 {
            Some((2, p + 1))
        } else if x % 64 == 2 {
            Some((4, p + 1))
        } else {
            None
        }
    }
}

/// A string at `p`: a length, then that many bytes.
pub open spec fn rdb_string(b: Seq<u8>, p: int) -> Option<(Seq<u8>, int)> {
    match rdb_len(b, p) {
        Some((n, q)) => if q + n <= b.len() { Some((b.subrange(q, q + n), q + n)) } else { None },
        None => None,
    }
}

/// A key and a string value at `p`: the value type 0, then two strings.
pub open spec fn rdb_pair(b: Seq<u8>, p: int) -> Option<(Seq<u8>, Seq<u8>, int)> {
    if p < 0 || p >= b.len() || b[p] != 0 {
        None
    } else {
        match rdb_string(b, p + 1) {
            Some((k, q)) => match rdb_string(b, q) {
                Some((v, r)) => Some((k, v, r)),
                None => None,
            },
            None => None,
        }
    }
}

pub open spec fn le_u32(b: Seq<u8>, p: int) -> nat {
    (b[p] as nat) + (b[p + 1] as nat) * 256 + (b[p + 2] as nat) * 65536 + (b[p + 3] as nat) * 16777216
}

pub open spec fn le_u64(b: Seq<u8>, p: int) -> nat {
    le_u32(b, p) + le_u32(b, p + 4) * 4294967296
}

/// One key of a snapshot: its name, its value, and the wall-clock
/// millisecond at which it expires, if it does.
pub type RdbEntry = (Seq<u8>, Seq<u8>, Option<nat>);

/// The keys of a snapshot file from position `p` on, up to the end marker
/// 255 or the end of the bytes; `None` where the bytes do not decode.
/// Auxiliary fields (250), table sizes (251) and database numbers (254)
/// are read past; 252 and 253 give an expiry in milliseconds or seconds
/// for the key that follows; any other byte is the value type of a key.
pub open spec fn rdb_body(b: Seq<u8>, p: int) -> Option<Seq<RdbEntry>>
    decreases b.len() - p,
{
    if p < 0 || p >= b.len() {
        Some(Seq::empty())
    } else {
        let op = b[p];
        if op == 255u8 {
            Some(Seq::empty())
        } else if op == 250u8 {
            match rdb_string(b, p + 1) {
                Some((_, q)) => match rdb_string(b, q) {
                    Some((_, r)) => if p < r { rdb_body(b, r) } else { None },
                    None => None,
                },
                None => None,
            }
        } else if op == 251u8 {
            match rdb_len(b, p + 1) {
                Some((_, q)) => match rdb_len(b, q) {
                    Some((_, r)) => if p < r { rdb_body(b, r) } else { None },
                    None => None,
                },
                None => None,
            }
        } else if op == 254u8 {
            match rdb_len(b, p + 1) {
                Some((_, q)) => if p < q { rdb_body(b, q) } else { None },
                None => None,
            }
        } else if op == 252u8 || op == 253u8 {
            let w: int = if op == 252u8 { 8 } else { 4 };
            if p + 1 + w > b.len() {
                None
            } else {
                let ms: nat = if op == 252u8 { le_u64(b, p + 1) } else { le_u32(b, p + 1) * 1000 };
                match rdb_pair(b, p + 1 + w) {
                    Some((k, v, r)) => if p < r {
                        match rdb_body(b, r) {
                            Some(rest) => Some(seq![(k, v, Some(ms))] + rest),
                            None => None,
                        }
                    } else {
                        None
                    },
                    None => None,
                }
            }
        } else {
            match rdb_pair(b, p) {
                Some((k, v, r)) => if p < r {
                    match rdb_body(b, r) {
                        Some(rest) => Some(seq![(k, v, None::<nat>)] + rest),
                        None => None,
                    }
                } else {
                    None
                },
                None => None,
            }
        }
    }
}

/// The keys of a snapshot file: a nine-byte header, then the body.
pub open spec fn rdb_entries(b: Seq<u8>) -> Option<Seq<RdbEntry>> {
    if b.len() < 9 { None } else { rdb_body(b, 9) }
}

fn read_len(b: &[u8], p: usize) -> (r: Option<(u64, usize)>)
    ensures
        match rdb_len(b@, p as int) {
            Some((n, q)) => r == Some((n as u64, q as usize)) && p < q <= b.len(),
            None => r is None,
        },
{
    if p >= b.len() {
        return None;
    }
    let x = b[p];
    if x < 64 {
        Some(((x % 64) as u64, p + 1))
    } else if x < 128 {
        if p + 1 < b.len() {
            Some((((x % 64) as u64) * 256 + b[p + 1] as u64, p + 2))
        } else {
            None
        }
    } else if x < 192 {
        if b.len() - p > 4 {
            Some(((b[p + 1] as u64) * 16777216 + (b[p + 2] as u64) * 65536 + (b[p + 3] as u64) * 256
                + b[p + 4] as u64, p + 5))
        } else {
            None
        }
    } else if x % 64 == 0 {
        Some((1, p + 1))
    } else if x % 64 == 1 {
        Some((2, p + 1))
    } else if x % 64 == 2 {
        Some((4, p + 1))
    } else {
        None
    }
}

fn read_string(b: &[u8], p: usize) -> (r: Option<(Vec<u8>, usize)>)
    ensures
        match rdb_string(b@, p as int) {
            Some((s, q)) => (r matches Some((s2, q2)) && s2@ == s && q2 == q) && p < q <= b.len(),
            None => r is None,
        },
{
    match read_len(b, p) {
        Some((n, q)) => {
            if n > (b.len() - q) as u64 {
                return None;
            }
            let n = n as usize;
            Some((copy_range(b, q, q + n), q + n))
        },
        None => None,
    }
}

fn read_pair(b: &[u8], p: usize) -> (r: Option<(Vec<u8>, Vec<u8>, usize)>)
    ensures
        match rdb_pair(b@, p as int) {
            Some((k, v, q)) => (r matches Some((k2, v2, q2)) && k2@ == k && v2@ == v && q2 == q) && p < q <= b.len(),
            None => r is None,
        },
{
    if p >= b.len() || b[p] != 0 {
        return None;
    }
    match read_string(b, p + 1) {
        Some((k, q)) => match read_string(b, q) {
            Some((v, r)) => Some((k, v, r)),
            None => None,
        },
        None => None,
    }
}

fn read_le(b: &[u8], p: usize, wide: bool) -> (r: u64)
    requires
        p + (if wide { 8int } else { 4int }) <= b.len(),
    ensures
        r == (if wide { le_u64(b@, p as int) } else { le_u32(b@, p as int) }),
{
    let lo = (b[p] as u64) + (b[p + 1] as u64) * 256 + (b[p + 2] as u64) * 65536 + (b[p + 3] as u64) * 16777216;
    if wide {
        let hi = (b[p + 4] as u64) + (b[p + 5] as u64) * 256 + (b[p + 6] as u64) * 65536 + (b[p + 7] as u64) * 16777216;
        lo + hi * 4294967296
    } else {
        lo
    }
}

/// One key read from a snapshot file.
#[derive(Debug)]
pub struct RdbKey {
    pub key: Vec<u8>,
    pub value: Vec<u8>,
    /// The wall-clock millisecond at which it expires.
    pub expires_at_ms: Option<u64>,
}

impl RdbKey {
    pub open spec fn view(self) -> RdbEntry {
        (self.key@, self.value@, match self.expires_at_ms { Some(t) => Some(t as nat), None => None })
    }
}

pub open spec fn keys_view(s: Seq<RdbKey>) -> Seq<RdbEntry> {
    s.map_values(|k: RdbKey| k.view())
}

/// The keys of a snapshot file's bytes, or `None` where they do not decode.
#[verifier::rlimit(40)]
pub fn parse_rdb_file(b: &[u8]) -> (r: Option<Vec<RdbKey>>)
    ensures
        match rdb_entries(b@) {
            Some(es) => r is Some && keys_view(r->0@) == es,
            None => r is None,
        },
{
    if b.len() < 9 {
        return None;
    }
    let mut out: Vec<RdbKey> = Vec::new();
    let mut p: usize = 9;
    proof {
        assert(keys_view(out@) =~= Seq::<RdbEntry>::empty());
        match rdb_body(b@, 9) {
            Some(s) => assert(Seq::<RdbEntry>::empty() + s =~= s),
            None => {},
        }
    }
    while p < b.len()
        invariant
            9 <= p <= b.len(),
            rdb_entries(b@) == (match rdb_body(b@, p as int) {
                Some(rest) => Some(keys_view(out@) + rest),
                None => None::<Seq<RdbEntry>>,
            }),
        decreases b.len() - p,
    {
        let op = b[p];
        let ghost before = keys_view(out@);
        if op == 255u8 {
            assert(before + Seq::<RdbEntry>::empty() =~= before);
            return Some(out);
        } else if op == 250u8 {
            let q = match read_string(b, p + 1) {
                Some((_, q)) => q,
                None => {
                    return None;
                },
            };
            p = match read_string(b, q) {
                Some((_, r)) => r,
                None => {
                    return None;
                },
            };
        } else if op == 251u8 {
            let q = match read_len(b, p + 1) {
                Some((_, q)) => q,
                None => {
                    return None;
                },
            };
            p = match read_len(b, q) {
                Some((_, r)) => r,
                None => {
                    return None;
                },
            };
        } else if op == 254u8 {
            p = match read_len(b, p + 1) {
                Some((_, q)) => q,
                None => {
                    return None;
                },
            };
        } else if op == 252u8 || op == 253u8 {
            let wide = op == 252u8;
            let w: usize = if wide { 8 } else { 4 };
            if w > b.len() - (p + 1) {
                return None;
            }
            let raw = read_le(b, p + 1, wide);
            let ms: u64 = if wide {
                raw
            } else {
                raw * 1000
            };
            match read_pair(b, p + 1 + w) {
                Some((k, v, r)) => {
                    let e = RdbKey { key: k, value: v, expires_at_ms: Some(ms) };
                    let ghost ev = e.view();
                    out.push(e);
                    proof {
                        assert(keys_view(out@) =~= before.push(ev));
                        match rdb_body(b@, r as int) {
                            Some(rest) => assert(before + (seq![ev] + rest) =~= before.push(ev) + rest),
                            None => {},
                        }
                    }
                    p = r;
                },
                None => {
                    return None;
                },
            }
        } else {
            match read_pair(b, p) {
                Some((k, v, r)) => {
                    let e = RdbKey { key: k, value: v, expires_at_ms: None };
                    let ghost ev = e.view();
                    out.push(e);
                    proof {
                        assert(keys_view(out@) =~= before.push(ev));
                        match rdb_body(b@, r as int) {
                            Some(rest) => assert(before + (seq![ev] + rest) =~= before.push(ev) + rest),
                            None => {},
                        }
                    }
                    p = r;
                },
                None => {
                    return None;
                },
            }
        }
    }
    proof {
        let s = keys_view(out@);
        assert(s + Seq::<RdbEntry>::empty() =~= s);
    }
    Some(out)
}

/// The store after loading `es[..n]` at wall-clock `wall` and monotonic
/// `mono` milliseconds: a key already expired is skipped; another gets the
/// time it has left to live.
pub open spec fn load_view(m: Map<Seq<u8>, EntryView>, es: Seq<RdbEntry>, wall: u64, mono: u64, n: int) -> Map<Seq<u8>, EntryView>
    decreases n,
{
    if n <= 0 {
        m
    } else {
        let prev = load_view(m, es, wall, mono, n - 1);
        let e = es[n - 1];
        match e.2 {
            None => set_view(prev, e.0, ValueView::Str(e.1), 0, mono),
            Some(t) => if t <= wall {
                prev
            } else {
                set_view(prev, e.0, ValueView::Str(e.1), (t - wall) as u64, mono)
            },
        }
    }
}

impl RDB {
    /// Adds one key read from a snapshot, unless it has already expired at
    /// wall-clock `wall_ms`; `mono_ms` is the store's clock.
    pub fn add_to_db(db: &mut DB, k: &Vec<u8>, v: &Vec<u8>, expires_at_ms: Option<u64>, wall_ms: u64, mono_ms: u64)
        requires
            old(db).wf(),
        ensures
            final(db).wf(),
            final(db).is_master() == old(db).is_master(),
            final(db).rdb_spec() == old(db).rdb_spec(),
            final(db).view() == (match expires_at_ms {
                None => set_view(old(db).view(), k@, ValueView::Str(v@), 0, mono_ms),
                Some(t) => if t <= wall_ms {
                    old(db).view()
                } else {
                    set_view(old(db).view(), k@, ValueView::Str(v@), (t - wall_ms) as u64, mono_ms)
                },
            }),
    {
        let ttl = match expires_at_ms {
            None => 0,
            Some(t) => {
                if t <= wall_ms {
                    return;
                }
                t - wall_ms
            },
        };
        let key = crate::streams::clone_bytes(k);
        let value = crate::streams::clone_bytes(v);
        db.add(key, KeyValueType::StringType(value), &SetOptions { expiry_in_ms: ttl }, mono_ms);
    }

    /// Loads the keys of a snapshot into the store.
    pub fn load_keys(db: &mut DB, keys: &Vec<RdbKey>, wall_ms: u64, mono_ms: u64)
        requires
            old(db).wf(),
        ensures
            final(db).wf(),
            final(db).is_master() == old(db).is_master(),
            final(db).rdb_spec() == old(db).rdb_spec(),
            final(db).view() == load_view(old(db).view(), keys_view(keys@), wall_ms, mono_ms, keys@.len() as int),
    {
        let mut i: usize = 0;
        while i < keys.len()
            invariant
                i <= keys@.len(),
                db.wf(),
                db.is_master() == old(db).is_master(),
                db.rdb_spec() == old(db).rdb_spec(),
                db.view() == load_view(old(db).view(), keys_view(keys@), wall_ms, mono_ms, i as int),
            decreases keys.len() - i,
        {
            let e = &keys[i];
            assert(keys_view(keys@)[i as int] == e.view());
            RDB::add_to_db(db, &e.key, &e.value, e.expires_at_ms, wall_ms, mono_ms);
            i = i + 1;
        }
    }
}

} // verus!
