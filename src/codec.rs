//! The executable RESP codec: `DataType` values, read from bytes and written
//! back, each step proved against the model in `resp`.
use vstd::prelude::*;
use crate::resp::{
    count_of, crlf, decimal, digits_value, encode, encode_items, int_of, int_text, is_digit,
    nil_line, parse_frames, parse_items, parse_value, pow10, scan_line, ItemsParsed,
    LineScan, Parsed, Resp, CR, LF, MAX_DIGITS,
};
use crate::resp_laws::{lemma_decimal, lemma_pow10_19};

verus! {

/// One decoded RESP value. The two positions are where the value starts in
/// the buffer it was read from and where its wire form ends (exclusive).
#[derive(Debug)]
pub enum DataType {
    Array(Vec<DataType>, usize, usize),
    SimpleString(Vec<u8>, usize, usize),
    SimpleError(Vec<u8>, usize, usize),
    Integers(i64, usize, usize),
    BulkString(Vec<u8>, usize, usize),
    Nil(usize, usize),
    NilArray(usize, usize),
    Invalid(Vec<u8>),
}

/// Why bytes could not be read as a value.
#[derive(Debug, Clone, Copy, PartialEq, Eq, Structural)]
pub enum ParseError {
    /// The bytes stop inside a value: read more and try again.
    Incomplete,
    /// The bytes are not RESP.
    Malformed,
}

impl DataType {
    /// The protocol value; an `Invalid` marker stands for an error reply.
    pub open spec fn resp(self) -> Resp
        decreases self,
    {
        match self {
            DataType::Array(items, _, _) => Resp::Array(resp_items(items@)),
            DataType::SimpleString(s, _, _) => Resp::Simple(s@),
            DataType::SimpleError(s, _, _) => Resp::Error(s@),
            DataType::Integers(n, _, _) => Resp::Integer(n as int),
            DataType::BulkString(s, _, _) => Resp::Bulk(s@),
            DataType::Nil(_, _) => Resp::Nil,
            DataType::NilArray(_, _) => Resp::NilArray,
            DataType::Invalid(s) => Resp::Error(s@),
        }
    }

    /// Where the value's wire form starts and ends in the buffer it came from.
    pub open spec fn span(self) -> (int, int) {
        match self {
            DataType::Array(_, s, e) => (s as int, e as int),
            DataType::SimpleString(_, s, e) => (s as int, e as int),
            DataType::SimpleError(_, s, e) => (s as int, e as int),
            DataType::Integers(_, s, e) => (s as int, e as int),
            DataType::BulkString(_, s, e) => (s as int, e as int),
            DataType::Nil(s, e) => (s as int, e as int),
            DataType::NilArray(s, e) => (s as int, e as int),
            DataType::Invalid(_) => (0, 0),
        }
    }

    /// The number of bytes that the value took on the wire.
    pub open spec fn wire_len(self) -> int {
        if self.span().0 <= self.span().1 {
            self.span().1 - self.span().0
        } else {
            0
        }
    }

    pub fn len(&self) -> (r: usize)
        ensures
            r == self.wire_len(),
    {
        let (s, e) = match self {
            DataType::Array(_, s, e) => (*s, *e),
            DataType::SimpleString(_, s, e) => (*s, *e),
            DataType::SimpleError(_, s, e) => (*s, *e),
            DataType::Integers(_, s, e) => (*s, *e),
            DataType::BulkString(_, s, e) => (*s, *e),
            DataType::Nil(s, e) => (*s, *e),
            DataType::NilArray(s, e) => (*s, *e),
            DataType::Invalid(_) => (0, 0),
        };
        if s <= e {
            e - s
        } else {
            0
        }
    }
}

pub open spec fn resp_items(s: Seq<DataType>) -> Seq<Resp>
    decreases s,
{
    if s.len() == 0 {
        Seq::empty()
    } else {
        resp_items(s.drop_last()).push(s.last().resp())
    }
}

pub proof fn lemma_resp_items(s: Seq<DataType>)
    ensures
        resp_items(s).len() == s.len(),
        forall|i: int| 0 <= i < s.len() ==> #[trigger] resp_items(s)[i] == s[i].resp(),
    decreases s.len(),
{
    if s.len() > 0 {
        lemma_resp_items(s.drop_last());
    }
}

/// Appends `s` to `out`.
pub fn push_all(out: &mut Vec<u8>, s: &[u8])
    ensures
        final(out)@ == old(out)@ + s@,
{
    let mut i: usize = 0;
    while i < s.len()
        invariant
            i <= s.len(),
            out@ == old(out)@ + s@.subrange(0, i as int),
        decreases s.len() - i,
    {
        out.push(s[i]);
        i = i + 1;
        assert(s@.subrange(0, i as int) =~= s@.subrange(0, i - 1).push(s@[i - 1]));
    }
    assert(s@.subrange(0, s.len() as int) =~= s@);
}

/// Appends the decimal digits of `n`.
pub fn push_decimal(out: &mut Vec<u8>, n: u64)
    ensures
        final(out)@ == old(out)@ + decimal(n as nat),
    decreases n,
{
    if n < 10 {
        out.push((n as u8) + 48);
        assert(out@ =~= old(out)@ + decimal(n as nat));
    } else {
        push_decimal(out, n / 10);
        out.push(((n % 10) as u8) + 48);
        assert(out@ =~= old(out)@ + decimal(n as nat));
    }
}

pub fn push_crlf(out: &mut Vec<u8>)
    ensures
        final(out)@ == old(out)@ + crlf(),
{
    out.push(CR);
    out.push(LF);
    assert(out@ =~= old(out)@ + crlf());
}

/// Appends the wire form of an integer.
pub fn push_integer(out: &mut Vec<u8>, n: i64)
    ensures
        final(out)@ == old(out)@ + seq![58u8] + int_text(n as int) + crlf(),
{
    out.push(58u8);
    if n < 0 {
        out.push(45u8);
        let m: i128 = -(n as i128);
        push_decimal(out, m as u64);
    } else {
        push_decimal(out, n as u64);
    }
    push_crlf(out);
    assert(out@ =~= old(out)@ + seq![58u8] + int_text(n as int) + crlf());
}

/// Appends the wire form of a bulk string.
pub fn push_bulk(out: &mut Vec<u8>, s: &[u8])
    ensures
        final(out)@ == old(out)@ + encode(Resp::Bulk(s@)),
{
    out.push(36u8);
    push_decimal(out, s.len() as u64);
    push_crlf(out);
    push_all(out, s);
    push_crlf(out);
    assert(out@ =~= old(out)@ + encode(Resp::Bulk(s@)));
}

/// Appends the header of an array of `n` values.
pub fn push_array_header(out: &mut Vec<u8>, n: usize)
    ensures
        final(out)@ == old(out)@ + seq![42u8] + decimal(n as nat) + crlf(),
{
    out.push(42u8);
    push_decimal(out, n as u64);
    push_crlf(out);
    assert(out@ =~= old(out)@ + seq![42u8] + decimal(n as nat) + crlf());
}

/// Appends a line that starts with `tag`.
pub fn push_line(out: &mut Vec<u8>, tag: u8, s: &[u8])
    ensures
        final(out)@ == old(out)@ + seq![tag] + s@ + crlf(),
{
    out.push(tag);
    push_all(out, s);
    push_crlf(out);
    assert(out@ =~= old(out)@ + seq![tag] + s@ + crlf());
}

/// Appends the wire form of `d`.
pub fn write_value(d: &DataType, out: &mut Vec<u8>)
    ensures
        final(out)@ == old(out)@ + encode(d.resp()),
    decreases d,
{
    match d {
        DataType::Array(items, _, _) => {
            push_array_header(out, items.len());
            let ghost head = out@;
            let mut i: usize = 0;
            while i < items.len()
                invariant
                    i <= items.len(),
                    *d is Array,
                    (*d)->Array_0 == *items,
                    out@ == head + encode_items(resp_items(items@.subrange(0, i as int))),
                decreases items.len() - i,
            {
                proof {
                    lemma_resp_items(items@.subrange(0, i as int));
                    lemma_resp_items(items@.subrange(0, i + 1));
                    assert(resp_items(items@.subrange(0, i + 1)).drop_last()
                        =~= resp_items(items@.subrange(0, i as int)));
                    vstd::std_specs::vec::axiom_vec_index_decreases(*items, i as int);
                    assert(decreases_to!(*d => (*d)->Array_0));
                    assert(decreases_to!(*d => items[i as int]));
                }
                write_value(&items[i], out);
                i = i + 1;
                assert(out@ =~= head + encode_items(resp_items(items@.subrange(0, i as int))));
            }
            assert(items@.subrange(0, items.len() as int) =~= items@);
            proof {
                lemma_resp_items(items@);
            }
            assert(out@ =~= old(out)@ + encode(d.resp()));
        },
        DataType::SimpleString(s, _, _) => push_line(out, 43u8, s.as_slice()),
        DataType::SimpleError(s, _, _) => push_line(out, 45u8, s.as_slice()),
        DataType::Integers(n, _, _) => push_integer(out, *n),
        DataType::BulkString(s, _, _) => push_bulk(out, s.as_slice()),
        DataType::Nil(_, _) => {
            out.push(36u8);
            out.push(45u8);
            out.push(49u8);
            push_crlf(out);
            assert(out@ =~= old(out)@ + encode(d.resp()));
        },
        DataType::NilArray(_, _) => {
            out.push(42u8);
            out.push(45u8);
            out.push(49u8);
            push_crlf(out);
            assert(out@ =~= old(out)@ + encode(d.resp()));
        },
        DataType::Invalid(s) => push_line(out, 45u8, s.as_slice()),
    }
}

pub open spec fn parsed_matches(buf: Seq<u8>, pos: int, r: Result<(DataType, usize), ParseError>) -> bool {
    match parse_value(buf, pos) {
        Parsed::Done(v, e) => r is Ok && r->Ok_0.0.resp() == v && r->Ok_0.1 == e
            && r->Ok_0.0.span() == (pos, e),
        Parsed::Incomplete => r == Err::<(DataType, usize), ParseError>(ParseError::Incomplete),
        Parsed::Malformed => r == Err::<(DataType, usize), ParseError>(ParseError::Malformed),
    }
}

pub open spec fn items_matches(buf: Seq<u8>, pos: int, n: int, r: Result<(Vec<DataType>, usize), ParseError>) -> bool {
    match parse_items(buf, pos, n) {
        ItemsParsed::Done(s, e) => r is Ok && resp_items(r->Ok_0.0@) == s && r->Ok_0.1 == e,
        ItemsParsed::Incomplete => r == Err::<(Vec<DataType>, usize), ParseError>(ParseError::Incomplete),
        ItemsParsed::Malformed => r == Err::<(Vec<DataType>, usize), ParseError>(ParseError::Malformed),
    }
}

pub open spec fn prepend_items(pre: Seq<Resp>, r: ItemsParsed) -> ItemsParsed {
    match r {
        ItemsParsed::Done(s, e) => ItemsParsed::Done(pre + s, e),
        other => other,
    }
}

proof fn lemma_scan_bounds(buf: Seq<u8>, i: int)
    ensures
        scan_line(buf, i) matches LineScan::Found(j) ==> i <= j && j + 1 < buf.len(),
    decreases buf.len() - i,
{
    if 0 <= i < buf.len() && buf[i] != LF && buf[i] != CR {
        lemma_scan_bounds(buf, i + 1);
    }
}

proof fn lemma_pow10_mono(a: nat, b: nat)
    requires
        a <= b,
    ensures
        pow10(a) <= pow10(b),
    decreases b,
{
    if a < b {
        lemma_pow10_mono(a, (b - 1) as nat);
    }
}

proof fn lemma_digits_nonneg(s: Seq<u8>)
    requires
        forall|i: int| 0 <= i < s.len() ==> is_digit(#[trigger] s[i]),
    ensures
        digits_value(s) >= 0,
    decreases s.len(),
{
    if s.len() > 0 {
        lemma_digits_nonneg(s.drop_last());
        assert(is_digit(s[s.len() - 1]));
    }
}

/// A value read at `pos` ends after `pos` and within the buffer.
pub proof fn lemma_value_bounds(buf: Seq<u8>, pos: int)
    ensures
        parse_value(buf, pos) matches Parsed::Done(_, e) ==> pos < e <= buf.len(),
    decreases buf.len() - pos, 0int,
{
    lemma_scan_bounds(buf, pos + 1);
    if let LineScan::Found(j) = scan_line(buf, pos + 1) {
        let line = buf.subrange(pos + 1, j);
        if count_of(line) is Some {
            lemma_digits_nonneg(line);
        }
    }
    if 0 <= pos < buf.len() && buf[pos] == 42u8 {
        match scan_line(buf, pos + 1) {
            LineScan::Found(j) => match count_of(buf.subrange(pos + 1, j)) {
                Some(n) => if pos < j + 2 <= buf.len() {
                    lemma_items_bounds(buf, j + 2, n);
                },
                None => {},
            },
            _ => {},
        }
    }
}

proof fn lemma_items_bounds(buf: Seq<u8>, pos: int, n: int)
    requires
        0 <= pos <= buf.len(),
    ensures
        parse_items(buf, pos, n) matches ItemsParsed::Done(_, e) ==> pos <= e <= buf.len(),
    decreases buf.len() - pos, 1int,
{
    if n > 0 {
        lemma_value_bounds(buf, pos);
        match parse_value(buf, pos) {
            Parsed::Done(_, e) => if pos < e <= buf.len() {
                lemma_items_bounds(buf, e, n - 1);
            },
            _ => {},
        }
    }
}

fn scan_line_exec(buf: &[u8], i: usize) -> (r: Result<usize, ParseError>)
    ensures
        match scan_line(buf@, i as int) {
            LineScan::Found(j) => r == Ok::<usize, ParseError>(j as usize),
            LineScan::Incomplete => r == Err::<usize, ParseError>(ParseError::Incomplete),
            LineScan::Malformed => r == Err::<usize, ParseError>(ParseError::Malformed),
        },
{
    let mut k = i;
    while k < buf.len()
        invariant
            i <= k,
            scan_line(buf@, i as int) == scan_line(buf@, k as int),
        decreases buf.len() - k,
    {
        if buf[k] == LF {
            return Err(ParseError::Malformed);
        }
        if buf[k] == CR {
            if k + 1 >= buf.len() {
                return Err(ParseError::Incomplete);
            }
            if buf[k + 1] == LF {
                return Ok(k);
            }
            return Err(ParseError::Malformed);
        }
        k = k + 1;
    }
    Err(ParseError::Incomplete)
}

/// A copy of `buf[a..b]`.
pub fn copy_range(buf: &[u8], a: usize, b: usize) -> (r: Vec<u8>)
    requires
        a <= b <= buf.len(),
    ensures
        r@ == buf@.subrange(a as int, b as int),
{
    let mut r: Vec<u8> = Vec::new();
    let mut i = a;
    while i < b
        invariant
            a <= i <= b,
            b <= buf.len(),
            r@ == buf@.subrange(a as int, i as int),
        decreases b - i,
    {
        r.push(buf[i]);
        i = i + 1;
        assert(r@ =~= buf@.subrange(a as int, i as int));
    }
    r
}

/// Reads a count: one to `MAX_DIGITS` decimal digits.
fn parse_count(buf: &[u8], start: usize, end: usize) -> (r: Option<u64>)
    requires
        start <= end <= buf.len(),
    ensures
        match count_of(buf@.subrange(start as int, end as int)) {
            Some(n) => r == Some(n as u64) && 0 <= n < pow10(MAX_DIGITS as nat),
            None => r is None,
        },
{
    if end - start < 1 || end - start > MAX_DIGITS {
        return None;
    }
    proof {
        lemma_pow10_19();
    }
    let mut acc: u64 = 0;
    let mut i = start;
    while i < end
        invariant
            start <= i <= end,
            end <= buf.len(),
            1 <= end - start <= MAX_DIGITS,
            pow10(MAX_DIGITS as nat) == 10000000000000000000nat,
            acc == digits_value(buf@.subrange(start as int, i as int)),
            acc < pow10((i - start) as nat),
            forall|k: int| start <= k < i ==> is_digit(#[trigger] buf@[k]),
        decreases end - i,
    {
        let b = buf[i];
        if b < 48 || b > 57 {
            proof {
                let line = buf@.subrange(start as int, end as int);
                assert(!is_digit(line[i - start]));
            }
            return None;
        }
        proof {
            let k = (i - start) as nat;
            lemma_pow10_mono(k, 18);
            assert(pow10(18) * 10 == pow10(19));
            assert(pow10(k + 1) == 10 * pow10(k));
            assert(buf@.subrange(start as int, i + 1).drop_last() =~= buf@.subrange(start as int, i as int));
        }
        acc = acc * 10 + (b - 48) as u64;
        i = i + 1;
    }
    proof {
        let line = buf@.subrange(start as int, end as int);
        assert(line =~= buf@.subrange(start as int, i as int));
        assert forall|k: int| 0 <= k < line.len() implies is_digit(line[k]) by {
            assert(is_digit(buf@[start + k]));
        }
        lemma_pow10_mono((i - start) as nat, MAX_DIGITS as nat);
    }
    Some(acc)
}

/// Reads an integer line: an optional sign, then digits, within `i64`.
fn parse_int_line(buf: &[u8], start: usize, end: usize) -> (r: Option<i64>)
    requires
        start <= end <= buf.len(),
    ensures
        match int_of(buf@.subrange(start as int, end as int)) {
            Some(n) => r == Some(n as i64) && i64::MIN <= n <= i64::MAX,
            None => r is None,
        },
{
    proof {
        lemma_pow10_19();
    }
    let ghost line = buf@.subrange(start as int, end as int);
    if end > start {
        assert(line[0] == buf@[start as int]);
    }
    if end > start && (buf[start] == 45u8 || buf[start] == 43u8) {
        let neg = buf[start] == 45u8;
        assert(buf@.subrange(start as int, end as int).drop_first() =~= buf@.subrange(start + 1, end as int));
        match parse_count(buf, start + 1, end) {
            Some(v) => {
                if neg {
                    if v <= 9223372036854775808u64 {
                        let m: i128 = -(v as i128);
                        Some(m as i64)
                    } else {
                        None
                    }
                } else if v <= 9223372036854775807u64 {
                    Some(v as i64)
                } else {
                    None
                }
            },
            None => None,
        }
    } else {
        match parse_count(buf, start, end) {
            Some(v) => if v <= 9223372036854775807u64 {
                Some(v as i64)
            } else {
                None
            },
            None => None,
        }
    }
}

/// Reads one value at `pos`.
pub fn parse_value_at(buf: &[u8], pos: usize) -> (r: Result<(DataType, usize), ParseError>)
    ensures
        parsed_matches(buf@, pos as int, r),
    decreases buf.len() - pos, 0int,
{
    if pos >= buf.len() {
        return Err(ParseError::Incomplete);
    }
    let tag = buf[pos];
    if !(tag == 43u8 || tag == 45u8 || tag == 58u8 || tag == 36u8 || tag == 42u8) {
        return Err(ParseError::Malformed);
    }
    let j = match scan_line_exec(buf, pos + 1) {
        Ok(j) => j,
        Err(e) => {
            return Err(e);
        },
    };
    proof {
        lemma_scan_bounds(buf@, pos + 1);
    }
    let next = j + 2;
    let ghost line = buf@.subrange(pos + 1, j as int);
    proof {
        lemma_pow10_19();
    }
    if tag == 43u8 {
        let s = copy_range(buf, pos + 1, j);
        Ok((DataType::SimpleString(s, pos, next), next))
    } else if tag == 45u8 {
        let s = copy_range(buf, pos + 1, j);
        Ok((DataType::SimpleError(s, pos, next), next))
    } else if tag == 58u8 {
        match parse_int_line(buf, pos + 1, j) {
            Some(n) => Ok((DataType::Integers(n, pos, next), next)),
            None => Err(ParseError::Malformed),
        }
    } else if tag == 36u8 {
        if j - (pos + 1) == 2 && buf[pos + 1] == 45u8 && buf[pos + 2] == 49u8 {
            assert(line =~= nil_line());
            return Ok((DataType::Nil(pos, next), next));
        }
        assert(line != nil_line()) by {
            if line == nil_line() {
                assert(line[0] == 45u8 && line[1] == 49u8);
            }
        }
        match parse_count(buf, pos + 1, j) {
            Some(n) => {
                let room = buf.len() - next;
                if n > room as u64 || (room as u64) - n < 2 {
                    return Err(ParseError::Incomplete);
                }
                let n = n as usize;
                if buf[next + n] == CR && buf[next + n + 1] == LF {
                    let s = copy_range(buf, next, next + n);
                    Ok((DataType::BulkString(s, pos, next + n + 2), next + n + 2))
                } else {
                    Err(ParseError::Malformed)
                }
            },
            None => Err(ParseError::Malformed),
        }
    } else {
        if j - (pos + 1) == 2 && buf[pos + 1] == 45u8 && buf[pos + 2] == 49u8 {
            assert(line =~= nil_line());
            return Ok((DataType::NilArray(pos, next), next));
        }
        assert(line != nil_line()) by {
            if line == nil_line() {
                assert(line[0] == 45u8 && line[1] == 49u8);
            }
        }
        match parse_count(buf, pos + 1, j) {
            Some(n) => {
                match parse_items_at(buf, next, n) {
                    Ok((items, e)) => Ok((DataType::Array(items, pos, e), e)),
                    Err(x) => Err(x),
                }
            },
            None => Err(ParseError::Malformed),
        }
    }
}

/// Reads `n` values one after another from `pos`.
pub fn parse_items_at(buf: &[u8], pos: usize, n: u64) -> (r: Result<(Vec<DataType>, usize), ParseError>)
    ensures
        items_matches(buf@, pos as int, n as int, r),
    decreases buf.len() - pos, 1int,
{
    let mut items: Vec<DataType> = Vec::new();
    if n == 0 {
        assert(resp_items(items@) =~= Seq::<Resp>::empty());
        return Ok((items, pos));
    }
    if pos > buf.len() {
        return Err(ParseError::Incomplete);
    }
    let mut cur = pos;
    let mut k: u64 = 0;
    proof {
        assert(resp_items(items@) =~= Seq::<Resp>::empty());
        match parse_items(buf@, pos as int, n as int) {
            ItemsParsed::Done(s, e) => {
                assert(Seq::<Resp>::empty() + s =~= s);
            },
            _ => {},
        }
    }
    while k < n
        invariant
            pos <= cur <= buf.len(),
            k <= n,
            parse_items(buf@, pos as int, n as int)
                == prepend_items(resp_items(items@), parse_items(buf@, cur as int, n - k)),
        decreases n - k,
    {
        match parse_value_at(buf, cur) {
            Ok((v, e)) => {
                if !(cur < e && e <= buf.len()) {
                    return Err(ParseError::Malformed);
                }
                let ghost pre = resp_items(items@);
                let ghost vr = v.resp();
                let ghost before = items@;
                items.push(v);
                proof {
                    assert(items@.drop_last() =~= before);
                    assert(resp_items(items@) == pre.push(vr));
                    match parse_items(buf@, e as int, n - k - 1) {
                        ItemsParsed::Done(s, e2) => {
                            assert(pre + (seq![vr] + s) =~= pre.push(vr) + s);
                        },
                        _ => {},
                    }
                }
                cur = e;
                k = k + 1;
            },
            Err(x) => {
                return Err(x);
            },
        }
    }
    proof {
        let s = resp_items(items@);
        assert(s + Seq::<Resp>::empty() =~= s);
    }
    Ok((items, cur))
}

/// The complete values at the front of a buffer.
pub struct ParsedFrames {
    pub values: Vec<DataType>,
    /// The bytes that those values took.
    pub consumed: usize,
    /// An incomplete value follows them: read more bytes.
    pub incomplete: bool,
}

pub open spec fn prepend_frames(pre: Seq<Resp>, r: crate::resp::Frames) -> crate::resp::Frames {
    match r {
        crate::resp::Frames::Read(s, c, inc) => crate::resp::Frames::Read(pre + s, c, inc),
        crate::resp::Frames::Bad => crate::resp::Frames::Bad,
    }
}

/// The values lie one after the other from the start of `buf`, each read
/// at its span.
pub open spec fn spans_ok(buf: Seq<u8>, vs: Seq<DataType>) -> bool {
    &&& forall|i: int| 0 <= i < vs.len() ==> parse_value(buf, (#[trigger] vs[i]).span().0)
        == Parsed::Done(vs[i].resp(), vs[i].span().1)
    &&& vs.len() > 0 ==> vs[0].span().0 == 0
    &&& forall|i: int| 0 <= i < vs.len() - 1 ==> (#[trigger] vs[i]).span().1 == vs[i + 1].span().0
}

/// Where the values end: the end of the last span.
pub open spec fn spans_end(vs: Seq<DataType>) -> int {
    if vs.len() > 0 { vs.last().span().1 } else { 0 }
}

/// Reads every complete value at the front of `buf`; malformed bytes anywhere
/// among them make the whole buffer malformed.
pub fn parse_buffer(buf: &[u8]) -> (r: Result<ParsedFrames, ParseError>)
    ensures
        match parse_frames(buf@, 0) {
            crate::resp::Frames::Read(s, c, inc) => r is Ok && resp_items(r->Ok_0.values@) == s
                && r->Ok_0.consumed == c && r->Ok_0.incomplete == inc
                && spans_ok(buf@, r->Ok_0.values@) && spans_end(r->Ok_0.values@) == c,
            crate::resp::Frames::Bad => r == Err::<ParsedFrames, ParseError>(ParseError::Malformed),
        },
{
    let mut values: Vec<DataType> = Vec::new();
    let mut cur: usize = 0;
    proof {
        assert(resp_items(values@) =~= Seq::<Resp>::empty());
        match parse_frames(buf@, 0) {
            crate::resp::Frames::Read(s, c, inc) => {
                assert(Seq::<Resp>::empty() + s =~= s);
            },
            _ => {},
        }
    }
    while cur < buf.len()
        invariant
            cur <= buf.len(),
            parse_frames(buf@, 0) == prepend_frames(resp_items(values@), parse_frames(buf@, cur as int)),
            spans_ok(buf@, values@),
            spans_end(values@) == cur,
        decreases buf.len() - cur,
    {
        match parse_value_at(buf, cur) {
            Ok((v, e)) => {
                if !(cur < e && e <= buf.len()) {
                    return Err(ParseError::Malformed);
                }
                let ghost pre = resp_items(values@);
                let ghost vr = v.resp();
                let ghost before = values@;
                values.push(v);
                proof {
                    assert(values@.drop_last() =~= before);
                    assert(values@[values@.len() - 1].span() == (cur as int, e as int));
                    assert forall|i: int| 0 <= i < values@.len() - 1 implies (#[trigger] values@[i]).span().1 == values@[i + 1].span().0 by {
                        if i < values@.len() - 2 {
                            assert(values@[i] == before[i] && values@[i + 1] == before[i + 1]);
                        } else {
                            assert(values@[i] == before[i]);
                        }
                    }
                    assert forall|i: int| 0 <= i < values@.len() implies parse_value(buf@, (#[trigger] values@[i]).span().0)
                        == Parsed::Done(values@[i].resp(), values@[i].span().1) by {
                        if i < before.len() {
                            assert(values@[i] == before[i]);
                        }
                    }
                    match parse_frames(buf@, e as int) {
                        crate::resp::Frames::Read(s, c, inc) => {
                            assert(pre + (seq![vr] + s) =~= pre.push(vr) + s);
                        },
                        _ => {},
                    }
                }
                cur = e;
            },
            Err(ParseError::Incomplete) => {
                proof {
                    let pre = resp_items(values@);
                    assert(pre + Seq::<Resp>::empty() =~= pre);
                }
                return Ok(ParsedFrames { values, consumed: cur, incomplete: true });
            },
            Err(ParseError::Malformed) => {
                return Err(ParseError::Malformed);
            },
        }
    }
    proof {
        let pre = resp_items(values@);
        assert(pre + Seq::<Resp>::empty() =~= pre);
    }
    Ok(ParsedFrames { values, consumed: cur, incomplete: false })
}

#[verifier::external_type_specification]
#[verifier::external_body]
pub struct ExBytesMut(bytes::BytesMut);

/// The bytes that a `BytesMut` buffer holds.
pub uninterp spec fn bytes_mut_content(b: bytes::BytesMut) -> Seq<u8>;

/// Relies on `<BytesMut as Deref>::deref`: the slice of the bytes the buffer holds.
#[verifier::external_body]
fn bytes_mut_slice(b: &bytes::BytesMut) -> (r: &[u8])
    ensures
        r@ == bytes_mut_content(*b),
{
    &b[..]
}

pub open spec fn invalid_message() -> Seq<u8> {
    seq![105u8, 110u8, 118u8, 97u8, 108u8, 105u8, 100u8, 32u8, 99u8, 111u8, 109u8, 109u8, 97u8, 110u8, 100u8]
}

/// `invalid command`
pub fn invalid_message_bytes() -> (r: Vec<u8>)
    ensures
        r@ == invalid_message(),
{
    let r: Vec<u8> = vec![105u8, 110u8, 118u8, 97u8, 108u8, 105u8, 100u8, 32u8, 99u8, 111u8, 109u8, 109u8, 97u8, 110u8, 100u8];
    assert(r@ =~= invalid_message());
    r
}

impl DataType {
    /// The complete values in `buf`; a single `Invalid` marker where the
    /// bytes are malformed.
    pub fn new(buf: &bytes::BytesMut) -> (r: Vec<DataType>)
        ensures
            match parse_frames(bytes_mut_content(*buf), 0) {
                crate::resp::Frames::Read(s, _, _) => resp_items(r@) == s && spans_ok(bytes_mut_content(*buf), r@),
                crate::resp::Frames::Bad => r@.len() == 1 && r@[0] is Invalid,
            },
    {
        let bytes = bytes_mut_slice(buf);
        match parse_buffer(bytes) {
            Ok(frames) => frames.values,
            Err(_) => vec![DataType::Invalid(invalid_message_bytes())],
        }
    }

    /// The wire form of `ss` as a value of this one's kind: a simple string,
    /// an error, a bulk string; an integer keeps its own value. Other kinds
    /// give an error line that names `ss`.
    pub fn to_wire(&self, ss: &[u8]) -> (r: Vec<u8>)
        ensures
            r@ == match self {
                DataType::SimpleString(..) => encode(Resp::Simple(ss@)),
                DataType::SimpleError(..) => encode(Resp::Error(ss@)),
                DataType::Integers(n, _, _) => encode(Resp::Integer(*n as int)),
                DataType::BulkString(..) => encode(Resp::Bulk(ss@)),
                _ => encode(Resp::Error(unsupported_prefix() + ss@)),
            },
    {
        let mut out: Vec<u8> = Vec::new();
        match self {
            DataType::SimpleString(..) => push_line(&mut out, 43u8, ss),
            DataType::SimpleError(..) => push_line(&mut out, 45u8, ss),
            DataType::Integers(n, _, _) => push_integer(&mut out, *n),
            DataType::BulkString(..) => push_bulk(&mut out, ss),
            _ => {
                let mut msg = unsupported_prefix_bytes();
                push_all(&mut msg, ss);
                push_line(&mut out, 45u8, msg.as_slice());
            },
        }
        out
    }

    /// The wire form of this value.
    pub fn encode(&self) -> (r: Vec<u8>)
        ensures
            r@ == encode(self.resp()),
    {
        let mut out: Vec<u8> = Vec::new();
        write_value(self, &mut out);
        assert(out@ =~= Seq::<u8>::empty() + encode(self.resp()));
        out
    }
}

/// `Unsupported value or command: `
pub open spec fn unsupported_prefix() -> Seq<u8> {
    seq![85u8, 110u8, 115u8, 117u8, 112u8, 112u8, 111u8, 114u8, 116u8, 101u8, 100u8, 32u8, 118u8,
        97u8, 108u8, 117u8, 101u8, 32u8, 111u8, 114u8, 32u8, 99u8, 111u8, 109u8, 109u8, 97u8, 110u8,
        100u8, 58u8, 32u8]
}

pub fn unsupported_prefix_bytes() -> (r: Vec<u8>)
    ensures
        r@ == unsupported_prefix(),
{
    let r: Vec<u8> = vec![85u8, 110u8, 115u8, 117u8, 112u8, 112u8, 111u8, 114u8, 116u8, 101u8, 100u8, 32u8, 118u8,
        97u8, 108u8, 117u8, 101u8, 32u8, 111u8, 114u8, 32u8, 99u8, 111u8, 109u8, 109u8, 97u8, 110u8,
        100u8, 58u8, 32u8];
    assert(r@ =~= unsupported_prefix());
    r
}

/// A snapshot at `pos`: `$`, a count `n`, CRLF, then `n` bytes with no
/// CRLF after them.
pub open spec fn parse_rdb(buf: Seq<u8>, pos: int) -> Parsed {
    if pos < 0 || pos >= buf.len() {
        Parsed::Incomplete
    } else if buf[pos] != 36u8 {
        Parsed::Malformed
    } else {
        match scan_line(buf, pos + 1) {
            LineScan::Incomplete => Parsed::Incomplete,
            LineScan::Malformed => Parsed::Malformed,
            LineScan::Found(j) => match count_of(buf.subrange(pos + 1, j)) {
                Some(n) => if j + 2 + n > buf.len() {
                    Parsed::Incomplete
                } else {
                    Parsed::Done(Resp::Bulk(buf.subrange(j + 2, j + 2 + n)), j + 2 + n)
                },
                None => Parsed::Malformed,
            },
        }
    }
}

/// A snapshot read at `pos` ends after `pos` and within the buffer.
pub proof fn lemma_rdb_bounds(buf: Seq<u8>, pos: int)
    ensures
        parse_rdb(buf, pos) matches Parsed::Done(_, e) ==> pos < e <= buf.len(),
{
    lemma_scan_bounds(buf, pos + 1);
    if let LineScan::Found(j) = scan_line(buf, pos + 1) {
        let line = buf.subrange(pos + 1, j);
        if count_of(line) is Some {
            lemma_digits_nonneg(line);
        }
    }
}

/// Reads a snapshot at `pos`.
pub fn parse_rdb_at(buf: &[u8], pos: usize) -> (r: Result<(Vec<u8>, usize), ParseError>)
    ensures
        match parse_rdb(buf@, pos as int) {
            Parsed::Done(Resp::Bulk(p), e) => r is Ok && r->Ok_0.0@ == p && r->Ok_0.1 == e,
            Parsed::Incomplete => r == Err::<(Vec<u8>, usize), ParseError>(ParseError::Incomplete),
            _ => r == Err::<(Vec<u8>, usize), ParseError>(ParseError::Malformed),
        },
{
    if pos >= buf.len() {
        return Err(ParseError::Incomplete);
    }
    if buf[pos] != 36u8 {
        return Err(ParseError::Malformed);
    }
    let j = match scan_line_exec(buf, pos + 1) {
        Ok(j) => j,
        Err(e) => {
            return Err(e);
        },
    };
    proof {
        lemma_scan_bounds(buf@, pos + 1);
        lemma_pow10_19();
    }
    match parse_count(buf, pos + 1, j) {
        Some(n) => {
            let room = buf.len() - (j + 2);
            if n > room as u64 {
                return Err(ParseError::Incomplete);
            }
            let n = n as usize;
            let p = copy_range(buf, j + 2, j + 2 + n);
            Ok((p, j + 2 + n))
        },
        None => Err(ParseError::Malformed),
    }
}

/// The bytes a `BytesMut` holds, copied.
pub fn bytes_mut_copy(b: &bytes::BytesMut) -> (r: Vec<u8>)
    ensures
        r@ == bytes_mut_content(*b),
{
    let s = bytes_mut_slice(b);
    let r = copy_range(s, 0, s.len());
    assert(s@.subrange(0, s@.len() as int) =~= s@);
    r
}

} // verus!
