//! RESP v2: the model of a value, its wire form, and a parser and an encoder
//! proved against that model.
use vstd::prelude::*;

verus! {

/// A RESP value as the protocol defines it.
pub enum Resp {
    Simple(Seq<u8>),
    Error(Seq<u8>),
    Integer(int),
    Bulk(Seq<u8>),
    Nil,
    Array(Seq<Resp>),
    NilArray,
}

pub const CR: u8 = 13;
pub const LF: u8 = 10;
/// Decimal numbers on the wire are limited to this many digits.
pub const MAX_DIGITS: usize = 19;

pub open spec fn crlf() -> Seq<u8> {
    seq![CR, LF]
}

pub open spec fn is_digit(b: u8) -> bool {
    48 <= b <= 57
}

pub open spec fn pow10(k: nat) -> nat
    decreases k,
{
    if k == 0 { 1 } else { 10 * pow10((k - 1) as nat) }
}

/// The value of a string of decimal digits, most significant first.
pub open spec fn digits_value(s: Seq<u8>) -> int
    decreases s.len(),
{
    if s.len() == 0 {
        0
    } else {
        digits_value(s.drop_last()) * 10 + (s.last() - 48)
    }
}

/// The decimal digits of `n`, without leading zeros.
pub open spec fn decimal(n: nat) -> Seq<u8>
    decreases n,
{
    if n < 10 {
        seq![(n + 48) as u8]
    } else {
        decimal(n / 10).push(((n % 10) + 48) as u8)
    }
}

pub open spec fn int_text(n: int) -> Seq<u8> {
    if n < 0 {
        seq![45u8] + decimal((-n) as nat)
    } else {
        decimal(n as nat)
    }
}

pub open spec fn no_line_break(s: Seq<u8>) -> bool {
    forall|i: int| 0 <= i < s.len() ==> s[i] != CR && s[i] != LF
}

/// A count or length: one to `MAX_DIGITS` decimal digits.
pub open spec fn count_of(line: Seq<u8>) -> Option<int> {
    if 1 <= line.len() <= MAX_DIGITS && (forall|i: int| 0 <= i < line.len() ==> is_digit(line[i])) {
        Some(digits_value(line))
    } else {
        None
    }
}

/// An integer line: an optional sign and digits, within the range of `i64`.
pub open spec fn int_of(line: Seq<u8>) -> Option<int> {
    if line.len() >= 1 && (line[0] == 45u8 || line[0] == 43u8) {
        match count_of(line.drop_first()) {
            Some(v) => {
                let n = if line[0] == 45u8 { -v } else { v };
                if i64::MIN <= n <= i64::MAX { Some(n) } else { None }
            },
            None => None,
        }
    } else {
        match count_of(line) {
            Some(v) => if v <= i64::MAX { Some(v) } else { None },
            None => None,
        }
    }
}

pub open spec fn encode(v: Resp) -> Seq<u8>
    decreases v,
{
    match v {
        Resp::Simple(s) => seq![43u8] + s + crlf(),
        Resp::Error(s) => seq![45u8] + s + crlf(),
        Resp::Integer(n) => seq![58u8] + int_text(n) + crlf(),
        Resp::Bulk(s) => seq![36u8] + decimal(s.len()) + crlf() + s + crlf(),
        Resp::Nil => seq![36u8, 45u8, 49u8, CR, LF],
        Resp::Array(items) => seq![42u8] + decimal(items.len()) + crlf() + encode_items(items),
        Resp::NilArray => seq![42u8, 45u8, 49u8, CR, LF],
    }
}

/// The wire forms of `items`, one after the other.
pub open spec fn encode_items(items: Seq<Resp>) -> Seq<u8>
    decreases items,
{
    if items.len() == 0 {
        Seq::empty()
    } else {
        encode_items(items.drop_last()) + encode(items.last())
    }
}

/// The values that have a wire form which the parser reads back.
pub open spec fn valid(v: Resp) -> bool
    decreases v,
{
    match v {
        Resp::Simple(s) => no_line_break(s),
        Resp::Error(s) => no_line_break(s),
        Resp::Integer(n) => i64::MIN <= n <= i64::MAX,
        Resp::Bulk(s) => s.len() < pow10(MAX_DIGITS as nat),
        Resp::Nil => true,
        Resp::Array(items) => items.len() < pow10(MAX_DIGITS as nat) && valid_items(items),
        Resp::NilArray => true,
    }
}

pub open spec fn valid_items(items: Seq<Resp>) -> bool
    decreases items,
{
    if items.len() == 0 {
        true
    } else {
        valid_items(items.drop_last()) && valid(items.last())
    }
}

/// Where the line that starts at `i` ends: at a CR followed by LF.
pub enum LineScan {
    Found(int),
    Incomplete,
    Malformed,
}

pub open spec fn scan_line(buf: Seq<u8>, i: int) -> LineScan
    decreases buf.len() - i,
{
    if i < 0 || i >= buf.len() {
        LineScan::Incomplete
    } else if buf[i] == LF {
        LineScan::Malformed
    } else if buf[i] == CR {
        if i + 1 >= buf.len() {
            LineScan::Incomplete
        } else if buf[i + 1] == LF {
            LineScan::Found(i)
        } else {
            LineScan::Malformed
        }
    } else {
        scan_line(buf, i + 1)
    }
}

/// What reading one value at a position gives: the value and the position
/// just past it, or that more bytes are needed, or that the bytes are not RESP.
pub enum Parsed {
    Done(Resp, int),
    Incomplete,
    Malformed,
}

pub enum ItemsParsed {
    Done(Seq<Resp>, int),
    Incomplete,
    Malformed,
}

pub open spec fn is_tag(b: u8) -> bool {
    b == 43u8 || b == 45u8 || b == 58u8 || b == 36u8 || b == 42u8
}

pub open spec fn nil_line() -> Seq<u8> {
    seq![45u8, 49u8]
}

pub open spec fn parse_value(buf: Seq<u8>, pos: int) -> Parsed
    decreases buf.len() - pos, 0int,
{
    if pos < 0 || pos >= buf.len() {
        Parsed::Incomplete
    } else if !is_tag(buf[pos]) {
        Parsed::Malformed
    } else {
        match scan_line(buf, pos + 1) {
            LineScan::Incomplete => Parsed::Incomplete,
            LineScan::Malformed => Parsed::Malformed,
            LineScan::Found(j) => {
                let line = buf.subrange(pos + 1, j);
                let next = j + 2;
                let tag = buf[pos];
                if tag == 43u8 {
                    Parsed::Done(Resp::Simple(line), next)
                } else if tag == 45u8 {
                    Parsed::Done(Resp::Error(line), next)
                } else if tag == 58u8 {
                    match int_of(line) {
                        Some(n) => Parsed::Done(Resp::Integer(n), next),
                        None => Parsed::Malformed,
                    }
                } else if tag == 36u8 {
                    if line == nil_line() {
                        Parsed::Done(Resp::Nil, next)
                    } else {
                        match count_of(line) {
                            Some(n) => if next + n + 2 > buf.len() {
                                Parsed::Incomplete
                            } else if buf[next + n] == CR && buf[next + n + 1] == LF {
                                Parsed::Done(Resp::Bulk(buf.subrange(next, next + n)), next + n + 2)
                            } else {
                                Parsed::Malformed
                            },
                            None => Parsed::Malformed,
                        }
                    }
                } else if line == nil_line() {
                    Parsed::Done(Resp::NilArray, next)
                } else {
                    match count_of(line) {
                        Some(n) => if pos < next <= buf.len() {
                            match parse_items(buf, next, n) {
                                ItemsParsed::Done(items, e) => Parsed::Done(Resp::Array(items), e),
                                ItemsParsed::Incomplete => Parsed::Incomplete,
                                ItemsParsed::Malformed => Parsed::Malformed,
                            }
                        } else {
                            Parsed::Malformed
                        },
                        None => Parsed::Malformed,
                    }
                }
            },
        }
    }
}

/// Reads `n` values one after another from `pos`.
pub open spec fn parse_items(buf: Seq<u8>, pos: int, n: int) -> ItemsParsed
    decreases buf.len() - pos, 1int,
{
    if n <= 0 {
        ItemsParsed::Done(Seq::empty(), pos)
    } else if pos < 0 || pos > buf.len() {
        ItemsParsed::Incomplete
    } else {
        match parse_value(buf, pos) {
            Parsed::Done(v, e) => if pos < e <= buf.len() {
                match parse_items(buf, e, n - 1) {
                    ItemsParsed::Done(rest, e2) => ItemsParsed::Done(seq![v] + rest, e2),
                    other => other,
                }
            } else {
                ItemsParsed::Malformed
            },
            Parsed::Incomplete => ItemsParsed::Incomplete,
            Parsed::Malformed => ItemsParsed::Malformed,
        }
    }
}

/// What a buffer holds: the complete values from `pos` on, the position after
/// the last of them, and whether an incomplete value follows; or that it
/// holds malformed bytes.
pub enum Frames {
    Read(Seq<Resp>, int, bool),
    Bad,
}

pub open spec fn parse_frames(buf: Seq<u8>, pos: int) -> Frames
    decreases buf.len() - pos,
{
    if pos < 0 || pos >= buf.len() {
        Frames::Read(Seq::empty(), pos, false)
    } else {
        match parse_value(buf, pos) {
            Parsed::Done(v, e) => if pos < e <= buf.len() {
                match parse_frames(buf, e) {
                    Frames::Read(rest, c, inc) => Frames::Read(seq![v] + rest, c, inc),
                    Frames::Bad => Frames::Bad,
                }
            } else {
                Frames::Bad
            },
            Parsed::Incomplete => Frames::Read(Seq::empty(), pos, true),
            Parsed::Malformed => Frames::Bad,
        }
    }
}

} // verus!
