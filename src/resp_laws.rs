//! Why the parser reads back what the encoder writes.
use vstd::prelude::*;
use crate::resp::{
    count_of, crlf, decimal, digits_value, encode, encode_items, int_of, int_text, is_digit, nil_line,
    no_line_break, parse_frames, parse_items, parse_value, pow10, scan_line, valid, valid_items,
    Frames, ItemsParsed, LineScan, Parsed, Resp, CR, LF, MAX_DIGITS,
};

verus! {

/// `e` stands in `buf` from position `p` on.
pub open spec fn holds_at(buf: Seq<u8>, p: int, e: Seq<u8>) -> bool {
    &&& 0 <= p
    &&& p + e.len() <= buf.len()
    &&& forall|k: int| 0 <= k < e.len() ==> buf[p + k] == e[k]
}

proof fn lemma_holds_split(buf: Seq<u8>, p: int, a: Seq<u8>, b: Seq<u8>)
    requires
        holds_at(buf, p, a + b),
    ensures
        holds_at(buf, p, a),
        holds_at(buf, p + a.len(), b),
{
    assert forall|k: int| 0 <= k < a.len() implies buf[p + k] == a[k] by {
        assert((a + b)[k] == a[k]);
    }
    assert forall|k: int| 0 <= k < b.len() implies buf[p + a.len() + k] == b[k] by {
        assert((a + b)[a.len() + k] == b[k]);
    }
}

pub proof fn lemma_decimal(n: nat)
    ensures
        decimal(n).len() >= 1,
        forall|i: int| 0 <= i < decimal(n).len() ==> is_digit(#[trigger] decimal(n)[i]),
        digits_value(decimal(n)) == n,
    decreases n,
{
    if n < 10 {
        let d = decimal(n);
        assert(d.drop_last() =~= Seq::<u8>::empty());
        assert(digits_value(Seq::<u8>::empty()) == 0);
    } else {
        lemma_decimal(n / 10);
        let d = decimal(n);
        assert(d.drop_last() =~= decimal(n / 10));
    }
}

pub proof fn lemma_decimal_len(n: nat, k: nat)
    requires
        k >= 1,
        n < pow10(k),
    ensures
        decimal(n).len() <= k,
    decreases n,
{
    if n >= 10 {
        assert(pow10(k) == 10 * pow10((k - 1) as nat));
        if k == 1 {
            assert(pow10(0) == 1);
        } else {
            lemma_decimal_len(n / 10, (k - 1) as nat);
        }
    }
}

pub proof fn lemma_pow10_19()
    ensures
        pow10(MAX_DIGITS as nat) == 10000000000000000000nat,
{
    reveal_with_fuel(pow10, 20);
}

proof fn lemma_count_of_decimal(n: nat)
    requires
        n < pow10(MAX_DIGITS as nat),
    ensures
        count_of(decimal(n)) == Some(n as int),
{
    lemma_decimal(n);
    lemma_decimal_len(n, MAX_DIGITS as nat);
}

proof fn lemma_int_of_text(n: int)
    requires
        i64::MIN <= n <= i64::MAX,
    ensures
        int_of(int_text(n)) == Some(n),
{
    lemma_pow10_19();
    if n < 0 {
        let m = (-n) as nat;
        lemma_count_of_decimal(m);
        assert((seq![45u8] + decimal(m)).drop_first() =~= decimal(m));
    } else {
        lemma_count_of_decimal(n as nat);
        lemma_decimal(n as nat);
        assert(is_digit(decimal(n as nat)[0]));
    }
}

proof fn lemma_scan(buf: Seq<u8>, i: int, j: int)
    requires
        0 <= i <= j,
        j + 1 < buf.len(),
        forall|k: int| i <= k < j ==> buf[k] != CR && buf[k] != LF,
        buf[j] == CR,
        buf[j + 1] == LF,
    ensures
        scan_line(buf, i) == LineScan::Found(j),
    decreases j - i,
{
    if i < j {
        lemma_scan(buf, i + 1, j);
    }
}

/// A tag byte, a line without breaks, then CR LF: the scan finds the line.
proof fn lemma_line(buf: Seq<u8>, p: int, tag: u8, body: Seq<u8>)
    requires
        holds_at(buf, p, seq![tag] + body + crlf()),
        no_line_break(body),
    ensures
        buf[p] == tag,
        scan_line(buf, p + 1) == LineScan::Found(p + 1 + body.len()),
        buf.subrange(p + 1, p + 1 + body.len()) == body,
{
    let e = seq![tag] + body + crlf();
    assert(e[0] == tag);
    assert forall|k: int| 0 <= k < body.len() implies buf[p + 1 + k] == body[k] by {
        assert(e[1 + k] == body[k]);
    }
    assert(e[1 + body.len() as int] == CR);
    assert(e[2 + body.len() as int] == LF);
    assert forall|k: int| p + 1 <= k < p + 1 + body.len() implies buf[k] != CR && buf[k] != LF by {
        assert(buf[p + 1 + (k - p - 1)] == body[k - p - 1]);
    }
    lemma_scan(buf, p + 1, p + 1 + body.len());
    assert(buf.subrange(p + 1, p + 1 + body.len()) =~= body);
}

proof fn lemma_digits_no_break(s: Seq<u8>)
    requires
        forall|i: int| 0 <= i < s.len() ==> is_digit(#[trigger] s[i]),
    ensures
        no_line_break(s),
{
}

proof fn lemma_encode_nonempty(v: Resp)
    ensures
        encode(v).len() >= 1,
{
}

proof fn lemma_encode_items_front(items: Seq<Resp>)
    requires
        items.len() > 0,
    ensures
        encode_items(items) == encode(items[0]) + encode_items(items.drop_first()),
    decreases items.len(),
{
    if items.len() == 1 {
        assert(items.drop_last() =~= Seq::<Resp>::empty());
        assert(items.drop_first() =~= Seq::<Resp>::empty());
        assert(encode_items(Seq::<Resp>::empty()) == Seq::<u8>::empty());
        assert(encode_items(items) =~= encode(items[0]));
    } else {
        lemma_encode_items_front(items.drop_last());
        assert(items.drop_last().drop_first() =~= items.drop_first().drop_last());
        assert(items.drop_last()[0] == items[0]);
        assert(items.drop_first().last() == items.last());
        assert(encode_items(items) =~= encode(items[0]) + encode_items(items.drop_first()));
    }
}

proof fn lemma_valid_items_front(items: Seq<Resp>)
    requires
        items.len() > 0,
        valid_items(items),
    ensures
        valid(items[0]),
        valid_items(items.drop_first()),
    decreases items.len(),
{
    if items.len() == 1 {
        assert(items.drop_first() =~= Seq::<Resp>::empty());
    } else {
        lemma_valid_items_front(items.drop_last());
        assert(items.drop_last().drop_first() =~= items.drop_first().drop_last());
        assert(items.drop_last()[0] == items[0]);
        assert(items.drop_first().last() == items.last());
    }
}

proof fn lemma_parse_at(buf: Seq<u8>, p: int, v: Resp)
    requires
        valid(v),
        holds_at(buf, p, encode(v)),
    ensures
        parse_value(buf, p) == Parsed::Done(v, p + encode(v).len()),
    decreases v, 1int,
{
    lemma_pow10_19();
    match v {
        Resp::Simple(s) => {
            lemma_line(buf, p, 43u8, s);
        },
        Resp::Error(s) => {
            lemma_line(buf, p, 45u8, s);
        },
        Resp::Integer(n) => {
            let t = int_text(n);
            lemma_int_of_text(n);
            if n < 0 {
                lemma_decimal((-n) as nat);
            } else {
                lemma_decimal(n as nat);
            }
            assert(no_line_break(t));
            lemma_line(buf, p, 58u8, t);
        },
        Resp::Bulk(s) => {
            let d = decimal(s.len());
            lemma_decimal(s.len());
            lemma_digits_no_break(d);
            lemma_count_of_decimal(s.len());
            let head = seq![36u8] + d + crlf();
            assert(encode(v) == head + s + crlf());
            lemma_holds_split(buf, p, head + s, crlf());
            lemma_holds_split(buf, p, head, s);
            lemma_line(buf, p, 36u8, d);
            assert(d[0] != nil_line()[0]);
            assert(buf.subrange(p + head.len(), p + head.len() + s.len()) =~= s);
        },
        Resp::Nil => {
            let e = encode(v);
            assert(e[1] == 45u8 && e[2] == 49u8 && e[3] == CR && e[4] == LF);
            lemma_scan(buf, p + 1, p + 3);
            assert(buf.subrange(p + 1, p + 3) =~= nil_line());
        },
        Resp::NilArray => {
            let e = encode(v);
            assert(e[1] == 45u8 && e[2] == 49u8 && e[3] == CR && e[4] == LF);
            lemma_scan(buf, p + 1, p + 3);
            assert(buf.subrange(p + 1, p + 3) =~= nil_line());
        },
        Resp::Array(items) => {
            let d = decimal(items.len());
            lemma_decimal(items.len());
            lemma_digits_no_break(d);
            lemma_count_of_decimal(items.len());
            let head = seq![42u8] + d + crlf();
            assert(encode(v) == head + encode_items(items));
            lemma_holds_split(buf, p, head, encode_items(items));
            lemma_line(buf, p, 42u8, d);
            assert(d[0] != nil_line()[0]);
            lemma_parse_items(buf, p + head.len(), items);
        },
    }
}

proof fn lemma_parse_items(buf: Seq<u8>, p: int, items: Seq<Resp>)
    requires
        valid_items(items),
        holds_at(buf, p, encode_items(items)),
    ensures
        parse_items(buf, p, items.len() as int) == ItemsParsed::Done(items, p + encode_items(items).len()),
    decreases items, 0int,
{
    if items.len() == 0 {
        assert(items =~= Seq::<Resp>::empty());
    } else {
        let first = items[0];
        let rest = items.drop_first();
        lemma_encode_items_front(items);
        lemma_valid_items_front(items);
        lemma_holds_split(buf, p, encode(first), encode_items(rest));
        lemma_encode_nonempty(first);
        lemma_parse_at(buf, p, first);
        lemma_parse_items(buf, p + encode(first).len(), rest);
        assert(seq![first] + rest =~= items);
    }
}

/// Reading the wire form of a value, with any bytes after it, gives back
/// the value and stops just past its wire form.
pub proof fn lemma_round_trip(v: Resp, rest: Seq<u8>)
    requires
        valid(v),
    ensures
        parse_value(encode(v) + rest, 0) == Parsed::Done(v, encode(v).len() as int),
{
    let buf = encode(v) + rest;
    assert forall|k: int| 0 <= k < encode(v).len() implies buf[0 + k] == encode(v)[k] by {}
    lemma_parse_at(buf, 0, v);
}

/// A buffer that holds exactly the wire form of a value is read as that one
/// value, with every byte consumed and nothing left incomplete.
pub proof fn lemma_round_trip_frames(v: Resp)
    requires
        valid(v),
    ensures
        parse_frames(encode(v), 0) == Frames::Read(seq![v], encode(v).len() as int, false),
{
    lemma_round_trip(v, Seq::empty());
    assert(encode(v) + Seq::<u8>::empty() =~= encode(v));
    lemma_encode_nonempty(v);
    assert(parse_frames(encode(v), encode(v).len() as int) == Frames::Read(Seq::empty(), encode(v).len() as int, false));
    assert(seq![v] + Seq::<Resp>::empty() =~= seq![v]);
}

} // verus!
