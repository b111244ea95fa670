//! Builders of replies: simple strings, errors, integers, bulk strings, and
//! the nested arrays that XRANGE and XREAD return.
use vstd::prelude::*;
use crate::codec::{push_array_header, push_bulk, push_decimal, push_integer, push_line};
use crate::resp::{decimal, encode, encode_items, Resp};
use crate::slave::bulk_array;
use crate::streams::{bytes_list, entries_view, StreamEntry};

verus! {

pub fn simple(s: &[u8]) -> (r: Vec<u8>)
    ensures
        r@ == encode(Resp::Simple(s@)),
{
    let mut out: Vec<u8> = Vec::new();
    push_line(&mut out, 43u8, s);
    assert(out@ =~= encode(Resp::Simple(s@)));
    out
}

pub fn error(s: &[u8]) -> (r: Vec<u8>)
    ensures
        r@ == encode(Resp::Error(s@)),
{
    let mut out: Vec<u8> = Vec::new();
    push_line(&mut out, 45u8, s);
    assert(out@ =~= encode(Resp::Error(s@)));
    out
}

pub fn bulk(s: &[u8]) -> (r: Vec<u8>)
    ensures
        r@ == encode(Resp::Bulk(s@)),
{
    let mut out: Vec<u8> = Vec::new();
    push_bulk(&mut out, s);
    assert(out@ =~= encode(Resp::Bulk(s@)));
    out
}

pub fn nil() -> (r: Vec<u8>)
    ensures
        r@ == encode(Resp::Nil),
{
    let r: Vec<u8> = vec![36u8, 45u8, 49u8, 13u8, 10u8];
    assert(r@ =~= encode(Resp::Nil));
    r
}

pub fn nil_array() -> (r: Vec<u8>)
    ensures
        r@ == encode(Resp::NilArray),
{
    let r: Vec<u8> = vec![42u8, 45u8, 49u8, 13u8, 10u8];
    assert(r@ =~= encode(Resp::NilArray));
    r
}

pub fn integer(n: i64) -> (r: Vec<u8>)
    ensures
        r@ == encode(Resp::Integer(n as int)),
{
    let mut out: Vec<u8> = Vec::new();
    push_integer(&mut out, n);
    assert(out@ =~= encode(Resp::Integer(n as int)));
    out
}

pub fn empty_array() -> (r: Vec<u8>)
    ensures
        r@ == encode(Resp::Array(Seq::empty())),
{
    let mut out: Vec<u8> = Vec::new();
    push_array_header(&mut out, 0);
    assert(encode_items(Seq::<Resp>::empty()) == Seq::<u8>::empty());
    assert(out@ =~= encode(Resp::Array(Seq::empty())));
    out
}

/// An integer reply of a count.
pub fn count(n: u64) -> (r: Vec<u8>)
    ensures
        r@ == encode(Resp::Integer(n as int)),
{
    let mut out: Vec<u8> = Vec::new();
    out.push(58u8);
    push_decimal(&mut out, n);
    crate::codec::push_crlf(&mut out);
    assert(out@ =~= encode(Resp::Integer(n as int)));
    out
}

/// `<ms>-<seq>`
pub open spec fn id_text(id: (u64, u64)) -> Seq<u8> {
    decimal(id.0 as nat) + seq![45u8] + decimal(id.1 as nat)
}

pub fn id_bytes(id: (u64, u64)) -> (r: Vec<u8>)
    ensures
        r@ == id_text(id),
{
    let mut out: Vec<u8> = Vec::new();
    push_decimal(&mut out, id.0);
    out.push(45u8);
    push_decimal(&mut out, id.1);
    assert(out@ =~= id_text(id));
    out
}

/// One stream entry in a reply: its id, then its fields.
pub open spec fn entry_resp(e: ((u64, u64), Seq<Seq<u8>>)) -> Resp {
    Resp::Array(seq![Resp::Bulk(id_text(e.0)), bulk_array(e.1)])
}

pub open spec fn entry_resps(es: Seq<((u64, u64), Seq<Seq<u8>>)>) -> Seq<Resp> {
    es.map_values(|e: ((u64, u64), Seq<Seq<u8>>)| entry_resp(e))
}

pub open spec fn entries_resp(es: Seq<((u64, u64), Seq<Seq<u8>>)>) -> Resp {
    Resp::Array(entry_resps(es))
}

/// Appends the wire form of a list of byte strings as an array of bulk strings.
pub fn push_bulk_array(out: &mut Vec<u8>, items: &Vec<Vec<u8>>)
    ensures
        final(out)@ == old(out)@ + encode(bulk_array(bytes_list(items@))),
{
    let b = crate::slave::bulk_command(items);
    crate::codec::push_all(out, b.as_slice());
}

pub proof fn lemma_encode_pair(a: Resp, b: Resp)
    ensures
        encode_items(seq![a, b]) == encode(a) + encode(b),
{
    assert(seq![a, b].drop_last() =~= seq![a]);
    assert(seq![a].drop_last() =~= Seq::<Resp>::empty());
    assert(encode_items(Seq::<Resp>::empty()) == Seq::<u8>::empty());
    assert(encode_items(seq![a]) == encode_items(Seq::<Resp>::empty()) + encode(a));
    assert(encode_items(seq![a]) =~= encode(a));
    assert(encode_items(seq![a, b]) == encode_items(seq![a]) + encode(b));
}

/// Appends the wire form of one stream entry.
pub fn push_entry(out: &mut Vec<u8>, e: &StreamEntry)
    ensures
        final(out)@ == old(out)@ + encode(entry_resp(e.view())),
{
    push_array_header(out, 2);
    let id = id_bytes((e.ms, e.seq));
    push_bulk(out, id.as_slice());
    push_bulk_array(out, &e.fields);
    proof {
        lemma_encode_pair(Resp::Bulk(id_text(e.view().0)), bulk_array(e.view().1));
    }
    assert(out@ =~= old(out)@ + encode(entry_resp(e.view())));
}

/// Appends the wire form of a list of stream entries.
pub fn push_entries(out: &mut Vec<u8>, es: &Vec<StreamEntry>)
    ensures
        final(out)@ == old(out)@ + encode(entries_resp(entries_view(es@))),
{
    push_array_header(out, es.len());
    let ghost head = out@;
    let mut i: usize = 0;
    while i < es.len()
        invariant
            i <= es.len(),
            out@ == head + encode_items(entry_resps(entries_view(es@.subrange(0, i as int)))),
        decreases es.len() - i,
    {
        let ghost before = out@;
        push_entry(out, &es[i]);
        proof {
            let a = entry_resps(entries_view(es@.subrange(0, i as int)));
            let c = entry_resps(entries_view(es@.subrange(0, i + 1)));
            assert(c.drop_last() =~= a);
            assert(entries_view(es@.subrange(0, i + 1))[i as int] == es@[i as int].view());
            assert(c.len() == i + 1);
            assert(encode_items(c) == encode_items(c.drop_last()) + encode(c.last()));
            assert(c.last() == entry_resp(es@[i as int].view()));
            assert(encode_items(c) == encode_items(a) + encode(entry_resp(es@[i as int].view())));
            assert(out@ == before + encode(entry_resp(es@[i as int].view())));
            assert(out@ =~= head + encode_items(c));
        }
        i = i + 1;
    }
    proof {
        assert(es@.subrange(0, i as int) =~= es@);
        assert(entry_resps(entries_view(es@)).len() == es@.len());
    }
    assert(out@ =~= old(out)@ + encode(entries_resp(entries_view(es@))));
}

} // verus!
