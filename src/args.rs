//! Reading command arguments: numbers, stream ids and range bounds, and
//! command names compared without regard to ASCII case.
use vstd::prelude::*;
use crate::resp::{digits_value, is_digit, pow10};
use crate::streams::IdSpec;
use crate::words::{dash_spec, plus_spec, star_spec};

verus! {

/// At most this many digits make a `u64` argument.
pub const U64_DIGITS: usize = 20;

/// A decimal `u64`: one to `U64_DIGITS` digits, at most `u64::MAX`.
pub open spec fn u64_of(t: Seq<u8>) -> Option<u64> {
    if 1 <= t.len() <= U64_DIGITS && (forall|i: int| 0 <= i < t.len() ==> is_digit(t[i]))
        && digits_value(t) <= u64::MAX {
        Some(digits_value(t) as u64)
    } else {
        None
    }
}

proof fn lemma_pow10_20()
    ensures
        pow10(20) == 100000000000000000000nat,
{
    reveal_with_fuel(pow10, 21);
}

proof fn lemma_pow10_step(k: nat)
    ensures
        pow10(k + 1) == 10 * pow10(k),
{
}

proof fn lemma_pow10_le(a: nat, b: nat)
    requires
        a <= b,
    ensures
        pow10(a) <= pow10(b),
    decreases b,
{
    if a < b {
        lemma_pow10_le(a, (b - 1) as nat);
    }
}

pub fn parse_u64(t: &[u8]) -> (r: Option<u64>)
    ensures
        r == u64_of(t@),
{
    if t.len() < 1 || t.len() > U64_DIGITS {
        return None;
    }
    proof {
        lemma_pow10_20();
    }
    let mut acc: u128 = 0;
    let mut i: usize = 0;
    while i < t.len()
        invariant
            i <= t.len() <= U64_DIGITS,
            pow10(20) == 100000000000000000000nat,
            acc == digits_value(t@.subrange(0, i as int)),
            acc < pow10(i as nat),
            forall|k: int| 0 <= k < i ==> is_digit(#[trigger] t@[k]),
        decreases t.len() - i,
    {
        let b = t[i];
        if b < 48 || b > 57 {
            assert(!is_digit(t@[i as int]));
            return None;
        }
        proof {
            lemma_pow10_le(i as nat, 19);
            lemma_pow10_step(19);
            lemma_pow10_step(i as nat);
            assert(t@.subrange(0, i + 1).drop_last() =~= t@.subrange(0, i as int));
        }
        acc = acc * 10 + (b - 48) as u128;
        i = i + 1;
    }
    assert(t@.subrange(0, i as int) =~= t@);
    if acc > 18446744073709551615u128 {
        return None;
    }
    Some(acc as u64)
}

pub open spec fn lower(b: u8) -> u8 {
    if 65 <= b <= 90 { (b + 32) as u8 } else { b }
}

/// The same bytes once ASCII upper case is folded to lower case.
pub open spec fn same_ignoring_case(a: Seq<u8>, b: Seq<u8>) -> bool {
    a.len() == b.len() && forall|i: int| 0 <= i < a.len() ==> lower(#[trigger] a[i]) == lower(b[i])
}

pub fn to_lower(b: u8) -> (r: u8)
    ensures
        r == lower(b),
{
    if 65 <= b && b <= 90 { b + 32 } else { b }
}

pub fn eq_ignore_case(a: &[u8], b: &[u8]) -> (r: bool)
    ensures
        r == same_ignoring_case(a@, b@),
{
    if a.len() != b.len() {
        return false;
    }
    let mut i: usize = 0;
    while i < a.len()
        invariant
            i <= a.len() == b.len(),
            forall|k: int| 0 <= k < i ==> lower(#[trigger] a@[k]) == lower(b@[k]),
        decreases a.len() - i,
    {
        if to_lower(a[i]) != to_lower(b[i]) {
            return false;
        }
        i = i + 1;
    }
    true
}

pub fn eq_bytes(a: &[u8], b: &[u8]) -> (r: bool)
    ensures
        r == (a@ == b@),
{
    if a.len() != b.len() {
        return false;
    }
    let mut i: usize = 0;
    while i < a.len()
        invariant
            i <= a.len() == b.len(),
            forall|k: int| 0 <= k < i ==> a@[k] == b@[k],
        decreases a.len() - i,
    {
        if a[i] != b[i] {
            return false;
        }
        i = i + 1;
    }
    assert(a@ =~= b@);
    true
}

/// The first position at or after `i` that holds `b`.
pub open spec fn first_index(t: Seq<u8>, b: u8, i: int) -> Option<int>
    decreases t.len() - i,
{
    if i < 0 || i >= t.len() {
        None
    } else if t[i] == b {
        Some(i)
    } else {
        first_index(t, b, i + 1)
    }
}

pub fn find_byte(t: &[u8], b: u8) -> (r: Option<usize>)
    ensures
        match first_index(t@, b, 0) {
            Some(i) => r == Some(i as usize) && 0 <= i < t.len(),
            None => r is None,
        },
{
    let mut i: usize = 0;
    while i < t.len()
        invariant
            i <= t.len(),
            first_index(t@, b, 0) == first_index(t@, b, i as int),
        decreases t.len() - i,
    {
        if t[i] == b {
            return Some(i);
        }
        i = i + 1;
    }
    None
}

/// An id written `<ms>-<seq>`, or `<ms>` alone with `dflt` as its sequence number.
pub open spec fn id_of(t: Seq<u8>, dflt: u64) -> Option<(u64, u64)> {
    match first_index(t, 45u8, 0) {
        Some(d) => match (u64_of(t.subrange(0, d)), u64_of(t.subrange(d + 1, t.len() as int))) {
            (Some(ms), Some(seq)) => Some((ms, seq)),
            _ => None,
        },
        None => match u64_of(t) {
            Some(ms) => Some((ms, dflt)),
            None => None,
        },
    }
}

pub fn parse_id(t: &[u8], dflt: u64) -> (r: Option<(u64, u64)>)
    ensures
        r == id_of(t@, dflt),
{
    match find_byte(t, 45u8) {
        Some(d) => {
            let a = parse_u64(slice_range(t, 0, d).as_slice());
            let b = parse_u64(slice_range(t, d + 1, t.len()).as_slice());
            match (a, b) {
                (Some(ms), Some(seq)) => Some((ms, seq)),
                _ => None,
            }
        },
        None => match parse_u64(t) {
            Some(ms) => Some((ms, dflt)),
            None => None,
        },
    }
}

pub fn slice_range(t: &[u8], a: usize, b: usize) -> (r: Vec<u8>)
    requires
        a <= b <= t.len(),
    ensures
        r@ == t@.subrange(a as int, b as int),
{
    crate::codec::copy_range(t, a, b)
}

/// A bound of XRANGE: `-`, `+`, `<ms>-<seq>`, or `<ms>` with `dflt` as its
/// sequence number.
pub open spec fn bound_of(t: Seq<u8>, dflt: u64) -> Option<(u64, u64)> {
    if t == dash_spec() {
        Some((0u64, 0u64))
    } else if t == plus_spec() {
        Some((u64::MAX, u64::MAX))
    } else {
        id_of(t, dflt)
    }
}

pub fn parse_bound(t: &[u8], dflt: u64) -> (r: Option<(u64, u64)>)
    ensures
        r == bound_of(t@, dflt),
{
    if eq_bytes(t, crate::words::dash().as_slice()) {
        Some((0, 0))
    } else if eq_bytes(t, crate::words::plus().as_slice()) {
        Some((u64::MAX, u64::MAX))
    } else {
        parse_id(t, dflt)
    }
}

/// The id argument of XADD: `*`, `<ms>-*`, `<ms>-<seq>` or `<ms>`.
pub open spec fn id_spec_of(t: Seq<u8>) -> Option<IdSpec> {
    if t == star_spec() {
        Some(IdSpec::Auto)
    } else {
        match first_index(t, 45u8, 0) {
            Some(d) => if t.subrange(d + 1, t.len() as int) == star_spec() {
                match u64_of(t.subrange(0, d)) {
                    Some(ms) => Some(IdSpec::Partial(ms)),
                    None => None,
                }
            } else {
                match id_of(t, 0) {
                    Some(id) => Some(IdSpec::Explicit(id.0, id.1)),
                    None => None,
                }
            },
            None => match u64_of(t) {
                Some(ms) => Some(IdSpec::Partial(ms)),
                None => None,
            },
        }
    }
}

pub fn parse_id_spec(t: &[u8]) -> (r: Option<IdSpec>)
    ensures
        r == id_spec_of(t@),
{
    let star = crate::words::star();
    if eq_bytes(t, star.as_slice()) {
        return Some(IdSpec::Auto);
    }
    match find_byte(t, 45u8) {
        Some(d) => {
            let tail = slice_range(t, d + 1, t.len());
            if eq_bytes(tail.as_slice(), star.as_slice()) {
                match parse_u64(slice_range(t, 0, d).as_slice()) {
                    Some(ms) => Some(IdSpec::Partial(ms)),
                    None => None,
                }
            } else {
                match parse_id(t, 0) {
                    Some(id) => Some(IdSpec::Explicit(id.0, id.1)),
                    None => None,
                }
            }
        },
        None => match parse_u64(t) {
            Some(ms) => Some(IdSpec::Partial(ms)),
            None => None,
        },
    }
}

} // verus!
