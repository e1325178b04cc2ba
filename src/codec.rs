//! Canonical binary encoding: fixed-width little-endian integers, the two
//! digests in place, and every sequence prefixed by its length as a `u64`.
use vstd::prelude::*;

use crate::block::{Block, BlockView, Header, HeaderView, Transaction, TxView, txs_view};
use crate::crypto::{Hashable, double_sha256, double_sha256_spec};
use crate::chain::Blockchain;
use crate::error::NetError;
use std::collections::VecDeque;

verus! {

/// The bytes of `s` from position `p` on.
pub open spec fn suffix(s: Seq<u8>, p: int) -> Seq<u8> {
    s.subrange(p, s.len() as int)
}

pub open spec fn u32_le(x: u32) -> Seq<u8> {
    seq![(x & 0xff) as u8, ((x >> 8u32) & 0xff) as u8, ((x >> 16u32) & 0xff) as u8, ((x >> 24u32) & 0xff) as u8]
}

pub open spec fn u32_from_le(b0: u8, b1: u8, b2: u8, b3: u8) -> u32 {
    (b0 as u32) | ((b1 as u32) << 8u32) | ((b2 as u32) << 16u32) | ((b3 as u32) << 24u32)
}

pub open spec fn u64_le(x: u64) -> Seq<u8> {
    seq![
        (x & 0xff) as u8,
        ((x >> 8u64) & 0xff) as u8,
        ((x >> 16u64) & 0xff) as u8,
        ((x >> 24u64) & 0xff) as u8,
        ((x >> 32u64) & 0xff) as u8,
        ((x >> 40u64) & 0xff) as u8,
        ((x >> 48u64) & 0xff) as u8,
        ((x >> 56u64) & 0xff) as u8,
    ]
}

pub open spec fn u64_from_le(s: Seq<u8>) -> u64 {
    (s[0] as u64) | ((s[1] as u64) << 8u64) | ((s[2] as u64) << 16u64) | ((s[3] as u64) << 24u64)
        | ((s[4] as u64) << 32u64) | ((s[5] as u64) << 40u64) | ((s[6] as u64) << 48u64) | ((
    s[7] as u64) << 56u64)
}

pub open spec fn parse_u32(s: Seq<u8>) -> Option<(u32, Seq<u8>)> {
    if s.len() >= 4 {
        Some((u32_from_le(s[0], s[1], s[2], s[3]), suffix(s, 4)))
    } else {
        None
    }
}

pub open spec fn parse_u64(s: Seq<u8>) -> Option<(u64, Seq<u8>)> {
    if s.len() >= 8 {
        Some((u64_from_le(s), suffix(s, 8)))
    } else {
        None
    }
}

proof fn lemma_u32_round_trip(x: u32, rest: Seq<u8>)
    ensures
        parse_u32(u32_le(x) + rest) == Some((x, rest)),
{
    let s = u32_le(x) + rest;
    assert(suffix(s, 4) =~= rest);
    assert(((x & 0xff) as u8 as u32) | ((((x >> 8u32) & 0xff) as u8 as u32) << 8u32) | ((((x
        >> 16u32) & 0xff) as u8 as u32) << 16u32) | ((((x >> 24u32) & 0xff) as u8 as u32)
        << 24u32) == x) by (bit_vector);
}

proof fn lemma_u64_round_trip(x: u64, rest: Seq<u8>)
    ensures
        parse_u64(u64_le(x) + rest) == Some((x, rest)),
{
    let s = u64_le(x) + rest;
    assert(suffix(s, 8) =~= rest);
    assert(((x & 0xff) as u8 as u64) | ((((x >> 8u64) & 0xff) as u8 as u64) << 8u64) | ((((x
        >> 16u64) & 0xff) as u8 as u64) << 16u64) | ((((x >> 24u64) & 0xff) as u8 as u64)
        << 24u64) | ((((x >> 32u64) & 0xff) as u8 as u64) << 32u64) | ((((x >> 40u64) & 0xff)
        as u8 as u64) << 40u64) | ((((x >> 48u64) & 0xff) as u8 as u64) << 48u64) | ((((x
        >> 56u64) & 0xff) as u8 as u64) << 56u64) == x) by (bit_vector);
}

// ---------------------------------------------------------------------------
// Headers
/// Encoded size of a header.
pub const HEADER_SIZE: usize = 84;

#[verifier::opaque]
pub open spec fn header_view_bytes(h: HeaderView) -> Seq<u8> {
    u32_le(h.version) + u32_le(h.time) + u32_le(h.difficulty_compact) + u64_le(h.nonce)
        + h.prev_hash + h.merkle_root
}

/// The canonical bytes of a header.
pub open spec fn header_bytes(h: Header) -> Seq<u8> {
    header_view_bytes(h@)
}

#[verifier::opaque]
pub open spec fn parse_header(s: Seq<u8>) -> Option<(HeaderView, Seq<u8>)> {
    if s.len() >= 84 {
        Some(
            (
                HeaderView {
                    version: u32_from_le(s[0], s[1], s[2], s[3]),
                    time: u32_from_le(s[4], s[5], s[6], s[7]),
                    difficulty_compact: u32_from_le(s[8], s[9], s[10], s[11]),
                    nonce: u64_from_le(suffix(s, 12)),
                    prev_hash: s.subrange(20, 52),
                    merkle_root: s.subrange(52, 84),
                },
                suffix(s, 84),
            ),
        )
    } else {
        None
    }
}

#[verifier::spinoff_prover]
pub proof fn lemma_header_round_trip(h: Header, rest: Seq<u8>)
    ensures
        parse_header(header_bytes(h) + rest) == Some((h@, rest)),
{
    reveal(header_view_bytes);
    reveal(parse_header);
    let s = header_bytes(h) + rest;
    lemma_u32_round_trip(h.version, suffix(s, 4));
    lemma_u32_round_trip(h.time, suffix(s, 8));
    lemma_u32_round_trip(h.difficulty_compact, suffix(s, 12));
    lemma_u64_round_trip(h.nonce, suffix(s, 20));
    assert(s.subrange(0, 4) =~= u32_le(h.version));
    assert(u32_le(h.version) + suffix(s, 4) =~= s);
    assert(u32_le(h.time) + suffix(s, 8) =~= suffix(s, 4));
    assert(u32_le(h.difficulty_compact) + suffix(s, 12) =~= suffix(s, 8));
    assert(u64_le(h.nonce) + suffix(s, 20) =~= suffix(s, 12));
    assert(s.subrange(20, 52) =~= h.prev_hash@);
    assert(s.subrange(52, 84) =~= h.merkle_root@);
    assert(suffix(s, 84) =~= rest);
    let v = parse_header(s).unwrap().0;
    assert(v.version == h.version);
    assert(v.time == h.time);
    assert(v.difficulty_compact == h.difficulty_compact);
    assert(v.nonce == h.nonce);
}

fn put_u32(out: &mut Vec<u8>, x: u32)
    ensures
        final(out)@ == old(out)@ + u32_le(x),
{
    out.push((x & 0xff) as u8);
    out.push(((x >> 8u32) & 0xff) as u8);
    out.push(((x >> 16u32) & 0xff) as u8);
    out.push(((x >> 24u32) & 0xff) as u8);
    assert(final(out)@ =~= old(out)@ + u32_le(x));
}

fn put_u64(out: &mut Vec<u8>, x: u64)
    ensures
        final(out)@ == old(out)@ + u64_le(x),
{
    out.push((x & 0xff) as u8);
    out.push(((x >> 8u64) & 0xff) as u8);
    out.push(((x >> 16u64) & 0xff) as u8);
    out.push(((x >> 24u64) & 0xff) as u8);
    out.push(((x >> 32u64) & 0xff) as u8);
    out.push(((x >> 40u64) & 0xff) as u8);
    out.push(((x >> 48u64) & 0xff) as u8);
    out.push(((x >> 56u64) & 0xff) as u8);
    assert(final(out)@ =~= old(out)@ + u64_le(x));
}

fn put_bytes(out: &mut Vec<u8>, b: &[u8])
    ensures
        final(out)@ == old(out)@ + b@,
{
    let mut i: usize = 0;
    while i < b.len()
        invariant
            0 <= i <= b@.len(),
            out@ == old(out)@ + b@.subrange(0, i as int),
        decreases b@.len() - i,
    {
        out.push(b[i]);
        assert(b@.subrange(0, i + 1) =~= b@.subrange(0, i as int).push(b@[i as int]));
        i += 1;
    }
    assert(b@.subrange(0, i as int) =~= b@);
}

fn put_header(out: &mut Vec<u8>, h: &Header)
    ensures
        final(out)@ == old(out)@ + header_bytes(*h),
{
    put_u32(out, h.version);
    put_u32(out, h.time);
    put_u32(out, h.difficulty_compact);
    put_u64(out, h.nonce);
    put_bytes(out, &h.prev_hash);
    put_bytes(out, &h.merkle_root);
    reveal(header_view_bytes);
    assert(final(out)@ =~= old(out)@ + header_bytes(*h));
}

fn get_u32(data: &[u8], pos: usize) -> (r: Option<(u32, usize)>)
    requires
        pos <= data@.len(),
    ensures
        match parse_u32(suffix(data@, pos as int)) {
            Some((v, rest)) => (r matches Some((x, p)) && x == v && p == pos + 4
                && rest == suffix(data@, p as int)),
            None => r is None,
        },
{
    if data.len() - pos < 4 {
        return None;
    }
    let ghost s = suffix(data@, pos as int);
    let x = (data[pos] as u32) | ((data[pos + 1] as u32) << 8u32) | ((data[pos + 2] as u32)
        << 16u32) | ((data[pos + 3] as u32) << 24u32);
    assert(suffix(s, 4) =~= suffix(data@, pos + 4));
    Some((x, pos + 4))
}

fn get_u64(data: &[u8], pos: usize) -> (r: Option<(u64, usize)>)
    requires
        pos <= data@.len(),
    ensures
        match parse_u64(suffix(data@, pos as int)) {
            Some((v, rest)) => (r matches Some((x, p)) && x == v && p == pos + 8
                && rest == suffix(data@, p as int)),
            None => r is None,
        },
{
    if data.len() - pos < 8 {
        return None;
    }
    let ghost s = suffix(data@, pos as int);
    let x = (data[pos] as u64) | ((data[pos + 1] as u64) << 8u64) | ((data[pos + 2] as u64)
        << 16u64) | ((data[pos + 3] as u64) << 24u64) | ((data[pos + 4] as u64) << 32u64) | ((
    data[pos + 5] as u64) << 40u64) | ((data[pos + 6] as u64) << 48u64) | ((data[pos
        + 7] as u64) << 56u64);
    assert(suffix(s, 8) =~= suffix(data@, pos + 8));
    Some((x, pos + 8))
}

fn get_hash(data: &[u8], pos: usize) -> (r: [u8; 32])
    requires
        pos + 32 <= data@.len(),
    ensures
        r@ == data@.subrange(pos as int, pos + 32),
{
    let mut out = [0u8; 32];
    let n = data.len();
    let mut i: usize = 0;
    while i < 32
        invariant
            0 <= i <= 32,
            n == data@.len(),
            pos + 32 <= data@.len(),
            forall|j: int| 0 <= j < i ==> out@[j] == data@[pos + j],
        decreases 32 - i,
    {
        out[i] = data[pos + i];
        i += 1;
    }
    assert(out@ =~= data@.subrange(pos as int, pos + 32));
    out
}

fn get_header(data: &[u8], pos: usize) -> (r: Option<(Header, usize)>)
    requires
        pos <= data@.len(),
    ensures
        match parse_header(suffix(data@, pos as int)) {
            Some((v, rest)) => (r matches Some((h, p)) && h@ == v && p == pos + 84 && p <= data@.len()
                && rest == suffix(data@, p as int)),
            None => r is None,
        },
{
    reveal(parse_header);
    if data.len() - pos < HEADER_SIZE {
        return None;
    }
    let ghost s = suffix(data@, pos as int);
    let (version, p1) = get_u32(data, pos).unwrap();
    let (time, p2) = get_u32(data, p1).unwrap();
    let (difficulty_compact, p3) = get_u32(data, p2).unwrap();
    let (nonce, p4) = get_u64(data, p3).unwrap();
    assert(suffix(s, 12) =~= suffix(data@, p3 as int));
    let prev_hash = get_hash(data, p4);
    let merkle_root = get_hash(data, p4 + 32);
    assert(s.subrange(20, 52) =~= data@.subrange(p4 as int, p4 + 32));
    assert(s.subrange(52, 84) =~= data@.subrange(p4 + 32, p4 + 64));
    assert(suffix(s, 84) =~= suffix(data@, p4 + 64));
    Some((Header { version, time, difficulty_compact, nonce, prev_hash, merkle_root }, p4 + 64))
}


// ---------------------------------------------------------------------------
// Sequences
/// The encodings of `items`, one after another.
pub open spec fn concat_map<T>(items: Seq<T>, f: spec_fn(T) -> Seq<u8>) -> Seq<u8>
    decreases items.len(),
{
    if items.len() == 0 {
        Seq::empty()
    } else {
        f(items[0]) + concat_map(items.drop_first(), f)
    }
}

/// Reads `k` items one after another with the item parser `p`.
pub open spec fn parse_many<T>(
    s: Seq<u8>,
    k: nat,
    p: spec_fn(Seq<u8>) -> Option<(T, Seq<u8>)>,
) -> Option<(Seq<T>, Seq<u8>)>
    decreases k,
{
    if k == 0 {
        Some((Seq::empty(), s))
    } else {
        match p(s) {
            None => None,
            Some((x, r)) => match parse_many(r, (k - 1) as nat, p) {
                None => None,
                Some((xs, r2)) => Some((seq![x] + xs, r2)),
            },
        }
    }
}

pub open spec fn prepend<T>(acc: Seq<T>, o: Option<(Seq<T>, Seq<u8>)>) -> Option<(Seq<T>, Seq<u8>)> {
    match o {
        Some((xs, r)) => Some((acc + xs, r)),
        None => None,
    }
}

proof fn lemma_prepend_step<T>(acc: Seq<T>, x: T, o: Option<(Seq<T>, Seq<u8>)>)
    ensures
        prepend(acc, prepend(seq![x], o)) == prepend(acc.push(x), o),
{
    match o {
        Some((xs, r)) => {
            assert(acc + (seq![x] + xs) =~= acc.push(x) + xs);
        },
        None => {},
    }
}

proof fn lemma_prepend_empty<T>(o: Option<(Seq<T>, Seq<u8>)>)
    ensures
        prepend(Seq::<T>::empty(), o) == o,
{
    match o {
        Some((xs, r)) => {
            assert(Seq::<T>::empty() + xs =~= xs);
        },
        None => {},
    }
}

proof fn lemma_parse_many_unfold<T>(s: Seq<u8>, k: nat, p: spec_fn(Seq<u8>) -> Option<(T, Seq<u8>)>)
    requires
        k > 0,
    ensures
        parse_many(s, k, p) == match p(s) {
            None => None,
            Some((x, r)) => prepend(seq![x], parse_many(r, (k - 1) as nat, p)),
        },
{
}

proof fn lemma_concat_map_push<T>(items: Seq<T>, x: T, f: spec_fn(T) -> Seq<u8>)
    ensures
        concat_map(items.push(x), f) == concat_map(items, f) + f(x),
    decreases items.len(),
{
    if items.len() == 0 {
        assert(items.push(x).drop_first() =~= Seq::<T>::empty());
        assert(items.push(x)[0] == x);
        assert(concat_map(Seq::<T>::empty(), f) == Seq::<u8>::empty());
        assert(concat_map(items.push(x), f) =~= f(x));
        assert(concat_map(items, f) + f(x) =~= f(x));
    } else {
        assert(items.push(x).drop_first() =~= items.drop_first().push(x));
        lemma_concat_map_push(items.drop_first(), x, f);
        assert(concat_map(items.push(x), f) =~= f(items[0]) + (concat_map(items.drop_first(), f)
            + f(x)));
    }
}

proof fn lemma_parse_many_round_trip<T>(
    items: Seq<T>,
    rest: Seq<u8>,
    f: spec_fn(T) -> Seq<u8>,
    p: spec_fn(Seq<u8>) -> Option<(T, Seq<u8>)>,
)
    requires
        forall|i: int, r: Seq<u8>|
            0 <= i < items.len() ==> #[trigger] p(f(items[i]) + r) == Some((items[i], r)),
    ensures
        parse_many(concat_map(items, f) + rest, items.len(), p) == Some((items, rest)),
    decreases items.len(),
{
    if items.len() > 0 {
        let tail = items.drop_first();
        assert forall|i: int, r: Seq<u8>| 0 <= i < tail.len() implies #[trigger] p(
            f(tail[i]) + r,
        ) == Some((tail[i], r)) by {
            assert(tail[i] == items[i + 1]);
        }
        lemma_parse_many_round_trip(tail, rest, f, p);
        let s = concat_map(items, f) + rest;
        let r = concat_map(tail, f) + rest;
        assert(s =~= f(items[0]) + r);
        assert(p(f(items[0]) + r) == Some((items[0], r)));
        assert(seq![items[0]] + tail =~= items);
    } else {
        assert(concat_map(items, f) + rest =~= rest);
        assert(items =~= Seq::<T>::empty());
    }
}

// ---------------------------------------------------------------------------
// Byte strings and lists of byte strings
#[verifier::opaque]
pub open spec fn field_bytes(b: Seq<u8>) -> Seq<u8> {
    u64_le(b.len() as u64) + b
}

#[verifier::opaque]
pub open spec fn parse_field(s: Seq<u8>) -> Option<(Seq<u8>, Seq<u8>)> {
    match parse_u64(s) {
        Some((n, r)) => if n <= r.len() {
            Some((r.subrange(0, n as int), suffix(r, n as int)))
        } else {
            None
        },
        None => None,
    }
}

pub open spec fn field_enc() -> spec_fn(Seq<u8>) -> Seq<u8> {
    |b: Seq<u8>| field_bytes(b)
}

pub open spec fn field_dec() -> spec_fn(Seq<u8>) -> Option<(Seq<u8>, Seq<u8>)> {
    |t: Seq<u8>| parse_field(t)
}

pub open spec fn list_bytes(items: Seq<Seq<u8>>) -> Seq<u8> {
    u64_le(items.len() as u64) + concat_map(items, field_enc())
}

pub open spec fn parse_list(s: Seq<u8>) -> Option<(Seq<Seq<u8>>, Seq<u8>)> {
    match parse_u64(s) {
        Some((n, r)) => parse_many(r, n as nat, field_dec()),
        None => None,
    }
}

/// Every length in the list fits the `u64` prefix.
pub open spec fn list_fits(items: Seq<Seq<u8>>) -> bool {
    items.len() <= u64::MAX && forall|i: int| 0 <= i < items.len() ==> #[trigger] items[i].len() <= u64::MAX
}

#[verifier::spinoff_prover]
proof fn lemma_field_round_trip(b: Seq<u8>, rest: Seq<u8>)
    requires
        b.len() <= u64::MAX,
    ensures
        parse_field(field_bytes(b) + rest) == Some((b, rest)),
{
    reveal(field_bytes);
    reveal(parse_field);
    let s = field_bytes(b) + rest;
    lemma_u64_round_trip(b.len() as u64, b + rest);
    assert(s =~= u64_le(b.len() as u64) + (b + rest));
    assert(parse_u64(s) == Some(((b.len() as u64), b + rest)));
    assert((b.len() as u64) as int == b.len());
    assert((b + rest).subrange(0, b.len() as int) =~= b);
    assert(suffix(b + rest, b.len() as int) =~= rest);
}

#[verifier::spinoff_prover]
proof fn lemma_list_round_trip(items: Seq<Seq<u8>>, rest: Seq<u8>)
    requires
        list_fits(items),
    ensures
        parse_list(list_bytes(items) + rest) == Some((items, rest)),
{
    let f = field_enc();
    let p = field_dec();
    assert forall|i: int, r: Seq<u8>| 0 <= i < items.len() implies #[trigger] p(f(items[i]) + r)
        == Some((items[i], r)) by {
        lemma_field_round_trip(items[i], r);
    }
    lemma_parse_many_round_trip(items, rest, f, p);
    let body = concat_map(items, f) + rest;
    lemma_u64_round_trip(items.len() as u64, body);
    assert(list_bytes(items) + rest =~= u64_le(items.len() as u64) + body);
}

fn put_list(out: &mut Vec<u8>, items: &Vec<Vec<u8>>)
    ensures
        final(out)@ == old(out)@ + list_bytes(items.deep_view()),
{
    let ghost f = field_enc();
    put_u64(out, items.len() as u64);
    let ghost start = out@;
    let mut i: usize = 0;
    while i < items.len()
        invariant
            f == field_enc(),
            0 <= i <= items@.len(),
            out@ == start + concat_map(items.deep_view().subrange(0, i as int), f),
        decreases items@.len() - i,
    {
        let item = &items[i];
        put_u64(out, item.len() as u64);
        put_bytes(out, item.as_slice());
        proof {
            let dv = items.deep_view();
            assert(dv[i as int] =~= item@);
            assert(dv.subrange(0, i + 1) =~= dv.subrange(0, i as int).push(dv[i as int]));
            lemma_concat_map_push(dv.subrange(0, i as int), dv[i as int], f);
            assert(f(dv[i as int]) == field_bytes(dv[i as int]));
            reveal(field_bytes);
            assert(out@ =~= start + concat_map(dv.subrange(0, i + 1), f));
        }
        i += 1;
    }
    assert(items.deep_view().subrange(0, i as int) =~= items.deep_view());
    assert(final(out)@ =~= old(out)@ + list_bytes(items.deep_view()));
}

fn get_field(data: &[u8], pos: usize) -> (r: Option<(Vec<u8>, usize)>)
    requires
        pos <= data@.len(),
    ensures
        match parse_field(suffix(data@, pos as int)) {
            Some((v, rest)) => (r matches Some((b, p)) && b@ == v && pos <= p <= data@.len()
                && rest == suffix(data@, p as int)),
            None => r is None,
        },
{
    reveal(parse_field);
    let (n, p) = match get_u64(data, pos) {
        Some(x) => x,
        None => return None,
    };
    if n > (data.len() - p) as u64 {
        return None;
    }
    let n = n as usize;
    let mut out: Vec<u8> = Vec::new();
    let dl = data.len();
    let mut i: usize = 0;
    while i < n
        invariant
            dl == data@.len(),
            p + n <= data@.len(),
            0 <= i <= n,
            out@ == data@.subrange(p as int, p + i),
        decreases n - i,
    {
        out.push(data[p + i]);
        assert(data@.subrange(p as int, p + i + 1) =~= data@.subrange(p as int, p + i).push(
            data@[p + i],
        ));
        i += 1;
    }
    proof {
        let r = suffix(data@, p as int);
        assert(r.subrange(0, n as int) =~= data@.subrange(p as int, p + n));
        assert(suffix(r, n as int) =~= suffix(data@, p + n));
    }
    Some((out, p + n))
}

fn get_list(data: &[u8], pos: usize) -> (r: Option<(Vec<Vec<u8>>, usize)>)
    requires
        pos <= data@.len(),
    ensures
        match parse_list(suffix(data@, pos as int)) {
            Some((v, rest)) => (r matches Some((b, p)) && b.deep_view() == v && pos <= p
                <= data@.len() && rest == suffix(data@, p as int)),
            None => r is None,
        },
{
    let ghost p = field_dec();
    let (n, start) = match get_u64(data, pos) {
        Some(x) => x,
        None => return None,
    };
    let mut items: Vec<Vec<u8>> = Vec::new();
    let mut cur = start;
    let mut i: u64 = 0;
    proof {
        lemma_prepend_empty(parse_many(suffix(data@, start as int), n as nat, p));
    }
    while i < n
        invariant
            p == field_dec(),
            parse_list(suffix(data@, pos as int)) == parse_many(suffix(data@, start as int), n as nat, p),
            pos <= start <= cur <= data@.len(),
            0 <= i <= n,
            parse_many(suffix(data@, start as int), n as nat, p) == prepend(
                items.deep_view(),
                parse_many(suffix(data@, cur as int), (n - i) as nat, p),
            ),
        decreases n - i,
    {
        let ghost before = items.deep_view();
        proof {
            lemma_parse_many_unfold(suffix(data@, cur as int), (n - i) as nat, p);
            assert(p(suffix(data@, cur as int)) == parse_field(suffix(data@, cur as int)));
        }
        match get_field(data, cur) {
            Some((b, next)) => {
                proof {
                    lemma_prepend_step(
                        before,
                        b@,
                        parse_many(suffix(data@, next as int), (n - i - 1) as nat, p),
                    );
                }
                let ghost bv = b@;
                assert(b.deep_view() =~= bv);
                items.push(b);
                assert(items.deep_view() =~= before.push(bv));
                cur = next;
            },
            None => {
                assert(parse_many(suffix(data@, cur as int), (n - i) as nat, p) is None);
                return None;
            },
        }
        i += 1;
    }
    Some((items, cur))
}


// ---------------------------------------------------------------------------
// Transactions
#[verifier::opaque]
pub open spec fn tx_view_bytes(t: TxView) -> Seq<u8> {
    list_bytes(t.inputs) + list_bytes(t.outputs)
}

/// The canonical bytes of a transaction.
pub open spec fn tx_bytes(t: Transaction) -> Seq<u8> {
    tx_view_bytes(t@)
}

#[verifier::opaque]
pub open spec fn parse_tx(s: Seq<u8>) -> Option<(TxView, Seq<u8>)> {
    match parse_list(s) {
        Some((inputs, r)) => match parse_list(r) {
            Some((outputs, r2)) => Some((TxView { inputs, outputs }, r2)),
            None => None,
        },
        None => None,
    }
}

pub open spec fn tx_fits(t: TxView) -> bool {
    list_fits(t.inputs) && list_fits(t.outputs)
}

pub open spec fn tx_enc() -> spec_fn(TxView) -> Seq<u8> {
    |t: TxView| tx_view_bytes(t)
}

pub open spec fn tx_dec() -> spec_fn(Seq<u8>) -> Option<(TxView, Seq<u8>)> {
    |s: Seq<u8>| parse_tx(s)
}

pub open spec fn txs_bytes(ts: Seq<TxView>) -> Seq<u8> {
    u64_le(ts.len() as u64) + concat_map(ts, tx_enc())
}

pub open spec fn parse_txs(s: Seq<u8>) -> Option<(Seq<TxView>, Seq<u8>)> {
    match parse_u64(s) {
        Some((n, r)) => parse_many(r, n as nat, tx_dec()),
        None => None,
    }
}

pub open spec fn txs_fits(ts: Seq<TxView>) -> bool {
    ts.len() <= u64::MAX && forall|i: int| 0 <= i < ts.len() ==> #[trigger] tx_fits(ts[i])
}

#[verifier::spinoff_prover]
proof fn lemma_tx_round_trip(t: TxView, rest: Seq<u8>)
    requires
        tx_fits(t),
    ensures
        parse_tx(tx_view_bytes(t) + rest) == Some((t, rest)),
{
    reveal(tx_view_bytes);
    reveal(parse_tx);
    let r1 = list_bytes(t.outputs) + rest;
    assert(tx_view_bytes(t) + rest =~= list_bytes(t.inputs) + r1);
    lemma_list_round_trip(t.inputs, r1);
    lemma_list_round_trip(t.outputs, rest);
}

#[verifier::spinoff_prover]
proof fn lemma_txs_round_trip(ts: Seq<TxView>, rest: Seq<u8>)
    requires
        txs_fits(ts),
    ensures
        parse_txs(txs_bytes(ts) + rest) == Some((ts, rest)),
{
    let f = tx_enc();
    let p = tx_dec();
    assert forall|i: int, r: Seq<u8>| 0 <= i < ts.len() implies #[trigger] p(f(ts[i]) + r) == Some(
        (ts[i], r),
    ) by {
        lemma_tx_round_trip(ts[i], r);
    }
    lemma_parse_many_round_trip(ts, rest, f, p);
    let body = concat_map(ts, f) + rest;
    lemma_u64_round_trip(ts.len() as u64, body);
    assert(txs_bytes(ts) + rest =~= u64_le(ts.len() as u64) + body);
}

fn put_tx(out: &mut Vec<u8>, t: &Transaction)
    ensures
        final(out)@ == old(out)@ + tx_bytes(*t),
{
    put_list(out, &t.inputs);
    put_list(out, &t.outputs);
    reveal(tx_view_bytes);
    assert(final(out)@ =~= old(out)@ + tx_bytes(*t));
}

fn put_txs(out: &mut Vec<u8>, ts: &Vec<Transaction>)
    ensures
        final(out)@ == old(out)@ + txs_bytes(txs_view(ts@)),
{
    let ghost f = tx_enc();
    put_u64(out, ts.len() as u64);
    let ghost start = out@;
    let mut i: usize = 0;
    while i < ts.len()
        invariant
            f == tx_enc(),
            0 <= i <= ts@.len(),
            out@ == start + concat_map(txs_view(ts@).subrange(0, i as int), f),
        decreases ts@.len() - i,
    {
        put_tx(out, &ts[i]);
        proof {
            let tv = txs_view(ts@);
            assert(tv.subrange(0, i + 1) =~= tv.subrange(0, i as int).push(tv[i as int]));
            lemma_concat_map_push(tv.subrange(0, i as int), tv[i as int], f);
            assert(out@ =~= start + concat_map(tv.subrange(0, i + 1), f));
        }
        i += 1;
    }
    assert(txs_view(ts@).subrange(0, i as int) =~= txs_view(ts@));
    assert(final(out)@ =~= old(out)@ + txs_bytes(txs_view(ts@)));
}

fn get_tx(data: &[u8], pos: usize) -> (r: Option<(Transaction, usize)>)
    requires
        pos <= data@.len(),
    ensures
        match parse_tx(suffix(data@, pos as int)) {
            Some((v, rest)) => (r matches Some((t, p)) && t@ == v && pos <= p <= data@.len()
                && rest == suffix(data@, p as int)),
            None => r is None,
        },
{
    reveal(parse_tx);
    let (inputs, p1) = match get_list(data, pos) {
        Some(x) => x,
        None => return None,
    };
    let (outputs, p2) = match get_list(data, p1) {
        Some(x) => x,
        None => return None,
    };
    Some((Transaction { inputs, outputs }, p2))
}

fn get_txs(data: &[u8], pos: usize) -> (r: Option<(Vec<Transaction>, usize)>)
    requires
        pos <= data@.len(),
    ensures
        match parse_txs(suffix(data@, pos as int)) {
            Some((v, rest)) => (r matches Some((ts, p)) && txs_view(ts@) == v && pos <= p
                <= data@.len() && rest == suffix(data@, p as int)),
            None => r is None,
        },
{
    let ghost p = tx_dec();
    let (n, start) = match get_u64(data, pos) {
        Some(x) => x,
        None => return None,
    };
    let mut items: Vec<Transaction> = Vec::new();
    let mut cur = start;
    let mut i: u64 = 0;
    proof {
        assert(txs_view(items@) =~= Seq::<TxView>::empty());
        lemma_prepend_empty(parse_many(suffix(data@, start as int), n as nat, p));
    }
    while i < n
        invariant
            p == tx_dec(),
            parse_txs(suffix(data@, pos as int)) == parse_many(suffix(data@, start as int), n as nat, p),
            pos <= start <= cur <= data@.len(),
            0 <= i <= n,
            parse_many(suffix(data@, start as int), n as nat, p) == prepend(
                txs_view(items@),
                parse_many(suffix(data@, cur as int), (n - i) as nat, p),
            ),
        decreases n - i,
    {
        let ghost before = txs_view(items@);
        proof {
            lemma_parse_many_unfold(suffix(data@, cur as int), (n - i) as nat, p);
        }
        match get_tx(data, cur) {
            Some((t, next)) => {
                proof {
                    lemma_prepend_step(
                        before,
                        t@,
                        parse_many(suffix(data@, next as int), (n - i - 1) as nat, p),
                    );
                }
                let ghost tv = t@;
                items.push(t);
                assert(txs_view(items@) =~= before.push(tv));
                cur = next;
            },
            None => {
                return None;
            },
        }
        i += 1;
    }
    Some((items, cur))
}

// ---------------------------------------------------------------------------
// Blocks
pub open spec fn block_view_bytes(b: BlockView) -> Seq<u8> {
    header_view_bytes(b.header) + txs_bytes(b.transactions)
}

/// The canonical bytes of a block: its header, then its transactions.
pub open spec fn block_bytes(b: Block) -> Seq<u8> {
    block_view_bytes(b@)
}

pub open spec fn parse_block(s: Seq<u8>) -> Option<(BlockView, Seq<u8>)> {
    match parse_header(s) {
        Some((header, r)) => match parse_txs(r) {
            Some((transactions, r2)) => Some((BlockView { header, transactions }, r2)),
            None => None,
        },
        None => None,
    }
}

/// Every length inside the block fits its `u64` prefix.
pub open spec fn block_fits(b: Block) -> bool {
    txs_fits(txs_view(b.transactions@))
}

#[verifier::spinoff_prover]
proof fn lemma_block_round_trip(b: Block, rest: Seq<u8>)
    requires
        block_fits(b),
    ensures
        parse_block(block_bytes(b) + rest) == Some((b@, rest)),
{
    let tb = txs_bytes(b@.transactions) + rest;
    lemma_header_round_trip(b.header, tb);
    lemma_txs_round_trip(b@.transactions, rest);
    assert(block_bytes(b) + rest =~= header_bytes(b.header) + tb);
}

fn put_block(out: &mut Vec<u8>, b: &Block)
    ensures
        final(out)@ == old(out)@ + block_bytes(*b),
{
    put_header(out, &b.header);
    put_txs(out, &b.transactions);
    assert(final(out)@ =~= old(out)@ + block_bytes(*b));
}

fn get_block(data: &[u8], pos: usize) -> (r: Option<(Block, usize)>)
    requires
        pos <= data@.len(),
    ensures
        match parse_block(suffix(data@, pos as int)) {
            Some((v, rest)) => (r matches Some((b, p)) && b@ == v && pos <= p <= data@.len()
                && rest == suffix(data@, p as int)),
            None => r is None,
        },
{
    let (header, p1) = match get_header(data, pos) {
        Some(x) => x,
        None => return None,
    };
    let (transactions, p2) = match get_txs(data, p1) {
        Some(x) => x,
        None => return None,
    };
    Some((Block { header, transactions }, p2))
}

/// The value that bytes decode to when they hold one item and nothing after it.
pub open spec fn whole<T>(o: Option<(T, Seq<u8>)>) -> Option<T> {
    match o {
        Some((v, rest)) => if rest.len() == 0 {
            Some(v)
        } else {
            None
        },
        None => None,
    }
}


// ---------------------------------------------------------------------------
// Public encoding, decoding and hashing
/// The digest of a header's canonical bytes; the next block names it.
pub open spec fn header_hash(h: Header) -> Seq<u8> {
    double_sha256_spec(header_bytes(h))
}

/// The digest of a transaction.
pub open spec fn tx_hash(t: TxView) -> Seq<u8> {
    double_sha256_spec(tx_view_bytes(t))
}

impl Header {
    /// The canonical bytes of the header; this never fails.
    pub fn serialize(&self) -> (r: Result<Vec<u8>, NetError>)
        ensures
            r matches Ok(v) && v@ == header_bytes(*self),
    {
        let mut out: Vec<u8> = Vec::new();
        put_header(&mut out, self);
        assert(out@ =~= header_bytes(*self));
        Ok(out)
    }

    /// Reads a header that fills `data` exactly.
    pub fn from_bytes(data: &[u8]) -> (r: Result<Header, NetError>)
        ensures
            match whole(parse_header(data@)) {
                Some(v) => r matches Ok(h) && h@ == v,
                None => r == Err::<Header, _>(NetError::DeserializationError),
            },
    {
        assert(suffix(data@, 0) =~= data@);
        match get_header(data, 0) {
            Some((h, p)) => {
                if p == data.len() {
                    Ok(h)
                } else {
                    Err(NetError::DeserializationError)
                }
            },
            None => Err(NetError::DeserializationError),
        }
    }
}

impl Hashable for Header {
    open spec fn hash_preimage(&self) -> Seq<u8> {
        header_bytes(*self)
    }

    fn double_sha256(&self) -> (r: [u8; 32]) {
        let mut out: Vec<u8> = Vec::new();
        put_header(&mut out, self);
        assert(out@ =~= header_bytes(*self));
        double_sha256(out.as_slice())
    }
}

impl Transaction {
    /// The canonical bytes of the transaction; this never fails.
    pub fn serialize(&self) -> (r: Result<Vec<u8>, NetError>)
        ensures
            r matches Ok(v) && v@ == tx_bytes(*self),
    {
        let mut out: Vec<u8> = Vec::new();
        put_tx(&mut out, self);
        assert(out@ =~= tx_bytes(*self));
        Ok(out)
    }

    /// Reads a transaction that fills `data` exactly.
    pub fn from_bytes(data: &[u8]) -> (r: Result<Transaction, NetError>)
        ensures
            match whole(parse_tx(data@)) {
                Some(v) => r matches Ok(t) && t@ == v,
                None => r == Err::<Transaction, _>(NetError::DeserializationError),
            },
    {
        assert(suffix(data@, 0) =~= data@);
        match get_tx(data, 0) {
            Some((t, p)) => {
                if p == data.len() {
                    Ok(t)
                } else {
                    Err(NetError::DeserializationError)
                }
            },
            None => Err(NetError::DeserializationError),
        }
    }
}

impl Hashable for Transaction {
    open spec fn hash_preimage(&self) -> Seq<u8> {
        tx_bytes(*self)
    }

    fn double_sha256(&self) -> (r: [u8; 32]) {
        let mut out: Vec<u8> = Vec::new();
        put_tx(&mut out, self);
        assert(out@ =~= tx_bytes(*self));
        double_sha256(out.as_slice())
    }
}

impl Block {
    /// The canonical bytes of the block; this never fails.
    pub fn serialize(&self) -> (r: Result<Vec<u8>, NetError>)
        ensures
            r matches Ok(v) && v@ == block_bytes(*self),
    {
        let mut out: Vec<u8> = Vec::new();
        put_block(&mut out, self);
        assert(out@ =~= block_bytes(*self));
        Ok(out)
    }

    /// Reads a block that fills `data` exactly.
    pub fn from_bytes(data: &[u8]) -> (r: Result<Block, NetError>)
        ensures
            match whole(parse_block(data@)) {
                Some(v) => r matches Ok(b) && b@ == v,
                None => r == Err::<Block, _>(NetError::DeserializationError),
            },
    {
        assert(suffix(data@, 0) =~= data@);
        match get_block(data, 0) {
            Some((b, p)) => {
                if p == data.len() {
                    Ok(b)
                } else {
                    Err(NetError::DeserializationError)
                }
            },
            None => Err(NetError::DeserializationError),
        }
    }
}

/// The digest of a block's canonical bytes. Blocks link to one another
/// through header digests, not through this.
impl Hashable for Block {
    open spec fn hash_preimage(&self) -> Seq<u8> {
        block_bytes(*self)
    }

    fn double_sha256(&self) -> (r: [u8; 32]) {
        let mut out: Vec<u8> = Vec::new();
        put_block(&mut out, self);
        assert(out@ =~= block_bytes(*self));
        double_sha256(out.as_slice())
    }
}

/// The digest of a block's canonical bytes.
pub open spec fn block_hash(b: Block) -> Seq<u8> {
    double_sha256_spec(block_bytes(b))
}

/// Decoding the encoding of a header gives the header back, with the same hash.
pub proof fn lemma_header_decode_encode(h: Header)
    ensures
        whole(parse_header(header_bytes(h))) == Some(h@),
        forall|g: Header| g@ == h@ ==> g == h && header_hash(g) == header_hash(h),
{
    lemma_header_round_trip(h, Seq::empty());
    assert(header_bytes(h) + Seq::<u8>::empty() =~= header_bytes(h));
    assert forall|g: Header| g@ == h@ implies g == h && header_hash(g) == header_hash(h) by {
        crate::block::lemma_header_view_injective(g, h);
    }
}

/// Decoding the encoding of a block gives the block back.
pub proof fn lemma_block_decode_encode(b: Block)
    requires
        block_fits(b),
    ensures
        whole(parse_block(block_bytes(b))) == Some(b@),
{
    lemma_block_round_trip(b, Seq::empty());
    assert(block_bytes(b) + Seq::<u8>::empty() =~= block_bytes(b));
}

/// Decoding the encoding of a transaction gives the transaction back.
pub proof fn lemma_tx_decode_encode(t: Transaction)
    requires
        tx_fits(t@),
    ensures
        whole(parse_tx(tx_bytes(t))) == Some(t@),
{
    lemma_tx_round_trip(t@, Seq::empty());
    assert(tx_bytes(t) + Seq::<u8>::empty() =~= tx_bytes(t));
}


// ---------------------------------------------------------------------------
// Chains
pub open spec fn block_enc() -> spec_fn(BlockView) -> Seq<u8> {
    |b: BlockView| block_view_bytes(b)
}

pub open spec fn block_dec() -> spec_fn(Seq<u8>) -> Option<(BlockView, Seq<u8>)> {
    |s: Seq<u8>| parse_block(s)
}

pub open spec fn blocks_view(bs: Seq<Block>) -> Seq<BlockView> {
    bs.map_values(|b: Block| b@)
}

/// The canonical bytes of a chain: the number of blocks, then each block.
pub open spec fn chain_bytes(bs: Seq<Block>) -> Seq<u8> {
    u64_le(bs.len() as u64) + concat_map(blocks_view(bs), block_enc())
}

pub open spec fn parse_chain(s: Seq<u8>) -> Option<(Seq<BlockView>, Seq<u8>)> {
    match parse_u64(s) {
        Some((n, r)) => parse_many(r, n as nat, block_dec()),
        None => None,
    }
}

impl Blockchain {
    /// The canonical bytes of the chain; this never fails.
    pub fn serialize(&self) -> (r: Result<Vec<u8>, NetError>)
        ensures
            r matches Ok(v) && v@ == chain_bytes(self.blocks@),
    {
        let ghost f = block_enc();
        let mut out: Vec<u8> = Vec::new();
        let n = self.blocks.len();
        put_u64(&mut out, n as u64);
        let ghost start = out@;
        let mut i: usize = 0;
        while i < n
            invariant
                f == block_enc(),
                n == self.blocks@.len(),
                0 <= i <= n,
                out@ == start + concat_map(blocks_view(self.blocks@).subrange(0, i as int), f),
            decreases n - i,
        {
            put_block(&mut out, &self.blocks[i]);
            proof {
                let bv = blocks_view(self.blocks@);
                assert(bv.subrange(0, i + 1) =~= bv.subrange(0, i as int).push(bv[i as int]));
                lemma_concat_map_push(bv.subrange(0, i as int), bv[i as int], f);
                assert(out@ =~= start + concat_map(bv.subrange(0, i + 1), f));
            }
            i += 1;
        }
        assert(blocks_view(self.blocks@).subrange(0, i as int) =~= blocks_view(self.blocks@));
        assert(out@ =~= chain_bytes(self.blocks@));
        Ok(out)
    }

    /// Reads a chain that fills `data` exactly.
    pub fn from_bytes(data: &[u8]) -> (r: Result<Blockchain, NetError>)
        ensures
            match whole(parse_chain(data@)) {
                Some(v) => r matches Ok(c) && blocks_view(c.blocks@) == v,
                None => r == Err::<Blockchain, _>(NetError::DeserializationError),
            },
    {
        let ghost p = block_dec();
        assert(suffix(data@, 0) =~= data@);
        let (n, start) = match get_u64(data, 0) {
            Some(x) => x,
            None => return Err(NetError::DeserializationError),
        };
        let mut blocks: VecDeque<Block> = VecDeque::new();
        let mut cur = start;
        let mut i: u64 = 0;
        proof {
            assert(blocks_view(blocks@) =~= Seq::<BlockView>::empty());
            lemma_prepend_empty(parse_many(suffix(data@, start as int), n as nat, p));
        }
        while i < n
            invariant
                p == block_dec(),
                parse_chain(data@) == parse_many(suffix(data@, start as int), n as nat, p),
                start <= cur <= data@.len(),
                0 <= i <= n,
                parse_many(suffix(data@, start as int), n as nat, p) == prepend(
                    blocks_view(blocks@),
                    parse_many(suffix(data@, cur as int), (n - i) as nat, p),
                ),
            decreases n - i,
        {
            let ghost before = blocks_view(blocks@);
            proof {
                lemma_parse_many_unfold(suffix(data@, cur as int), (n - i) as nat, p);
            }
            match get_block(data, cur) {
                Some((b, next)) => {
                    proof {
                        lemma_prepend_step(
                            before,
                            b@,
                            parse_many(suffix(data@, next as int), (n - i - 1) as nat, p),
                        );
                    }
                    let ghost bv = b@;
                    blocks.push_back(b);
                    assert(blocks_view(blocks@) =~= before.push(bv));
                    cur = next;
                },
                None => {
                    return Err(NetError::DeserializationError);
                },
            }
            i += 1;
        }
        if cur == data.len() {
            Ok(Blockchain { blocks })
        } else {
            Err(NetError::DeserializationError)
        }
    }
}

/// Decoding the encoding of a chain gives its blocks back.
#[verifier::spinoff_prover]
pub proof fn lemma_chain_decode_encode(bs: Seq<Block>)
    requires
        bs.len() <= u64::MAX,
        forall|i: int| 0 <= i < bs.len() ==> #[trigger] block_fits(bs[i]),
    ensures
        whole(parse_chain(chain_bytes(bs))) == Some(blocks_view(bs)),
{
    let items = blocks_view(bs);
    let f = block_enc();
    let p = block_dec();
    assert forall|i: int, r: Seq<u8>| 0 <= i < items.len() implies #[trigger] p(f(items[i]) + r)
        == Some((items[i], r)) by {
        assert(block_fits(bs[i]));
        lemma_block_round_trip(bs[i], r);
    }
    lemma_parse_many_round_trip(items, Seq::empty(), f, p);
    let body = concat_map(items, f) + Seq::<u8>::empty();
    assert(body =~= concat_map(items, f));
    lemma_u64_round_trip(bs.len() as u64, body);
    assert(chain_bytes(bs) =~= u64_le(bs.len() as u64) + body);
}

} // verus!
