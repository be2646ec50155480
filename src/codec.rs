use vstd::prelude::*;
use vstd::utf8::{decode_utf8, encode_utf8, valid_utf8};

use crate::entity::strings_view;

verus! {

broadcast use vstd::utf8::encode_utf8_valid_utf8, vstd::utf8::encode_utf8_decode_utf8;

/// Largest encoded size of any stored record, in bytes.
pub const MAX_RECORD_SIZE: usize = 512;

/// Little-endian bytes of a 64-bit integer.
pub open spec fn u64_le(x: u64) -> Seq<u8> {
    seq![
        (x & 0xff) as u8,
        ((x >> 8u64) & 0xff) as u8,
        ((x >> 16u64) & 0xff) as u8,
        ((x >> 24u64) & 0xff) as u8,
        ((x >> 32u64) & 0xff) as u8,
        ((x >> 40u64) & 0xff) as u8,
        ((x >> 48u64) & 0xff) as u8,
        ((x >> 56u64) & 0xff) as u8,
    ]
}

/// The integer whose little-endian bytes open `b`.
pub open spec fn le_u64(b: Seq<u8>) -> u64 {
    (b[0] as u64) | ((b[1] as u64) << 8u64) | ((b[2] as u64) << 16u64) | ((b[3] as u64) << 24u64)
        | ((b[4] as u64) << 32u64) | ((b[5] as u64) << 40u64) | ((b[6] as u64) << 48u64) | ((
    b[7] as u64) << 56u64)
}

pub proof fn lemma_u64_round_trip(x: u64)
    ensures
        le_u64(u64_le(x)) == x,
{
    let b = u64_le(x);
    assert(b[0] == (x & 0xff) as u8);
    assert(b[7] == ((x >> 56u64) & 0xff) as u8);
    assert(((((x & 0xff) as u8) as u64) | (((((x >> 8u64) & 0xff) as u8) as u64) << 8u64) | ((((
    (x >> 16u64) & 0xff) as u8) as u64) << 16u64) | (((((x >> 24u64) & 0xff) as u8) as u64)
        << 24u64) | (((((x >> 32u64) & 0xff) as u8) as u64) << 32u64) | (((((x >> 40u64) & 0xff)
        as u8) as u64) << 40u64) | (((((x >> 48u64) & 0xff) as u8) as u64) << 48u64) | (((((x
        >> 56u64) & 0xff) as u8) as u64) << 56u64)) == x) by (bit_vector);
}

/// Reads a 64-bit integer off the front of `b`, giving what follows it.
pub open spec fn take_u64(b: Seq<u8>) -> Option<(u64, Seq<u8>)> {
    if b.len() >= 8 {
        Some((le_u64(b), b.skip(8)))
    } else {
        None
    }
}

#[verifier::rlimit(40)]
pub proof fn lemma_take_u64(x: u64, rest: Seq<u8>)
    ensures
        take_u64(u64_le(x) + rest) == Some((x, rest)),
{
    let b = u64_le(x) + rest;
    lemma_u64_round_trip(x);
    assert(b.skip(8) =~= rest);
    assert(le_u64(b) == le_u64(u64_le(x)));
}

/// A string as its byte length followed by its UTF-8 bytes.
pub open spec fn str_bytes(s: Seq<char>) -> Seq<u8> {
    u64_le(encode_utf8(s).len() as u64) + encode_utf8(s)
}

/// Reads a length-prefixed UTF-8 string off the front of `b`.
pub open spec fn take_str(b: Seq<u8>) -> Option<(Seq<char>, Seq<u8>)> {
    match take_u64(b) {
        Some((n, r)) => if n <= r.len() && valid_utf8(r.take(n as int)) {
            Some((decode_utf8(r.take(n as int)), r.skip(n as int)))
        } else {
            None
        },
        None => None,
    }
}

#[verifier::rlimit(40)]
pub proof fn lemma_take_str(s: Seq<char>, rest: Seq<u8>)
    requires
        encode_utf8(s).len() <= u64::MAX,
    ensures
        take_str(str_bytes(s) + rest) == Some((s, rest)),
{
    let e = encode_utf8(s);
    let n = e.len() as u64;
    lemma_take_u64(n, e + rest);
    assert(str_bytes(s) + rest =~= u64_le(n) + (e + rest));
    assert((e + rest).take(n as int) =~= e);
    assert((e + rest).skip(n as int) =~= rest);
}

/// Writes `x` at the end of `buf`.
pub fn put_u64(buf: &mut Vec<u8>, x: u64)
    ensures
        final(buf)@ == old(buf)@ + u64_le(x),
{
    buf.push((x & 0xff) as u8);
    buf.push(((x >> 8u64) & 0xff) as u8);
    buf.push(((x >> 16u64) & 0xff) as u8);
    buf.push(((x >> 24u64) & 0xff) as u8);
    buf.push(((x >> 32u64) & 0xff) as u8);
    buf.push(((x >> 40u64) & 0xff) as u8);
    buf.push(((x >> 48u64) & 0xff) as u8);
    buf.push(((x >> 56u64) & 0xff) as u8);
    assert(final(buf)@ =~= old(buf)@ + u64_le(x));
}

/// Reads a 64-bit integer at `pos`, giving it and the position after it.
#[verifier::rlimit(40)]
pub fn read_u64(b: &[u8], pos: usize) -> (r: Option<(u64, usize)>)
    requires
        pos <= b@.len(),
    ensures
        r is Some <==> take_u64(b@.skip(pos as int)) is Some,
        r matches Some((x, p)) ==> pos <= p <= b@.len() && take_u64(b@.skip(pos as int)) == Some(
            (x, b@.skip(p as int)),
        ),
{
    if b.len() - pos < 8 {
        return None;
    }
    let x: u64 = (b[pos] as u64) | ((b[pos + 1] as u64) << 8u64) | ((b[pos + 2] as u64) << 16u64)
        | ((b[pos + 3] as u64) << 24u64) | ((b[pos + 4] as u64) << 32u64) | ((b[pos + 5] as u64)
        << 40u64) | ((b[pos + 6] as u64) << 48u64) | ((b[pos + 7] as u64) << 56u64);
    let ghost s = b@.skip(pos as int);
    assert(s[0] == b@[pos as int] && s[1] == b@[pos + 1] && s[2] == b@[pos + 2] && s[3] == b@[pos
        + 3] && s[4] == b@[pos + 4] && s[5] == b@[pos + 5] && s[6] == b@[pos + 6] && s[7] == b@[pos
        + 7]);
    assert(s.skip(8) =~= b@.skip(pos + 8));
    Some((x, pos + 8))
}

/// Writes the string `s` at the end of `buf`, prefixed by its byte length.
pub fn put_str(buf: &mut Vec<u8>, s: &String)
    ensures
        final(buf)@ == old(buf)@ + str_bytes(s@),
{
    let bytes = s.as_str().as_bytes();
    assert(bytes@ == encode_utf8(s@));
    put_u64(buf, bytes.len() as u64);
    let ghost start = buf@;
    let mut i: usize = 0;
    while i < bytes.len()
        invariant
            i <= bytes@.len(),
            buf@ == start + bytes@.take(i as int),
        decreases bytes@.len() - i,
    {
        buf.push(bytes[i]);
        i = i + 1;
        assert(buf@ =~= start + bytes@.take(i as int));
    }
    assert(bytes@.take(i as int) =~= bytes@);
    assert(final(buf)@ =~= old(buf)@ + str_bytes(s@));
}

/// Relies on `std::str::from_utf8`: it accepts exactly the valid UTF-8 byte sequences, and the
/// string it gives is the one those bytes spell.
#[verifier::external_body]
fn string_from_utf8(b: &[u8]) -> (r: Option<String>)
    ensures
        r is Some <==> valid_utf8(b@),
        r matches Some(s) ==> s@ == decode_utf8(b@),
{
    std::str::from_utf8(b).ok().map(|s| s.to_owned())
}

/// Reads a length-prefixed string at `pos`, giving it and the position after it.
#[verifier::rlimit(40)]
pub fn read_str(b: &[u8], pos: usize) -> (r: Option<(String, usize)>)
    requires
        pos <= b@.len(),
    ensures
        r is Some <==> take_str(b@.skip(pos as int)) is Some,
        r matches Some((s, p)) ==> pos <= p <= b@.len() && take_str(b@.skip(pos as int)) == Some(
            (s@, b@.skip(p as int)),
        ),
{
    let (n, start) = match read_u64(b, pos) {
        Some(v) => v,
        None => return None,
    };
    if n > (b.len() - start) as u64 {
        return None;
    }
    let end: usize = start + n as usize;
    let mut piece: Vec<u8> = Vec::new();
    let mut i: usize = start;
    while i < end
        invariant
            start <= i <= end,
            end <= b@.len(),
            piece@ == b@.subrange(start as int, i as int),
        decreases end - i,
    {
        piece.push(b[i]);
        i = i + 1;
        assert(piece@ =~= b@.subrange(start as int, i as int));
    }
    let ghost r = b@.skip(start as int);
    assert(r.take(n as int) =~= piece@);
    assert(r.skip(n as int) =~= b@.skip(end as int));
    match string_from_utf8(piece.as_slice()) {
        Some(s) => Some((s, end)),
        None => None,
    }
}


/// A boolean as one byte, `1` for true.
pub open spec fn bool_bytes(x: bool) -> Seq<u8> {
    if x {
        seq![1u8]
    } else {
        seq![0u8]
    }
}

pub open spec fn take_bool(b: Seq<u8>) -> Option<(bool, Seq<u8>)> {
    if b.len() >= 1 && b[0] == 1 {
        Some((true, b.skip(1)))
    } else if b.len() >= 1 && b[0] == 0 {
        Some((false, b.skip(1)))
    } else {
        None
    }
}

#[verifier::rlimit(40)]
pub proof fn lemma_take_bool(x: bool, rest: Seq<u8>)
    ensures
        take_bool(bool_bytes(x) + rest) == Some((x, rest)),
{
    assert((bool_bytes(x) + rest).skip(1) =~= rest);
}

pub fn put_bool(buf: &mut Vec<u8>, x: bool)
    ensures
        final(buf)@ == old(buf)@ + bool_bytes(x),
{
    if x {
        buf.push(1u8);
    } else {
        buf.push(0u8);
    }
    assert(final(buf)@ =~= old(buf)@ + bool_bytes(x));
}

#[verifier::rlimit(40)]
pub fn read_bool(b: &[u8], pos: usize) -> (r: Option<(bool, usize)>)
    requires
        pos <= b@.len(),
    ensures
        r is Some <==> take_bool(b@.skip(pos as int)) is Some,
        r matches Some((x, p)) ==> pos <= p <= b@.len() && take_bool(b@.skip(pos as int)) == Some(
            (x, b@.skip(p as int)),
        ),
{
    if pos >= b.len() {
        return None;
    }
    assert(b@.skip(pos as int)[0] == b@[pos as int]);
    assert(b@.skip(pos as int).skip(1) =~= b@.skip(pos + 1));
    if b[pos] == 1 {
        Some((true, pos + 1))
    } else if b[pos] == 0 {
        Some((false, pos + 1))
    } else {
        None
    }
}

/// The strings of `ss` one after another, each length-prefixed.
pub open spec fn strs_body(ss: Seq<Seq<char>>) -> Seq<u8>
    decreases ss.len(),
{
    if ss.len() == 0 {
        Seq::empty()
    } else {
        strs_body(ss.drop_last()) + str_bytes(ss.last())
    }
}

/// A list of strings as its count followed by the strings.
pub open spec fn strs_bytes(ss: Seq<Seq<char>>) -> Seq<u8> {
    u64_le(ss.len() as u64) + strs_body(ss)
}

/// Reads `n` strings off the front of `b`.
pub open spec fn take_strs_n(n: nat, b: Seq<u8>) -> Option<(Seq<Seq<char>>, Seq<u8>)>
    decreases n,
{
    if n == 0 {
        Some((Seq::empty(), b))
    } else {
        match take_strs_n((n - 1) as nat, b) {
            Some((ss, r)) => match take_str(r) {
                Some((s, r2)) => Some((ss.push(s), r2)),
                None => None,
            },
            None => None,
        }
    }
}

pub open spec fn take_strs(b: Seq<u8>) -> Option<(Seq<Seq<char>>, Seq<u8>)> {
    match take_u64(b) {
        Some((n, r)) => take_strs_n(n as nat, r),
        None => None,
    }
}

/// Every string of `ss` has a byte length that a 64-bit integer holds.
pub open spec fn strs_fit(ss: Seq<Seq<char>>) -> bool {
    forall|i: int| 0 <= i < ss.len() ==> encode_utf8(#[trigger] ss[i]).len() <= u64::MAX
}

#[verifier::rlimit(40)]
pub proof fn lemma_take_strs_n(ss: Seq<Seq<char>>, rest: Seq<u8>)
    requires
        strs_fit(ss),
    ensures
        take_strs_n(ss.len(), strs_body(ss) + rest) == Some((ss, rest)),
    decreases ss.len(),
{
    if ss.len() > 0 {
        let last = ss.last();
        let init = ss.drop_last();
        assert(strs_fit(init)) by {
            assert forall|i: int| 0 <= i < init.len() implies encode_utf8(#[trigger] init[i]).len()
                <= u64::MAX by {
                assert(init[i] == ss[i]);
            }
        }
        assert(encode_utf8(ss[ss.len() - 1]).len() <= u64::MAX);
        lemma_take_strs_n(init, str_bytes(last) + rest);
        assert(strs_body(ss) + rest =~= strs_body(init) + (str_bytes(last) + rest));
        lemma_take_str(last, rest);
        assert(init.push(last) =~= ss);
    } else {
        assert(strs_body(ss) + rest =~= rest);
    }
}

#[verifier::rlimit(40)]
pub proof fn lemma_take_strs(ss: Seq<Seq<char>>, rest: Seq<u8>)
    requires
        strs_fit(ss),
        ss.len() <= u64::MAX,
    ensures
        take_strs(strs_bytes(ss) + rest) == Some((ss, rest)),
{
    lemma_take_u64(ss.len() as u64, strs_body(ss) + rest);
    assert(strs_bytes(ss) + rest =~= u64_le(ss.len() as u64) + (strs_body(ss) + rest));
    lemma_take_strs_n(ss, rest);
}

pub proof fn lemma_strs_body_len(ss: Seq<Seq<char>>)
    ensures
        ss.len() <= strs_body(ss).len(),
        forall|i: int| 0 <= i < ss.len() ==> encode_utf8(#[trigger] ss[i]).len() <= strs_body(ss).len(),
    decreases ss.len(),
{
    if ss.len() > 0 {
        let init = ss.drop_last();
        lemma_strs_body_len(init);
        assert forall|i: int| 0 <= i < ss.len() implies encode_utf8(#[trigger] ss[i]).len()
            <= strs_body(ss).len() by {
            if i < ss.len() - 1 {
                assert(ss[i] == init[i]);
            }
        }
    }
}

/// The integers of `xs` one after another.
pub open spec fn u64s_body(xs: Seq<u64>) -> Seq<u8>
    decreases xs.len(),
{
    if xs.len() == 0 {
        Seq::empty()
    } else {
        u64s_body(xs.drop_last()) + u64_le(xs.last())
    }
}

/// A list of integers as its count followed by the integers.
pub open spec fn u64s_bytes(xs: Seq<u64>) -> Seq<u8> {
    u64_le(xs.len() as u64) + u64s_body(xs)
}

pub proof fn lemma_u64s_body_len(xs: Seq<u64>)
    ensures
        u64s_body(xs).len() == 8 * xs.len(),
    decreases xs.len(),
{
    if xs.len() > 0 {
        lemma_u64s_body_len(xs.drop_last());
    }
}

pub open spec fn take_u64s_n(n: nat, b: Seq<u8>) -> Option<(Seq<u64>, Seq<u8>)>
    decreases n,
{
    if n == 0 {
        Some((Seq::empty(), b))
    } else {
        match take_u64s_n((n - 1) as nat, b) {
            Some((xs, r)) => match take_u64(r) {
                Some((x, r2)) => Some((xs.push(x), r2)),
                None => None,
            },
            None => None,
        }
    }
}

pub open spec fn take_u64s(b: Seq<u8>) -> Option<(Seq<u64>, Seq<u8>)> {
    match take_u64(b) {
        Some((n, r)) => take_u64s_n(n as nat, r),
        None => None,
    }
}

#[verifier::rlimit(40)]
pub proof fn lemma_take_u64s_n(xs: Seq<u64>, rest: Seq<u8>)
    ensures
        take_u64s_n(xs.len(), u64s_body(xs) + rest) == Some((xs, rest)),
    decreases xs.len(),
{
    if xs.len() > 0 {
        let last = xs.last();
        let init = xs.drop_last();
        lemma_take_u64s_n(init, u64_le(last) + rest);
        assert(u64s_body(xs) + rest =~= u64s_body(init) + (u64_le(last) + rest));
        lemma_take_u64(last, rest);
        assert(init.push(last) =~= xs);
    } else {
        assert(u64s_body(xs) + rest =~= rest);
    }
}

#[verifier::rlimit(40)]
pub proof fn lemma_take_u64s(xs: Seq<u64>, rest: Seq<u8>)
    requires
        xs.len() <= u64::MAX,
    ensures
        take_u64s(u64s_bytes(xs) + rest) == Some((xs, rest)),
{
    lemma_take_u64(xs.len() as u64, u64s_body(xs) + rest);
    assert(u64s_bytes(xs) + rest =~= u64_le(xs.len() as u64) + (u64s_body(xs) + rest));
    lemma_take_u64s_n(xs, rest);
}

/// Writes a list of strings at the end of `buf`.
pub fn put_strs(buf: &mut Vec<u8>, ss: &Vec<String>)
    ensures
        final(buf)@ == old(buf)@ + strs_bytes(strings_view(ss@)),
{
    let ghost v = strings_view(ss@);
    put_u64(buf, ss.len() as u64);
    let ghost start = buf@;
    let mut i: usize = 0;
    while i < ss.len()
        invariant
            i <= ss@.len(),
            v == strings_view(ss@),
            buf@ == start + strs_body(v.take(i as int)),
        decreases ss@.len() - i,
    {
        put_str(buf, &ss[i]);
        i = i + 1;
        assert(v.take(i as int).drop_last() =~= v.take(i - 1));
        assert(buf@ =~= start + strs_body(v.take(i as int)));
    }
    assert(v.take(i as int) =~= v);
    assert(final(buf)@ =~= old(buf)@ + strs_bytes(v));
}

/// Reads a list of strings at `pos`.
#[verifier::rlimit(40)]
pub fn read_strs(b: &[u8], pos: usize) -> (r: Option<(Vec<String>, usize)>)
    requires
        pos <= b@.len(),
    ensures
        r is Some <==> take_strs(b@.skip(pos as int)) is Some,
        r matches Some((ss, p)) ==> pos <= p <= b@.len() && take_strs(b@.skip(pos as int)) == Some(
            (strings_view(ss@), b@.skip(p as int)),
        ),
{
    let (n, start) = match read_u64(b, pos) {
        Some(v) => v,
        None => return None,
    };
    let ghost r0 = b@.skip(start as int);
    let mut out: Vec<String> = Vec::new();
    let mut p: usize = start;
    let mut i: u64 = 0;
    assert(strings_view(out@) =~= Seq::<Seq<char>>::empty());
    while i < n
        invariant
            start <= p <= b@.len(),
            i <= n,
            r0 == b@.skip(start as int),
            pos <= b@.len(),
            take_u64(b@.skip(pos as int)) == Some((n, r0)),
            take_strs_n(i as nat, r0) == Some((strings_view(out@), b@.skip(p as int))),
        decreases n - i,
    {
        match read_str(b, p) {
            Some((s, q)) => {
                let ghost old_out = out@;
                out.push(s);
                p = q;
                i = i + 1;
                assert(strings_view(out@) =~= strings_view(old_out).push(s@));
            },
            None => {
                assert(take_strs_n((i + 1) as nat, r0) is None);
                proof { lemma_take_strs_n_none(i as nat, n as nat, r0); }
                assert(take_strs(b@.skip(pos as int)) == take_strs_n(n as nat, r0));
                return None;
            },
        }
    }
    Some((out, p))
}

#[verifier::rlimit(40)]
proof fn lemma_take_strs_n_none(i: nat, n: nat, b: Seq<u8>)
    requires
        i < n,
        take_strs_n(i + 1, b) is None,
    ensures
        take_strs_n(n, b) is None,
    decreases n - i,
{
    if n > i + 1 {
        lemma_take_strs_n_none(i, (n - 1) as nat, b);
    }
}

/// Writes a list of integers at the end of `buf`.
pub fn put_u64s(buf: &mut Vec<u8>, xs: &Vec<u64>)
    ensures
        final(buf)@ == old(buf)@ + u64s_bytes(xs@),
{
    put_u64(buf, xs.len() as u64);
    let ghost start = buf@;
    let mut i: usize = 0;
    while i < xs.len()
        invariant
            i <= xs@.len(),
            buf@ == start + u64s_body(xs@.take(i as int)),
        decreases xs@.len() - i,
    {
        put_u64(buf, xs[i]);
        i = i + 1;
        assert(xs@.take(i as int).drop_last() =~= xs@.take(i - 1));
        assert(buf@ =~= start + u64s_body(xs@.take(i as int)));
    }
    assert(xs@.take(i as int) =~= xs@);
    assert(final(buf)@ =~= old(buf)@ + u64s_bytes(xs@));
}

/// Reads a list of integers at `pos`.
#[verifier::rlimit(40)]
pub fn read_u64s(b: &[u8], pos: usize) -> (r: Option<(Vec<u64>, usize)>)
    requires
        pos <= b@.len(),
    ensures
        r is Some <==> take_u64s(b@.skip(pos as int)) is Some,
        r matches Some((xs, p)) ==> pos <= p <= b@.len() && take_u64s(b@.skip(pos as int)) == Some(
            (xs@, b@.skip(p as int)),
        ),
{
    let (n, start) = match read_u64(b, pos) {
        Some(v) => v,
        None => return None,
    };
    let ghost r0 = b@.skip(start as int);
    let mut out: Vec<u64> = Vec::new();
    let mut p: usize = start;
    let mut i: u64 = 0;
    assert(out@ =~= Seq::<u64>::empty());
    while i < n
        invariant
            start <= p <= b@.len(),
            i <= n,
            r0 == b@.skip(start as int),
            pos <= b@.len(),
            take_u64(b@.skip(pos as int)) == Some((n, r0)),
            take_u64s_n(i as nat, r0) == Some((out@, b@.skip(p as int))),
        decreases n - i,
    {
        match read_u64(b, p) {
            Some((x, q)) => {
                out.push(x);
                p = q;
                i = i + 1;
            },
            None => {
                assert(take_u64s_n((i + 1) as nat, r0) is None);
                proof { lemma_take_u64s_n_none(i as nat, n as nat, r0); }
                assert(take_u64s(b@.skip(pos as int)) == take_u64s_n(n as nat, r0));
                return None;
            },
        }
    }
    Some((out, p))
}

#[verifier::rlimit(40)]
proof fn lemma_take_u64s_n_none(i: nat, n: nat, b: Seq<u8>)
    requires
        i < n,
        take_u64s_n(i + 1, b) is None,
    ensures
        take_u64s_n(n, b) is None,
    decreases n - i,
{
    if n > i + 1 {
        lemma_take_u64s_n_none(i, (n - 1) as nat, b);
    }
}

} // verus!
