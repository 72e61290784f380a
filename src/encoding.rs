//! The canonical byte encoding of primitive values: integers little-endian,
//! lengths as four little-endian bytes, strings as their length in bytes
//! followed by their UTF-8 bytes.
use crate::uint::u64_le;
use vstd::prelude::*;
use vstd::utf8::{encode_utf8, encode_utf8_decode_utf8};

verus! {

/// The four bytes of `x`, least significant first.
pub open spec fn u32_le(x: u32) -> Seq<u8> {
    seq![x as u8, (x >> 8u32) as u8, (x >> 16u32) as u8, (x >> 24u32) as u8]
}

/// A length or count can be encoded when it fits in four bytes.
pub open spec fn fits_len(n: int) -> bool {
    n <= u32::MAX
}

/// A length or count, as four little-endian bytes.
pub open spec fn len_bytes(n: int) -> Seq<u8> {
    u32_le(n as u32)
}

/// A string: the length of its UTF-8 form, then that form.
pub open spec fn str_bytes(s: Seq<char>) -> Seq<u8> {
    len_bytes(encode_utf8(s).len() as int) + encode_utf8(s)
}

/// A string can be encoded when its UTF-8 form has a length that fits.
pub open spec fn str_fits(s: Seq<char>) -> bool {
    fits_len(encode_utf8(s).len() as int)
}

/// Two byte strings that agree after prefixes of equal length have equal
/// prefixes and equal rests.
pub proof fn lemma_split_equal(a: Seq<u8>, r1: Seq<u8>, b: Seq<u8>, r2: Seq<u8>)
    requires
        a + r1 == b + r2,
        a.len() == b.len(),
    ensures
        a == b,
        r1 == r2,
{
    let (x, y) = (a + r1, b + r2);
    assert(a =~= x.subrange(0, a.len() as int));
    assert(b =~= y.subrange(0, b.len() as int));
    assert(r1 =~= x.subrange(a.len() as int, x.len() as int));
    assert(r2 =~= y.subrange(b.len() as int, y.len() as int));
}

/// Equal four-byte forms come from equal integers.
pub proof fn lemma_u32_le_injective(x: u32, y: u32)
    requires
        u32_le(x) == u32_le(y),
    ensures
        x == y,
{
    assert(u32_le(x)[0] == u32_le(y)[0]);
    assert(u32_le(x)[1] == u32_le(y)[1]);
    assert(u32_le(x)[2] == u32_le(y)[2]);
    assert(u32_le(x)[3] == u32_le(y)[3]);
    assert(x == y) by (bit_vector)
        requires
            x as u8 == y as u8,
            (x >> 8u32) as u8 == (y >> 8u32) as u8,
            (x >> 16u32) as u8 == (y >> 16u32) as u8,
            (x >> 24u32) as u8 == (y >> 24u32) as u8,
    ;
}

/// Equal encoded lengths are equal lengths, for lengths that fit.
pub proof fn lemma_len_bytes_injective(m: int, n: int)
    requires
        0 <= m,
        0 <= n,
        fits_len(m),
        fits_len(n),
        len_bytes(m) == len_bytes(n),
    ensures
        m == n,
{
    lemma_u32_le_injective(m as u32, n as u32);
}

/// An encoded string is read back whole from the front of a byte string:
/// what follows it is left over unchanged.
pub proof fn lemma_str_bytes_prefix(s: Seq<char>, t: Seq<char>, r1: Seq<u8>, r2: Seq<u8>)
    requires
        str_fits(s),
        str_fits(t),
        str_bytes(s) + r1 == str_bytes(t) + r2,
    ensures
        s == t,
        r1 == r2,
{
    let (es, et) = (encode_utf8(s), encode_utf8(t));
    assert(str_bytes(s) + r1 =~= len_bytes(es.len() as int) + (es + r1));
    assert(str_bytes(t) + r2 =~= len_bytes(et.len() as int) + (et + r2));
    lemma_split_equal(len_bytes(es.len() as int), es + r1, len_bytes(et.len() as int), et + r2);
    lemma_len_bytes_injective(es.len() as int, et.len() as int);
    lemma_split_equal(es, r1, et, r2);
    encode_utf8_decode_utf8(s);
    encode_utf8_decode_utf8(t);
}

/// Why a value has no canonical encoding: a string or a sequence in it is
/// too long for its length to be written.
#[derive(Clone, Copy, Debug, PartialEq, Eq)]
pub struct EncodingError;

pub(crate) fn write_u32(out: &mut Vec<u8>, x: u32)
    ensures
        final(out)@ == old(out)@ + u32_le(x),
{
    out.push(#[verifier::truncate] (x as u8));
    out.push(#[verifier::truncate] ((x >> 8) as u8));
    out.push(#[verifier::truncate] ((x >> 16) as u8));
    out.push(#[verifier::truncate] ((x >> 24) as u8));
    assert(out@ =~= old(out)@ + u32_le(x));
}

pub(crate) fn write_u64(out: &mut Vec<u8>, x: u64)
    ensures
        final(out)@ == old(out)@ + u64_le(x),
{
    out.push(#[verifier::truncate] (x as u8));
    out.push(#[verifier::truncate] ((x >> 8) as u8));
    out.push(#[verifier::truncate] ((x >> 16) as u8));
    out.push(#[verifier::truncate] ((x >> 24) as u8));
    out.push(#[verifier::truncate] ((x >> 32) as u8));
    out.push(#[verifier::truncate] ((x >> 40) as u8));
    out.push(#[verifier::truncate] ((x >> 48) as u8));
    out.push(#[verifier::truncate] ((x >> 56) as u8));
    assert(out@ =~= old(out)@ + u64_le(x));
}

pub(crate) fn write_bytes(out: &mut Vec<u8>, b: &[u8])
    ensures
        final(out)@ == old(out)@ + b@,
{
    let mut i: usize = 0;
    while i < b.len()
        invariant
            0 <= i <= b@.len(),
            out@ == old(out)@ + b@.subrange(0, i as int),
        decreases b@.len() - i,
    {
        out.push(b[i]);
        i = i + 1;
        assert(out@ =~= old(out)@ + b@.subrange(0, i as int));
    }
    assert(b@.subrange(0, i as int) =~= b@);
}

/// Writes the length of a sequence when it fits; says whether it did.
pub(crate) fn write_len(out: &mut Vec<u8>, n: usize) -> (ok: bool)
    ensures
        ok == fits_len(n as int),
        ok ==> final(out)@ == old(out)@ + len_bytes(n as int),
        !ok ==> final(out)@ == old(out)@,
{
    if n > 0xffff_ffffusize {
        false
    } else {
        write_u32(out, n as u32);
        true
    }
}

/// Writes a string when its length fits; says whether it did.
pub(crate) fn write_str(out: &mut Vec<u8>, s: &String) -> (ok: bool)
    ensures
        ok == str_fits(s@),
        ok ==> final(out)@ == old(out)@ + str_bytes(s@),
{
    let b = s.as_str().as_bytes();
    if write_len(out, b.len()) {
        write_bytes(out, b);
        assert(out@ =~= old(out)@ + str_bytes(s@));
        true
    } else {
        false
    }
}

} // verus!
