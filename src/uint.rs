//! A 256-bit unsigned integer held as four 64-bit words, least significant first.
use core::cmp::Ordering;
use vstd::prelude::*;

verus! {

/// The eight bytes of `x`, least significant first.
pub open spec fn u64_le(x: u64) -> Seq<u8> {
    seq![
        x as u8,
        (x >> 8u64) as u8,
        (x >> 16u64) as u8,
        (x >> 24u64) as u8,
        (x >> 32u64) as u8,
        (x >> 40u64) as u8,
        (x >> 48u64) as u8,
        (x >> 56u64) as u8,
    ]
}

/// The 32 bytes of four words laid out one after the other, each least
/// significant byte first: the little-endian form of a uint256.
pub open spec fn words_le(w: Seq<u64>) -> Seq<u8> {
    u64_le(w[0]) + u64_le(w[1]) + u64_le(w[2]) + u64_le(w[3])
}

/// The weight of one word over the next lower one: `2^64`.
pub open spec fn word_base() -> int {
    0x1_0000_0000_0000_0000
}

/// The number that four little-endian words stand for.
pub open spec fn words_value(w: Seq<u64>) -> int {
    w[0] + word_base() * (w[1] + word_base() * (w[2] + word_base() * w[3]))
}

/// A number written as a low word and the rest orders by the rest first,
/// then by the low word.
proof fn lemma_order_step(a: int, b: int, x: int, y: int)
    requires
        0 <= a < word_base(),
        0 <= b < word_base(),
        0 <= x,
        0 <= y,
    ensures
        x < y ==> a + word_base() * x < b + word_base() * y,
        x == y ==> (a + word_base() * x < b + word_base() * y <==> a < b),
        x == y ==> (a + word_base() * x == b + word_base() * y <==> a == b),
{
    if x < y {
        assert(word_base() * x + word_base() <= word_base() * y) by (nonlinear_arith)
            requires
                x < y,
                word_base() > 0,
        ;
    }
}

/// Comparing the words from the most significant down orders by value.
proof fn lemma_words_order(v: Seq<u64>, w: Seq<u64>)
    requires
        v.len() == 4,
        w.len() == 4,
    ensures
        v[3] != w[3] ==> (words_value(v) < words_value(w) <==> v[3] < w[3]),
        v[3] == w[3] && v[2] != w[2] ==> (words_value(v) < words_value(w) <==> v[2] < w[2]),
        v[3] == w[3] && v[2] == w[2] && v[1] != w[1] ==> (words_value(v) < words_value(w)
            <==> v[1] < w[1]),
        v[3] == w[3] && v[2] == w[2] && v[1] == w[1] ==> (words_value(v) < words_value(w)
            <==> v[0] < w[0]),
        words_value(v) == words_value(w) <==> v =~= w,
{
    let b = word_base();
    let (v2, w2) = (v[2] + b * v[3], w[2] + b * w[3]);
    let (v1, w1) = (v[1] + b * v2, w[1] + b * w2);
    assert(0 <= b * v[3] && 0 <= b * w[3]) by (nonlinear_arith)
        requires
            b > 0,
            v[3] >= 0,
            w[3] >= 0,
    ;
    assert(0 <= b * v2 && 0 <= b * w2) by (nonlinear_arith)
        requires
            b > 0,
            v2 >= 0,
            w2 >= 0,
    ;
    lemma_order_step(v[2] as int, w[2] as int, v[3] as int, w[3] as int);
    lemma_order_step(w[2] as int, v[2] as int, w[3] as int, v[3] as int);
    lemma_order_step(v[1] as int, w[1] as int, v2, w2);
    lemma_order_step(w[1] as int, v[1] as int, w2, v2);
    lemma_order_step(v[0] as int, w[0] as int, v1, w1);
    lemma_order_step(w[0] as int, v[0] as int, w1, v1);
}

/// Equal eight-byte forms come from equal integers.
pub proof fn lemma_u64_le_injective(x: u64, y: u64)
    requires
        u64_le(x) == u64_le(y),
    ensures
        x == y,
{
    assert(u64_le(x)[0] == u64_le(y)[0]);
    assert(u64_le(x)[1] == u64_le(y)[1]);
    assert(u64_le(x)[2] == u64_le(y)[2]);
    assert(u64_le(x)[3] == u64_le(y)[3]);
    assert(u64_le(x)[4] == u64_le(y)[4]);
    assert(u64_le(x)[5] == u64_le(y)[5]);
    assert(u64_le(x)[6] == u64_le(y)[6]);
    assert(u64_le(x)[7] == u64_le(y)[7]);
    assert(x == y) by (bit_vector)
        requires
            x as u8 == y as u8,
            (x >> 8u64) as u8 == (y >> 8u64) as u8,
            (x >> 16u64) as u8 == (y >> 16u64) as u8,
            (x >> 24u64) as u8 == (y >> 24u64) as u8,
            (x >> 32u64) as u8 == (y >> 32u64) as u8,
            (x >> 40u64) as u8 == (y >> 40u64) as u8,
            (x >> 48u64) as u8 == (y >> 48u64) as u8,
            (x >> 56u64) as u8 == (y >> 56u64) as u8,
    ;
}

/// Equal 32-byte forms come from equal words.
pub proof fn lemma_words_le_injective(a: Seq<u64>, b: Seq<u64>)
    requires
        a.len() == 4,
        b.len() == 4,
        words_le(a) == words_le(b),
    ensures
        a == b,
{
    let (la, lb) = (words_le(a), words_le(b));
    assert(la.subrange(0, 8) =~= u64_le(a[0]) && lb.subrange(0, 8) =~= u64_le(b[0]));
    assert(la.subrange(8, 16) =~= u64_le(a[1]) && lb.subrange(8, 16) =~= u64_le(b[1]));
    assert(la.subrange(16, 24) =~= u64_le(a[2]) && lb.subrange(16, 24) =~= u64_le(b[2]));
    assert(la.subrange(24, 32) =~= u64_le(a[3]) && lb.subrange(24, 32) =~= u64_le(b[3]));
    lemma_u64_le_injective(a[0], b[0]);
    lemma_u64_le_injective(a[1], b[1]);
    lemma_u64_le_injective(a[2], b[2]);
    lemma_u64_le_injective(a[3], b[3]);
    assert(a =~= b);
}

/// A 256-bit unsigned integer: word `i` weighs `2^(64 i)`.
#[derive(Clone, Copy, Debug, Default, Hash, PartialEq, Eq)]
pub struct Uint(pub [u64; 4]);

impl Uint {
    /// The number this integer stands for.
    pub open spec fn value(&self) -> int {
        words_value(self.0@)
    }

    /// The little-endian 32-byte form of a uint256.
    pub fn to_bytes(self) -> (r: [u8; 32])
        ensures
            r@ == words_le(self.0@),
    {
        u256_le_bytes(self.0)
    }

    /// Zero-extends a 64-bit value.
    pub fn from(value: u64) -> (r: Uint)
        ensures
            r.0@ == seq![value, 0u64, 0u64, 0u64],
            r.value() == value,
    {
        let r = Uint([value, 0, 0, 0]);
        assert(r.0@ =~= seq![value, 0u64, 0u64, 0u64]);
        r
    }
}

/// Uints order by the numbers they stand for: the most significant word
/// decides first.
impl PartialOrd for Uint {
    fn partial_cmp(&self, other: &Uint) -> Option<Ordering> {
        proof {
            lemma_words_order(self.0@, other.0@);
        }
        let (a, b) = (self.0, other.0);
        let r = if a[3] != b[3] {
            if a[3] < b[3] { Ordering::Less } else { Ordering::Greater }
        } else if a[2] != b[2] {
            if a[2] < b[2] { Ordering::Less } else { Ordering::Greater }
        } else if a[1] != b[1] {
            if a[1] < b[1] { Ordering::Less } else { Ordering::Greater }
        } else if a[0] != b[0] {
            if a[0] < b[0] { Ordering::Less } else { Ordering::Greater }
        } else {
            Ordering::Equal
        };
        Some(r)
    }
}

impl vstd::std_specs::cmp::PartialOrdSpecImpl for Uint {
    open spec fn obeys_partial_cmp_spec() -> bool {
        true
    }

    open spec fn partial_cmp_spec(&self, other: &Uint) -> Option<Ordering> {
        Some(
            if self.value() < other.value() {
                Ordering::Less
            } else if self.value() > other.value() {
                Ordering::Greater
            } else {
                Ordering::Equal
            },
        )
    }
}

/// Relies on `ethabi::Uint::to_little_endian` (uint 0.9): it writes word `i`
/// as eight little-endian bytes at offset `8 i`.
#[verifier::external_body]
fn u256_le_bytes(words: [u64; 4]) -> (r: [u8; 32])
    ensures
        r@ == words_le(words@),
{
    let mut bytes = [0u8; 32];
    ethabi::ethereum_types::U256(words).to_little_endian(&mut bytes);
    bytes
}

} // verus!
