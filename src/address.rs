//! Ethereum addresses: twenty raw bytes, their canonical lower-case hex text,
//! and their use as one segment of a storage key.
use vstd::prelude::*;

verus! {

/// The lower-case hex digits, indexed by value.
pub open spec fn hex_digits() -> Seq<char> {
    seq!['0', '1', '2', '3', '4', '5', '6', '7', '8', '9', 'a', 'b', 'c', 'd', 'e', 'f']
}

/// Two lower-case hex digits for each byte, high nibble first.
pub open spec fn hex_of(b: Seq<u8>) -> Seq<char> {
    Seq::new(
        2 * b.len(),
        |i: int|
            if i % 2 == 0 {
                hex_digits()[b[i / 2] as int / 16]
            } else {
                hex_digits()[b[i / 2] as int % 16]
            },
    )
}

/// `"0x"` followed by the lower-case hex of the bytes.
pub open spec fn canonical_text(b: Seq<u8>) -> Seq<char> {
    seq!['0', 'x'] + hex_of(b)
}

pub open spec fn is_hex_char(c: char) -> bool {
    ('0' <= c && c <= '9') || ('a' <= c && c <= 'f') || ('A' <= c && c <= 'F')
}

/// The value of a hex digit, in either case.
pub open spec fn hex_val(c: char) -> int {
    if '0' <= c && c <= '9' {
        c as int - '0' as int
    } else if 'a' <= c && c <= 'f' {
        c as int - 'a' as int + 10
    } else {
        c as int - 'A' as int + 10
    }
}

/// The bytes that a run of hex digits spells, two digits to a byte.
pub open spec fn decode_hex(t: Seq<char>) -> Seq<u8> {
    Seq::new(t.len() / 2, |i: int| (16 * hex_val(t[2 * i]) + hex_val(t[2 * i + 1])) as u8)
}

/// `"0x"` followed by exactly forty hex digits, in any case.
pub open spec fn is_address_text(s: Seq<char>) -> bool {
    &&& s.len() == 42
    &&& s[0] == '0'
    &&& s[1] == 'x'
    &&& forall|i: int| 2 <= i < 42 ==> is_hex_char(#[trigger] s[i])
}

/// The address that a well-formed address text spells.
pub open spec fn address_of_text(s: Seq<char>) -> Seq<u8> {
    decode_hex(s.subrange(2, 42))
}

/// `c` and `d` are the same character, or `c` is the upper-case form of the
/// ASCII letter `d`.
pub open spec fn same_letter_ignoring_case(c: char, d: char) -> bool {
    c == d || ('A' <= c && c <= 'Z' && d as int == c as int + 32)
}

/// Why a text is not an Ethereum address; holds the text.
#[derive(Clone, Debug, PartialEq, Eq)]
pub struct AddressParseError {
    pub input: String,
}

/// Why a storage key segment could not be read back; holds the segment.
#[derive(Clone, Debug, PartialEq, Eq)]
pub enum KeySegError {
    ParseKeySeg(String),
}

/// One segment of a hierarchical storage key.
#[derive(Clone, Debug, PartialEq, Eq)]
pub enum DbKeySeg {
    StringSeg(String),
}

/// An address on Ethereum: the last twenty bytes of the public key that
/// controls the account. Every twenty bytes are an address.
#[derive(Clone, Copy, Debug, PartialEq, Eq, PartialOrd, Ord, Hash)]
pub struct EthAddress(pub [u8; 20]);

proof fn lemma_hex_digit_val(n: int)
    requires
        0 <= n < 16,
    ensures
        is_hex_char(hex_digits()[n]),
        hex_val(hex_digits()[n]) == n,
{
}

fn is_hex_digit(c: char) -> (r: bool)
    ensures
        r == is_hex_char(c),
{
    ('0' <= c && c <= '9') || ('a' <= c && c <= 'f') || ('A' <= c && c <= 'F')
}

impl EthAddress {
    /// The canonical text of the address, as storage keys hold it: `"0x"`
    /// and forty lower-case hex digits.
    pub fn to_canonical(&self) -> (r: String)
        ensures
            r@ == canonical_text(self.0@),
    {
        h160_debug_text(self.0)
    }

    /// The address as text: its canonical form.
    pub fn to_string(&self) -> (r: String)
        ensures
            r@ == canonical_text(self.0@),
    {
        self.to_canonical()
    }

    /// Reads an address from `"0x"` and forty hex digits, in lower case or in
    /// any mix of cases (the checksum casing is accepted, not checked).
    pub fn from_str(s: &str) -> (r: Result<EthAddress, AddressParseError>)
        ensures
            r is Ok <==> is_address_text(s@),
            r matches Ok(a) ==> a.0@ == address_of_text(s@),
            r matches Err(e) ==> e.input@ == s@,
    {
        let n = s.unicode_len();
        let mut ok = n == 42 && s.get_char(0) == '0' && s.get_char(1) == 'x';
        if ok {
            let mut i: usize = 2;
            while i < 42
                invariant
                    n == 42 == s@.len(),
                    2 <= i <= 42,
                    ok ==> forall|j: int| 2 <= j < i ==> is_hex_char(#[trigger] s@[j]),
                    !ok ==> !is_address_text(s@),
                    s@[0] == '0' && s@[1] == 'x',
                decreases 42 - i,
            {
                if ok && !is_hex_digit(s.get_char(i)) {
                    ok = false;
                }
                i = i + 1;
            }
        }
        if !ok {
            return Err(AddressParseError { input: s.to_string() });
        }
        match h160_from_text(s) {
            Some(b) => Ok(EthAddress(b)),
            None => Err(AddressParseError { input: s.to_string() }),
        }
    }

    /// Same as `from_str`, on an owned string.
    pub fn try_from(string: String) -> (r: Result<EthAddress, AddressParseError>)
        ensures
            r is Ok <==> is_address_text(string@),
            r matches Ok(a) ==> a.0@ == address_of_text(string@),
            r matches Err(e) ==> e.input@ == string@,
    {
        EthAddress::from_str(string.as_str())
    }

    /// The address as a storage key segment: its canonical text.
    pub fn raw(&self) -> (r: String)
        ensures
            r@ == canonical_text(self.0@),
    {
        self.to_canonical()
    }

    /// Reads an address back from a storage key segment; a segment that is
    /// not an address is reported as a bad key segment holding it.
    pub fn parse(string: String) -> (r: Result<EthAddress, KeySegError>)
        ensures
            r is Ok <==> is_address_text(string@),
            r matches Ok(a) ==> a.0@ == address_of_text(string@),
            r matches Err(KeySegError::ParseKeySeg(seg)) ==> seg@ == string@,
    {
        match EthAddress::from_str(string.as_str()) {
            Ok(a) => Ok(a),
            Err(_) => Err(KeySegError::ParseKeySeg(string)),
        }
    }

    /// The storage key segment of the address.
    pub fn to_db_key(&self) -> (r: DbKeySeg)
        ensures
            r matches DbKeySeg::StringSeg(seg) && seg@ == canonical_text(self.0@),
    {
        DbKeySeg::StringSeg(self.raw())
    }
}

/// The canonical text of every address is well formed and spells that
/// address again.
pub proof fn lemma_canonical_round_trip(b: Seq<u8>)
    requires
        b.len() == 20,
    ensures
        is_address_text(canonical_text(b)),
        address_of_text(canonical_text(b)) == b,
{
    let t = canonical_text(b);
    assert forall|i: int| 2 <= i < 42 implies is_hex_char(#[trigger] t[i]) by {
        let k = i - 2;
        if k % 2 == 0 {
            lemma_hex_digit_val(b[k / 2] as int / 16);
        } else {
            lemma_hex_digit_val(b[k / 2] as int % 16);
        }
    }
    let d = address_of_text(t);
    assert forall|j: int| 0 <= j < 20 implies d[j] == b[j] by {
        lemma_hex_digit_val(b[j] as int / 16);
        lemma_hex_digit_val(b[j] as int % 16);
        assert(t.subrange(2, 42)[2 * j] == hex_digits()[b[j] as int / 16]);
        assert(t.subrange(2, 42)[2 * j + 1] == hex_digits()[b[j] as int % 16]);
    }
    assert(d =~= b);
}

/// Reading an address is blind to the case of its hex digits: every text
/// that differs from an address's canonical text only in the case of the
/// letters after `"0x"` (the checksummed form among them) reads as that
/// address.
pub proof fn lemma_parse_ignores_case(b: Seq<u8>, s: Seq<char>)
    requires
        b.len() == 20,
        s.len() == 42,
        s[0] == '0',
        s[1] == 'x',
        forall|i: int| 2 <= i < 42 ==> same_letter_ignoring_case(#[trigger] s[i], canonical_text(b)[i]),
    ensures
        is_address_text(s),
        address_of_text(s) == b,
{
    let t = canonical_text(b);
    lemma_canonical_round_trip(b);
    assert forall|i: int| 2 <= i < 42 implies is_hex_char(#[trigger] s[i]) && hex_val(s[i]) == hex_val(t[i]) by {
        assert(same_letter_ignoring_case(s[i], t[i]));
        assert(is_hex_char(t[i]));
    }
    let (ds, dt) = (address_of_text(s), address_of_text(t));
    assert forall|j: int| 0 <= j < 20 implies ds[j] == dt[j] by {
        assert(s.subrange(2, 42)[2 * j] == s[2 * j + 2]);
        assert(t.subrange(2, 42)[2 * j] == t[2 * j + 2]);
        assert(s.subrange(2, 42)[2 * j + 1] == s[2 * j + 3]);
        assert(t.subrange(2, 42)[2 * j + 1] == t[2 * j + 3]);
        assert(hex_val(s[2 * j + 2]) == hex_val(t[2 * j + 2]));
        assert(hex_val(s[2 * j + 3]) == hex_val(t[2 * j + 3]));
    }
    assert(ds =~= dt);
}

/// Relies on the `Debug` form of `ethabi::ethereum_types::Address`
/// (fixed-hash 0.8): `"0x"` and two lower-case hex digits per byte.
#[verifier::external_body]
fn h160_debug_text(b: [u8; 20]) -> (r: String)
    ensures
        r@ == canonical_text(b@),
{
    format!("{:?}", ethabi::ethereum_types::Address::from(b))
}

/// Relies on `FromStr` of `ethabi::ethereum_types::Address` (fixed-hash 0.8,
/// rustc-hex 2.1): on `"0x"` and forty hex digits it succeeds with the bytes
/// that each pair of digits spells, high digit first, in either case.
#[verifier::external_body]
fn h160_from_text(s: &str) -> (r: Option<[u8; 20]>)
    requires
        is_address_text(s@),
    ensures
        r is Some,
        r.unwrap()@ == address_of_text(s@),
{
    <ethabi::ethereum_types::Address as std::str::FromStr>::from_str(s).ok().map(|h| h.0)
}

} // verus!
