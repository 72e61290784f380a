//! Events observed on Ethereum, their payload records, and the canonical
//! encoding and digest that independent observers compute identically.
use crate::address::EthAddress;
use crate::encoding::{
    lemma_len_bytes_injective, lemma_split_equal, lemma_str_bytes_prefix, fits_len, len_bytes, str_bytes, str_fits, write_bytes, write_len, write_str, write_u64,
    EncodingError,
};
use crate::uint::{lemma_u64_le_injective, lemma_words_le_injective, u64_le, words_le, Uint};
use vstd::prelude::*;

verus! {

/// A quantity of a token, in its smallest unit.
#[derive(Clone, Copy, Debug, Default, PartialEq, Eq, PartialOrd, Ord, Hash)]
pub struct Amount {
    pub micro: u64,
}

impl Amount {
    pub fn from(micro: u64) -> (r: Amount)
        ensures
            r.micro == micro,
    {
        Amount { micro }
    }
}

/// An address on the native ledger, in its textual form.
#[derive(Clone, Debug, PartialEq, Eq, PartialOrd, Ord, Hash)]
pub struct Address(pub String);

/// A 32-byte Keccak digest.
#[derive(Clone, Copy, Debug, PartialEq, Eq, PartialOrd, Ord, Hash)]
pub struct KeccakHash(pub [u8; 32]);

/// A 32-byte SHA-256 digest.
#[derive(Clone, Copy, Debug, PartialEq, Eq, PartialOrd, Ord, Hash)]
pub struct Hash(pub [u8; 32]);

/// Value moving from Ethereum to the native ledger.
#[derive(Clone, Debug, PartialEq, Eq, PartialOrd, Ord, Hash)]
pub struct TransferToNamada {
    /// Quantity of the ERC20 token in the transfer
    pub amount: Amount,
    /// Address of the smart contract issuing the token
    pub asset: EthAddress,
    /// The address receiving wrapped assets on the native ledger
    pub receiver: Address,
}

/// Value moving from the native ledger to Ethereum, with the fee paid for it.
#[derive(Clone, Debug, PartialEq, Eq, PartialOrd, Ord, Hash)]
pub struct TransferToEthereum {
    /// Quantity of wrapped asset in the transfer
    pub amount: Amount,
    /// Address of the smart contract issuing the token
    pub asset: EthAddress,
    /// The address receiving assets on Ethereum
    pub receiver: EthAddress,
    /// The amount of fees, in the native token
    pub gas_amount: Amount,
    /// The account that paid the fees
    pub gas_payer: Address,
}

/// A token allowed across the bridge, with a cap on the amount of it that
/// the bridge may hold.
#[derive(Clone, Debug, PartialEq, Eq, PartialOrd, Ord, Hash)]
pub struct TokenWhitelist {
    /// Address of the Ethereum contract issuing the token
    pub token: EthAddress,
    /// Maximum amount of the token allowed on the bridge
    pub cap: Amount,
}

/// An event on Ethereum to be processed by the native ledger. Variants order
/// as declared, then by their fields in order.
#[derive(Clone, Debug, PartialEq, Eq, PartialOrd, Hash)]
pub enum EthereumEvent {
    /// A batch of transfers from Ethereum to wrapped assets on the native ledger
    TransfersToNamada { nonce: Uint, transfers: Vec<TransferToNamada> },
    /// Confirmation that a batch of transfers to Ethereum has been made
    TransfersToEthereum { nonce: Uint, transfers: Vec<TransferToEthereum> },
    /// The validator set has been updated in the governance contract
    ValidatorSetUpdate {
        nonce: Uint,
        bridge_validator_hash: KeccakHash,
        governance_validator_hash: KeccakHash,
    },
    /// A new smart contract has been deployed
    NewContract { name: String, address: EthAddress },
    /// A smart contract has been upgraded
    UpgradedContract { name: String, address: EthAddress },
    /// Tokens have been allowed across the bridge
    UpdateBridgeWhitelist { nonce: Uint, whitelist: Vec<TokenWhitelist> },
}

pub open spec fn to_namada_bytes(t: TransferToNamada) -> Seq<u8> {
    u64_le(t.amount.micro) + t.asset.0@ + str_bytes(t.receiver.0@)
}

pub open spec fn to_ethereum_bytes(t: TransferToEthereum) -> Seq<u8> {
    u64_le(t.amount.micro) + t.asset.0@ + t.receiver.0@ + u64_le(t.gas_amount.micro) + str_bytes(
        t.gas_payer.0@,
    )
}

pub open spec fn whitelist_bytes(w: TokenWhitelist) -> Seq<u8> {
    w.token.0@ + u64_le(w.cap.micro)
}

/// The records of a batch, one after the other.
pub open spec fn to_namada_list(s: Seq<TransferToNamada>) -> Seq<u8>
    decreases s.len(),
{
    if s.len() == 0 {
        seq![]
    } else {
        to_namada_list(s.drop_last()) + to_namada_bytes(s.last())
    }
}

pub open spec fn to_ethereum_list(s: Seq<TransferToEthereum>) -> Seq<u8>
    decreases s.len(),
{
    if s.len() == 0 {
        seq![]
    } else {
        to_ethereum_list(s.drop_last()) + to_ethereum_bytes(s.last())
    }
}

pub open spec fn whitelist_list(s: Seq<TokenWhitelist>) -> Seq<u8>
    decreases s.len(),
{
    if s.len() == 0 {
        seq![]
    } else {
        whitelist_list(s.drop_last()) + whitelist_bytes(s.last())
    }
}

/// The tag of each variant: its place in declaration order.
pub open spec fn event_tag(e: EthereumEvent) -> u8 {
    match e {
        EthereumEvent::TransfersToNamada { .. } => 0,
        EthereumEvent::TransfersToEthereum { .. } => 1,
        EthereumEvent::ValidatorSetUpdate { .. } => 2,
        EthereumEvent::NewContract { .. } => 3,
        EthereumEvent::UpgradedContract { .. } => 4,
        EthereumEvent::UpdateBridgeWhitelist { .. } => 5,
    }
}

/// The canonical encoding of an event: its tag, then its fields in
/// declaration order; a batch as its count and then its records in order.
pub open spec fn event_bytes(e: EthereumEvent) -> Seq<u8> {
    seq![event_tag(e)] + match e {
        EthereumEvent::TransfersToNamada { nonce, transfers } => words_le(nonce.0@) + len_bytes(
            transfers@.len() as int,
        ) + to_namada_list(transfers@),
        EthereumEvent::TransfersToEthereum { nonce, transfers } => words_le(nonce.0@) + len_bytes(
            transfers@.len() as int,
        ) + to_ethereum_list(transfers@),
        EthereumEvent::ValidatorSetUpdate {
            nonce,
            bridge_validator_hash,
            governance_validator_hash,
        } => words_le(nonce.0@) + bridge_validator_hash.0@ + governance_validator_hash.0@,
        EthereumEvent::NewContract { name, address } => str_bytes(name@) + address.0@,
        EthereumEvent::UpgradedContract { name, address } => str_bytes(name@) + address.0@,
        EthereumEvent::UpdateBridgeWhitelist { nonce, whitelist } => words_le(nonce.0@)
            + len_bytes(whitelist@.len() as int) + whitelist_list(whitelist@),
    }
}

/// Every length in the event fits in its four-byte prefix.
pub open spec fn encodable(e: EthereumEvent) -> bool {
    match e {
        EthereumEvent::TransfersToNamada { transfers, .. } => fits_len(transfers@.len() as int)
            && forall|i: int|
            0 <= i < transfers@.len() ==> str_fits(#[trigger] transfers@[i].receiver.0@),
        EthereumEvent::TransfersToEthereum { transfers, .. } => fits_len(transfers@.len() as int)
            && forall|i: int|
            0 <= i < transfers@.len() ==> str_fits(#[trigger] transfers@[i].gas_payer.0@),
        EthereumEvent::NewContract { name, .. } => str_fits(name@),
        EthereumEvent::UpgradedContract { name, .. } => str_fits(name@),
        EthereumEvent::ValidatorSetUpdate { .. } => true,
        EthereumEvent::UpdateBridgeWhitelist { whitelist, .. } => fits_len(
            whitelist@.len() as int,
        ),
    }
}

/// A name for the SHA-256 digest of a byte sequence.
pub uninterp spec fn sha256_of(b: Seq<u8>) -> Seq<u8>;

/// Relies on `sha2::Sha256::digest`: the digest is a function of the bytes
/// alone.
#[verifier::external_body]
fn sha256(b: &Vec<u8>) -> (r: [u8; 32])
    ensures
        r@ == sha256_of(b@),
{
    <sha2::Sha256 as sha2::Digest>::digest(b.as_slice()).into()
}

fn write_uint(out: &mut Vec<u8>, u: &Uint)
    ensures
        final(out)@ == old(out)@ + words_le(u.0@),
{
    write_u64(out, u.0[0]);
    write_u64(out, u.0[1]);
    write_u64(out, u.0[2]);
    write_u64(out, u.0[3]);
    assert(out@ =~= old(out)@ + words_le(u.0@));
}

fn write_to_namada(out: &mut Vec<u8>, t: &TransferToNamada) -> (ok: bool)
    ensures
        ok == str_fits(t.receiver.0@),
        ok ==> final(out)@ == old(out)@ + to_namada_bytes(*t),
{
    write_u64(out, t.amount.micro);
    write_bytes(out, t.asset.0.as_slice());
    let ok = write_str(out, &t.receiver.0);
    assert(ok ==> out@ =~= old(out)@ + to_namada_bytes(*t));
    ok
}

fn write_to_ethereum(out: &mut Vec<u8>, t: &TransferToEthereum) -> (ok: bool)
    ensures
        ok == str_fits(t.gas_payer.0@),
        ok ==> final(out)@ == old(out)@ + to_ethereum_bytes(*t),
{
    write_u64(out, t.amount.micro);
    write_bytes(out, t.asset.0.as_slice());
    write_bytes(out, t.receiver.0.as_slice());
    write_u64(out, t.gas_amount.micro);
    let ok = write_str(out, &t.gas_payer.0);
    assert(ok ==> out@ =~= old(out)@ + to_ethereum_bytes(*t));
    ok
}

fn write_whitelist(out: &mut Vec<u8>, w: &TokenWhitelist)
    ensures
        final(out)@ == old(out)@ + whitelist_bytes(*w),
{
    write_bytes(out, w.token.0.as_slice());
    write_u64(out, w.cap.micro);
    assert(out@ =~= old(out)@ + whitelist_bytes(*w));
}

fn write_to_namada_list(out: &mut Vec<u8>, v: &Vec<TransferToNamada>) -> (ok: bool)
    ensures
        ok == (fits_len(v@.len() as int) && forall|i: int|
            0 <= i < v@.len() ==> str_fits(#[trigger] v@[i].receiver.0@)),
        ok ==> final(out)@ == old(out)@ + len_bytes(v@.len() as int) + to_namada_list(v@),
{
    if !write_len(out, v.len()) {
        return false;
    }
    let ghost mid = out@;
    let mut i: usize = 0;
    while i < v.len()
        invariant
            i <= v@.len(),
            mid == old(out)@ + len_bytes(v@.len() as int),
            out@ == mid + to_namada_list(v@.subrange(0, i as int)),
            forall|j: int| 0 <= j < i ==> str_fits(#[trigger] v@[j].receiver.0@),
        decreases v@.len() - i,
    {
        if !write_to_namada(out, &v[i]) {
            return false;
        }
        assert(v@.subrange(0, i + 1).drop_last() =~= v@.subrange(0, i as int));
        i = i + 1;
    }
    assert(v@.subrange(0, i as int) =~= v@);
    true
}

fn write_to_ethereum_list(out: &mut Vec<u8>, v: &Vec<TransferToEthereum>) -> (ok: bool)
    ensures
        ok == (fits_len(v@.len() as int) && forall|i: int|
            0 <= i < v@.len() ==> str_fits(#[trigger] v@[i].gas_payer.0@)),
        ok ==> final(out)@ == old(out)@ + len_bytes(v@.len() as int) + to_ethereum_list(v@),
{
    if !write_len(out, v.len()) {
        return false;
    }
    let ghost mid = out@;
    let mut i: usize = 0;
    while i < v.len()
        invariant
            i <= v@.len(),
            mid == old(out)@ + len_bytes(v@.len() as int),
            out@ == mid + to_ethereum_list(v@.subrange(0, i as int)),
            forall|j: int| 0 <= j < i ==> str_fits(#[trigger] v@[j].gas_payer.0@),
        decreases v@.len() - i,
    {
        if !write_to_ethereum(out, &v[i]) {
            return false;
        }
        assert(v@.subrange(0, i + 1).drop_last() =~= v@.subrange(0, i as int));
        i = i + 1;
    }
    assert(v@.subrange(0, i as int) =~= v@);
    true
}

fn write_whitelist_list(out: &mut Vec<u8>, v: &Vec<TokenWhitelist>) -> (ok: bool)
    ensures
        ok == fits_len(v@.len() as int),
        ok ==> final(out)@ == old(out)@ + len_bytes(v@.len() as int) + whitelist_list(v@),
{
    if !write_len(out, v.len()) {
        return false;
    }
    let ghost mid = out@;
    let mut i: usize = 0;
    while i < v.len()
        invariant
            i <= v@.len(),
            mid == old(out)@ + len_bytes(v@.len() as int),
            out@ == mid + whitelist_list(v@.subrange(0, i as int)),
        decreases v@.len() - i,
    {
        write_whitelist(out, &v[i]);
        assert(v@.subrange(0, i + 1).drop_last() =~= v@.subrange(0, i as int));
        i = i + 1;
    }
    assert(v@.subrange(0, i as int) =~= v@);
    true
}

impl EthereumEvent {
    /// The canonical encoding of the event; fails only where a length in it
    /// does not fit in four bytes.
    pub fn try_to_vec(&self) -> (r: Result<Vec<u8>, EncodingError>)
        ensures
            r is Ok <==> encodable(*self),
            r matches Ok(b) ==> b@ == event_bytes(*self),
    {
        let mut out: Vec<u8> = Vec::new();
        match self {
            EthereumEvent::TransfersToNamada { nonce, transfers } => {
                out.push(0u8);
                write_uint(&mut out, nonce);
                if !write_to_namada_list(&mut out, transfers) {
                    return Err(EncodingError);
                }
            },
            EthereumEvent::TransfersToEthereum { nonce, transfers } => {
                out.push(1u8);
                write_uint(&mut out, nonce);
                if !write_to_ethereum_list(&mut out, transfers) {
                    return Err(EncodingError);
                }
            },
            EthereumEvent::ValidatorSetUpdate {
                nonce,
                bridge_validator_hash,
                governance_validator_hash,
            } => {
                out.push(2u8);
                write_uint(&mut out, nonce);
                write_bytes(&mut out, bridge_validator_hash.0.as_slice());
                write_bytes(&mut out, governance_validator_hash.0.as_slice());
            },
            EthereumEvent::NewContract { name, address } => {
                out.push(3u8);
                if !write_str(&mut out, name) {
                    return Err(EncodingError);
                }
                write_bytes(&mut out, address.0.as_slice());
            },
            EthereumEvent::UpgradedContract { name, address } => {
                out.push(4u8);
                if !write_str(&mut out, name) {
                    return Err(EncodingError);
                }
                write_bytes(&mut out, address.0.as_slice());
            },
            EthereumEvent::UpdateBridgeWhitelist { nonce, whitelist } => {
                out.push(5u8);
                write_uint(&mut out, nonce);
                if !write_whitelist_list(&mut out, whitelist) {
                    return Err(EncodingError);
                }
            },
        }
        assert(out@ =~= event_bytes(*self));
        Ok(out)
    }

    /// SHA-256 of the canonical encoding of the event.
    pub fn hash(&self) -> (r: Result<Hash, EncodingError>)
        ensures
            r is Ok <==> encodable(*self),
            r matches Ok(h) ==> h.0@ == sha256_of(event_bytes(*self)),
    {
        let bytes = self.try_to_vec()?;
        Ok(Hash(sha256(&bytes)))
    }
}

/// Two transfers to the native ledger hold the same values.
pub open spec fn same_to_namada(x: TransferToNamada, y: TransferToNamada) -> bool {
    x.amount == y.amount && x.asset.0@ == y.asset.0@ && x.receiver.0@ == y.receiver.0@
}

/// Two transfers to Ethereum hold the same values.
pub open spec fn same_to_ethereum(x: TransferToEthereum, y: TransferToEthereum) -> bool {
    &&& x.amount == y.amount
    &&& x.asset.0@ == y.asset.0@
    &&& x.receiver.0@ == y.receiver.0@
    &&& x.gas_amount == y.gas_amount
    &&& x.gas_payer.0@ == y.gas_payer.0@
}

/// Two whitelist entries hold the same values.
pub open spec fn same_whitelist(x: TokenWhitelist, y: TokenWhitelist) -> bool {
    x.token.0@ == y.token.0@ && x.cap == y.cap
}

/// Two events of the same kind whose fields hold the same values, batches
/// holding the same records in the same order.
pub open spec fn same_event(a: EthereumEvent, b: EthereumEvent) -> bool {
    match (a, b) {
        (
            EthereumEvent::TransfersToNamada { nonce: n1, transfers: t1 },
            EthereumEvent::TransfersToNamada { nonce: n2, transfers: t2 },
        ) => n1.0@ == n2.0@ && t1@.len() == t2@.len() && forall|i: int|
            0 <= i < t1@.len() ==> same_to_namada(#[trigger] t1@[i], t2@[i]),
        (
            EthereumEvent::TransfersToEthereum { nonce: n1, transfers: t1 },
            EthereumEvent::TransfersToEthereum { nonce: n2, transfers: t2 },
        ) => n1.0@ == n2.0@ && t1@.len() == t2@.len() && forall|i: int|
            0 <= i < t1@.len() ==> same_to_ethereum(#[trigger] t1@[i], t2@[i]),
        (
            EthereumEvent::ValidatorSetUpdate {
                nonce: n1,
                bridge_validator_hash: b1,
                governance_validator_hash: g1,
            },
            EthereumEvent::ValidatorSetUpdate {
                nonce: n2,
                bridge_validator_hash: b2,
                governance_validator_hash: g2,
            },
        ) => n1.0@ == n2.0@ && b1.0@ == b2.0@ && g1.0@ == g2.0@,
        (
            EthereumEvent::NewContract { name: m1, address: a1 },
            EthereumEvent::NewContract { name: m2, address: a2 },
        ) => m1@ == m2@ && a1.0@ == a2.0@,
        (
            EthereumEvent::UpgradedContract { name: m1, address: a1 },
            EthereumEvent::UpgradedContract { name: m2, address: a2 },
        ) => m1@ == m2@ && a1.0@ == a2.0@,
        (
            EthereumEvent::UpdateBridgeWhitelist { nonce: n1, whitelist: w1 },
            EthereumEvent::UpdateBridgeWhitelist { nonce: n2, whitelist: w2 },
        ) => n1.0@ == n2.0@ && w1@.len() == w2@.len() && forall|i: int|
            0 <= i < w1@.len() ==> same_whitelist(#[trigger] w1@[i], w2@[i]),
        _ => false,
    }
}

proof fn lemma_same_to_namada_list(s: Seq<TransferToNamada>, t: Seq<TransferToNamada>)
    requires
        s.len() == t.len(),
        forall|i: int| 0 <= i < s.len() ==> same_to_namada(#[trigger] s[i], t[i]),
    ensures
        to_namada_list(s) == to_namada_list(t),
    decreases s.len(),
{
    if s.len() > 0 {
        lemma_same_to_namada_list(s.drop_last(), t.drop_last());
        assert(same_to_namada(s[s.len() - 1], t[t.len() - 1]));
    }
}

proof fn lemma_same_to_ethereum_list(s: Seq<TransferToEthereum>, t: Seq<TransferToEthereum>)
    requires
        s.len() == t.len(),
        forall|i: int| 0 <= i < s.len() ==> same_to_ethereum(#[trigger] s[i], t[i]),
    ensures
        to_ethereum_list(s) == to_ethereum_list(t),
    decreases s.len(),
{
    if s.len() > 0 {
        lemma_same_to_ethereum_list(s.drop_last(), t.drop_last());
        assert(same_to_ethereum(s[s.len() - 1], t[t.len() - 1]));
    }
}

proof fn lemma_same_whitelist_list(s: Seq<TokenWhitelist>, t: Seq<TokenWhitelist>)
    requires
        s.len() == t.len(),
        forall|i: int| 0 <= i < s.len() ==> same_whitelist(#[trigger] s[i], t[i]),
    ensures
        whitelist_list(s) == whitelist_list(t),
    decreases s.len(),
{
    if s.len() > 0 {
        lemma_same_whitelist_list(s.drop_last(), t.drop_last());
        assert(same_whitelist(s[s.len() - 1], t[t.len() - 1]));
    }
}

proof fn lemma_to_namada_front(x: TransferToNamada, y: TransferToNamada, r1: Seq<u8>, r2: Seq<u8>)
    requires
        str_fits(x.receiver.0@),
        str_fits(y.receiver.0@),
        to_namada_bytes(x) + r1 == to_namada_bytes(y) + r2,
    ensures
        same_to_namada(x, y),
        r1 == r2,
{
    let (sx, sy) = (str_bytes(x.receiver.0@) + r1, str_bytes(y.receiver.0@) + r2);
    assert(to_namada_bytes(x) + r1 =~= u64_le(x.amount.micro) + (x.asset.0@ + sx));
    assert(to_namada_bytes(y) + r2 =~= u64_le(y.amount.micro) + (y.asset.0@ + sy));
    lemma_split_equal(u64_le(x.amount.micro), x.asset.0@ + sx, u64_le(y.amount.micro), y.asset.0@ + sy);
    lemma_u64_le_injective(x.amount.micro, y.amount.micro);
    lemma_split_equal(x.asset.0@, sx, y.asset.0@, sy);
    lemma_str_bytes_prefix(x.receiver.0@, y.receiver.0@, r1, r2);
}

proof fn lemma_to_ethereum_front(x: TransferToEthereum, y: TransferToEthereum, r1: Seq<u8>, r2: Seq<u8>)
    requires
        str_fits(x.gas_payer.0@),
        str_fits(y.gas_payer.0@),
        to_ethereum_bytes(x) + r1 == to_ethereum_bytes(y) + r2,
    ensures
        same_to_ethereum(x, y),
        r1 == r2,
{
    let (sx, sy) = (str_bytes(x.gas_payer.0@) + r1, str_bytes(y.gas_payer.0@) + r2);
    let (gx, gy) = (u64_le(x.gas_amount.micro) + sx, u64_le(y.gas_amount.micro) + sy);
    let (cx, cy) = (x.receiver.0@ + gx, y.receiver.0@ + gy);
    assert(to_ethereum_bytes(x) + r1 =~= u64_le(x.amount.micro) + (x.asset.0@ + cx));
    assert(to_ethereum_bytes(y) + r2 =~= u64_le(y.amount.micro) + (y.asset.0@ + cy));
    lemma_split_equal(u64_le(x.amount.micro), x.asset.0@ + cx, u64_le(y.amount.micro), y.asset.0@ + cy);
    lemma_u64_le_injective(x.amount.micro, y.amount.micro);
    lemma_split_equal(x.asset.0@, cx, y.asset.0@, cy);
    lemma_split_equal(x.receiver.0@, gx, y.receiver.0@, gy);
    lemma_split_equal(u64_le(x.gas_amount.micro), sx, u64_le(y.gas_amount.micro), sy);
    lemma_u64_le_injective(x.gas_amount.micro, y.gas_amount.micro);
    lemma_str_bytes_prefix(x.gas_payer.0@, y.gas_payer.0@, r1, r2);
}

proof fn lemma_whitelist_front(x: TokenWhitelist, y: TokenWhitelist, r1: Seq<u8>, r2: Seq<u8>)
    requires
        whitelist_bytes(x) + r1 == whitelist_bytes(y) + r2,
    ensures
        same_whitelist(x, y),
        r1 == r2,
{
    let (cx, cy) = (u64_le(x.cap.micro) + r1, u64_le(y.cap.micro) + r2);
    assert(whitelist_bytes(x) + r1 =~= x.token.0@ + cx);
    assert(whitelist_bytes(y) + r2 =~= y.token.0@ + cy);
    lemma_split_equal(x.token.0@, cx, y.token.0@, cy);
    lemma_split_equal(u64_le(x.cap.micro), r1, u64_le(y.cap.micro), r2);
    lemma_u64_le_injective(x.cap.micro, y.cap.micro);
}

proof fn lemma_to_namada_list_front(s: Seq<TransferToNamada>)
    requires
        s.len() > 0,
    ensures
        to_namada_list(s) == to_namada_bytes(s[0]) + to_namada_list(s.drop_first()),
    decreases s.len(),
{
    let (p, q) = (s.drop_last(), s.drop_first());
    if s.len() > 1 {
        lemma_to_namada_list_front(p);
        assert(p.drop_first() =~= q.drop_last());
        assert(p[0] == s[0] && q.last() == s.last());
        assert(to_namada_list(s) == to_namada_list(p) + to_namada_bytes(s.last()));
        assert(to_namada_list(q) == to_namada_list(q.drop_last()) + to_namada_bytes(q.last()));
        assert(to_namada_list(s) =~= to_namada_bytes(s[0]) + to_namada_list(q));
    } else {
        assert(p =~= Seq::<TransferToNamada>::empty());
        assert(q =~= Seq::<TransferToNamada>::empty());
        assert(to_namada_list(s) =~= to_namada_bytes(s[0]) + to_namada_list(q));
    }
}

proof fn lemma_to_ethereum_list_front(s: Seq<TransferToEthereum>)
    requires
        s.len() > 0,
    ensures
        to_ethereum_list(s) == to_ethereum_bytes(s[0]) + to_ethereum_list(s.drop_first()),
    decreases s.len(),
{
    let (p, q) = (s.drop_last(), s.drop_first());
    if s.len() > 1 {
        lemma_to_ethereum_list_front(p);
        assert(p.drop_first() =~= q.drop_last());
        assert(p[0] == s[0] && q.last() == s.last());
        assert(to_ethereum_list(s) == to_ethereum_list(p) + to_ethereum_bytes(s.last()));
        assert(to_ethereum_list(q) == to_ethereum_list(q.drop_last()) + to_ethereum_bytes(q.last()));
        assert(to_ethereum_list(s) =~= to_ethereum_bytes(s[0]) + to_ethereum_list(q));
    } else {
        assert(p =~= Seq::<TransferToEthereum>::empty());
        assert(q =~= Seq::<TransferToEthereum>::empty());
        assert(to_ethereum_list(s) =~= to_ethereum_bytes(s[0]) + to_ethereum_list(q));
    }
}

proof fn lemma_whitelist_list_front(s: Seq<TokenWhitelist>)
    requires
        s.len() > 0,
    ensures
        whitelist_list(s) == whitelist_bytes(s[0]) + whitelist_list(s.drop_first()),
    decreases s.len(),
{
    let (p, q) = (s.drop_last(), s.drop_first());
    if s.len() > 1 {
        lemma_whitelist_list_front(p);
        assert(p.drop_first() =~= q.drop_last());
        assert(p[0] == s[0] && q.last() == s.last());
        assert(whitelist_list(s) == whitelist_list(p) + whitelist_bytes(s.last()));
        assert(whitelist_list(q) == whitelist_list(q.drop_last()) + whitelist_bytes(q.last()));
        assert(whitelist_list(s) =~= whitelist_bytes(s[0]) + whitelist_list(q));
    } else {
        assert(p =~= Seq::<TokenWhitelist>::empty());
        assert(q =~= Seq::<TokenWhitelist>::empty());
        assert(whitelist_list(s) =~= whitelist_bytes(s[0]) + whitelist_list(q));
    }
}

proof fn lemma_to_namada_list_injective(s: Seq<TransferToNamada>, t: Seq<TransferToNamada>)
    requires
        s.len() == t.len(),
        forall|i: int| 0 <= i < s.len() ==> str_fits(#[trigger] s[i].receiver.0@),
        forall|i: int| 0 <= i < t.len() ==> str_fits(#[trigger] t[i].receiver.0@),
        to_namada_list(s) == to_namada_list(t),
    ensures
        forall|i: int| 0 <= i < s.len() ==> same_to_namada(#[trigger] s[i], t[i]),
    decreases s.len(),
{
    if s.len() > 0 {
        let (s2, t2) = (s.drop_first(), t.drop_first());
        lemma_to_namada_list_front(s);
        lemma_to_namada_list_front(t);
        assert(str_fits(s[0].receiver.0@) && str_fits(t[0].receiver.0@));
        assert forall|i: int| 0 <= i < s2.len() implies str_fits(#[trigger] s2[i].receiver.0@) by {
            assert(s2[i] == s[i + 1]);
        }
        assert forall|i: int| 0 <= i < t2.len() implies str_fits(#[trigger] t2[i].receiver.0@) by {
            assert(t2[i] == t[i + 1]);
        }
        lemma_to_namada_front(s[0], t[0], to_namada_list(s2), to_namada_list(t2));
        lemma_to_namada_list_injective(s2, t2);
        assert forall|i: int| 0 <= i < s.len() implies same_to_namada(#[trigger] s[i], t[i]) by {
            if i > 0 {
                assert(s2[i - 1] == s[i] && t2[i - 1] == t[i]);
            }
        }
    }
}

proof fn lemma_to_ethereum_list_injective(s: Seq<TransferToEthereum>, t: Seq<TransferToEthereum>)
    requires
        s.len() == t.len(),
        forall|i: int| 0 <= i < s.len() ==> str_fits(#[trigger] s[i].gas_payer.0@),
        forall|i: int| 0 <= i < t.len() ==> str_fits(#[trigger] t[i].gas_payer.0@),
        to_ethereum_list(s) == to_ethereum_list(t),
    ensures
        forall|i: int| 0 <= i < s.len() ==> same_to_ethereum(#[trigger] s[i], t[i]),
    decreases s.len(),
{
    if s.len() > 0 {
        let (s2, t2) = (s.drop_first(), t.drop_first());
        lemma_to_ethereum_list_front(s);
        lemma_to_ethereum_list_front(t);
        assert(str_fits(s[0].gas_payer.0@) && str_fits(t[0].gas_payer.0@));
        assert forall|i: int| 0 <= i < s2.len() implies str_fits(#[trigger] s2[i].gas_payer.0@) by {
            assert(s2[i] == s[i + 1]);
        }
        assert forall|i: int| 0 <= i < t2.len() implies str_fits(#[trigger] t2[i].gas_payer.0@) by {
            assert(t2[i] == t[i + 1]);
        }
        lemma_to_ethereum_front(s[0], t[0], to_ethereum_list(s2), to_ethereum_list(t2));
        lemma_to_ethereum_list_injective(s2, t2);
        assert forall|i: int| 0 <= i < s.len() implies same_to_ethereum(#[trigger] s[i], t[i]) by {
            if i > 0 {
                assert(s2[i - 1] == s[i] && t2[i - 1] == t[i]);
            }
        }
    }
}

proof fn lemma_whitelist_list_injective(s: Seq<TokenWhitelist>, t: Seq<TokenWhitelist>)
    requires
        s.len() == t.len(),
        whitelist_list(s) == whitelist_list(t),
    ensures
        forall|i: int| 0 <= i < s.len() ==> same_whitelist(#[trigger] s[i], t[i]),
    decreases s.len(),
{
    if s.len() > 0 {
        let (s2, t2) = (s.drop_first(), t.drop_first());
        lemma_whitelist_list_front(s);
        lemma_whitelist_list_front(t);
        lemma_whitelist_front(s[0], t[0], whitelist_list(s2), whitelist_list(t2));
        lemma_whitelist_list_injective(s2, t2);
        assert forall|i: int| 0 <= i < s.len() implies same_whitelist(#[trigger] s[i], t[i]) by {
            if i > 0 {
                assert(s2[i - 1] == s[i] && t2[i - 1] == t[i]);
            }
        }
    }
}

/// Events built apart from the same values encode to the same bytes and so
/// have the same digest; one can be encoded exactly when the other can.
pub proof fn lemma_hash_deterministic(a: EthereumEvent, b: EthereumEvent)
    requires
        same_event(a, b),
    ensures
        event_bytes(a) == event_bytes(b),
        sha256_of(event_bytes(a)) == sha256_of(event_bytes(b)),
        encodable(a) == encodable(b),
{
    match (a, b) {
        (
            EthereumEvent::TransfersToNamada { transfers: t1, .. },
            EthereumEvent::TransfersToNamada { transfers: t2, .. },
        ) => {
            lemma_same_to_namada_list(t1@, t2@);
            if encodable(a) {
                assert forall|i: int| 0 <= i < t2@.len() implies str_fits(#[trigger] t2@[i].receiver.0@) by {
                    assert(same_to_namada(t1@[i], t2@[i]));
                    assert(str_fits(t1@[i].receiver.0@));
                }
            }
            if encodable(b) {
                assert forall|i: int| 0 <= i < t1@.len() implies str_fits(#[trigger] t1@[i].receiver.0@) by {
                    assert(same_to_namada(t1@[i], t2@[i]));
                    assert(str_fits(t2@[i].receiver.0@));
                }
            }
        },
        (
            EthereumEvent::TransfersToEthereum { transfers: t1, .. },
            EthereumEvent::TransfersToEthereum { transfers: t2, .. },
        ) => {
            lemma_same_to_ethereum_list(t1@, t2@);
            if encodable(a) {
                assert forall|i: int| 0 <= i < t2@.len() implies str_fits(#[trigger] t2@[i].gas_payer.0@) by {
                    assert(same_to_ethereum(t1@[i], t2@[i]));
                    assert(str_fits(t1@[i].gas_payer.0@));
                }
            }
            if encodable(b) {
                assert forall|i: int| 0 <= i < t1@.len() implies str_fits(#[trigger] t1@[i].gas_payer.0@) by {
                    assert(same_to_ethereum(t1@[i], t2@[i]));
                    assert(str_fits(t2@[i].gas_payer.0@));
                }
            }
        },
        (
            EthereumEvent::UpdateBridgeWhitelist { whitelist: w1, .. },
            EthereumEvent::UpdateBridgeWhitelist { whitelist: w2, .. },
        ) => {
            lemma_same_whitelist_list(w1@, w2@);
        },
        _ => {},
    }
}

proof fn lemma_transfers_to_namada_injective(a: EthereumEvent, b: EthereumEvent)
    requires
        a is TransfersToNamada,
        b is TransfersToNamada,
        encodable(a),
        encodable(b),
        event_bytes(a) == event_bytes(b),
    ensures
        same_event(a, b),
{
    let (ra, rb) = (event_bytes(a).drop_first(), event_bytes(b).drop_first());
    match (a, b) {
        (
            EthereumEvent::TransfersToNamada { nonce: n1, transfers: t1 },
            EthereumEvent::TransfersToNamada { nonce: n2, transfers: t2 },
        ) => {
            let (l1, l2) = (to_namada_list(t1@), to_namada_list(t2@));
            let (c1, c2) = (len_bytes(t1@.len() as int), len_bytes(t2@.len() as int));
            assert(ra =~= words_le(n1.0@) + (c1 + l1));
            assert(rb =~= words_le(n2.0@) + (c2 + l2));
            lemma_split_equal(words_le(n1.0@), c1 + l1, words_le(n2.0@), c2 + l2);
            lemma_words_le_injective(n1.0@, n2.0@);
            lemma_split_equal(c1, l1, c2, l2);
            lemma_len_bytes_injective(t1@.len() as int, t2@.len() as int);
            lemma_to_namada_list_injective(t1@, t2@);
        },
        _ => {},
    }
}

proof fn lemma_transfers_to_ethereum_injective(a: EthereumEvent, b: EthereumEvent)
    requires
        a is TransfersToEthereum,
        b is TransfersToEthereum,
        encodable(a),
        encodable(b),
        event_bytes(a) == event_bytes(b),
    ensures
        same_event(a, b),
{
    let (ra, rb) = (event_bytes(a).drop_first(), event_bytes(b).drop_first());
    match (a, b) {
        (
            EthereumEvent::TransfersToEthereum { nonce: n1, transfers: t1 },
            EthereumEvent::TransfersToEthereum { nonce: n2, transfers: t2 },
        ) => {
            let (l1, l2) = (to_ethereum_list(t1@), to_ethereum_list(t2@));
            let (c1, c2) = (len_bytes(t1@.len() as int), len_bytes(t2@.len() as int));
            assert(ra =~= words_le(n1.0@) + (c1 + l1));
            assert(rb =~= words_le(n2.0@) + (c2 + l2));
            lemma_split_equal(words_le(n1.0@), c1 + l1, words_le(n2.0@), c2 + l2);
            lemma_words_le_injective(n1.0@, n2.0@);
            lemma_split_equal(c1, l1, c2, l2);
            lemma_len_bytes_injective(t1@.len() as int, t2@.len() as int);
            lemma_to_ethereum_list_injective(t1@, t2@);
        },
        _ => {},
    }
}

proof fn lemma_validator_set_update_injective(a: EthereumEvent, b: EthereumEvent)
    requires
        a is ValidatorSetUpdate,
        b is ValidatorSetUpdate,
        encodable(a),
        encodable(b),
        event_bytes(a) == event_bytes(b),
    ensures
        same_event(a, b),
{
    let (ra, rb) = (event_bytes(a).drop_first(), event_bytes(b).drop_first());
    match (a, b) {
        (
            EthereumEvent::ValidatorSetUpdate {
                nonce: n1,
                bridge_validator_hash: b1,
                governance_validator_hash: g1,
            },
            EthereumEvent::ValidatorSetUpdate {
                nonce: n2,
                bridge_validator_hash: b2,
                governance_validator_hash: g2,
            },
        ) => {
            assert(ra =~= words_le(n1.0@) + (b1.0@ + g1.0@));
            assert(rb =~= words_le(n2.0@) + (b2.0@ + g2.0@));
            lemma_split_equal(words_le(n1.0@), b1.0@ + g1.0@, words_le(n2.0@), b2.0@ + g2.0@);
            lemma_words_le_injective(n1.0@, n2.0@);
            lemma_split_equal(b1.0@, g1.0@, b2.0@, g2.0@);
        },
        _ => {},
    }
}

proof fn lemma_new_contract_injective(a: EthereumEvent, b: EthereumEvent)
    requires
        a is NewContract,
        b is NewContract,
        encodable(a),
        encodable(b),
        event_bytes(a) == event_bytes(b),
    ensures
        same_event(a, b),
{
    let (ra, rb) = (event_bytes(a).drop_first(), event_bytes(b).drop_first());
    match (a, b) {
        (
            EthereumEvent::NewContract { name: m1, address: a1 },
            EthereumEvent::NewContract { name: m2, address: a2 },
        ) => {
            assert(ra =~= str_bytes(m1@) + a1.0@);
            assert(rb =~= str_bytes(m2@) + a2.0@);
            lemma_str_bytes_prefix(m1@, m2@, a1.0@, a2.0@);
        },
        _ => {},
    }
}

proof fn lemma_upgraded_contract_injective(a: EthereumEvent, b: EthereumEvent)
    requires
        a is UpgradedContract,
        b is UpgradedContract,
        encodable(a),
        encodable(b),
        event_bytes(a) == event_bytes(b),
    ensures
        same_event(a, b),
{
    let (ra, rb) = (event_bytes(a).drop_first(), event_bytes(b).drop_first());
    match (a, b) {
        (
            EthereumEvent::UpgradedContract { name: m1, address: a1 },
            EthereumEvent::UpgradedContract { name: m2, address: a2 },
        ) => {
            assert(ra =~= str_bytes(m1@) + a1.0@);
            assert(rb =~= str_bytes(m2@) + a2.0@);
            lemma_str_bytes_prefix(m1@, m2@, a1.0@, a2.0@);
        },
        _ => {},
    }
}

proof fn lemma_update_bridge_whitelist_injective(a: EthereumEvent, b: EthereumEvent)
    requires
        a is UpdateBridgeWhitelist,
        b is UpdateBridgeWhitelist,
        encodable(a),
        encodable(b),
        event_bytes(a) == event_bytes(b),
    ensures
        same_event(a, b),
{
    let (ra, rb) = (event_bytes(a).drop_first(), event_bytes(b).drop_first());
    match (a, b) {
        (
            EthereumEvent::UpdateBridgeWhitelist { nonce: n1, whitelist: w1 },
            EthereumEvent::UpdateBridgeWhitelist { nonce: n2, whitelist: w2 },
        ) => {
            let (l1, l2) = (whitelist_list(w1@), whitelist_list(w2@));
            let (c1, c2) = (len_bytes(w1@.len() as int), len_bytes(w2@.len() as int));
            assert(ra =~= words_le(n1.0@) + (c1 + l1));
            assert(rb =~= words_le(n2.0@) + (c2 + l2));
            lemma_split_equal(words_le(n1.0@), c1 + l1, words_le(n2.0@), c2 + l2);
            lemma_words_le_injective(n1.0@, n2.0@);
            lemma_split_equal(c1, l1, c2, l2);
            lemma_len_bytes_injective(w1@.len() as int, w2@.len() as int);
            lemma_whitelist_list_injective(w1@, w2@);
        },
        _ => {},
    }
}

/// The canonical encoding tells events apart: two encodable events with the
/// same bytes are of one kind and hold the same values, field by field and
/// record by record in order. So a change to any field, to any record, to
/// the order of a batch or to the kind of an event changes the bytes that
/// are digested.
pub proof fn lemma_encoding_injective(a: EthereumEvent, b: EthereumEvent)
    requires
        encodable(a),
        encodable(b),
        event_bytes(a) == event_bytes(b),
    ensures
        same_event(a, b),
{
    assert(event_bytes(a)[0] == event_tag(a) && event_bytes(b)[0] == event_tag(b));
    if a is TransfersToNamada {
        lemma_transfers_to_namada_injective(a, b);
    }
    if a is TransfersToEthereum {
        lemma_transfers_to_ethereum_injective(a, b);
    }
    if a is ValidatorSetUpdate {
        lemma_validator_set_update_injective(a, b);
    }
    if a is NewContract {
        lemma_new_contract_injective(a, b);
    }
    if a is UpgradedContract {
        lemma_upgraded_contract_injective(a, b);
    }
    if a is UpdateBridgeWhitelist {
        lemma_update_bridge_whitelist_injective(a, b);
    }
}

} // verus!
