//! The SCALE encoding of the fixed-width integers that the trie stores:
//! little-endian bytes of the integer's width.
use parity_scale_codec::{Decode, Encode};
use vstd::prelude::*;

verus! {

/// `256` raised to the power `len`.
pub open spec fn byte_base_pow(len: nat) -> nat
    decreases len,
{
    if len == 0 {
        1
    } else {
        256 * byte_base_pow((len - 1) as nat)
    }
}

/// The lowest `len` bytes of `n`, least significant first.
pub open spec fn le_bytes(n: nat, len: nat) -> Seq<u8>
    decreases len,
{
    if len == 0 {
        Seq::empty()
    } else {
        seq![(n % 256) as u8] + le_bytes(n / 256, (len - 1) as nat)
    }
}

/// The number whose bytes, least significant first, are `s`.
pub open spec fn le_value(s: Seq<u8>) -> nat
    decreases s.len(),
{
    if s.len() == 0 {
        0
    } else {
        s[0] as nat + 256 * le_value(s.drop_first())
    }
}

/// The SCALE encoding of a `u32`: its four little-endian bytes.
pub open spec fn encoded_u32(k: u32) -> Seq<u8> {
    le_bytes(k as nat, 4)
}

/// The SCALE encoding of a `u128`: its sixteen little-endian bytes.
pub open spec fn encoded_u128(v: u128) -> Seq<u8> {
    le_bytes(v as nat, 16)
}

/// What SCALE decoding of a `u128` gives on the bytes `s`: the value of the
/// first sixteen bytes, or nothing when there are fewer; later bytes are left
/// unread.
pub open spec fn decoded_u128(s: Seq<u8>) -> Option<u128> {
    if s.len() >= 16 {
        Some(le_value(s.take(16)) as u128)
    } else {
        None
    }
}

pub proof fn lemma_le_bytes_len(n: nat, len: nat)
    ensures
        le_bytes(n, len).len() == len,
    decreases len,
{
    if len > 0 {
        lemma_le_bytes_len(n / 256, (len - 1) as nat);
    }
}

/// Reading back the bytes of a number that fits in them gives the number.
pub proof fn lemma_le_roundtrip(n: nat, len: nat)
    requires
        n < byte_base_pow(len),
    ensures
        le_value(le_bytes(n, len)) == n,
    decreases len,
{
    if len > 0 {
        let rest = le_bytes(n / 256, (len - 1) as nat);
        let s = le_bytes(n, len);
        assert(n / 256 < byte_base_pow((len - 1) as nat)) by (nonlinear_arith)
            requires
                n < 256 * byte_base_pow((len - 1) as nat),
        ;
        lemma_le_roundtrip(n / 256, (len - 1) as nat);
        assert(s.drop_first() =~= rest);
        assert(s[0] == (n % 256) as u8);
        assert((n % 256) + 256 * (n / 256) == n) by (nonlinear_arith);
    }
}

proof fn lemma_pow_4()
    ensures
        byte_base_pow(4) == 0x1_0000_0000,
{
    reveal_with_fuel(byte_base_pow, 5);
}

proof fn lemma_pow_16()
    ensures
        byte_base_pow(16) == 0x1_0000_0000_0000_0000_0000_0000_0000_0000,
{
    reveal_with_fuel(byte_base_pow, 17);
}

/// Distinct keys have distinct encodings.
pub proof fn lemma_encoded_u32_injective(a: u32, b: u32)
    ensures
        encoded_u32(a) == encoded_u32(b) ==> a == b,
{
    lemma_pow_4();
    lemma_le_roundtrip(a as nat, 4);
    lemma_le_roundtrip(b as nat, 4);
}

/// Decoding the encoding of a value gives the value back.
pub proof fn lemma_u128_roundtrip(v: u128)
    ensures
        decoded_u128(encoded_u128(v)) == Some(v),
{
    lemma_pow_16();
    lemma_le_bytes_len(v as nat, 16);
    lemma_le_roundtrip(v as nat, 16);
    assert(encoded_u128(v).take(16) =~= encoded_u128(v));
}

/// `Encode::encode` of parity-scale-codec on a `u32`; the crate writes the
/// integer's `to_le_bytes`, which is what the contract states.
#[verifier::external_body]
pub(crate) fn encode_u32(k: u32) -> (r: Vec<u8>)
    ensures
        r@ == encoded_u32(k),
{
    k.encode()
}

/// `Encode::encode` of parity-scale-codec on a `u128`; the crate writes the
/// integer's `to_le_bytes`, which is what the contract states.
#[verifier::external_body]
pub(crate) fn encode_u128(v: u128) -> (r: Vec<u8>)
    ensures
        r@ == encoded_u128(v),
{
    v.encode()
}

/// `Decode::decode` of parity-scale-codec for a `u128`, reading from the start
/// of `bytes`: it fills a sixteen-byte buffer, fails when fewer bytes are
/// there, and takes `from_le_bytes` of the buffer.
#[verifier::external_body]
pub(crate) fn decode_u128(bytes: &[u8]) -> (r: Option<u128>)
    ensures
        r == decoded_u128(bytes@),
{
    <u128 as Decode>::decode(&mut &bytes[..]).ok()
}

} // verus!
