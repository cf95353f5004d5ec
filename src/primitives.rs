use ethereum_types::{Address, Bloom, H256, U256, U512, U64};
use vstd::arithmetic::power2::pow2;
use vstd::prelude::*;

verus! {

#[verifier::external_type_specification]
pub struct ExU256(U256);

#[verifier::external_type_specification]
pub struct ExU64(U64);

#[verifier::external_type_specification]
pub struct ExU512(U512);

#[verifier::external_type_specification]
pub struct ExH256(H256);

#[verifier::external_type_specification]
pub struct ExAddress(Address);

#[verifier::external_type_specification]
pub struct ExBloom(Bloom);

/// 2^256, the modulus of word arithmetic.
pub open spec fn word_modulus() -> nat {
    pow2(256)
}

/// The integer that a word stands for: its four little-endian 64-bit limbs.
pub open spec fn word_value(w: U256) -> nat {
    w.0[0] as nat + w.0[1] as nat * pow2(64) + w.0[2] as nat * pow2(128) + w.0[3] as nat * pow2(
        192,
    )
}

/// The integer that a double-width word stands for: its eight little-endian limbs.
pub open spec fn wide_value(w: U512) -> nat {
    w.0[0] as nat + w.0[1] as nat * pow2(64) + w.0[2] as nat * pow2(128) + w.0[3] as nat * pow2(
        192,
    ) + w.0[4] as nat * pow2(256) + w.0[5] as nat * pow2(320) + w.0[6] as nat * pow2(384)
        + w.0[7] as nat * pow2(448)
}

/// Whether every limb of `w` is zero.
pub open spec fn is_zero_word(w: U256) -> bool {
    w.0[0] == 0 && w.0[1] == 0 && w.0[2] == 0 && w.0[3] == 0
}

/// The bytes of the Keccak-256 hash of empty input.
pub open spec fn keccak_empty_bytes() -> Seq<u8> {
    seq![
        0xc5u8, 0xd2, 0x46, 0x01, 0x86, 0xf7, 0x23, 0x3c, 0x92, 0x7e, 0x7d, 0xb2, 0xdc, 0xc7,
        0x03, 0xc0, 0xe5, 0x00, 0xb6, 0x53, 0xca, 0x82, 0x27, 0x3b, 0x7b, 0xfa, 0xd8, 0x04, 0x5d,
        0x85, 0xa4, 0x70
    ]
}

/// The Keccak-256 digest of `data`, as computed by `keccak_hash::keccak`.
pub uninterp spec fn keccak_of(data: Seq<u8>) -> Seq<u8>;

/// Relies on `keccak_hash::keccak`: the Keccak-256 digest of the bytes, which depends on
/// them alone.
#[verifier::external_body]
pub fn keccak(data: &[u8]) -> (r: H256)
    ensures
        r.0@ == keccak_of(data@),
{
    keccak_hash::keccak(data)
}

/// Relies on `U256::is_zero`, which tests each limb for zero.
pub assume_specification[ U256::is_zero ](w: &U256) -> (r: bool)
    ensures
        r == is_zero_word(*w),
;

/// Relies on `keccak_hash::KECCAK_EMPTY`: the hash of empty code, as its bytes.
#[verifier::external_body]
pub fn empty_code_hash() -> (r: H256)
    ensures
        r.0@ == keccak_empty_bytes(),
{
    keccak_hash::KECCAK_EMPTY
}

/// Relies on `H256`'s `PartialEq`, which compares the bytes.
#[verifier::external_body]
pub fn same_hash(a: &H256, b: &H256) -> (r: bool)
    ensures
        r == (a.0@ == b.0@),
{
    a == b
}

/// Relies on `Address`'s `PartialEq`, which compares the bytes.
#[verifier::external_body]
pub fn same_address(a: &Address, b: &Address) -> (r: bool)
    ensures
        r == (*a == *b),
{
    a == b
}

/// Relies on `U256`'s derived `PartialEq`, which compares the limbs.
#[verifier::external_body]
pub fn same_word(a: &U256, b: &U256) -> (r: bool)
    ensures
        r == (*a == *b),
{
    a == b
}

} // verus!
