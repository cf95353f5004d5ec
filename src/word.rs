use crate::primitives::{is_zero_word, wide_value, word_modulus, word_value};
use ethereum_types::{Address, BigEndianHash, H256, U256, U512};
use vstd::arithmetic::power::pow;
use vstd::arithmetic::power2::{lemma2_to64, lemma_pow2_adds, pow2};
use vstd::prelude::*;

verus! {

/// The big-endian value of `s`.
pub open spec fn be_value(s: Seq<u8>) -> nat
    decreases s.len(),
{
    if s.len() == 0 {
        0
    } else {
        be_value(s.drop_last()) * 256 + s.last() as nat
    }
}

/// 2^255, the sign bit of a word.
pub open spec fn sign_bit() -> nat {
    pow2(255)
}

/// The two's-complement reading of a word value.
pub open spec fn signed(v: nat) -> int {
    if v < sign_bit() {
        v as int
    } else {
        v - word_modulus()
    }
}

/// The magnitude of an integer.
pub open spec fn abs(x: int) -> nat {
    if x < 0 {
        (-x) as nat
    } else {
        x as nat
    }
}

/// The word value of `x` modulo 2^256.
pub open spec fn wrap(x: int) -> nat {
    (x % (word_modulus() as int)) as nat
}

/// Unsigned division where a zero divisor gives zero.
pub open spec fn div_value(a: nat, b: nat) -> nat {
    if b == 0 {
        0
    } else {
        a / b
    }
}

/// Unsigned remainder where a zero divisor gives zero.
pub open spec fn mod_value(a: nat, b: nat) -> nat {
    if b == 0 {
        0
    } else {
        a % b
    }
}

/// Signed division, truncated toward zero, where a zero divisor gives zero; the quotient
/// is taken modulo 2^256, so the most negative word divided by minus one is itself.
pub open spec fn sdiv_value(a: nat, b: nat) -> nat {
    if b == 0 {
        0
    } else {
        let q = abs(signed(a)) / abs(signed(b));
        if (signed(a) < 0) != (signed(b) < 0) {
            wrap(-q)
        } else {
            wrap(q as int)
        }
    }
}

/// Signed remainder, whose sign follows the dividend, where a zero divisor gives zero.
pub open spec fn smod_value(a: nat, b: nat) -> nat {
    if b == 0 {
        0
    } else {
        let m = abs(signed(a)) % abs(signed(b));
        if signed(a) < 0 {
            wrap(-m)
        } else {
            m
        }
    }
}

/// Number of bits needed to write `v`: none for zero.
pub open spec fn bit_len(v: nat) -> nat
    decreases v,
{
    if v == 0 {
        0
    } else {
        1 + bit_len(v / 2)
    }
}

/// SHL on values: `v` shifted up by `s` bits modulo 2^256, zero when `s` reaches 256.
pub open spec fn shl_value(s: nat, v: nat) -> nat {
    if s < 256 {
        (v * pow2(s)) % word_modulus()
    } else {
        0
    }
}

/// SHR on values: `v` shifted down by `s` bits, zero when `s` reaches 256.
pub open spec fn shr_value(s: nat, v: nat) -> nat {
    if s < 256 {
        v / pow2(s)
    } else {
        0
    }
}

/// Sum modulo `n` without wrapping at 2^256, where a zero modulus gives zero.
pub open spec fn addmod_value(a: nat, b: nat, n: nat) -> nat {
    if n == 0 {
        0
    } else {
        (a + b) % n
    }
}

/// A word whose limbs are all zero has value zero.
pub proof fn lemma_zero_word(w: U256)
    requires
        is_zero_word(w),
    ensures
        word_value(w) == 0,
{
    assert(word_value(w) == 0) by (nonlinear_arith)
        requires
            w.0[0] == 0,
            w.0[1] == 0,
            w.0[2] == 0,
            w.0[3] == 0,
            word_value(w) == w.0[0] as nat + w.0[1] as nat * pow2(64) + w.0[2] as nat * pow2(128)
                + w.0[3] as nat * pow2(192),
    ;
}

/// BYTE on values: byte `i` of `x` counted from the most significant end, zero from 32 on.
pub open spec fn byte_value(i: nat, x: nat) -> nat {
    if i < 32 {
        (x / pow2((8 * (31 - i)) as nat)) % 256
    } else {
        0
    }
}

/// The lowest byte of a word's value is that of its lowest limb.
pub proof fn lemma_low_byte(w: U256)
    ensures
        word_value(w) % 256 == w.0[0] as nat % 256,
{
    lemma2_to64();
    lemma_pow2_adds(8, 56);
    lemma_pow2_adds(8, 120);
    lemma_pow2_adds(8, 184);
    let k = w.0[1] as int * pow2(56) + w.0[2] as int * pow2(120) + w.0[3] as int * pow2(184);
    assert(word_value(w) == 256 * k + w.0[0] as int) by (nonlinear_arith)
        requires
            pow2(64) == pow2(8) * pow2(56),
            pow2(128) == pow2(8) * pow2(120),
            pow2(192) == pow2(8) * pow2(184),
            pow2(8) == 256,
            k == w.0[1] as int * pow2(56) + w.0[2] as int * pow2(120) + w.0[3] as int * pow2(184),
            word_value(w) == w.0[0] as nat + w.0[1] as nat * pow2(64) + w.0[2] as nat * pow2(128)
                + w.0[3] as nat * pow2(192),
    ;
    vstd::arithmetic::div_mod::lemma_mod_multiples_vanish(k, w.0[0] as int, 256);
}

/// SAR on values: `x` read in two's complement and shifted down by `s` bits, rounding
/// toward minus infinity; from 256 bits on, minus one for a negative `x` and zero otherwise.
pub open spec fn sar_value(s: nat, x: nat) -> nat {
    if s < 256 {
        wrap(signed(x) / (pow2(s) as int))
    } else if signed(x) < 0 {
        (word_modulus() - 1) as nat
    } else {
        0
    }
}

/// A limb's complement is its distance from the largest limb.
proof fn lemma_limb_not(l: u64)
    ensures
        !l as nat == 0xffff_ffff_ffff_ffffnat - l as nat,
{
    assert(!l == 0xffff_ffff_ffff_ffffu64 - l) by (bit_vector);
}

/// The complement of a word is its distance from the largest word.
pub proof fn lemma_word_not(w: U256, r: U256)
    requires
        forall|i: int| 0 <= i < 4 ==> r.0[i] == !w.0[i],
    ensures
        word_value(r) == word_modulus() - 1 - word_value(w),
{
    lemma2_to64();
    lemma_pow2_adds(64, 64);
    lemma_pow2_adds(128, 64);
    lemma_pow2_adds(192, 64);
    lemma_limb_not(w.0[0]);
    lemma_limb_not(w.0[1]);
    lemma_limb_not(w.0[2]);
    lemma_limb_not(w.0[3]);
    let p = pow2(64);
    let (a, b, c, d) = (w.0[0] as int, w.0[1] as int, w.0[2] as int, w.0[3] as int);
    let (ra, rb, rc, rd) = (r.0[0] as int, r.0[1] as int, r.0[2] as int, r.0[3] as int);
    assert(r.0[0] == !w.0[0] && r.0[1] == !w.0[1] && r.0[2] == !w.0[2] && r.0[3] == !w.0[3]);
    assert(ra + rb * p + rc * (p * p) + rd * (p * p * p) == p * p * p * p - 1 - (a + b * p + c * (p
        * p) + d * (p * p * p))) by (nonlinear_arith)
        requires
            ra == p - 1 - a,
            rb == p - 1 - b,
            rc == p - 1 - c,
            rd == p - 1 - d,
    ;
    assert(pow2(128) == p * p);
    assert(pow2(192) == p * p * p);
    assert(pow2(256) == p * p * p * p);
}

/// Flooring division of a negative number: `-(y + 1) / d == -(y / d) - 1`.
proof fn lemma_floor_negative(y: int, d: int)
    requires
        y >= 0,
        d > 0,
    ensures
        (-(y + 1)) / d == -(y / d) - 1,
{
    vstd::arithmetic::div_mod::lemma_fundamental_div_mod(y, d);
    let q = y / d;
    let rm = y % d;
    assert(-(y + 1) == (-q - 1) * d + (d - rm - 1)) by (nonlinear_arith)
        requires
            y == d * q + rm,
    ;
    vstd::arithmetic::div_mod::lemma_fundamental_div_mod_converse(-(y + 1), d, -q - 1, d - rm - 1);
}

/// SIGNEXTEND on values: `x` with bit `8 * b + 7` copied into every higher bit; `x` itself
/// from `b == 31` on.
pub open spec fn signextend_value(b: nat, x: nat) -> nat {
    if b < 31 {
        let k = 8 * b + 8;
        let low = x % pow2(k);
        if low >= pow2((k - 1) as nat) {
            (word_modulus() - pow2(k) + low) as nat
        } else {
            low
        }
    } else {
        x
    }
}

/// Product modulo `n` without wrapping at 2^256, where a zero modulus gives zero.
pub open spec fn mulmod_value(a: nat, b: nat, n: nat) -> nat {
    if n == 0 {
        0
    } else {
        (a * b) % n
    }
}

/// A word with a nonzero limb has a nonzero value.
pub proof fn lemma_nonzero_word(w: U256)
    requires
        !is_zero_word(w),
    ensures
        word_value(w) > 0,
{
    lemma2_to64();
    vstd::arithmetic::power2::lemma_pow2_pos(64);
    vstd::arithmetic::power2::lemma_pow2_pos(128);
    vstd::arithmetic::power2::lemma_pow2_pos(192);
    assert(word_value(w) > 0) by (nonlinear_arith)
        requires
            w.0[0] != 0 || w.0[1] != 0 || w.0[2] != 0 || w.0[3] != 0,
            pow2(64) > 0,
            pow2(128) > 0,
            pow2(192) > 0,
            word_value(w) == w.0[0] as nat + w.0[1] as nat * pow2(64) + w.0[2] as nat * pow2(128)
                + w.0[3] as nat * pow2(192),
    ;
}

/// The word whose value is `v`.
pub open spec fn word_with(v: nat) -> U256 {
    choose|w: U256| word_value(w) == v
}

/// The `n` big-endian bytes of `v`, most significant first.
pub open spec fn be_bytes(v: nat, n: nat) -> Seq<u8>
    decreases n,
{
    if n == 0 {
        Seq::empty()
    } else {
        be_bytes(v / 256, (n - 1) as nat).push((v % 256) as u8)
    }
}

/// Two digits below `p` with their remainders agree when their sums do.
proof fn lemma_digit_split(x: int, rx: int, y: int, ry: int, p: int)
    requires
        0 <= x < p,
        0 <= y < p,
        x + p * rx == y + p * ry,
    ensures
        x == y,
        rx == ry,
{
    assert(p * rx == rx * p && p * ry == ry * p) by (nonlinear_arith);
    vstd::arithmetic::div_mod::lemma_fundamental_div_mod_converse(rx * p + x, p, rx, x);
    vstd::arithmetic::div_mod::lemma_fundamental_div_mod_converse(ry * p + y, p, ry, y);
}

/// Words with the same value are the same word.
pub proof fn lemma_word_unique(a: U256, b: U256)
    requires
        word_value(a) == word_value(b),
    ensures
        a == b,
{
    lemma2_to64();
    lemma_pow2_adds(64, 64);
    lemma_pow2_adds(128, 64);
    let p = pow2(64) as int;
    assert forall|w: U256| #[trigger]
        word_value(w) == w.0[0] as int + p * (w.0[1] as int + p * (w.0[2] as int + p
            * w.0[3] as int)) by {
        assert(w.0[1] as int * pow2(64) + w.0[2] as int * pow2(128) + w.0[3] as int * pow2(192)
            == p * (w.0[1] as int + p * (w.0[2] as int + p * w.0[3] as int))) by (nonlinear_arith)
            requires
                pow2(64) == p,
                pow2(128) == p * p,
                pow2(192) == p * p * p,
        ;
    }
    lemma_digit_split(
        a.0[0] as int,
        a.0[1] as int + p * (a.0[2] as int + p * a.0[3] as int),
        b.0[0] as int,
        b.0[1] as int + p * (b.0[2] as int + p * b.0[3] as int),
        p,
    );
    lemma_digit_split(
        a.0[1] as int,
        a.0[2] as int + p * a.0[3] as int,
        b.0[1] as int,
        b.0[2] as int + p * b.0[3] as int,
        p,
    );
    lemma_digit_split(a.0[2] as int, a.0[3] as int, b.0[2] as int, b.0[3] as int, p);
    assert(a.0 =~= b.0);
}

/// A word is the word of its value.
pub proof fn lemma_word_with(w: U256)
    ensures
        word_with(word_value(w)) == w,
{
    let c = word_with(word_value(w));
    lemma_word_unique(c, w);
}

/// Bytes are the big-endian bytes of their value.
pub proof fn lemma_be_bytes(b: Seq<u8>)
    ensures
        b == be_bytes(be_value(b), b.len()),
    decreases b.len(),
{
    if b.len() > 0 {
        let rest = b.drop_last();
        lemma_be_bytes(rest);
        vstd::arithmetic::div_mod::lemma_fundamental_div_mod_converse(
            be_value(b) as int,
            256,
            be_value(rest) as int,
            b.last() as int,
        );
        assert(b =~= rest.push(b.last()));
    }
}

/// Every word value is below 2^256.
pub proof fn lemma_word_bound(w: U256)
    ensures
        word_value(w) < word_modulus(),
{
    lemma2_to64();
    lemma_pow2_adds(64, 64);
    lemma_pow2_adds(128, 64);
    lemma_pow2_adds(192, 64);
    let (a, b, c, d) = (w.0[0] as nat, w.0[1] as nat, w.0[2] as nat, w.0[3] as nat);
    let p = pow2(64);
    assert(a + b * p + c * (p * p) + d * (p * p * p) < p * p * p * p) by (nonlinear_arith)
        requires
            a < p,
            b < p,
            c < p,
            d < p,
    ;
    assert(pow2(128) == p * p);
    assert(pow2(192) == p * p * p);
    assert(pow2(256) == p * p * p * p);
}

/// The word with value `x`, for `x` below 2^64.
pub fn word_from_u64(x: u64) -> (r: U256)
    ensures
        word_value(r) == x,
{
    let r = U256([x, 0, 0, 0]);
    assert(word_value(r) == x) by (nonlinear_arith)
        requires
            r.0[0] == x,
            r.0[1] == 0,
            r.0[2] == 0,
            r.0[3] == 0,
            word_value(r) == r.0[0] as nat + r.0[1] as nat * pow2(64) + r.0[2] as nat * pow2(128)
                + r.0[3] as nat * pow2(192),
    ;
    r
}

/// Relies on `U256::overflowing_add`: the sum modulo 2^256.
#[verifier::external_body]
fn overflowing_add(a: U256, b: U256) -> (r: U256)
    ensures
        word_value(r) == (word_value(a) + word_value(b)) % word_modulus(),
{
    a.overflowing_add(b).0
}

/// Relies on `U256::overflowing_sub`: the difference modulo 2^256.
#[verifier::external_body]
fn overflowing_sub(a: U256, b: U256) -> (r: U256)
    ensures
        word_value(r) == (word_value(a) - word_value(b)) % (word_modulus() as int),
{
    a.overflowing_sub(b).0
}

/// Relies on `U256::overflowing_mul`: the product modulo 2^256.
#[verifier::external_body]
fn overflowing_mul(a: U256, b: U256) -> (r: U256)
    ensures
        word_value(r) == (word_value(a) * word_value(b)) % word_modulus(),
{
    a.overflowing_mul(b).0
}

/// Relies on `U256::overflowing_neg`: the negation modulo 2^256.
#[verifier::external_body]
fn overflowing_neg(a: U256) -> (r: U256)
    ensures
        word_value(r) == (word_modulus() - word_value(a)) % (word_modulus() as int),
{
    a.overflowing_neg().0
}

/// Relies on `U256::checked_div`: `None` for a zero divisor, else the quotient.
#[verifier::external_body]
fn checked_div(a: U256, b: U256) -> (r: Option<U256>)
    ensures
        word_value(b) == 0 <==> r is None,
        r matches Some(q) ==> word_value(q) == word_value(a) / word_value(b),
{
    a.checked_div(b)
}

/// Relies on `U256::checked_rem`: `None` for a zero divisor, else the remainder.
#[verifier::external_body]
fn checked_rem(a: U256, b: U256) -> (r: Option<U256>)
    ensures
        word_value(b) == 0 <==> r is None,
        r matches Some(m) ==> word_value(m) == word_value(a) % word_value(b),
{
    a.checked_rem(b)
}

/// Relies on `U256`'s `Ord`, which compares the values.
#[verifier::external_body]
fn less_than(a: &U256, b: &U256) -> (r: bool)
    ensures
        r == (word_value(*a) < word_value(*b)),
{
    a < b
}

/// Relies on `U256`'s `BitAnd`, which takes the `&` of each limb.
#[verifier::external_body]
fn bit_and(a: U256, b: U256) -> (r: U256)
    ensures
        r.0[0] == a.0[0] & b.0[0] && r.0[1] == a.0[1] & b.0[1] && r.0[2] == a.0[2] & b.0[2]
            && r.0[3] == a.0[3] & b.0[3],
{
    a & b
}

/// Relies on `U256`'s `BitOr`, which takes the `|` of each limb.
#[verifier::external_body]
fn bit_or(a: U256, b: U256) -> (r: U256)
    ensures
        r.0[0] == a.0[0] | b.0[0] && r.0[1] == a.0[1] | b.0[1] && r.0[2] == a.0[2] | b.0[2]
            && r.0[3] == a.0[3] | b.0[3],
{
    a | b
}

/// Relies on `U256`'s `BitXor`, which takes the `^` of each limb.
#[verifier::external_body]
fn bit_xor(a: U256, b: U256) -> (r: U256)
    ensures
        r.0[0] == a.0[0] ^ b.0[0] && r.0[1] == a.0[1] ^ b.0[1] && r.0[2] == a.0[2] ^ b.0[2]
            && r.0[3] == a.0[3] ^ b.0[3],
{
    a ^ b
}

/// Relies on `U256`'s `Not`, which complements each limb.
#[verifier::external_body]
fn bit_not(a: U256) -> (r: U256)
    ensures
        r.0[0] == !a.0[0] && r.0[1] == !a.0[1] && r.0[2] == !a.0[2] && r.0[3] == !a.0[3],
{
    !a
}

/// Relies on `U256::from_big_endian`, which reads up to 32 bytes, most significant first.
#[verifier::external_body]
fn from_big_endian(bytes: &[u8]) -> (r: U256)
    requires
        bytes@.len() <= 32,
    ensures
        word_value(r) == be_value(bytes@),
{
    U256::from_big_endian(bytes)
}

/// Relies on `U256::to_big_endian`: the 32 bytes of the value, most significant first.
#[verifier::external_body]
fn to_big_endian(w: &U256) -> (r: Vec<u8>)
    ensures
        r@.len() == 32,
        be_value(r@) == word_value(*w),
{
    w.to_big_endian().to_vec()
}

/// Relies on `U256::from_big_endian` over `H160::as_bytes`: the 20 address bytes read
/// most significant first.
#[verifier::external_body]
fn address_from_big_endian(a: &Address) -> (r: U256)
    ensures
        word_value(r) == be_value(a.0@),
{
    U256::from_big_endian(a.as_bytes())
}

/// The word whose low 20 bytes are the address, most significant first.
pub fn word_from_address(a: &Address) -> (r: U256)
    ensures
        word_value(r) == be_value(a.0@),
{
    address_from_big_endian(a)
}

/// Relies on `BigEndianHash::from_uint` for `H256`: the 32 bytes of the value, most
/// significant first.
#[verifier::external_body]
fn hash_from_uint(w: &U256) -> (r: H256)
    ensures
        be_value(r.0@) == word_value(*w),
{
    <H256 as BigEndianHash>::from_uint(w)
}

/// The hash whose 32 bytes are the word, most significant first.
pub fn word_to_hash(w: &U256) -> (r: H256)
    ensures
        be_value(r.0@) == word_value(*w),
{
    hash_from_uint(w)
}

/// Relies on `BigEndianHash::into_uint` for `H256`: the 32 bytes read most significant
/// first.
#[verifier::external_body]
fn uint_from_hash(h: &H256) -> (r: U256)
    ensures
        word_value(r) == be_value(h.0@),
{
    h.into_uint()
}

/// The word whose big-endian bytes are the hash.
pub fn word_from_hash(h: &H256) -> (r: U256)
    ensures
        word_value(r) == be_value(h.0@),
{
    uint_from_hash(h)
}

/// Relies on `U256::overflowing_pow`: the power modulo 2^256.
#[verifier::external_body]
fn overflowing_pow(a: U256, e: U256) -> (r: U256)
    ensures
        word_value(r) == pow(word_value(a) as int, word_value(e)) % (word_modulus() as int),
{
    a.overflowing_pow(e).0
}

/// Relies on `U256::bits`: the least number of bits that represent the value, at most 256.
#[verifier::external_body]
fn bits(w: &U256) -> (r: usize)
    ensures
        r == bit_len(word_value(*w)),
        r <= 256,
{
    w.bits()
}

/// Relies on `U256`'s `Shl`: the value shifted up by `s` bits, modulo 2^256.
#[verifier::external_body]
fn shift_left(v: U256, s: usize) -> (r: U256)
    requires
        s < 256,
    ensures
        word_value(r) == (word_value(v) * pow2(s as nat)) % word_modulus(),
{
    v << s
}

/// Relies on `U256`'s `Shr`: the value shifted down by `s` bits.
#[verifier::external_body]
fn shift_right(v: U256, s: usize) -> (r: U256)
    requires
        s < 256,
    ensures
        word_value(r) == word_value(v) / pow2(s as nat),
{
    v >> s
}

/// EXP: the power modulo 2^256.
pub fn exp(a: U256, e: U256) -> (r: U256)
    ensures
        word_value(r) == wrap(pow(word_value(a) as int, word_value(e))),
{
    overflowing_pow(a, e)
}

/// Number of bits needed to write the word.
pub fn bit_length(w: &U256) -> (r: usize)
    ensures
        r == bit_len(word_value(*w)),
        r <= 256,
{
    bits(w)
}

/// The word as an index below `bound`, if it is one.
pub fn word_to_index(w: &U256, bound: usize) -> (r: Option<usize>)
    ensures
        r matches Some(x) ==> x == word_value(*w) && x < bound,
        r is None ==> word_value(*w) >= bound,
{
    proof {
        vstd::arithmetic::power2::lemma2_to64();
    }
    if w.0[1] == 0 && w.0[2] == 0 && w.0[3] == 0 {
        let v = w.0[0];
        assert(word_value(*w) == v) by (nonlinear_arith)
            requires
                w.0[1] == 0,
                w.0[2] == 0,
                w.0[3] == 0,
                v == w.0[0],
                word_value(*w) == w.0[0] as nat + w.0[1] as nat * pow2(64) + w.0[2] as nat
                    * pow2(128) + w.0[3] as nat * pow2(192),
        ;
        if v < bound as u64 {
            Some(v as usize)
        } else {
            None
        }
    } else {
        proof {
            vstd::arithmetic::power2::lemma_pow2_adds(64, 64);
            vstd::arithmetic::power2::lemma_pow2_adds(128, 64);
            let p = pow2(64);
            assert(word_value(*w) >= p) by (nonlinear_arith)
                requires
                    w.0[1] != 0 || w.0[2] != 0 || w.0[3] != 0,
                    p > 0,
                    pow2(128) == p * p,
                    pow2(192) == p * p * p,
                    word_value(*w) == w.0[0] as nat + w.0[1] as nat * p + w.0[2] as nat * pow2(128)
                        + w.0[3] as nat * pow2(192),
            ;
        }
        None
    }
}

/// BYTE: byte `i` of `x` counted from the most significant end; zero from 32 on.
pub fn byte(i: &U256, x: U256) -> (r: U256)
    ensures
        word_value(r) == byte_value(word_value(*i), word_value(x)),
{
    match word_to_index(i, 32) {
        Some(k) => {
            let s = shift_right(x, 8 * (31 - k));
            proof {
                lemma_low_byte(s);
            }
            word_from_u64(s.0[0] % 256)
        },
        None => word_from_u64(0),
    }
}

/// SAR: `value` read in two's complement and shifted down by `shift` bits, filling with
/// its sign bit.
pub fn sar(shift: &U256, value: U256) -> (r: U256)
    ensures
        word_value(r) == sar_value(word_value(*shift), word_value(value)),
{
    proof {
        lemma_word_bound(value);
        lemma_pow2_adds(255, 1);
        lemma2_to64();
    }
    if !is_negative(&value) {
        let r = shr(shift, value);
        proof {
            if word_value(*shift) < 256 {
                vstd::arithmetic::power2::lemma_pow2_pos(word_value(*shift));
                vstd::arithmetic::div_mod::lemma_div_pos_is_pos(
                    word_value(value) as int,
                    pow2(word_value(*shift)) as int,
                );
                vstd::arithmetic::div_mod::lemma_div_is_ordered_by_denominator(
                    word_value(value) as int,
                    1,
                    pow2(word_value(*shift)) as int,
                );
                vstd::arithmetic::div_mod::lemma_small_mod(word_value(r), word_modulus());
            }
        }
        r
    } else {
        let y = bit_not(value);
        proof {
            lemma_word_not(value, y);
        }
        let z = shr(shift, y);
        let r = bit_not(z);
        proof {
            lemma_word_not(z, r);
            lemma_word_bound(z);
            if word_value(*shift) < 256 {
                let d = pow2(word_value(*shift)) as int;
                vstd::arithmetic::power2::lemma_pow2_pos(word_value(*shift));
                lemma_floor_negative(word_value(y) as int, d);
                let m = word_modulus() as int;
                vstd::arithmetic::div_mod::lemma_mod_add_multiples_vanish(
                    -(word_value(z) as int) - 1,
                    m,
                );
                vstd::arithmetic::div_mod::lemma_small_mod(
                    (m - 1 - word_value(z)) as nat,
                    m as nat,
                );
            }
        }
        r
    }
}

/// The word 2^k, for `k` below 256.
fn power_of_two(k: usize) -> (r: U256)
    requires
        k < 256,
    ensures
        word_value(r) == pow2(k as nat),
{
    let r = shift_left(word_from_u64(1), k);
    proof {
        vstd::arithmetic::power2::lemma_pow2_strictly_increases(k as nat, 256);
        vstd::arithmetic::power2::lemma_pow2_pos(k as nat);
        vstd::arithmetic::div_mod::lemma_small_mod(pow2(k as nat), word_modulus());
    }
    r
}

/// SIGNEXTEND: `x` extended from its byte `b`, counted from the least significant end, as
/// a two's complement number; `x` itself from `b == 31` on.
pub fn signextend(b: &U256, x: U256) -> (r: U256)
    ensures
        word_value(r) == signextend_value(word_value(*b), word_value(x)),
{
    let k = match word_to_index(b, 31) {
        Some(i) => 8 * i + 8,
        None => {
            return x;
        },
    };
    let pow = power_of_two(k);
    let half = power_of_two(k - 1);
    let low = rem(x, pow);
    proof {
        vstd::arithmetic::power2::lemma_pow2_pos(k as nat);
        lemma_word_bound(pow);
        lemma_word_bound(low);
    }
    if less_than(&low, &half) {
        low
    } else {
        let r = overflowing_add(low, overflowing_neg(pow));
        proof {
            let m = word_modulus() as int;
            vstd::arithmetic::div_mod::lemma_small_mod((m - pow2(k as nat)) as nat, m as nat);
            vstd::arithmetic::div_mod::lemma_small_mod(
                (m - pow2(k as nat) + word_value(low)) as nat,
                m as nat,
            );
        }
        r
    }
}

/// SHL: `value` shifted up by `shift` bits modulo 2^256; zero from 256 bits on.
pub fn shl(shift: &U256, value: U256) -> (r: U256)
    ensures
        word_value(r) == shl_value(word_value(*shift), word_value(value)),
{
    match word_to_index(shift, 256) {
        Some(s) => shift_left(value, s),
        None => word_from_u64(0),
    }
}

/// SHR: `value` shifted down by `shift` bits; zero from 256 bits on.
pub fn shr(shift: &U256, value: U256) -> (r: U256)
    ensures
        word_value(r) == shr_value(word_value(*shift), word_value(value)),
{
    match word_to_index(shift, 256) {
        Some(s) => shift_right(value, s),
        None => word_from_u64(0),
    }
}

/// Relies on `H160`'s `From<H256>`: the low 20 of the 32 bytes.
#[verifier::external_body]
fn address_from_hash(h: &H256) -> (r: Address)
    ensures
        r.0@ == h.0@.subrange(12, 32),
{
    Address::from(*h)
}

/// The address held in the low 20 bytes of a word whose value is `v`.
pub open spec fn address_with(v: nat) -> Address {
    choose|a: Address| a.0@ == be_bytes(v, 32).subrange(12, 32)
}

/// The address in the low 20 bytes of a word.
pub fn word_to_address(w: &U256) -> (r: Address)
    ensures
        r == address_with(word_value(*w)),
{
    let h = hash_from_uint(w);
    let r = address_from_hash(&h);
    proof {
        lemma_be_bytes(h.0@);
        let c = address_with(word_value(*w));
        assert(c.0@ == r.0@);
        assert(c.0 =~= r.0) by {
            assert forall|i: int| 0 <= i < 20 implies c.0[i] == r.0[i] by {
                assert(c.0@[i] == r.0@[i]);
            }
        }
    }
    r
}

/// ADD: the sum modulo 2^256.
pub fn add(a: U256, b: U256) -> (r: U256)
    ensures
        word_value(r) == wrap(word_value(a) + word_value(b) as int),
{
    overflowing_add(a, b)
}

/// SUB: the difference modulo 2^256.
pub fn sub(a: U256, b: U256) -> (r: U256)
    ensures
        word_value(r) == wrap(word_value(a) - word_value(b)),
{
    overflowing_sub(a, b)
}

/// MUL: the product modulo 2^256.
pub fn mul(a: U256, b: U256) -> (r: U256)
    ensures
        word_value(r) == wrap(word_value(a) * word_value(b) as int),
{
    overflowing_mul(a, b)
}

/// DIV: the unsigned quotient; zero for a zero divisor.
pub fn div(a: U256, b: U256) -> (r: U256)
    ensures
        word_value(r) == div_value(word_value(a), word_value(b)),
{
    match checked_div(a, b) {
        Some(q) => q,
        None => word_from_u64(0),
    }
}

/// MOD: the unsigned remainder; zero for a zero divisor.
pub fn rem(a: U256, b: U256) -> (r: U256)
    ensures
        word_value(r) == mod_value(word_value(a), word_value(b)),
{
    match checked_rem(a, b) {
        Some(m) => m,
        None => word_from_u64(0),
    }
}

/// The word with only the sign bit set.
fn sign_word() -> (r: U256)
    ensures
        word_value(r) == sign_bit(),
{
    proof {
        lemma_pow2_adds(63, 192);
    }
    let r = U256([0, 0, 0, 0x8000_0000_0000_0000]);
    proof {
        vstd::arithmetic::power2::lemma2_to64_rest();
        assert(r.0[3] as nat == pow2(63));
        assert(word_value(r) == pow2(63) * pow2(192)) by (nonlinear_arith)
            requires
                r.0[0] == 0,
                r.0[1] == 0,
                r.0[2] == 0,
                r.0[3] as nat == pow2(63),
                word_value(r) == r.0[0] as nat + r.0[1] as nat * pow2(64) + r.0[2] as nat * pow2(
                    128,
                ) + r.0[3] as nat * pow2(192),
        ;
    }
    r
}

/// Whether a word is negative in two's complement.
pub fn is_negative(a: &U256) -> (r: bool)
    ensures
        r == (signed(word_value(*a)) < 0),
{
    proof {
        lemma_word_bound(*a);
        lemma_pow2_adds(255, 1);
        vstd::arithmetic::power2::lemma2_to64();
    }
    let s = sign_word();
    !less_than(a, &s)
}

/// The magnitude of a word read in two's complement.
fn magnitude(a: U256) -> (r: U256)
    ensures
        word_value(r) == abs(signed(word_value(a))),
{
    proof {
        lemma_word_bound(a);
    }
    if is_negative(&a) {
        let r = overflowing_neg(a);
        proof {
            lemma_pow2_adds(255, 1);
            vstd::arithmetic::power2::lemma2_to64();
            vstd::arithmetic::div_mod::lemma_small_mod(
                (word_modulus() - word_value(a)) as nat,
                word_modulus(),
            );
        }
        r
    } else {
        a
    }
}

/// SDIV: the signed quotient, truncated toward zero; zero for a zero divisor.
pub fn sdiv(a: U256, b: U256) -> (r: U256)
    ensures
        word_value(r) == sdiv_value(word_value(a), word_value(b)),
{
    proof {
        lemma_word_bound(a);
        lemma_word_bound(b);
        lemma_pow2_adds(255, 1);
        vstd::arithmetic::power2::lemma2_to64();
    }
    let ma = magnitude(a);
    let mb = magnitude(b);
    let q = match checked_div(ma, mb) {
        Some(q) => q,
        None => {
            return word_from_u64(0);
        },
    };
    proof {
        lemma_word_bound(q);
        vstd::arithmetic::div_mod::lemma_small_mod(word_value(q), word_modulus());
    }
    if is_negative(&a) != is_negative(&b) {
        let r = overflowing_neg(q);
        proof {
            let m = word_modulus() as int;
            let v = word_value(q) as int;
            vstd::arithmetic::div_mod::lemma_mod_add_multiples_vanish(-v, m);
        }
        r
    } else {
        q
    }
}

/// SMOD: the signed remainder, with the sign of the dividend; zero for a zero divisor.
pub fn smod(a: U256, b: U256) -> (r: U256)
    ensures
        word_value(r) == smod_value(word_value(a), word_value(b)),
{
    proof {
        lemma_word_bound(a);
        lemma_word_bound(b);
        lemma_pow2_adds(255, 1);
        vstd::arithmetic::power2::lemma2_to64();
    }
    let ma = magnitude(a);
    let mb = magnitude(b);
    let m = match checked_rem(ma, mb) {
        Some(m) => m,
        None => {
            return word_from_u64(0);
        },
    };
    proof {
        lemma_word_bound(m);
    }
    if is_negative(&a) {
        let r = overflowing_neg(m);
        proof {
            let v = word_value(m) as int;
            vstd::arithmetic::div_mod::lemma_mod_add_multiples_vanish(-v, word_modulus() as int);
        }
        r
    } else {
        m
    }
}

/// SLT: one when `a < b` read in two's complement, else zero.
pub fn slt(a: &U256, b: &U256) -> (r: U256)
    ensures
        word_value(r) == (if signed(word_value(*a)) < signed(word_value(*b)) {
            1nat
        } else {
            0nat
        }),
{
    proof {
        lemma_word_bound(*a);
        lemma_word_bound(*b);
    }
    let na = is_negative(a);
    let nb = is_negative(b);
    let less = if na != nb {
        na
    } else {
        less_than(a, b)
    };
    if less {
        word_from_u64(1)
    } else {
        word_from_u64(0)
    }
}

/// SGT: one when `a > b` read in two's complement, else zero.
pub fn sgt(a: &U256, b: &U256) -> (r: U256)
    ensures
        word_value(r) == (if signed(word_value(*a)) > signed(word_value(*b)) {
            1nat
        } else {
            0nat
        }),
{
    slt(b, a)
}

/// ADDMOD: `(a + b) mod n` computed without wrapping; zero for a zero modulus.
pub fn addmod(a: U256, b: U256, n: U256) -> (r: U256)
    ensures
        word_value(r) == addmod_value(word_value(a), word_value(b), word_value(n)),
{
    let x = match checked_rem(a, n) {
        Some(x) => x,
        None => {
            return word_from_u64(0);
        },
    };
    let y = match checked_rem(b, n) {
        Some(y) => y,
        None => {
            return word_from_u64(0);
        },
    };
    let ghost (va, vb, vn, vx, vy) = (
        word_value(a) as int,
        word_value(b) as int,
        word_value(n) as int,
        word_value(x) as int,
        word_value(y) as int,
    );
    proof {
        lemma_word_bound(n);
        lemma_word_bound(x);
        lemma_word_bound(y);
        vstd::arithmetic::div_mod::lemma_add_mod_noop(va, vb, vn);
    }
    let s = overflowing_add(x, y);
    let ghost m = word_modulus() as int;
    proof {
        if vx + vy >= m {
            vstd::arithmetic::div_mod::lemma_mod_sub_multiples_vanish(vx + vy, m);
            vstd::arithmetic::div_mod::lemma_small_mod((vx + vy - m) as nat, m as nat);
        } else {
            vstd::arithmetic::div_mod::lemma_small_mod((vx + vy) as nat, m as nat);
        }
    }
    if less_than(&s, &x) || !less_than(&s, &n) {
        let r = overflowing_sub(s, n);
        proof {
            let d = vx + vy - vn;
            assert(0 <= d < vn);
            vstd::arithmetic::div_mod::lemma_small_mod(d as nat, vn as nat);
            vstd::arithmetic::div_mod::lemma_mod_sub_multiples_vanish(vx + vy, vn);
            if vx + vy >= m {
                vstd::arithmetic::div_mod::lemma_mod_add_multiples_vanish(d - m, m);
                vstd::arithmetic::div_mod::lemma_small_mod(d as nat, m as nat);
            } else {
                vstd::arithmetic::div_mod::lemma_small_mod(d as nat, m as nat);
            }
        }
        r
    } else {
        proof {
            vstd::arithmetic::div_mod::lemma_small_mod((vx + vy) as nat, vn as nat);
        }
        s
    }
}

/// Relies on `U256::full_mul`: the product as a double-width word, which cannot overflow.
#[verifier::external_body]
fn full_mul(a: U256, b: U256) -> (r: U512)
    ensures
        wide_value(r) == word_value(a) * word_value(b),
{
    a.full_mul(b)
}

/// Relies on `U512`'s `From<U256>`: the same value at double width.
#[verifier::external_body]
fn widen(a: U256) -> (r: U512)
    ensures
        wide_value(r) == word_value(a),
{
    U512::from(a)
}

/// Relies on `U512`'s `Rem`, which panics on a zero divisor: the remainder.
#[verifier::external_body]
fn wide_rem(a: U512, n: U512) -> (r: U512)
    requires
        wide_value(n) != 0,
    ensures
        wide_value(r) == wide_value(a) % wide_value(n),
{
    a % n
}

/// Relies on `U256`'s `TryFrom<U512>`: the same value when it fits in a word.
#[verifier::external_body]
fn narrow(a: U512) -> (r: Option<U256>)
    ensures
        r is Some <==> wide_value(a) < word_modulus(),
        r matches Some(w) ==> word_value(w) == wide_value(a),
{
    U256::try_from(a).ok()
}

/// MULMOD: `(a * b) mod n` computed without wrapping; zero for a zero modulus.
pub fn mulmod(a: U256, b: U256, n: U256) -> (r: U256)
    ensures
        word_value(r) == mulmod_value(word_value(a), word_value(b), word_value(n)),
{
    if n.is_zero() {
        proof {
            lemma_zero_word(n);
        }
        return word_from_u64(0);
    }
    let wide_n = widen(n);
    proof {
        lemma_word_bound(n);
        lemma_nonzero_word(n);
    }
    let product = full_mul(a, b);
    let rem = wide_rem(product, wide_n);
    proof {
        vstd::arithmetic::div_mod::lemma_mod_pos_bound(wide_value(product) as int, word_value(n) as int);
    }
    match narrow(rem) {
        Some(r) => r,
        None => word_from_u64(0),
    }
}

/// LT: one when `a < b` as unsigned values, else zero.
pub fn lt(a: &U256, b: &U256) -> (r: U256)
    ensures
        word_value(r) == (if word_value(*a) < word_value(*b) { 1nat } else { 0nat }),
{
    if less_than(a, b) {
        word_from_u64(1)
    } else {
        word_from_u64(0)
    }
}

/// GT: one when `a > b` as unsigned values, else zero.
pub fn gt(a: &U256, b: &U256) -> (r: U256)
    ensures
        word_value(r) == (if word_value(*a) > word_value(*b) { 1nat } else { 0nat }),
{
    lt(b, a)
}

/// EQ: one when the words are equal, else zero.
pub fn eq(a: &U256, b: &U256) -> (r: U256)
    ensures
        word_value(r) == (if *a == *b { 1nat } else { 0nat }),
{
    if crate::primitives::same_word(a, b) {
        word_from_u64(1)
    } else {
        word_from_u64(0)
    }
}

/// ISZERO: one when the word is zero, else zero.
pub fn iszero(a: &U256) -> (r: U256)
    ensures
        word_value(r) == (if is_zero_word(*a) { 1nat } else { 0nat }),
{
    if a.is_zero() {
        word_from_u64(1)
    } else {
        word_from_u64(0)
    }
}

/// AND: the bitwise conjunction.
pub fn and(a: U256, b: U256) -> (r: U256)
    ensures
        forall|i: int| 0 <= i < 4 ==> r.0[i] == a.0[i] & b.0[i],
{
    bit_and(a, b)
}

/// OR: the bitwise disjunction.
pub fn or(a: U256, b: U256) -> (r: U256)
    ensures
        forall|i: int| 0 <= i < 4 ==> r.0[i] == a.0[i] | b.0[i],
{
    bit_or(a, b)
}

/// XOR: the bitwise exclusive or.
pub fn xor(a: U256, b: U256) -> (r: U256)
    ensures
        forall|i: int| 0 <= i < 4 ==> r.0[i] == a.0[i] ^ b.0[i],
{
    bit_xor(a, b)
}

/// NOT: the bitwise complement.
pub fn not(a: U256) -> (r: U256)
    ensures
        forall|i: int| 0 <= i < 4 ==> r.0[i] == !a.0[i],
{
    bit_not(a)
}

/// The word whose big-endian bytes are `bytes`, at most 32 of them.
pub fn word_from_bytes(bytes: &[u8]) -> (r: U256)
    requires
        bytes@.len() <= 32,
    ensures
        word_value(r) == be_value(bytes@),
{
    from_big_endian(bytes)
}

/// The 32 big-endian bytes of a word.
pub fn word_to_bytes(w: &U256) -> (r: Vec<u8>)
    ensures
        r@.len() == 32,
        be_value(r@) == word_value(*w),
{
    to_big_endian(w)
}

/// Division and remainder by zero give zero for every dividend, signed or not.
pub proof fn lemma_zero_divisor(x: nat)
    ensures
        div_value(x, 0) == 0,
        mod_value(x, 0) == 0,
        sdiv_value(x, 0) == 0,
{
}

} // verus!
