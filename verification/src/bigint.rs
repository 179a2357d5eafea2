//! Arbitrary-precision arithmetic of `num_bigint` on two's-complement bytes.
//!
//! An integer of any size is held as little-endian two's-complement bytes. The
//! functions here hand such bytes to `num_bigint::BigInt` and take bytes back;
//! their contracts are statements about the integers that the bytes denote.

use num_bigint::BigInt;
use num_integer::Integer;
use num_traits::{Signed, ToPrimitive, Zero};
use std::cmp::Ordering;
use vstd::arithmetic::power::pow;
use vstd::arithmetic::power2::pow2;
use vstd::prelude::*;

use crate::decimal::int_digits;
use crate::order::{int_order, Order};

verus! {

/// The number that little-endian base-256 digits denote.
pub open spec fn le_nat(bytes: Seq<u8>) -> nat
    decreases bytes.len(),
{
    if bytes.len() == 0 {
        0
    } else {
        bytes[0] as nat + 256 * le_nat(bytes.skip(1))
    }
}

/// The integer that little-endian two's-complement bytes denote; no bytes denote zero.
pub open spec fn twos_complement(bytes: Seq<u8>) -> int {
    if bytes.len() > 0 && bytes.last() >= 128 {
        le_nat(bytes) - pow(256, bytes.len())
    } else {
        le_nat(bytes) as int
    }
}

/// The number of bits needed to write `n` in base two; zero needs none.
pub open spec fn bit_length(n: nat) -> nat
    decreases n,
{
    if n == 0 {
        0
    } else {
        1 + bit_length(n / 2)
    }
}

/// The magnitude of an integer.
pub open spec fn magnitude(x: int) -> nat {
    if x < 0 {
        (-x) as nat
    } else {
        x as nat
    }
}

/// Bit `i` of an integer in unbounded two's complement.
pub open spec fn bit_at(x: int, i: nat) -> bool {
    (x / (pow2(i) as int)) % 2 == 1
}

/// Quotient of `a` by `b`, rounded toward negative infinity.
pub open spec fn floor_div(a: int, b: int) -> int {
    if b > 0 {
        a / b
    } else {
        (-a) / (-b)
    }
}

/// Remainder of `a` by `b` that belongs to [`floor_div`]; it has the sign of `b`.
pub open spec fn floor_mod(a: int, b: int) -> int {
    a - b * floor_div(a, b)
}

/// Whether an integer of this many bits can be held in memory at all.
pub open spec fn addressable_bits(bits: int) -> bool {
    bits + 64 <= 8 * (isize::MAX as int)
}

/// `BigInt::from(i64)` keeps the value.
#[verifier::external_body]
pub(crate) fn big_from_i64(value: i64) -> (r: Vec<u8>)
    ensures
        twos_complement(r@) == value,
{
    BigInt::from(value).to_signed_bytes_le()
}

/// `BigInt + BigInt` is integer addition.
#[verifier::external_body]
pub(crate) fn big_add(a: &[u8], b: &[u8]) -> (r: Vec<u8>)
    ensures
        twos_complement(r@) == twos_complement(a@) + twos_complement(b@),
{
    (BigInt::from_signed_bytes_le(a) + BigInt::from_signed_bytes_le(b)).to_signed_bytes_le()
}

/// `BigInt - BigInt` is integer subtraction.
#[verifier::external_body]
pub(crate) fn big_sub(a: &[u8], b: &[u8]) -> (r: Vec<u8>)
    ensures
        twos_complement(r@) == twos_complement(a@) - twos_complement(b@),
{
    (BigInt::from_signed_bytes_le(a) - BigInt::from_signed_bytes_le(b)).to_signed_bytes_le()
}

/// `BigInt * BigInt` is integer multiplication.
#[verifier::external_body]
pub(crate) fn big_mul(a: &[u8], b: &[u8]) -> (r: Vec<u8>)
    ensures
        twos_complement(r@) == twos_complement(a@) * twos_complement(b@),
{
    (BigInt::from_signed_bytes_le(a) * BigInt::from_signed_bytes_le(b)).to_signed_bytes_le()
}

/// `-BigInt` is integer negation.
#[verifier::external_body]
pub(crate) fn big_neg(a: &[u8]) -> (r: Vec<u8>)
    ensures
        twos_complement(r@) == -twos_complement(a@),
{
    (-BigInt::from_signed_bytes_le(a)).to_signed_bytes_le()
}

/// `Signed::abs` of `num_traits` is the magnitude.
#[verifier::external_body]
pub(crate) fn big_abs(a: &[u8]) -> (r: Vec<u8>)
    ensures
        twos_complement(r@) == magnitude(twos_complement(a@)),
{
    BigInt::from_signed_bytes_le(a).abs().to_signed_bytes_le()
}

/// `Zero::is_zero` of `num_traits` tests for zero.
#[verifier::external_body]
pub(crate) fn big_is_zero(a: &[u8]) -> (r: bool)
    ensures
        r == (twos_complement(a@) == 0),
{
    BigInt::from_signed_bytes_le(a).is_zero()
}

/// `Signed::is_negative` of `num_traits` tests for a value below zero.
#[verifier::external_body]
pub(crate) fn big_is_negative(a: &[u8]) -> (r: bool)
    ensures
        r == (twos_complement(a@) < 0),
{
    BigInt::from_signed_bytes_le(a).is_negative()
}

/// `ToPrimitive::to_i64` of `num_traits` gives the value when it fits.
#[verifier::external_body]
pub(crate) fn big_to_i64(a: &[u8]) -> (r: Option<i64>)
    ensures
        r is Some <==> i64::MIN <= twos_complement(a@) <= i64::MAX,
        r is Some ==> r->0 == twos_complement(a@),
{
    BigInt::from_signed_bytes_le(a).to_i64()
}

/// `ToPrimitive::to_u32` of `num_traits` gives the value when it fits.
#[verifier::external_body]
pub(crate) fn big_to_u32(a: &[u8]) -> (r: Option<u32>)
    ensures
        r is Some <==> 0 <= twos_complement(a@) <= u32::MAX,
        r is Some ==> r->0 == twos_complement(a@),
{
    BigInt::from_signed_bytes_le(a).to_u32()
}

/// `ToPrimitive::to_usize` of `num_traits` gives the value when it fits.
#[verifier::external_body]
pub(crate) fn big_to_usize(a: &[u8]) -> (r: Option<usize>)
    ensures
        r is Some <==> 0 <= twos_complement(a@) <= usize::MAX,
        r is Some ==> r->0 == twos_complement(a@),
{
    BigInt::from_signed_bytes_le(a).to_usize()
}

/// `BigInt::bits` is the length of the magnitude in base two.
#[verifier::external_body]
pub(crate) fn big_bits(a: &[u8]) -> (r: u64)
    ensures
        r == bit_length(magnitude(twos_complement(a@))),
{
    BigInt::from_signed_bytes_le(a).bits()
}

/// `Integer::div_floor` of `num_integer` divides and rounds toward negative infinity.
#[verifier::external_body]
pub(crate) fn big_div_floor(a: &[u8], b: &[u8]) -> (r: Vec<u8>)
    requires
        twos_complement(b@) != 0,
    ensures
        twos_complement(r@) == floor_div(twos_complement(a@), twos_complement(b@)),
{
    BigInt::from_signed_bytes_le(a).div_floor(&BigInt::from_signed_bytes_le(b)).to_signed_bytes_le()
}

/// `Integer::mod_floor` of `num_integer` is the remainder of the rounded-down division.
#[verifier::external_body]
pub(crate) fn big_mod_floor(a: &[u8], b: &[u8]) -> (r: Vec<u8>)
    requires
        twos_complement(b@) != 0,
    ensures
        twos_complement(r@) == floor_mod(twos_complement(a@), twos_complement(b@)),
{
    BigInt::from_signed_bytes_le(a).mod_floor(&BigInt::from_signed_bytes_le(b)).to_signed_bytes_le()
}

/// `BigInt::pow` raises to a power; `0 ** 0` is one.
#[verifier::external_body]
pub(crate) fn big_pow(a: &[u8], exponent: u32) -> (r: Vec<u8>)
    requires
        addressable_bits(bit_length(magnitude(twos_complement(a@))) * exponent),
    ensures
        twos_complement(r@) == pow(twos_complement(a@), exponent as nat),
{
    BigInt::from_signed_bytes_le(a).pow(exponent).to_signed_bytes_le()
}

/// `BigInt & BigInt` combines the two's-complement bits.
#[verifier::external_body]
pub(crate) fn big_and(a: &[u8], b: &[u8]) -> (r: Vec<u8>)
    ensures
        forall|i: nat|
            #[trigger] bit_at(twos_complement(r@), i) == (bit_at(twos_complement(a@), i) && bit_at(
                twos_complement(b@),
                i,
            )),
{
    (BigInt::from_signed_bytes_le(a) & BigInt::from_signed_bytes_le(b)).to_signed_bytes_le()
}

/// `BigInt | BigInt` combines the two's-complement bits.
#[verifier::external_body]
pub(crate) fn big_or(a: &[u8], b: &[u8]) -> (r: Vec<u8>)
    ensures
        forall|i: nat|
            #[trigger] bit_at(twos_complement(r@), i) == (bit_at(twos_complement(a@), i) || bit_at(
                twos_complement(b@),
                i,
            )),
{
    (BigInt::from_signed_bytes_le(a) | BigInt::from_signed_bytes_le(b)).to_signed_bytes_le()
}

/// `BigInt ^ BigInt` combines the two's-complement bits.
#[verifier::external_body]
pub(crate) fn big_xor(a: &[u8], b: &[u8]) -> (r: Vec<u8>)
    ensures
        forall|i: nat|
            #[trigger] bit_at(twos_complement(r@), i) == (bit_at(twos_complement(a@), i) != bit_at(
                twos_complement(b@),
                i,
            )),
{
    (BigInt::from_signed_bytes_le(a) ^ BigInt::from_signed_bytes_le(b)).to_signed_bytes_le()
}

/// `BigInt << u64` multiplies by a power of two.
#[verifier::external_body]
pub(crate) fn big_shl(a: &[u8], shift: u64) -> (r: Vec<u8>)
    requires
        addressable_bits(bit_length(magnitude(twos_complement(a@))) + shift),
    ensures
        twos_complement(r@) == twos_complement(a@) * pow2(shift as nat),
{
    (BigInt::from_signed_bytes_le(a) << shift).to_signed_bytes_le()
}

/// `BigInt >> u64` divides by a power of two and rounds toward negative infinity.
#[verifier::external_body]
pub(crate) fn big_shr(a: &[u8], shift: u64) -> (r: Vec<u8>)
    ensures
        twos_complement(r@) == twos_complement(a@) / (pow2(shift as nat) as int),
{
    (BigInt::from_signed_bytes_le(a) >> shift).to_signed_bytes_le()
}

/// `Ord::cmp` of `BigInt` is the order of the integers.
#[verifier::external_body]
pub(crate) fn big_order(a: &[u8], b: &[u8]) -> (r: Order)
    ensures
        r == int_order(twos_complement(a@), twos_complement(b@)),
{
    match BigInt::from_signed_bytes_le(a).cmp(&BigInt::from_signed_bytes_le(b)) {
        Ordering::Less => Order::Less,
        Ordering::Equal => Order::Equal,
        Ordering::Greater => Order::Greater,
    }
}

/// `Display` of `BigInt` writes the decimal digits.
#[verifier::external_body]
pub(crate) fn big_to_string(a: &[u8]) -> (r: String)
    ensures
        r@ == int_digits(twos_complement(a@)),
{
    BigInt::from_signed_bytes_le(a).to_string()
}

} // verus!
