//! Python integers beyond 64 bits.

use vstd::arithmetic::power::pow;
use vstd::arithmetic::power2::pow2;
use vstd::prelude::*;

use crate::bigint::{
    addressable_bits, big_abs, big_add, big_and, big_bits, big_div_floor, big_from_i64,
    big_is_negative, big_is_zero, big_mod_floor, big_mul, big_neg, big_or, big_order, big_pow, big_shl,
    big_shr, big_sub, big_to_i64, big_to_string, big_to_u32, big_to_usize, big_xor, bit_at,
    bit_length, floor_div, floor_mod, magnitude, twos_complement,
};
use crate::decimal::{int_digits, push_nat, nat_digits};
use crate::exception::{ExcType, RunError, RunResult};
use crate::order::{int_order, Order};
use crate::text::{push_str, string_of};

verus! {

/// Largest number of decimal digits that is converted to or from text.
pub const INT_MAX_STR_DIGITS: usize = 4300;

/// An integer of any size.
#[derive(Debug)]
pub struct LongInt {
    bytes: Vec<u8>,
}

impl View for LongInt {
    type V = int;

    closed spec fn view(&self) -> int {
        twos_complement(self.bytes@)
    }
}

impl LongInt {
    /// The integer with these little-endian two's-complement bytes.
    pub fn new(bytes: Vec<u8>) -> (r: LongInt)
        ensures
            r@ == twos_complement(bytes@),
    {
        LongInt { bytes }
    }

    /// The integer `value`.
    pub fn from_i64(value: i64) -> (r: LongInt)
        ensures
            r@ == value,
    {
        LongInt { bytes: big_from_i64(value) }
    }

    /// The little-endian two's-complement bytes.
    pub fn inner(&self) -> (r: &Vec<u8>)
        ensures
            twos_complement(r@) == self@,
    {
        &self.bytes
    }

    /// A copy of this integer.
    pub fn duplicate(&self) -> (r: LongInt)
        ensures
            r@ == self@,
    {
        LongInt { bytes: self.bytes.clone() }
    }

    /// Whether the value is zero.
    pub fn is_zero(&self) -> (r: bool)
        ensures
            r == (self@ == 0),
    {
        big_is_zero(&self.bytes)
    }

    /// Whether the value is negative.
    pub fn is_negative(&self) -> (r: bool)
        ensures
            r == (self@ < 0),
    {
        big_is_negative(&self.bytes)
    }

    /// The value as an `i64`, if it fits.
    pub fn to_i64(&self) -> (r: Option<i64>)
        ensures
            r is Some <==> i64::MIN <= self@ <= i64::MAX,
            r is Some ==> r->0 == self@,
    {
        big_to_i64(&self.bytes)
    }

    /// The value as a `u32`, if it fits.
    pub fn to_u32(&self) -> (r: Option<u32>)
        ensures
            r is Some <==> 0 <= self@ <= u32::MAX,
            r is Some ==> r->0 == self@,
    {
        big_to_u32(&self.bytes)
    }

    /// The value as a `usize`, if it fits.
    pub fn to_usize(&self) -> (r: Option<usize>)
        ensures
            r is Some <==> 0 <= self@ <= usize::MAX,
            r is Some ==> r->0 == self@,
    {
        big_to_usize(&self.bytes)
    }

    /// The magnitude.
    pub fn abs(&self) -> (r: LongInt)
        ensures
            r@ == magnitude(self@),
    {
        LongInt { bytes: big_abs(&self.bytes) }
    }

    /// The number of bits of the magnitude; zero has none.
    pub fn bits(&self) -> (r: u64)
        ensures
            r == bit_length(magnitude(self@)),
    {
        big_bits(&self.bytes)
    }

    /// An estimate of the memory that the value takes.
    pub fn estimate_size(&self, overhead: usize) -> (r: usize)
        ensures
            r == estimated_size(bit_length(magnitude(self@)), overhead as nat),
    {
        let bits: u64 = self.bits();
        let capped: usize = if bits > usize::MAX as u64 {
            usize::MAX
        } else {
            bits as usize
        };
        (capped.saturating_add(7) / 8).saturating_add(overhead)
    }

    /// Checks that the decimal text would not be too long.
    pub fn check_str_digits_limit(&self) -> (r: RunResult<()>)
        ensures
            match r {
                Ok(_) => magnitude(self@) < pow(10, 4300),
                Err(e) => magnitude(self@) >= pow(10, 4300) && e.says(
                    ExcType::ValueError,
                    too_large_for_str(),
                ),
            },
    {
        check_bigint_str_digits_limit(self)
    }

    /// The sum.
    pub fn add(&self, rhs: &LongInt) -> (r: LongInt)
        ensures
            r@ == self@ + rhs@,
    {
        LongInt { bytes: big_add(&self.bytes, &rhs.bytes) }
    }

    /// The difference.
    pub fn sub(&self, rhs: &LongInt) -> (r: LongInt)
        ensures
            r@ == self@ - rhs@,
    {
        LongInt { bytes: big_sub(&self.bytes, &rhs.bytes) }
    }

    /// The product.
    pub fn mul(&self, rhs: &LongInt) -> (r: LongInt)
        ensures
            r@ == self@ * rhs@,
    {
        LongInt { bytes: big_mul(&self.bytes, &rhs.bytes) }
    }

    /// The negated value.
    pub fn neg(&self) -> (r: LongInt)
        ensures
            r@ == -self@,
    {
        LongInt { bytes: big_neg(&self.bytes) }
    }

    /// The quotient, rounded toward negative infinity.
    pub fn div_floor(&self, rhs: &LongInt) -> (r: LongInt)
        requires
            rhs@ != 0,
        ensures
            r@ == floor_div(self@, rhs@),
    {
        LongInt { bytes: big_div_floor(&self.bytes, &rhs.bytes) }
    }

    /// The remainder with the sign of the divisor.
    pub fn mod_floor(&self, rhs: &LongInt) -> (r: LongInt)
        requires
            rhs@ != 0,
        ensures
            r@ == floor_mod(self@, rhs@),
    {
        LongInt { bytes: big_mod_floor(&self.bytes, &rhs.bytes) }
    }

    /// The power with a small exponent.
    pub fn pow(&self, exponent: u32) -> (r: LongInt)
        requires
            addressable_bits(bit_length(magnitude(self@)) * exponent),
        ensures
            r@ == pow(self@, exponent as nat),
    {
        LongInt { bytes: big_pow(&self.bytes, exponent) }
    }

    /// The bits that both have.
    pub fn bitand(&self, rhs: &LongInt) -> (r: LongInt)
        ensures
            forall|i: nat| #[trigger] bit_at(r@, i) == (bit_at(self@, i) && bit_at(rhs@, i)),
    {
        LongInt { bytes: big_and(&self.bytes, &rhs.bytes) }
    }

    /// The bits that either has.
    pub fn bitor(&self, rhs: &LongInt) -> (r: LongInt)
        ensures
            forall|i: nat| #[trigger] bit_at(r@, i) == (bit_at(self@, i) || bit_at(rhs@, i)),
    {
        LongInt { bytes: big_or(&self.bytes, &rhs.bytes) }
    }

    /// The bits that one of them has.
    pub fn bitxor(&self, rhs: &LongInt) -> (r: LongInt)
        ensures
            forall|i: nat| #[trigger] bit_at(r@, i) == (bit_at(self@, i) != bit_at(rhs@, i)),
    {
        LongInt { bytes: big_xor(&self.bytes, &rhs.bytes) }
    }

    /// The value shifted left.
    pub fn shl(&self, shift: u64) -> (r: LongInt)
        requires
            addressable_bits(bit_length(magnitude(self@)) + shift),
        ensures
            r@ == self@ * pow2(shift as nat),
    {
        LongInt { bytes: big_shl(&self.bytes, shift) }
    }

    /// The value shifted right, rounded toward negative infinity.
    pub fn shr(&self, shift: u64) -> (r: LongInt)
        ensures
            r@ == self@ / (pow2(shift as nat) as int),
    {
        LongInt { bytes: big_shr(&self.bytes, shift) }
    }

    /// How the value compares to another.
    pub fn compare(&self, rhs: &LongInt) -> (r: Order)
        ensures
            r == int_order(self@, rhs@),
    {
        big_order(&self.bytes, &rhs.bytes)
    }

    /// Whether the value equals another.
    pub fn equals(&self, rhs: &LongInt) -> (r: bool)
        ensures
            r == (self@ == rhs@),
    {
        match big_order(&self.bytes, &rhs.bytes) {
            Order::Equal => true,
            _ => false,
        }
    }

    /// The decimal text.
    pub fn to_text(&self) -> (r: String)
        ensures
            r@ == int_digits(self@),
    {
        big_to_string(&self.bytes)
    }
}

/// Bits rounded up to bytes, plus the fixed part, both cut off at the machine's limit.
pub open spec fn estimated_size(bits: nat, overhead: nat) -> nat {
    let capped = if bits > usize::MAX {
        usize::MAX as nat
    } else {
        bits
    };
    let rounded = if capped + 7 > usize::MAX {
        usize::MAX as nat
    } else {
        capped + 7
    };
    if rounded / 8 + overhead > usize::MAX {
        usize::MAX as nat
    } else {
        rounded / 8 + overhead
    }
}

/// The message for an integer that is too long to write.
pub open spec fn too_large_for_str() -> Seq<char> {
    "Exceeds the limit (4300 digits) for integer string conversion; use sys.set_int_max_str_digits() to increase the limit"@
}

/// The message for a text that has too many digits.
pub open spec fn str_too_large(digit_count: nat) -> Seq<char> {
    "Exceeds the limit (4300 digits) for integer string conversion: value has "@ + nat_digits(
        digit_count,
    ) + " digits; use sys.set_int_max_str_digits() to increase the limit"@
}

fn value_error_int_too_large_for_str() -> (r: RunError)
    ensures
        r.says(ExcType::ValueError, too_large_for_str()),
{
    RunError::new(
        ExcType::ValueError,
        "Exceeds the limit (4300 digits) for integer string conversion; use sys.set_int_max_str_digits() to increase the limit",
    )
}

/// Checks a number of decimal digits against the limit.
pub fn check_decimal_digit_count(digit_count: usize) -> (r: RunResult<()>)
    ensures
        match r {
            Ok(_) => digit_count <= INT_MAX_STR_DIGITS,
            Err(e) => digit_count > INT_MAX_STR_DIGITS && e.says(
                ExcType::ValueError,
                str_too_large(digit_count as nat),
            ),
        },
{
    if digit_count > INT_MAX_STR_DIGITS {
        let mut out: Vec<char> = Vec::new();
        push_str(
            &mut out,
            "Exceeds the limit (4300 digits) for integer string conversion: value has ",
        );
        push_nat(&mut out, digit_count as u64);
        push_str(&mut out, " digits; use sys.set_int_max_str_digits() to increase the limit");
        assert(out@ =~= str_too_large(digit_count as nat));
        return Err(RunError::new_msg(ExcType::ValueError, string_of(&out)));
    }
    Ok(())
}

/// Whether a byte is an ASCII decimal digit.
pub open spec fn is_digit_byte(b: u8) -> bool {
    48 <= b <= 57
}

/// How many ASCII digits the bytes hold.
pub open spec fn digit_bytes(value: Seq<u8>) -> nat
    decreases value.len(),
{
    if value.len() == 0 {
        0
    } else if is_digit_byte(value.last()) {
        digit_bytes(value.drop_last()) + 1
    } else {
        digit_bytes(value.drop_last())
    }
}

/// Counts the decimal digits of an ASCII integer; signs do not count.
pub fn decimal_digit_count_ascii(value: &[u8]) -> (r: usize)
    ensures
        r == digit_bytes(value@),
{
    let mut count: usize = 0;
    for i in 0..value.len()
        invariant
            count <= i,
            count == digit_bytes(value@.take(i as int)),
    {
        proof {
            assert(value@.take(i + 1).drop_last() =~= value@.take(i as int));
        }
        if value[i] >= 48 && value[i] <= 57 {
            count = count + 1;
        }
    }
    assert(value@.take(value@.len() as int) =~= value@);
    count
}

/// Checks that an integer has at most 4300 decimal digits.
pub fn check_bigint_str_digits_limit(value: &LongInt) -> (r: RunResult<()>)
    ensures
        match r {
            Ok(_) => magnitude(value@) < pow(10, 4300),
            Err(e) => magnitude(value@) >= pow(10, 4300) && e.says(
                ExcType::ValueError,
                too_large_for_str(),
            ),
        },
{
    proof {
        reveal_with_fuel(bit_length, 6);
        assert(bit_length(10) == 4);
    }
    let threshold = LongInt::from_i64(10).pow(INT_MAX_STR_DIGITS as u32);
    let size = value.abs();
    match size.compare(&threshold) {
        Order::Less => Ok(()),
        _ => Err(value_error_int_too_large_for_str()),
    }
}

/// `bits * 30103`, cut off at the largest 64-bit number.
pub open spec fn scaled_bits(bits: int) -> int {
    if bits * 30_103 > u64::MAX {
        u64::MAX as int
    } else {
        bits * 30_103
    }
}

/// Checks quickly that an integer of this many bits cannot be too long to write.
pub fn check_bits_str_digits_limit(bits: u64) -> (r: RunResult<()>)
    ensures
        match r {
            Ok(_) => scaled_bits(bits as int) / 100_000 + 1 <= INT_MAX_STR_DIGITS,
            Err(e) => scaled_bits(bits as int) / 100_000 + 1 > INT_MAX_STR_DIGITS && e.says(
                ExcType::ValueError,
                too_large_for_str(),
            ),
        },
{
    let scaled: u64 = match bits.checked_mul(30_103) {
        Some(product) => product,
        None => u64::MAX,
    };
    let estimated_digits: u64 = scaled / 100_000 + 1;
    if estimated_digits > INT_MAX_STR_DIGITS as u64 {
        return Err(value_error_int_too_large_for_str());
    }
    Ok(())
}

} // verus!
