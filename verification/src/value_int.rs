//! Values as integers, and integers as values.

use vstd::arithmetic::power::pow;
use vstd::prelude::*;

use crate::args::{raises, Raised};
use crate::bigint::{bit_length, floor_div, floor_mod, magnitude};
use crate::exception::{ExcType, RunError, RunResult};
use crate::heap::{HeapData, HeapId};
use crate::text::{chars_of, push_str, string_of};
use crate::types::long_int::LongInt;
use crate::types::py_type::Type;
use crate::types::str::heap_full;
use crate::types::str_args::int_is;
use crate::types::timedelta::floor_div_pos;
use crate::value::Value;
use crate::vm::VM;

verus! {

/// The error for an integer that does not fit into a machine word.
pub open spec fn ssize_overflow() -> Raised {
    (ExcType::OverflowError, "Python int too large to convert to C ssize_t"@)
}

/// The error for an integer that does not fit into a machine word.
pub fn overflow_c_ssize_t() -> (r: RunError)
    ensures
        r.says(ssize_overflow().0, ssize_overflow().1),
{
    RunError::new(ExcType::OverflowError, "Python int too large to convert to C ssize_t")
}

/// Whether an integer fits into a machine integer.
pub open spec fn fits_i64(n: int) -> bool {
    i64::MIN <= n <= i64::MAX
}

impl VM {
    /// The long integer that a value refers to.
    pub open spec fn long_int_of(self, v: Value) -> Option<int> {
        match self.data_of(v) {
            Some(HeapData::LongInt(li)) => Some(li@),
            _ => None,
        }
    }

    /// The integer that a value is, where truth values count as integers.
    pub open spec fn integer_of(self, v: Value) -> Option<int> {
        match v {
            Value::Int(i) => Some(i as int),
            Value::Bool(b) => Some(
                if b {
                    1
                } else {
                    0
                },
            ),
            _ => self.long_int_of(v),
        }
    }

    /// The integer that a value stands for where a machine integer is wanted.
    pub open spec fn int_of(self, v: Value) -> Result<int, Raised> {
        let found = match v {
            Value::Int(i) => Some(i as int),
            _ => self.long_int_of(v),
        };
        match found {
            Some(n) => if fits_i64(n) {
                Ok(n)
            } else {
                Err(ssize_overflow())
            },
            None => Err(
                (
                    ExcType::TypeError,
                    "'"@ + self.type_of(v).text() + "' object cannot be interpreted as an integer"@,
                ),
            ),
        }
    }

    /// The index that a value stands for in a container of the given type.
    pub open spec fn index_of(self, v: Value, container: Type) -> Result<int, Raised> {
        match self.integer_of(v) {
            Some(n) => if fits_i64(n) {
                Ok(n)
            } else {
                Err(
                    (ExcType::IndexError, "cannot fit 'int' into an index-sized integer"@),
                )
            },
            None => Err(bad_index(container, self.type_of(v))),
        }
    }
}

/// The error for an index of the wrong type.
pub open spec fn bad_index(container: Type, index: Type) -> Raised {
    (
        ExcType::TypeError,
        container.text() + " indices must be integers or slices, not "@ + index.text(),
    )
}

/// The error for an index of the wrong type.
pub fn type_error_indices(container: Type, index: Type) -> (r: RunError)
    ensures
        r.says(bad_index(container, index).0, bad_index(container, index).1),
{
    let mut out = chars_of(container.as_str());
    push_str(&mut out, " indices must be integers or slices, not ");
    push_str(&mut out, index.as_str());
    assert(out@ =~= bad_index(container, index).1);
    RunError::new_msg(ExcType::TypeError, string_of(&out))
}

impl Value {
    /// The value as a machine integer. Only integers are taken; a long one has
    /// to fit.
    pub fn as_int(&self, vm: &VM) -> (r: RunResult<i64>)
        requires
            vm.ok(*self),
        ensures
            int_is(r, vm.int_of(*self)),
    {
        match self {
            Value::Int(i) => {
                return Ok(*i);
            },
            Value::Ref(id) => match vm.heap.get(*id) {
                HeapData::LongInt(li) => match li.to_i64() {
                    Some(i) => {
                        return Ok(i);
                    },
                    None => {
                        return Err(overflow_c_ssize_t());
                    },
                },
                _ => {},
            },
            _ => {},
        }
        let mut out = chars_of("'");
        push_str(&mut out, self.py_type(vm).as_str());
        push_str(&mut out, "' object cannot be interpreted as an integer");
        assert(out@ =~= "'"@ + vm.type_of(*self).text()
            + "' object cannot be interpreted as an integer"@);
        Err(RunError::new_msg(ExcType::TypeError, string_of(&out)))
    }

    /// The value as an index into a container. Integers and truth values are
    /// taken; a long integer has to fit.
    pub fn as_index(&self, vm: &VM, container_type: Type) -> (r: RunResult<i64>)
        requires
            vm.ok(*self),
        ensures
            int_is(r, vm.index_of(*self, container_type)),
    {
        match self {
            Value::Int(i) => Ok(*i),
            Value::Bool(b) => if *b {
                Ok(1)
            } else {
                Ok(0)
            },
            Value::Ref(id) => match vm.heap.get(*id) {
                HeapData::LongInt(li) => match li.to_i64() {
                    Some(i) => Ok(i),
                    None => Err(
                        RunError::new(
                            ExcType::IndexError,
                            "cannot fit 'int' into an index-sized integer",
                        ),
                    ),
                },
                _ => Err(type_error_indices(container_type, self.py_type(vm))),
            },
            _ => Err(type_error_indices(container_type, self.py_type(vm))),
        }
    }

    /// The value as a small integer, as the constructors of dates take them.
    pub fn to_i32(&self) -> (r: RunResult<i32>)
        ensures
            match small_int(*self) {
                Ok(n) => r matches Ok(i) && i == n,
                Err(e) => raises(r, e),
            },
    {
        let n: i64 = match self {
            Value::Bool(b) => if *b {
                1
            } else {
                0
            },
            Value::Int(i) => *i,
            _ => {
                return Err(
                    RunError::new(ExcType::TypeError, "an integer is required (got type float)"),
                );
            },
        };
        if n < i32::MIN as i64 || n > i32::MAX as i64 {
            Err(RunError::new(ExcType::OverflowError, "signed integer is greater than maximum"))
        } else {
            Ok(n as i32)
        }
    }

    /// The integer that the value is, where truth values count as integers.
    pub fn extract_bigint(&self, vm: &VM) -> (r: Option<LongInt>)
        requires
            vm.ok(*self),
        ensures
            match (r, vm.integer_of(*self)) {
                (Some(li), Some(n)) => li@ == n,
                (None, None) => true,
                _ => false,
            },
    {
        match self {
            Value::Int(i) => Some(LongInt::from_i64(*i)),
            Value::Bool(b) => Some(
                LongInt::from_i64(
                    if *b {
                        1
                    } else {
                        0
                    },
                ),
            ),
            Value::Ref(id) => match vm.heap.get(*id) {
                HeapData::LongInt(li) => Some(li.duplicate()),
                _ => None,
            },
            _ => None,
        }
    }
}

/// A small integer from a value.
pub open spec fn small_int(v: Value) -> Result<int, Raised> {
    let found = match v {
        Value::Bool(b) => Some(
            if b {
                1
            } else {
                0int
            },
        ),
        Value::Int(i) => Some(i as int),
        _ => None,
    };
    match found {
        None => Err((ExcType::TypeError, "an integer is required (got type float)"@)),
        Some(n) => if i32::MIN <= n <= i32::MAX {
            Ok(n)
        } else {
            Err((ExcType::OverflowError, "signed integer is greater than maximum"@))
        },
    }
}

/// Whether a value is the integer `n`: a machine integer where it fits,
/// otherwise a new heap entry at the end of the heap.
pub open spec fn new_int(before: VM, after: VM, v: Value, n: int) -> bool {
    if fits_i64(n) {
        v == Value::Int(n as i64) && after == before
    } else {
        &&& v == Value::Ref(HeapId(before.entries().len() as usize))
        &&& after.entries().len() == before.entries().len() + 1
        &&& after.grows_from(before)
        &&& after.entries().last().refs == 1
        &&& after.entries().last().data matches HeapData::LongInt(li)
        &&& li@ == n
    }
}

/// Whether a result is the integer `n`, or the error for a full heap.
pub open spec fn int_result(before: VM, after: VM, r: RunResult<Value>, n: int) -> bool {
    match r {
        Ok(v) => {
            &&& fits_i64(n) || before.heap.room() > 0
            &&& new_int(before, after, v, n)
        },
        Err(e) => {
            &&& !fits_i64(n)
            &&& before.heap.room() <= 0
            &&& heap_full(e)
            &&& after == before
        },
    }
}

impl LongInt {
    /// The integer as a value: a machine integer where it fits.
    pub fn into_value(self, vm: &mut VM) -> (r: RunResult<Value>)
        requires
            old(vm).wf(),
        ensures
            final(vm).wf(),
            r matches Ok(v) ==> final(vm).ok(v),
            int_result(*old(vm), *final(vm), r, self@),
    {
        match self.to_i64() {
            Some(i) => Ok(Value::Int(i)),
            None => match vm.allocate(HeapData::LongInt(self)) {
                Ok(id) => {
                    assert(old(vm).entries().is_prefix_of(vm.entries()));
                    Ok(Value::Ref(id))
                },
                Err(e) => Err(e),
            },
        }
    }
}

/// An integer that is made a value is that integer again when it is read, and
/// where it is asked for as a machine integer it is given back if it fits.
pub proof fn lemma_int_round_trip(before: VM, after: VM, v: Value, n: int)
    requires
        new_int(before, after, v, n),
        before.entries().len() <= usize::MAX,
    ensures
        after.integer_of(v) == Some(n),
        fits_i64(n) ==> after.int_of(v) == Ok::<int, Raised>(n),
        !fits_i64(n) ==> after.int_of(v) == Err::<int, Raised>(ssize_overflow()),
{
}

/// Quotient and remainder of machine integers, rounded toward negative
/// infinity; `None` when the divisor is zero or the quotient does not fit.
pub fn floor_divmod(a: i64, b: i64) -> (r: Option<(i64, i64)>)
    ensures
        match r {
            Some((q, m)) => {
                &&& b != 0
                &&& q == floor_div(a as int, b as int)
                &&& m == floor_mod(a as int, b as int)
            },
            None => b == 0 || !fits_i64(floor_div(a as int, b as int)),
        },
{
    if b == 0 {
        return None;
    }
    let x: i128 = a as i128;
    let y: i128 = b as i128;
    proof {
        lemma_floor_bounds(a as int, b as int);
    }
    let q: i128 = if y > 0 {
        floor_div_pos(x, y)
    } else {
        floor_div_pos(-x, -y)
    };
    proof {
        assert(-0x4000_0000_0000_0000_0000_0000_0000_0000 <= y * q
            <= 0x4000_0000_0000_0000_0000_0000_0000_0000) by (nonlinear_arith)
            requires
                -0x8000_0000_0000_0000 <= y <= 0x8000_0000_0000_0000,
                -0x8000_0000_0000_0000 <= q <= 0x8000_0000_0000_0000,
        ;
    }
    let m: i128 = x - y * q;
    if q > i64::MAX as i128 {
        None
    } else {
        Some((q as i64, m as i64))
    }
}

/// The quotient is not larger in magnitude than the dividend, and the
/// remainder is between zero and the divisor.
proof fn lemma_floor_bounds(a: int, b: int)
    requires
        i64::MIN <= a <= i64::MAX,
        i64::MIN <= b <= i64::MAX,
        b != 0,
    ensures
        -0x8000_0000_0000_0000 <= floor_div(a, b) <= 0x8000_0000_0000_0000,
        b > 0 ==> 0 <= floor_mod(a, b) < b,
        b < 0 ==> b < floor_mod(a, b) <= 0,
        b > 0 ==> floor_mod(a, b) == a % b,
        b < 0 ==> floor_mod(a, b) == -((-a) % (-b)),
        floor_div(a, b) > i64::MAX || fits_i64(floor_div(a, b)),
{
    if b > 0 {
        vstd::arithmetic::div_mod::lemma_fundamental_div_mod(a, b);
        assert(-0x8000_0000_0000_0000 <= a / b <= 0x8000_0000_0000_0000) by (nonlinear_arith)
            requires
                b > 0,
                -0x8000_0000_0000_0000 <= a <= 0x8000_0000_0000_0000,
        ;
    } else {
        let x = -a;
        let y = -b;
        vstd::arithmetic::div_mod::lemma_fundamental_div_mod(x, y);
        assert(-0x8000_0000_0000_0000 <= x / y <= 0x8000_0000_0000_0000) by (nonlinear_arith)
            requires
                y > 0,
                -0x8000_0000_0000_0000 <= x <= 0x8000_0000_0000_0000,
        ;
        let q = x / y;
        assert(b * q == -(y * q)) by (nonlinear_arith)
            requires
                y == -b,
        ;
    }
}

/// Floor division: the divisor times the quotient plus the remainder is the
/// dividend, and the remainder has the divisor's sign and is smaller.
pub proof fn lemma_floor_divmod_identity(a: int, b: int)
    requires
        b != 0,
    ensures
        b * floor_div(a, b) + floor_mod(a, b) == a,
        b > 0 ==> 0 <= floor_mod(a, b) < b,
        b < 0 ==> b < floor_mod(a, b) <= 0,
{
    if b > 0 {
        vstd::arithmetic::div_mod::lemma_fundamental_div_mod(a, b);
    } else {
        let x = -a;
        let y = -b;
        vstd::arithmetic::div_mod::lemma_fundamental_div_mod(x, y);
        let q = x / y;
        assert(b * q == -(y * q)) by (nonlinear_arith)
            requires
                y == -b,
        ;
    }
}

/// The error for a repeat count that does not fit.
pub open spec fn repeat_overflow() -> Raised {
    (ExcType::OverflowError, "cannot fit 'int' into an index-sized integer"@)
}

/// How often something is repeated: negative counts are none.
pub open spec fn repeat_count(n: int) -> Result<int, Raised> {
    if n <= 0 {
        Ok(0)
    } else if n <= usize::MAX {
        Ok(n)
    } else {
        Err(repeat_overflow())
    }
}

/// Whether a count is what is said of it.
pub open spec fn count_is(r: RunResult<usize>, e: Result<int, Raised>) -> bool {
    match e {
        Ok(n) => r matches Ok(i) && i == n,
        Err(err) => raises(r, err),
    }
}

/// A machine integer as a repeat count.
pub fn i64_to_repeat_count(n: i64) -> (r: RunResult<usize>)
    ensures
        count_is(r, repeat_count(n as int)),
{
    if n <= 0 {
        Ok(0)
    } else if n as u64 > usize::MAX as u64 {
        Err(
            RunError::new(
                ExcType::OverflowError,
                "cannot fit 'int' into an index-sized integer",
            ),
        )
    } else {
        Ok(n as usize)
    }
}

/// A long integer as a repeat count.
pub fn longint_to_repeat_count(li: &LongInt) -> (r: RunResult<usize>)
    ensures
        count_is(r, repeat_count(li@)),
{
    if li.is_negative() {
        Ok(0)
    } else {
        match li.to_usize() {
            Some(count) => Ok(count),
            None => Err(
                RunError::new(
                    ExcType::OverflowError,
                    "cannot fit 'int' into an index-sized integer",
                ),
            ),
        }
    }
}

/// The number of significant bits of a machine integer.
pub fn i64_bits(value: i64) -> (r: u64)
    ensures
        r == bit_length(magnitude(value as int)),
        r <= 64,
{
    let mut rest: u64 = if value < 0 {
        (-(value as i128)) as u64
    } else {
        value as u64
    };
    let mut bits: u64 = 0;
    proof {
        vstd::arithmetic::power2::lemma2_to64();
        vstd::arithmetic::power2::lemma2_to64_rest();
    }
    while rest > 0
        invariant
            bits + bit_length(rest as nat) == bit_length(magnitude(value as int)),
            rest < vstd::arithmetic::power2::pow2((64 - bits) as nat),
            bits <= 64,
        decreases rest,
    {
        proof {
            vstd::arithmetic::power2::lemma2_to64();
            if bits < 64 {
                vstd::arithmetic::power2::lemma_pow2_adds(1, (63 - bits) as nat);
            }
        }
        rest = rest / 2;
        bits = bits + 1;
    }
    bits
}

/// A power with an even exponent, as the power of the square.
proof fn lemma_pow_square(b: int, e: nat)
    ensures
        pow(b, e) == pow(b * b, e / 2) * (if e % 2 == 1 {
            b
        } else {
            1
        }),
{
    vstd::arithmetic::power::lemma_pow_multiplies(b, 2, e / 2);
    vstd::arithmetic::power::lemma_square_is_pow2(b);
    if e % 2 == 1 {
        vstd::arithmetic::power::lemma_pow_adds(b, 2 * (e / 2), 1);
        vstd::arithmetic::power::lemma_pow1(b);
        assert(e == 2 * (e / 2) + 1);
    } else {
        assert(e == 2 * (e / 2));
    }
}

/// The power with a large exponent, by repeated squaring.
pub fn bigint_pow(base: &LongInt, exp: u64) -> (r: LongInt)
    ensures
        r@ == pow(base@, exp as nat),
{
    let mut result = LongInt::from_i64(1);
    let mut b = base.duplicate();
    let mut e: u64 = exp;
    assert(1 * pow(base@, exp as nat) == pow(base@, exp as nat));
    while e > 0
        invariant
            result@ * pow(b@, e as nat) == pow(base@, exp as nat),
        decreases e,
    {
        let ghost before = result@;
        let ghost square = b@ * b@;
        proof {
            lemma_pow_square(b@, e as nat);
            let p = pow(square, (e / 2) as nat);
            assert(before * (p * b@) == (before * b@) * p) by (nonlinear_arith);
            assert(p * 1 == p);
        }
        if e % 2 == 1 {
            result = result.mul(&b);
        }
        b = b.mul(&b);
        e = e / 2;
    }
    proof {
        vstd::arithmetic::power::lemma_pow0(b@);
        assert(result@ * 1 == result@);
    }
    result
}

} // verus!
