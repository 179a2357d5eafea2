//! Bitwise operations on values.

use vstd::arithmetic::div_mod::{lemma_fundamental_div_mod, lemma_fundamental_div_mod_converse};
use vstd::arithmetic::power2::{lemma2_to64, lemma_pow2_pos, lemma_pow2_unfold, pow2};
use vstd::prelude::*;

use crate::args::{raises, Raised};
use crate::arith::memory_error;
use crate::bigint::{bit_at, bit_length, magnitude};
use crate::exception::{ExcType, RunError, RunResult};
use crate::text::{chars_of, push_str, string_of};
use crate::types::long_int::LongInt;
use crate::types::py_type::Type;
use crate::value::{BitwiseOp, Value};
use crate::value_int::{fits_i64, int_result, overflow_c_ssize_t, ssize_overflow};
use crate::value_mul::{check_bits, too_many_bits};
use crate::vm::VM;

verus! {

/// The error for operands that an operator does not know.
pub open spec fn operand_error(op: Seq<char>, left: Type, right: Type) -> Raised {
    (
        ExcType::TypeError,
        "unsupported operand type(s) for "@ + op + ": '"@ + left.text() + "' and '"@ + right.text()
            + "'"@,
    )
}

/// The error for operands that an operator does not know.
pub fn binary_type_error(op: &str, left: Type, right: Type) -> (r: RunError)
    ensures
        r.says(ExcType::TypeError, operand_error(op@, left, right).1),
{
    let mut out = chars_of("unsupported operand type(s) for ");
    push_str(&mut out, op);
    push_str(&mut out, ": '");
    push_str(&mut out, left.as_str());
    push_str(&mut out, "' and '");
    push_str(&mut out, right.as_str());
    push_str(&mut out, "'");
    assert(out@ =~= operand_error(op@, left, right).1);
    RunError::new_msg(ExcType::TypeError, string_of(&out))
}

/// The error for a negative shift.
pub open spec fn shift_error() -> Raised {
    (ExcType::ValueError, "negative shift count"@)
}

/// The error for a shift, if any.
pub open spec fn shift_failure(vm: VM, op: BitwiseOp, l: int, r: int) -> Option<Raised> {
    match op {
        BitwiseOp::LShift => if r < 0 {
            Some(shift_error())
        } else if !fits_i64(r) {
            Some(ssize_overflow())
        } else if l != 0 && too_many_bits(vm, bit_length(magnitude(l)) + r) {
            Some(memory_error())
        } else {
            None
        },
        BitwiseOp::RShift => if r < 0 {
            Some(shift_error())
        } else {
            None
        },
        _ => None,
    }
}

/// Whether an integer is what the operation makes of two others.
pub open spec fn bits_are(op: BitwiseOp, l: int, r: int, n: int) -> bool {
    match op {
        BitwiseOp::And => forall|i: nat|
            #[trigger] bit_at(n, i) == (bit_at(l, i) && bit_at(r, i)),
        BitwiseOp::Or => forall|i: nat| #[trigger] bit_at(n, i) == (bit_at(l, i) || bit_at(r, i)),
        BitwiseOp::Xor => forall|i: nat|
            #[trigger] bit_at(n, i) == (bit_at(l, i) != bit_at(r, i)),
        BitwiseOp::LShift => n == l * pow2(r as nat),
        BitwiseOp::RShift => if fits_i64(r) {
            n == l / (pow2(r as nat) as int)
        } else {
            n == (if l < 0 {
                -1int
            } else {
                0
            })
        },
    }
}

/// What a bitwise operation comes to.
pub open spec fn bitwise_done(
    before: VM,
    after: VM,
    r: RunResult<Value>,
    op: BitwiseOp,
    a: Value,
    b: Value,
) -> bool {
    match (before.integer_of(a), before.integer_of(b)) {
        (Some(l), Some(n)) => match shift_failure(before, op, l, n) {
            Some(e) => raises(r, e) && after == before,
            None => exists|m: int|
                #![trigger bits_are(op, l, n, m)]
                bits_are(op, l, n, m) && int_result(before, after, r, m),
        },
        _ => raises(
            r,
            operand_error(op.symbol(), before.type_of(a), before.type_of(b)),
        ) && after == before,
    }
}

fn negative_shift() -> (r: RunError)
    ensures
        r.says(ExcType::ValueError, "negative shift count"@),
{
    RunError::new(ExcType::ValueError, "negative shift count")
}

/// Shifts left, after a check of the size.
fn shift_left(l: &LongInt, r: &LongInt, vm: &VM) -> (out: RunResult<LongInt>)
    ensures
        match shift_failure(*vm, BitwiseOp::LShift, l@, r@) {
            Some(e) => raises(out, e),
            None => out matches Ok(n) && bits_are(BitwiseOp::LShift, l@, r@, n@),
        },
{
    if r.is_negative() {
        return Err(negative_shift());
    }
    let shift: u64 = match r.to_i64() {
        None => {
            return Err(overflow_c_ssize_t());
        },
        Some(shift) => shift as u64,
    };
    if l.is_zero() {
        assert(0 * pow2(shift as nat) == 0);
        return Ok(LongInt::from_i64(0));
    }
    match check_bits(vm, l.bits() as u128 + shift as u128) {
        Err(e) => Err(e),
        Ok(_) => Ok(l.shl(shift)),
    }
}

/// Shifts right.
fn shift_right(l: &LongInt, r: &LongInt, vm: Ghost<VM>) -> (out: RunResult<LongInt>)
    ensures
        match shift_failure(vm@, BitwiseOp::RShift, l@, r@) {
            Some(e) => raises(out, e),
            None => out matches Ok(n) && bits_are(BitwiseOp::RShift, l@, r@, n@),
        },
{
    if r.is_negative() {
        return Err(negative_shift());
    }
    match r.to_i64() {
        Some(shift) => Ok(l.shr(shift as u64)),
        None => {
            if l.is_negative() {
                Ok(LongInt::from_i64(-1))
            } else {
                Ok(LongInt::from_i64(0))
            }
        },
    }
}

impl Value {
    /// A bitwise operation; truth values count as 0 and 1.
    pub fn py_bitwise(&self, other: &Value, op: BitwiseOp, vm: &mut VM) -> (r: RunResult<Value>)
        requires
            old(vm).wf(),
            old(vm).ok(*self),
            old(vm).ok(*other),
        ensures
            final(vm).wf(),
            r matches Ok(v) ==> final(vm).ok(v),
            bitwise_done(*old(vm), *final(vm), r, op, *self, *other),
    {
        let (l, n) = match (self.extract_bigint(vm), other.extract_bigint(vm)) {
            (Some(l), Some(n)) => (l, n),
            _ => {
                return Err(
                    binary_type_error(op.as_str(), self.py_type(vm), other.py_type(vm)),
                );
            },
        };
        let ghost state = *vm;
        let made = match op {
            BitwiseOp::And => Ok(l.bitand(&n)),
            BitwiseOp::Or => Ok(l.bitor(&n)),
            BitwiseOp::Xor => Ok(l.bitxor(&n)),
            BitwiseOp::LShift => shift_left(&l, &n, vm),
            BitwiseOp::RShift => shift_right(&l, &n, Ghost(state)),
        };
        match made {
            Err(e) => Err(e),
            Ok(m) => {
                assert(bits_are(op, l@, n@, m@));
                m.into_value(vm)
            },
        }
    }
}

/// A bit of an integer is the one before of its half.
proof fn lemma_bit_of_half(x: int, i: nat)
    ensures
        bit_at(x, i + 1) == bit_at(x / 2, i),
{
    let p = pow2(i) as int;
    lemma_pow2_pos(i);
    lemma_pow2_unfold(i + 1);
    assert(pow2(i + 1) == 2 * p);
    let q = x / 2;
    let r = x % 2;
    let a = q / p;
    let b = q % p;
    lemma_fundamental_div_mod(q, p);
    assert(x == a * (2 * p) + (2 * b + r)) by (nonlinear_arith)
        requires
            x == 2 * q + r,
            q == p * a + b,
    ;
    assert(0 <= b < p);
    lemma_fundamental_div_mod_converse(x, 2 * p, a, 2 * b + r);
}

/// Integers with the same bits are the same.
proof fn lemma_same_bits(a: int, b: int)
    requires
        forall|i: nat| #[trigger] bit_at(a, i) == bit_at(b, i),
    ensures
        a == b,
    decreases
            (if a < 0 {
                -a
            } else {
                a
            }) + (if b < 0 {
                -b
            } else {
                b
            }),
{
    lemma2_to64();
    assert(bit_at(a, 0) == bit_at(b, 0));
    assert(a / 1 == a && b / 1 == b);
    assert(a % 2 == b % 2);
    if -1 <= a <= 0 && -1 <= b <= 0 {
    } else {
        assert forall|i: nat| #[trigger] bit_at(a / 2, i) == bit_at(b / 2, i) by {
            lemma_bit_of_half(a, i);
            lemma_bit_of_half(b, i);
            assert(bit_at(a, i + 1) == bit_at(b, i + 1));
        }
        lemma_same_bits(a / 2, b / 2);
    }
}

/// The bits of a result decide what it is.
pub proof fn lemma_bits_decide(op: BitwiseOp, l: int, r: int, m: int, n: int)
    requires
        bits_are(op, l, r, m),
        bits_are(op, l, r, n),
    ensures
        m == n,
{
    match op {
        BitwiseOp::And | BitwiseOp::Or | BitwiseOp::Xor => {
            assert forall|i: nat| #[trigger] bit_at(m, i) == bit_at(n, i) by {
                assert(bit_at(n, i) == bit_at(n, i));
            }
            lemma_same_bits(m, n);
        },
        _ => {},
    }
}

} // verus!
