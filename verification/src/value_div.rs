//! Division and remainder of values.

use vstd::prelude::*;

use crate::args::Raised;
use crate::arith::{
    allocate_path, computed, done, memory_error, raised, rounded, Arith, Computed, Operand,
};
use crate::bigint::{bit_length, floor_div, floor_mod, magnitude};
use crate::exception::{ExcType, RunError, RunResult};
use crate::float::{FloatOp, FloatOperand, FloatTask, FloatValue};
use crate::heap::{HeapData, HeapId};
use crate::outcome::{allocate_object, object_result};
use crate::types::long_int::LongInt;
use crate::types::path::{joined, Path};
use crate::types::timedelta::{
    days_error, div_microseconds_round_ties_even, duration_in_range, floor_div_pos,
    from_total_microseconds, nearest_even, total_microseconds,
};
use crate::value::Value;
use crate::value_add::lemma_entry_ok;
use crate::value_int::{fits_i64, floor_divmod, i64_bits, lemma_floor_divmod_identity};
use crate::value_mul::{bool_int, check_bits, int_of_bool, too_many_bits};
use crate::vm::VM;

verus! {

/// The error for a division by zero.
pub open spec fn zero_division() -> Raised {
    (ExcType::ZeroDivisionError, "division by zero"@)
}

fn zero_division_error() -> (r: RunError)
    ensures
        r.says(ExcType::ZeroDivisionError, "division by zero"@),
{
    RunError::new(ExcType::ZeroDivisionError, "division by zero")
}

/// Whether an operand is zero.
pub open spec fn is_zero_operand(o: Operand) -> bool {
    match o {
        Operand::Float(f) => f.value() == FloatValue::Finite(0),
        Operand::Int(i) => i == 0,
        Operand::Long(n) => n == 0,
    }
}

/// A rounding division, or the error when the divisor is zero.
pub open spec fn rounded_quotient(op: FloatOp, a: Operand, b: Operand) -> Computed {
    if is_zero_operand(b) {
        raised(zero_division())
    } else {
        Computed::Rounded(op, a, b)
    }
}

/// A duration of so many microseconds, or the error when it is none.
pub open spec fn duration_or_error(total: int) -> Computed {
    if duration_in_range(total) {
        Computed::Duration(total)
    } else {
        Computed::Raise(ExcType::OverflowError, days_error(total))
    }
}

/// The integer nearest to a quotient; of two equally near ones the even one.
pub open spec fn nearest_quotient(a: int, b: int) -> int {
    choose|q: int| nearest_even(a, b, q)
}

/// There is only one nearest even quotient.
proof fn lemma_nearest_unique(a: int, b: int, p: int, q: int)
    requires
        b != 0,
        nearest_even(a, b, p),
        nearest_even(a, b, q),
    ensures
        p == q,
{
    let size = if b < 0 {
        -b
    } else {
        b
    };
    if p != q {
        let d = p - q;
        assert(2 * (a - q * b) - 2 * (a - p * b) == 2 * (d * b)) by (nonlinear_arith)
            requires
                d == p - q,
        ;
        assert(-size <= d * b <= size);
        assert(d == 1 || d == -1) by (nonlinear_arith)
            requires
                -size <= d * b <= size,
                size == (if b < 0 {
                    -b
                } else {
                    b
                }),
                b != 0,
                d != 0,
        ;
        assert(d * b == b || d * b == -b) by (nonlinear_arith)
            requires
                d == 1 || d == -1,
        ;
    }
}

/// The text that a path is joined with: that of a string or of a path.
pub open spec fn path_part(vm: VM, v: Value) -> Option<Seq<char>> {
    match vm.data_of(v) {
        Some(HeapData::Path(p)) => Some(p@),
        _ => vm.text_of(v),
    }
}

/// A path joined with a string or another path.
pub open spec fn path_quotient(vm: VM, path: Seq<char>, other: Value) -> Computed {
    match path_part(vm, other) {
        Some(text) => Computed::PathText(joined(path, text)),
        None => Computed::Unsupported,
    }
}

/// What a value other than an immediate number divided by another comes to.
pub open spec fn heap_quotient(vm: VM, data: HeapData, b: Value) -> Computed {
    match (data, b) {
        (HeapData::Path(p), _) => path_quotient(vm, p@, b),
        (HeapData::LongInt(x), Value::Int(y)) => rounded_quotient(
            FloatOp::Div,
            Operand::Long(x@),
            Operand::Int(y),
        ),
        (HeapData::LongInt(x), Value::Float(y)) => rounded_quotient(
            FloatOp::Div,
            Operand::Long(x@),
            Operand::Float(y),
        ),
        (HeapData::LongInt(x), Value::Ref(id)) => match vm.heap.data(id) {
            HeapData::LongInt(y) => rounded_quotient(
                FloatOp::Div,
                Operand::Long(x@),
                Operand::Long(y@),
            ),
            _ => Computed::Unsupported,
        },
        (HeapData::TimeDelta(td), Value::Int(y)) => if y == 0 {
            raised(zero_division())
        } else {
            duration_or_error(nearest_quotient(td.total(), y as int))
        },
        _ => Computed::Unsupported,
    }
}

/// An operand of rounding arithmetic, if an immediate value is one.
pub open spec fn number_operand(v: Value) -> Option<Operand> {
    match v {
        Value::Int(i) => Some(Operand::Int(i)),
        Value::Float(f) => Some(Operand::Float(f)),
        Value::Bool(b) => Some(Operand::Int(bool_int(b))),
        _ => None,
    }
}

/// What `a / b` comes to.
pub open spec fn quotient_of(vm: VM, a: Value, b: Value) -> Computed {
    match (a, b) {
        (Value::Ref(x), _) => heap_quotient(vm, vm.heap.data(x), b),
        (Value::Bool(_), Value::Ref(_)) => Computed::Unsupported,
        (_, Value::Ref(y)) => match (number_operand(a), vm.heap.data(y)) {
            (Some(left), HeapData::LongInt(l)) => rounded_quotient(
                FloatOp::Div,
                left,
                Operand::Long(l@),
            ),
            _ => Computed::Unsupported,
        },
        (Value::Float(f), Value::Bool(y)) => if y {
            Computed::Exact(a)
        } else {
            raised(zero_division())
        },
        _ => match (number_operand(a), number_operand(b)) {
            (Some(left), Some(right)) => rounded_quotient(FloatOp::Div, left, right),
            _ => Computed::Unsupported,
        },
    }
}

/// An operand of rounding arithmetic, if an immediate value is one.
pub(crate) fn number(v: &Value) -> (r: Option<FloatOperand>)
    ensures
        match (r, number_operand(*v)) {
            (Some(o), Some(p)) => crate::arith::operand_is(o, p),
            (None, None) => true,
            _ => false,
        },
{
    match v {
        Value::Int(i) => Some(FloatOperand::Int(*i)),
        Value::Float(f) => Some(FloatOperand::Float(*f)),
        Value::Bool(b) => Some(FloatOperand::Int(int_of_bool(*b))),
        _ => None,
    }
}

/// Whether an operand is zero.
fn operand_is_zero(o: &FloatOperand) -> (r: bool)
    ensures
        forall|p: Operand| crate::arith::operand_is(*o, p) ==> r == is_zero_operand(p),
{
    match o {
        FloatOperand::Float(f) => f.is_zero(),
        FloatOperand::Int(i) => *i == 0,
        FloatOperand::Long(l) => l.is_zero(),
    }
}

/// A rounding division, or the error when the divisor is zero.
fn divide_rounded(op: FloatOp, left: FloatOperand, right: FloatOperand) -> (r: RunResult<Arith>)
    ensures
        forall|vm: VM, p: Operand, q: Operand|
            crate::arith::operand_is(left, p) && crate::arith::operand_is(right, q)
                ==> #[trigger] computed(vm, vm, r, rounded_quotient(op, p, q)),
        !(r matches Ok(Arith::Done(_))),
{
    if operand_is_zero(&right) {
        return Err(zero_division_error());
    }
    rounded(op, left, right)
}

/// Puts a duration into the heap, or raises when it is none.
fn hold_duration(total: i128, vm: &mut VM) -> (r: RunResult<Arith>)
    requires
        old(vm).wf(),
    ensures
        final(vm).wf(),
        r matches Ok(Arith::Done(v)) ==> final(vm).ok(v),
        computed(*old(vm), *final(vm), r, duration_or_error(total as int)),
{
    match from_total_microseconds(total) {
        Err(e) => Err(e),
        Ok(delta) => {
            let v = allocate_object(HeapData::TimeDelta(delta), vm);
            assert(object_result(*old(vm), *vm, v, HeapData::TimeDelta(delta)));
            done(v)
        },
    }
}

/// The `/` operator of paths: joins with a string or another path.
pub fn path_div(path_id: HeapId, other: &Value, vm: &mut VM) -> (r: RunResult<Arith>)
    requires
        old(vm).wf(),
        path_id.0 < old(vm).entries().len(),
        old(vm).ok(*other),
    ensures
        final(vm).wf(),
        r matches Ok(Arith::Done(v)) ==> final(vm).ok(v),
        match old(vm).heap.data(path_id) {
            HeapData::Path(p) => computed(
                *old(vm),
                *final(vm),
                r,
                path_quotient(*old(vm), p@, *other),
            ),
            _ => r == Ok::<Arith, RunError>(Arith::Unsupported) && *final(vm) == *old(vm),
        },
{
    let text = match other {
        Value::Ref(id) => match vm.heap.get(*id) {
            HeapData::Path(p) => Some(p.as_str()),
            HeapData::Str(s) => Some(s.as_str()),
            _ => None,
        },
        _ => other.text(vm),
    };
    let sum = match (vm.heap.get(path_id), text) {
        (HeapData::Path(p), Some(part)) => p.joinpath(part),
        _ => {
            return Ok(Arith::Unsupported);
        },
    };
    done(allocate_path(sum, vm))
}

/// Divides what is in the heap.
fn div_heap(x: HeapId, other: &Value, vm: &mut VM) -> (r: RunResult<Arith>)
    requires
        old(vm).wf(),
        x.0 < old(vm).entries().len(),
        old(vm).ok(*other),
    ensures
        final(vm).wf(),
        r matches Ok(Arith::Done(v)) ==> final(vm).ok(v),
        computed(
            *old(vm),
            *final(vm),
            r,
            heap_quotient(*old(vm), old(vm).heap.data(x), *other),
        ),
{
    proof {
        lemma_entry_ok(*vm, x);
    }
    match (vm.heap.get(x), other) {
        (HeapData::Path(_), _) => path_div(x, other, vm),
        (HeapData::LongInt(a), Value::Int(b)) => divide_rounded(
            FloatOp::Div,
            FloatOperand::Long(a.duplicate()),
            FloatOperand::Int(*b),
        ),
        (HeapData::LongInt(a), Value::Float(b)) => divide_rounded(
            FloatOp::Div,
            FloatOperand::Long(a.duplicate()),
            FloatOperand::Float(*b),
        ),
        (HeapData::LongInt(a), Value::Ref(id)) => match vm.heap.get(*id) {
            HeapData::LongInt(b) => divide_rounded(
                FloatOp::Div,
                FloatOperand::Long(a.duplicate()),
                FloatOperand::Long(b.duplicate()),
            ),
            _ => Ok(Arith::Unsupported),
        },
        (HeapData::TimeDelta(td), Value::Int(b)) => {
            if *b == 0 {
                return Err(zero_division_error());
            }
            let total: i128 = total_microseconds(td);
            let q: i128 = div_microseconds_round_ties_even(total, *b as i128);
            proof {
                lemma_nearest_unique(
                    total as int,
                    *b as int,
                    q as int,
                    nearest_quotient(total as int, *b as int),
                );
            }
            hold_duration(q, vm)
        },
        _ => Ok(Arith::Unsupported),
    }
}

/// A heap entry divided by another with the quotient rounded down.
pub open spec fn heap_floor_quotient(vm: VM, data: HeapData, b: Value) -> Computed {
    match (data, b) {
        (HeapData::LongInt(x), Value::Int(y)) => if y == 0 {
            raised(zero_division())
        } else {
            Computed::Integer(floor_div(x@, y as int))
        },
        (HeapData::TimeDelta(td), Value::Int(y)) => if y == 0 {
            raised(zero_division())
        } else {
            duration_or_error(floor_div(td.total(), y as int))
        },
        (HeapData::LongInt(x), Value::Ref(id)) => match vm.heap.data(id) {
            HeapData::LongInt(y) => if y@ == 0 {
                raised(zero_division())
            } else {
                Computed::Integer(floor_div(x@, y@))
            },
            _ => Computed::Unsupported,
        },
        _ => Computed::Unsupported,
    }
}

/// A quotient of machine integers rounded down.
pub open spec fn int_floor_quotient(vm: VM, x: int, y: int) -> Computed {
    if y == 0 {
        raised(zero_division())
    } else if !fits_i64(floor_div(x, y)) && too_many_bits(vm, bit_length(magnitude(x)) as int) {
        raised(memory_error())
    } else {
        Computed::Integer(floor_div(x, y))
    }
}

/// What `a // b` comes to.
pub open spec fn floor_quotient_of(vm: VM, a: Value, b: Value) -> Computed {
    match (a, b) {
        (Value::Int(x), Value::Int(y)) => int_floor_quotient(vm, x as int, y as int),
        (Value::Ref(x), _) => heap_floor_quotient(vm, vm.heap.data(x), b),
        (Value::Int(x), Value::Ref(id)) => match vm.heap.data(id) {
            HeapData::LongInt(y) => if y@ == 0 {
                raised(zero_division())
            } else {
                Computed::Integer(floor_div(x as int, y@))
            },
            _ => Computed::Unsupported,
        },
        (Value::Bool(x), Value::Int(y)) => if y == 0 {
            raised(zero_division())
        } else {
            Computed::Integer(floor_div(bool_int(x) as int, y as int))
        },
        (Value::Int(_), Value::Bool(y)) => if y {
            Computed::Exact(a)
        } else {
            raised(zero_division())
        },
        (Value::Bool(x), Value::Bool(y)) => if y {
            Computed::Exact(Value::Int(bool_int(x)))
        } else {
            raised(zero_division())
        },
        _ => match (number_operand(a), number_operand(b)) {
            (Some(left), Some(right)) => rounded_quotient(FloatOp::FloorDiv, left, right),
            _ => Computed::Unsupported,
        },
    }
}

/// The quotient rounded down, for a divisor of either sign.
fn floor_quotient(a: i128, b: i64) -> (r: i128)
    requires
        b != 0,
        a > i128::MIN,
    ensures
        r == floor_div(a as int, b as int),
{
    if b > 0 {
        floor_div_pos(a, b as i128)
    } else {
        floor_div_pos(-a, -(b as i128))
    }
}

/// Floor division of what is in the heap.
fn floordiv_heap(x: HeapId, other: &Value, vm: &mut VM) -> (r: RunResult<Arith>)
    requires
        old(vm).wf(),
        x.0 < old(vm).entries().len(),
        old(vm).ok(*other),
    ensures
        final(vm).wf(),
        r matches Ok(Arith::Done(v)) ==> final(vm).ok(v),
        computed(
            *old(vm),
            *final(vm),
            r,
            heap_floor_quotient(*old(vm), old(vm).heap.data(x), *other),
        ),
{
    proof {
        lemma_entry_ok(*vm, x);
    }
    match (vm.heap.get(x), other) {
        (HeapData::LongInt(a), Value::Int(b)) => {
            if *b == 0 {
                return Err(zero_division_error());
            }
            let q = a.div_floor(&LongInt::from_i64(*b));
            done(q.into_value(vm))
        },
        (HeapData::TimeDelta(td), Value::Int(b)) => {
            if *b == 0 {
                return Err(zero_division_error());
            }
            let q: i128 = floor_quotient(total_microseconds(td), *b);
            hold_duration(q, vm)
        },
        (HeapData::LongInt(a), Value::Ref(id)) => match vm.heap.get(*id) {
            HeapData::LongInt(b) => {
                if b.is_zero() {
                    return Err(zero_division_error());
                }
                let q = a.div_floor(b);
                done(q.into_value(vm))
            },
            _ => Ok(Arith::Unsupported),
        },
        _ => Ok(Arith::Unsupported),
    }
}

/// A heap entry modulo a value.
pub open spec fn heap_remainder(vm: VM, data: HeapData, b: Value) -> Computed {
    match (data, b) {
        (HeapData::LongInt(x), Value::Int(y)) => int_remainder(x@, y as int),
        (HeapData::LongInt(x), Value::Ref(id)) => match vm.heap.data(id) {
            HeapData::LongInt(y) => int_remainder(x@, y@),
            _ => Computed::Unsupported,
        },
        _ => Computed::Unsupported,
    }
}

/// The remainder of integers, with the sign of the divisor.
pub open spec fn int_remainder(x: int, y: int) -> Computed {
    if y == 0 {
        raised(zero_division())
    } else {
        Computed::Integer(floor_mod(x, y))
    }
}

/// What `a % b` comes to.
pub open spec fn remainder_of(vm: VM, a: Value, b: Value) -> Computed {
    match (a, b) {
        (Value::Int(x), Value::Int(y)) => int_remainder(x as int, y as int),
        (Value::Ref(x), _) => heap_remainder(vm, vm.heap.data(x), b),
        (Value::Int(x), Value::Ref(id)) => match vm.heap.data(id) {
            HeapData::LongInt(y) => int_remainder(x as int, y@),
            _ => Computed::Unsupported,
        },
        (Value::Float(x), Value::Float(y)) => rounded_quotient(
            FloatOp::Rem,
            Operand::Float(x),
            Operand::Float(y),
        ),
        (Value::Float(x), Value::Int(y)) => rounded_quotient(
            FloatOp::Rem,
            Operand::Float(x),
            Operand::Int(y),
        ),
        (Value::Int(x), Value::Float(y)) => rounded_quotient(
            FloatOp::Rem,
            Operand::Int(x),
            Operand::Float(y),
        ),
        _ => Computed::Unsupported,
    }
}

/// The remainder of machine integers, with the sign of the divisor.
fn int_mod(a: i64, b: i64) -> (r: i64)
    requires
        b != 0,
    ensures
        r == floor_mod(a as int, b as int),
{
    match floor_divmod(a, b) {
        Some((_, m)) => m,
        None => {
            proof {
                lemma_only_overflow(a as int, b as int);
            }
            0
        },
    }
}

/// A quotient of machine integers that does not fit is that of the lowest one
/// by -1, and leaves no remainder.
proof fn lemma_only_overflow(a: int, b: int)
    requires
        i64::MIN <= a <= i64::MAX,
        i64::MIN <= b <= i64::MAX,
        b != 0,
        !fits_i64(floor_div(a, b)),
    ensures
        a == i64::MIN,
        b == -1,
        floor_mod(a, b) == 0,
{
    if b > 0 {
        assert(a / b <= (if a >= 0 {
            a
        } else {
            0
        }) && a / b >= (if a >= 0 {
            0
        } else {
            a
        })) by (nonlinear_arith)
            requires
                b > 0,
        ;
    } else {
        let p = -b;
        let n = -a;
        if p >= 2 {
            assert(-0x4000_0000_0000_0000 <= n / p <= 0x4000_0000_0000_0000) by (nonlinear_arith)
                requires
                    p >= 2,
                    -0x8000_0000_0000_0000 <= n <= 0x8000_0000_0000_0000,
            ;
        } else {
            assert(p == 1);
            assert(n / 1 == n);
        }
    }
}

/// What a test of a remainder gives: nothing for operands that it does not
/// know, an answer, or rounding arithmetic whose result is to be compared.
#[derive(Debug)]
pub enum ModEq {
    Unknown,
    Known(bool),
    Float(FloatTask, i64),
}

impl Value {
    /// `self / other`.
    pub fn py_div(&self, other: &Value, vm: &mut VM) -> (r: RunResult<Arith>)
        requires
            old(vm).wf(),
            old(vm).ok(*self),
            old(vm).ok(*other),
        ensures
            final(vm).wf(),
            r matches Ok(Arith::Done(v)) ==> final(vm).ok(v),
            computed(*old(vm), *final(vm), r, quotient_of(*old(vm), *self, *other)),
    {
        match (self, other) {
            (Value::Ref(x), _) => div_heap(*x, other, vm),
            (Value::Bool(_), Value::Ref(_)) => Ok(Arith::Unsupported),
            (_, Value::Ref(y)) => match (number(self), vm.heap.get(*y)) {
                (Some(left), HeapData::LongInt(l)) => divide_rounded(
                    FloatOp::Div,
                    left,
                    FloatOperand::Long(l.duplicate()),
                ),
                _ => Ok(Arith::Unsupported),
            },
            (Value::Float(f), Value::Bool(b)) => {
                if *b {
                    Ok(Arith::Done(Value::Float(*f)))
                } else {
                    Err(zero_division_error())
                }
            },
            _ => match (number(self), number(other)) {
                (Some(left), Some(right)) => divide_rounded(FloatOp::Div, left, right),
                _ => Ok(Arith::Unsupported),
            },
        }
    }

    /// `self // other`.
    pub fn py_floordiv(&self, other: &Value, vm: &mut VM) -> (r: RunResult<Arith>)
        requires
            old(vm).wf(),
            old(vm).ok(*self),
            old(vm).ok(*other),
        ensures
            final(vm).wf(),
            r matches Ok(Arith::Done(v)) ==> final(vm).ok(v),
            computed(*old(vm), *final(vm), r, floor_quotient_of(*old(vm), *self, *other)),
    {
        match (self, other) {
            (Value::Int(a), Value::Int(b)) => {
                if *b == 0 {
                    return Err(zero_division_error());
                }
                match floor_divmod(*a, *b) {
                    Some((q, _)) => Ok(Arith::Done(Value::Int(q))),
                    None => match check_bits(vm, i64_bits(*a) as u128) {
                        Err(e) => Err(e),
                        Ok(_) => {
                            let q = LongInt::from_i64(*a).div_floor(&LongInt::from_i64(*b));
                            done(q.into_value(vm))
                        },
                    },
                }
            },
            (Value::Ref(x), _) => floordiv_heap(*x, other, vm),
            (Value::Int(a), Value::Ref(id)) => match vm.heap.get(*id) {
                HeapData::LongInt(l) => {
                    if l.is_zero() {
                        return Err(zero_division_error());
                    }
                    let q = LongInt::from_i64(*a).div_floor(l);
                    done(q.into_value(vm))
                },
                _ => Ok(Arith::Unsupported),
            },
            (Value::Bool(a), Value::Int(b)) => {
                if *b == 0 {
                    return Err(zero_division_error());
                }
                match floor_divmod(int_of_bool(*a), *b) {
                    Some((q, _)) => Ok(Arith::Done(Value::Int(q))),
                    None => {
                        proof {
                            lemma_only_overflow(bool_int(*a) as int, *b as int);
                        }
                        Ok(Arith::Done(Value::Int(0)))
                    },
                }
            },
            (Value::Int(a), Value::Bool(b)) => {
                if *b {
                    Ok(Arith::Done(Value::Int(*a)))
                } else {
                    Err(zero_division_error())
                }
            },
            (Value::Bool(a), Value::Bool(b)) => {
                if *b {
                    Ok(Arith::Done(Value::Int(int_of_bool(*a))))
                } else {
                    Err(zero_division_error())
                }
            },
            _ => match (number(self), number(other)) {
                (Some(left), Some(right)) => divide_rounded(FloatOp::FloorDiv, left, right),
                _ => Ok(Arith::Unsupported),
            },
        }
    }

    /// `self % other`.
    pub fn py_mod(&self, other: &Value, vm: &mut VM) -> (r: RunResult<Arith>)
        requires
            old(vm).wf(),
            old(vm).ok(*self),
            old(vm).ok(*other),
        ensures
            final(vm).wf(),
            r matches Ok(Arith::Done(v)) ==> final(vm).ok(v),
            computed(*old(vm), *final(vm), r, remainder_of(*old(vm), *self, *other)),
    {
        match (self, other) {
            (Value::Int(a), Value::Int(b)) => {
                if *b == 0 {
                    return Err(zero_division_error());
                }
                Ok(Arith::Done(Value::Int(int_mod(*a, *b))))
            },
            (Value::Int(a), Value::Ref(id)) => match vm.heap.get(*id) {
                HeapData::LongInt(l) => {
                    if l.is_zero() {
                        return Err(zero_division_error());
                    }
                    let rest = LongInt::from_i64(*a).mod_floor(l);
                    done(rest.into_value(vm))
                },
                _ => Ok(Arith::Unsupported),
            },
            (Value::Ref(id), Value::Int(b)) => match vm.heap.get(*id) {
                HeapData::LongInt(l) => {
                    if *b == 0 {
                        return Err(zero_division_error());
                    }
                    let rest = l.mod_floor(&LongInt::from_i64(*b));
                    done(rest.into_value(vm))
                },
                _ => Ok(Arith::Unsupported),
            },
            (Value::Ref(x), Value::Ref(y)) => match (vm.heap.get(*x), vm.heap.get(*y)) {
                (HeapData::LongInt(a), HeapData::LongInt(b)) => {
                    if b.is_zero() {
                        return Err(zero_division_error());
                    }
                    let rest = a.mod_floor(b);
                    done(rest.into_value(vm))
                },
                _ => Ok(Arith::Unsupported),
            },
            (Value::Float(a), Value::Float(b)) => divide_rounded(
                FloatOp::Rem,
                FloatOperand::Float(*a),
                FloatOperand::Float(*b),
            ),
            (Value::Float(a), Value::Int(b)) => divide_rounded(
                FloatOp::Rem,
                FloatOperand::Float(*a),
                FloatOperand::Int(*b),
            ),
            (Value::Int(a), Value::Float(b)) => divide_rounded(
                FloatOp::Rem,
                FloatOperand::Int(*a),
                FloatOperand::Float(*b),
            ),
            _ => Ok(Arith::Unsupported),
        }
    }

    /// Whether `self % other == right`, where it can be told without raising.
    pub fn py_mod_eq(&self, other: &Value, right: i64) -> (r: ModEq)
        ensures
            match (*self, *other) {
                (Value::Int(x), Value::Int(y)) => r == (if y == 0 {
                    ModEq::Unknown
                } else {
                    ModEq::Known(floor_mod(x as int, y as int) == right)
                }),
                (Value::Float(x), Value::Float(y)) => r == ModEq::Float(
                    FloatTask {
                        op: FloatOp::Rem,
                        left: FloatOperand::Float(x),
                        right: FloatOperand::Float(y),
                    },
                    right,
                ),
                (Value::Float(x), Value::Int(y)) => r == ModEq::Float(
                    FloatTask {
                        op: FloatOp::Rem,
                        left: FloatOperand::Float(x),
                        right: FloatOperand::Int(y),
                    },
                    right,
                ),
                (Value::Int(x), Value::Float(y)) => r == ModEq::Float(
                    FloatTask {
                        op: FloatOp::Rem,
                        left: FloatOperand::Int(x),
                        right: FloatOperand::Float(y),
                    },
                    right,
                ),
                _ => r == ModEq::Unknown,
            },
    {
        match (self, other) {
            (Value::Int(a), Value::Int(b)) => {
                if *b == 0 {
                    ModEq::Unknown
                } else {
                    ModEq::Known(int_mod(*a, *b) == right)
                }
            },
            (Value::Float(a), Value::Float(b)) => ModEq::Float(
                FloatTask {
                    op: FloatOp::Rem,
                    left: FloatOperand::Float(*a),
                    right: FloatOperand::Float(*b),
                },
                right,
            ),
            (Value::Float(a), Value::Int(b)) => ModEq::Float(
                FloatTask {
                    op: FloatOp::Rem,
                    left: FloatOperand::Float(*a),
                    right: FloatOperand::Int(*b),
                },
                right,
            ),
            (Value::Int(a), Value::Float(b)) => ModEq::Float(
                FloatTask {
                    op: FloatOp::Rem,
                    left: FloatOperand::Int(*a),
                    right: FloatOperand::Float(*b),
                },
                right,
            ),
            _ => ModEq::Unknown,
        }
    }
}

/// Where `a // b` and `a % b` are integers, the quotient times the divisor and the
/// remainder make up the dividend, and the remainder has the sign of the divisor.
pub proof fn lemma_quotient_and_remainder(vm: VM, a: Value, b: Value, q: int, m: int)
    requires
        floor_quotient_of(vm, a, b) == Computed::Integer(q),
        remainder_of(vm, a, b) == Computed::Integer(m),
    ensures
        vm.integer_of(a) matches Some(x) && vm.integer_of(b) matches Some(y) && x == q * y + m && (
        if y > 0 {
            0 <= m < y
        } else {
            y < m <= 0
        }),
{
    let x = vm.integer_of(a)->0;
    let y = vm.integer_of(b)->0;
    lemma_floor_divmod_identity(x, y);
    assert(y * q == q * y) by (nonlinear_arith);
}

} // verus!
