use monty::float::{bigint_cmp_f64, i64_cmp_f64};
use monty::heap::{HeapData, HeapId};
use monty::order::Order;
use monty::types::long_int::{check_decimal_digit_count, decimal_digit_count_ascii, LongInt};
use monty::types::py_type::Type;
use monty::value::{BitwiseOp, FloatBits, Value};
use monty::value_int::{
    bigint_pow, floor_divmod, i64_bits, i64_to_repeat_count, longint_to_repeat_count,
};
use monty::vm::VM;
use monty::ExcType;

fn heap_with_long_int(value: LongInt) -> (VM, HeapId) {
    let mut vm = VM::new(16, 1 << 20, 64);
    let id = vm.allocate(HeapData::LongInt(value)).unwrap();
    (vm, id)
}

#[test]
fn as_index_longint_fits_in_i64() {
    let (mut vm, id) = heap_with_long_int(LongInt::from_i64(42));
    let value = Value::Ref(id);
    let result = value.as_index(&vm, Type::List);
    assert_eq!(result.unwrap(), 42);
    value.drop_with_heap(&mut vm);
}

#[test]
fn as_index_longint_negative_fits_in_i64() {
    let (mut vm, id) = heap_with_long_int(LongInt::from_i64(-100));
    let value = Value::Ref(id);
    let result = value.as_index(&vm, Type::List);
    assert_eq!(result.unwrap(), -100);
    value.drop_with_heap(&mut vm);
}

#[test]
fn as_index_longint_too_large() {
    let (mut vm, id) = heap_with_long_int(LongInt::from_i64(2).pow(100));
    let value = Value::Ref(id);
    let result = value.as_index(&vm, Type::List);
    assert!(result.is_err());
    assert_eq!(result.unwrap_err().exc_type, ExcType::IndexError);
    value.drop_with_heap(&mut vm);
}

#[test]
fn as_int_longint_fits_in_i64() {
    let (mut vm, id) = heap_with_long_int(LongInt::from_i64(12345));
    let value = Value::Ref(id);
    let result = value.as_int(&vm);
    assert_eq!(result.unwrap(), 12345);
    value.drop_with_heap(&mut vm);
}

#[test]
fn as_int_longint_too_large() {
    let (mut vm, id) = heap_with_long_int(LongInt::from_i64(2).pow(100));
    let value = Value::Ref(id);
    let result = value.as_int(&vm);
    assert!(result.is_err());
    assert_eq!(result.unwrap_err().exc_type, ExcType::OverflowError);
    value.drop_with_heap(&mut vm);
}

#[test]
fn as_index_longint_at_i64_max() {
    let (mut vm, id) = heap_with_long_int(LongInt::from_i64(i64::MAX));
    let value = Value::Ref(id);
    let result = value.as_index(&vm, Type::List);
    assert_eq!(result.unwrap(), i64::MAX);
    value.drop_with_heap(&mut vm);
}

#[test]
fn as_index_longint_at_i64_min() {
    let (mut vm, id) = heap_with_long_int(LongInt::from_i64(i64::MIN));
    let value = Value::Ref(id);
    let result = value.as_index(&vm, Type::List);
    assert_eq!(result.unwrap(), i64::MIN);
    value.drop_with_heap(&mut vm);
}

#[test]
fn as_index_longint_just_over_i64_max() {
    let big = LongInt::from_i64(i64::MAX).add(&LongInt::from_i64(1));
    let (mut vm, id) = heap_with_long_int(big);
    let value = Value::Ref(id);
    let result = value.as_index(&vm, Type::List);
    assert!(result.is_err());
    value.drop_with_heap(&mut vm);
}

#[test]
fn as_index_longint_just_under_i64_min() {
    let big = LongInt::from_i64(i64::MIN).sub(&LongInt::from_i64(1));
    let (mut vm, id) = heap_with_long_int(big);
    let value = Value::Ref(id);
    let result = value.as_index(&vm, Type::List);
    assert!(result.is_err());
    value.drop_with_heap(&mut vm);
}

#[test]
fn dropping_the_only_reference_frees_nothing_else() {
    let (mut vm, id) = heap_with_long_int(LongInt::from_i64(7));
    let first = Value::Ref(id);
    let second = first.clone_with_heap(&mut vm);
    assert_eq!(vm.heap.refs(id), 2);
    second.drop_with_heap(&mut vm);
    assert_eq!(vm.heap.refs(id), 1);
    assert_eq!(first.as_int(&vm).unwrap(), 7);
}

#[test]
fn indices_of_wrong_types_are_named() {
    let vm = VM::new(16, 1 << 20, 64);
    let e = Value::PyNone.as_index(&vm, Type::List).unwrap_err();
    assert_eq!(e.exc_type, ExcType::TypeError);
    assert_eq!(e.message, "list indices must be integers or slices, not NoneType");
    assert_eq!(Value::Bool(true).as_index(&vm, Type::List).unwrap(), 1);
}

#[test]
fn small_integers_are_held_inline() {
    let mut vm = VM::new(16, 1 << 20, 64);
    assert_eq!(LongInt::from_i64(5).into_value(&mut vm).unwrap(), Value::Int(5));
    let big = LongInt::from_i64(i64::MAX).add(&LongInt::from_i64(1));
    let v = big.into_value(&mut vm).unwrap();
    assert!(matches!(v, Value::Ref(_)));
    assert_eq!(v.extract_bigint(&vm).unwrap().to_text(), "9223372036854775808");
}

#[test]
fn division_rounds_down() {
    assert_eq!(floor_divmod(7, 2), Some((3, 1)));
    assert_eq!(floor_divmod(-7, 2), Some((-4, 1)));
    assert_eq!(floor_divmod(7, -2), Some((-4, -1)));
    assert_eq!(floor_divmod(i64::MIN, -1), None);
}

#[test]
fn repeat_counts_are_never_negative() {
    assert_eq!(i64_to_repeat_count(-3).unwrap(), 0);
    assert_eq!(i64_to_repeat_count(3).unwrap(), 3);
    assert_eq!(longint_to_repeat_count(&LongInt::from_i64(-2).pow(101)).unwrap(), 0);
    let e = longint_to_repeat_count(&LongInt::from_i64(2).pow(100)).unwrap_err();
    assert_eq!(e.exc_type, ExcType::OverflowError);
}

#[test]
fn bit_lengths_count_the_magnitude() {
    assert_eq!(i64_bits(0), 0);
    assert_eq!(i64_bits(255), 8);
    assert_eq!(i64_bits(-256), 9);
    assert_eq!(i64_bits(i64::MIN), 64);
    assert_eq!(LongInt::from_i64(2).pow(100).bits(), 101);
}

#[test]
fn powers_are_exact() {
    assert_eq!(bigint_pow(&LongInt::from_i64(3), 40).to_text(), "12157665459056928801");
    assert_eq!(bigint_pow(&LongInt::from_i64(-2), 3).to_text(), "-8");
    assert_eq!(bigint_pow(&LongInt::from_i64(7), 0).to_text(), "1");
}

#[test]
fn long_int_arithmetic() {
    let a = LongInt::from_i64(10).pow(20);
    let b = LongInt::from_i64(-7);
    assert_eq!(a.add(&b).to_text(), "99999999999999999993");
    assert_eq!(a.sub(&b).to_text(), "100000000000000000007");
    assert_eq!(a.mul(&b).to_text(), "-700000000000000000000");
    assert_eq!(a.neg().to_text(), "-100000000000000000000");
    assert_eq!(a.neg().abs().to_text(), "100000000000000000000");
    assert_eq!(a.div_floor(&b).to_text(), "-14285714285714285715");
    assert_eq!(a.mod_floor(&b).to_text(), "-5");
    assert!(b.is_negative());
    assert!(!b.is_zero());
    assert!(LongInt::from_i64(0).is_zero());
    assert_eq!(LongInt::from_i64(70_000).to_u32(), Some(70_000));
    assert_eq!(b.to_u32(), None);
    assert_eq!(LongInt::from_i64(70_000).to_usize(), Some(70_000));
    assert_eq!(a.to_i64(), None);
    assert_eq!(LongInt::from_i64(12).bitand(&LongInt::from_i64(-6)).to_text(), "8");
    assert_eq!(LongInt::from_i64(12).bitor(&LongInt::from_i64(-6)).to_text(), "-2");
    assert_eq!(LongInt::from_i64(12).bitxor(&LongInt::from_i64(-6)).to_text(), "-10");
    assert_eq!(LongInt::from_i64(-5).shl(70).to_text(), "-5902958103587056517120");
    assert_eq!(LongInt::from_i64(-5).shr(1).to_text(), "-3");
    assert!(a.equals(&a.duplicate()));
    assert_eq!(a.compare(&b), monty::order::Order::Greater);
    assert_eq!(LongInt::new(vec![0x00, 0x01]).to_i64(), Some(256));
    assert_eq!(LongInt::new(vec![0xff]).to_i64(), Some(-1));
}

#[test]
fn bitwise_operators_use_twos_complement() {
    let mut vm = VM::new(16, 1 << 20, 64);
    let a = Value::Int(12);
    let b = Value::Int(-6);
    assert_eq!(a.py_bitwise(&b, BitwiseOp::And, &mut vm).unwrap(), Value::Int(8));
    assert_eq!(a.py_bitwise(&b, BitwiseOp::Or, &mut vm).unwrap(), Value::Int(-2));
    assert_eq!(a.py_bitwise(&b, BitwiseOp::Xor, &mut vm).unwrap(), Value::Int(-10));
    assert_eq!(a.py_bitwise(&Value::Int(2), BitwiseOp::LShift, &mut vm).unwrap(), Value::Int(48));
    assert_eq!(b.py_bitwise(&Value::Int(1), BitwiseOp::RShift, &mut vm).unwrap(), Value::Int(-3));
    let huge = LongInt::from_i64(2).pow(100).into_value(&mut vm).unwrap();
    assert_eq!(b.py_bitwise(&huge, BitwiseOp::RShift, &mut vm).unwrap(), Value::Int(-1));
    let e = a.py_bitwise(&b, BitwiseOp::LShift, &mut vm).unwrap_err();
    assert_eq!(e.exc_type, ExcType::ValueError);
    assert_eq!(e.message, "negative shift count");
    let e = a.py_bitwise(&Value::PyNone, BitwiseOp::And, &mut vm).unwrap_err();
    assert_eq!(e.message, "unsupported operand type(s) for &: 'int' and 'NoneType'");
    let e = a.py_bitwise(&huge, BitwiseOp::LShift, &mut vm).unwrap_err();
    assert_eq!(e.exc_type, ExcType::OverflowError);
    let e = a.py_bitwise(&Value::Int(1 << 40), BitwiseOp::LShift, &mut vm).unwrap_err();
    assert_eq!(e.exc_type, ExcType::MemoryError);
}

#[test]
fn small_ranges_fit_32_bits() {
    assert_eq!(Value::Int(7).to_i32().unwrap(), 7);
    assert_eq!(Value::Bool(true).to_i32().unwrap(), 1);
    assert!(Value::Int(1 << 40).to_i32().is_err());
    assert!(Value::PyNone.to_i32().is_err());
}

#[test]
fn long_texts_of_integers_are_refused() {
    assert!(check_decimal_digit_count(4300).is_ok());
    let e = check_decimal_digit_count(4301).unwrap_err();
    assert_eq!(e.exc_type, ExcType::ValueError);
    assert_eq!(decimal_digit_count_ascii(b"-12_345"), 5);
    assert!(LongInt::from_i64(10).pow(4299).check_str_digits_limit().is_ok());
    assert!(LongInt::from_i64(10).pow(4300).check_str_digits_limit().is_err());
    assert_eq!(LongInt::from_i64(10).pow(20).estimate_size(24), 33);
}

#[test]
fn integers_are_ordered_with_floats() {
    let half = FloatBits(0.5f64.to_bits());
    assert_eq!(i64_cmp_f64(0, half), Some(Order::Less));
    assert_eq!(i64_cmp_f64(1, half), Some(Order::Greater));
    let big = LongInt::from_i64(10).pow(22);
    assert_eq!(bigint_cmp_f64(&big, FloatBits(1e22f64.to_bits())), Some(Order::Equal));
    assert_eq!(bigint_cmp_f64(&big, FloatBits(f64::NAN.to_bits())), None);
}

#[test]
fn every_bit_is_decided_alone() {
    let mut vm = VM::new(16, 1 << 20, 64);
    for (a, b) in [(12i64, 10i64), (-1, 5), (0, -7), (i64::MIN, i64::MAX)] {
        let x = Value::Int(a);
        let y = Value::Int(b);
        assert_eq!(x.py_bitwise(&y, BitwiseOp::And, &mut vm).unwrap(), Value::Int(a & b));
        assert_eq!(x.py_bitwise(&y, BitwiseOp::Or, &mut vm).unwrap(), Value::Int(a | b));
        assert_eq!(x.py_bitwise(&y, BitwiseOp::Xor, &mut vm).unwrap(), Value::Int(a ^ b));
    }
}
