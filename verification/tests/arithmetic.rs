use monty::arith::Arith;
use monty::float::{compare_int_float, exact_i64, FloatOp, FloatOperand};
use monty::heap::HeapData;
use monty::order::Order;
use monty::types::bytes::Bytes;
use monty::types::containers::List;
use monty::types::long_int::LongInt;
use monty::types::path::Path;
use monty::types::str::allocate_string;
use monty::types::timedelta::TimeDelta;
use monty::value::{FloatBits, Value};
use monty::value_div::ModEq;
use monty::value_iadd::InPlace;
use monty::vm::VM;
use monty::{ExcType, RunResult};

fn machine() -> VM {
    VM::new(1000, 1 << 20, 64)
}

fn done(r: RunResult<Arith>) -> Value {
    match r.unwrap() {
        Arith::Done(v) => v,
        other => panic!("not done: {other:?}"),
    }
}

fn string(text: &str, vm: &mut VM) -> Value {
    allocate_string(text.to_owned(), vm).unwrap()
}

fn object(data: HeapData, vm: &mut VM) -> Value {
    Value::Ref(vm.allocate(data).unwrap())
}

fn items<'a>(v: &Value, vm: &'a VM) -> &'a [Value] {
    match v {
        Value::Ref(id) => match vm.heap.get(*id) {
            HeapData::List(list) => list.as_slice(),
            HeapData::Tuple(tuple) => tuple.as_slice(),
            other => panic!("no sequence: {other:?}"),
        },
        other => panic!("no reference: {other:?}"),
    }
}

fn float(x: f64) -> Value {
    Value::Float(FloatBits(x.to_bits()))
}

#[test]
fn integers_grow_beyond_64_bits() {
    let mut vm = machine();
    let sum = done(Value::Int(i64::MAX).py_add(&Value::Int(1), &mut vm));
    assert_eq!(sum.extract_bigint(&vm).unwrap().to_text(), "9223372036854775808");
    let back = done(sum.py_sub(&Value::Int(1), &mut vm));
    assert_eq!(back, Value::Int(i64::MAX));
    let product = done(Value::Int(i64::MAX).py_mult(&Value::Int(2), &mut vm));
    assert_eq!(product.extract_bigint(&vm).unwrap().to_text(), "18446744073709551614");
    assert_eq!(done(Value::Int(2).py_pow(&Value::Int(10), &mut vm)), Value::Int(1024));
    let power = done(Value::Int(2).py_pow(&Value::Int(64), &mut vm));
    assert_eq!(power.extract_bigint(&vm).unwrap().to_text(), "18446744073709551616");
}

#[test]
fn booleans_count_as_integers() {
    let mut vm = machine();
    assert_eq!(done(Value::Bool(true).py_mult(&Value::Int(3), &mut vm)), Value::Int(3));
    assert_eq!(done(Value::Bool(true).py_floordiv(&Value::Int(-2), &mut vm)), Value::Int(-1));
    assert_eq!(done(Value::Int(5).py_pow(&Value::Bool(false), &mut vm)), Value::Int(1));
    assert!(matches!(Value::Bool(true).py_add(&Value::Int(1), &mut vm), Ok(Arith::Unsupported)));
}

#[test]
fn quotient_and_remainder_give_the_number_back() {
    let mut vm = machine();
    for (a, b) in [(7, 2), (-7, 2), (7, -2), (-7, -2), (0, 5), (i64::MIN, 3)] {
        let q = done(Value::Int(a).py_floordiv(&Value::Int(b), &mut vm));
        let r = done(Value::Int(a).py_mod(&Value::Int(b), &mut vm));
        let p = done(q.py_mult(&Value::Int(b), &mut vm));
        assert_eq!(done(p.py_add(&r, &mut vm)), Value::Int(a));
    }
    assert_eq!(done(Value::Int(-7).py_floordiv(&Value::Int(2), &mut vm)), Value::Int(-4));
    assert_eq!(done(Value::Int(-7).py_mod(&Value::Int(2), &mut vm)), Value::Int(1));
}

#[test]
fn division_by_zero_is_an_error() {
    let mut vm = machine();
    let one = Value::Int(1);
    let zero = Value::Int(0);
    let e = one.py_div(&zero, &mut vm).unwrap_err();
    assert_eq!(e.exc_type, ExcType::ZeroDivisionError);
    assert_eq!(e.message, "division by zero");
    assert_eq!(one.py_floordiv(&zero, &mut vm).unwrap_err().exc_type, ExcType::ZeroDivisionError);
    assert_eq!(one.py_mod(&zero, &mut vm).unwrap_err().exc_type, ExcType::ZeroDivisionError);
    let e = zero.py_pow(&Value::Int(-1), &mut vm).unwrap_err();
    assert_eq!(e.exc_type, ExcType::ZeroDivisionError);
}

#[test]
fn rounding_arithmetic_is_left_to_the_host() {
    let mut vm = machine();
    match Value::Int(1).py_div(&Value::Int(2), &mut vm).unwrap() {
        Arith::Float(task) => {
            assert_eq!(task.op, FloatOp::Div);
            assert!(matches!(task.left, FloatOperand::Int(1)));
            assert!(matches!(task.right, FloatOperand::Int(2)));
        }
        other => panic!("{other:?}"),
    }
    match float(1.5).py_add(&Value::Int(2), &mut vm).unwrap() {
        Arith::Float(task) => assert_eq!(task.op, FloatOp::Add),
        other => panic!("{other:?}"),
    }
    match float(1.5).py_mod_eq(&Value::Int(2), 1) {
        ModEq::Float(task, 1) => assert_eq!(task.op, FloatOp::Rem),
        other => panic!("{other:?}"),
    }
    assert!(matches!(Value::Int(7).py_mod_eq(&Value::Int(2), 1), ModEq::Known(true)));
    assert!(matches!(Value::Int(7).py_mod_eq(&Value::PyNone, 1), ModEq::Unknown));
}

#[test]
fn operands_that_do_not_fit_are_unsupported() {
    let mut vm = machine();
    assert!(matches!(Value::PyNone.py_add(&Value::Int(1), &mut vm), Ok(Arith::Unsupported)));
    assert!(matches!(Value::PyNone.py_div(&Value::Int(1), &mut vm), Ok(Arith::Unsupported)));
    assert!(matches!(Value::PyNone.py_pow(&Value::Int(1), &mut vm), Ok(Arith::Unsupported)));
}

#[test]
fn texts_join_and_repeat() {
    let mut vm = machine();
    let ab = string("ab", &mut vm);
    let cd = string("cd", &mut vm);
    let sum = done(ab.py_add(&cd, &mut vm));
    assert_eq!(sum.text(&vm), Some("abcd"));
    let thrice = done(ab.py_mult(&Value::Int(3), &mut vm));
    assert_eq!(thrice.text(&vm), Some("ababab"));
    let none = done(ab.py_mult(&Value::Int(-1), &mut vm));
    assert_eq!(none.text(&vm), Some(""));
    let e = ab.py_mult(&Value::Int(1 << 40), &mut vm).unwrap_err();
    assert_eq!(e.exc_type, ExcType::MemoryError);
    let bytes = object(HeapData::Bytes(Bytes::new(vec![1, 2])), &mut vm);
    let twice = done(bytes.py_mult(&Value::Int(2), &mut vm));
    assert_eq!(twice.raw_bytes(&vm), Some(&[1u8, 2, 1, 2][..]));
}

#[test]
fn lists_join_and_repeat() {
    let mut vm = machine();
    let a = object(HeapData::List(List::new(vec![Value::Int(1)])), &mut vm);
    let b = object(HeapData::List(List::new(vec![Value::Int(2)])), &mut vm);
    let sum = done(a.py_add(&b, &mut vm));
    assert_eq!(items(&sum, &vm), &[Value::Int(1), Value::Int(2)]);
    let twice = done(sum.py_mult(&Value::Int(2), &mut vm));
    assert_eq!(items(&twice, &vm).len(), 4);
}

#[test]
fn lists_grow_in_place() {
    let mut vm = machine();
    let mut a = object(HeapData::List(List::new(vec![Value::Int(1)])), &mut vm);
    let id = a.ref_id();
    let b = object(HeapData::List(List::new(vec![Value::Int(2)])), &mut vm);
    assert!(matches!(a.py_iadd(&b, &mut vm).unwrap(), InPlace::Changed));
    assert_eq!(a.ref_id(), id);
    assert_eq!(items(&a, &vm), &[Value::Int(1), Value::Int(2)]);
    let mut n = Value::Int(4);
    assert!(matches!(n.py_iadd(&Value::Int(5), &mut vm).unwrap(), InPlace::Changed));
    assert_eq!(n, Value::Int(9));
    assert!(matches!(n.py_iadd(&Value::PyNone, &mut vm).unwrap(), InPlace::NotSupported));
}

#[test]
fn durations_divide() {
    let mut vm = machine();
    let day = TimeDelta { days: 1, seconds: 0, microseconds: 0 };
    let d = object(HeapData::TimeDelta(day), &mut vm);
    let third = done(d.py_div(&Value::Int(7), &mut vm));
    match third {
        Value::Ref(id) => match vm.heap.get(id) {
            HeapData::TimeDelta(t) => {
                assert_eq!((t.days, t.seconds, t.microseconds), (0, 12342, 857143))
            }
            other => panic!("{other:?}"),
        },
        other => panic!("{other:?}"),
    }
    let e = d.py_div(&Value::Int(0), &mut vm).unwrap_err();
    assert_eq!(e.exc_type, ExcType::ZeroDivisionError);
}

#[test]
fn paths_are_joined_by_division() {
    let mut vm = machine();
    let p = object(HeapData::Path(Path::new("/usr".to_owned())), &mut vm);
    let lib = string("lib", &mut vm);
    let joined = done(p.py_div(&lib, &mut vm));
    match joined {
        Value::Ref(id) => match vm.heap.get(id) {
            HeapData::Path(path) => assert_eq!(path.as_str(), "/usr/lib"),
            other => panic!("{other:?}"),
        },
        other => panic!("{other:?}"),
    }
}

#[test]
fn integers_and_floats_compare_exactly() {
    let f = FloatBits(9007199254740992.0f64.to_bits());
    assert_eq!(compare_int_float(9007199254740993, f), Some(Order::Greater));
    assert_eq!(compare_int_float(9007199254740992, f), Some(Order::Equal));
    assert_eq!(compare_int_float(1, FloatBits(f64::NAN.to_bits())), None);
    assert_eq!(compare_int_float(1, FloatBits(f64::INFINITY.to_bits())), Some(Order::Less));
    assert_eq!(exact_i64(FloatBits(2.0f64.to_bits())), Some(2));
    assert_eq!(exact_i64(FloatBits(2.5f64.to_bits())), None);
    let big = LongInt::from_i64(10).pow(30);
    assert_eq!(big.partial_cmp_f64(FloatBits(1e30f64.to_bits())), Some(Order::Less));
}

#[test]
fn the_heap_has_a_limit() {
    let mut vm = VM::new(3, 1 << 20, 64);
    string("first", &mut vm);
    let e = allocate_string("second".to_owned(), &mut vm).unwrap_err();
    assert_eq!(e.exc_type, ExcType::MemoryError);
    assert_eq!(e.message, "allocation limit exceeded");
}

#[test]
fn long_quotients_and_remainders_give_the_number_back() {
    let mut vm = machine();
    let big = done(Value::Int(10).py_pow(&Value::Int(30), &mut vm));
    for divisor in [7, -7, i64::MAX, i64::MIN] {
        let b = Value::Int(divisor);
        let q = done(big.py_floordiv(&b, &mut vm));
        let r = done(big.py_mod(&b, &mut vm));
        let p = done(q.py_mult(&b, &mut vm));
        let sum = done(p.py_add(&r, &mut vm));
        assert!(sum.py_eq(&big, &vm).unwrap());
    }
    assert_eq!(done(Value::Int(-5).py_mod(&big, &mut vm)).extract_bigint(&vm).unwrap().to_text(),
        "999999999999999999999999999995");
}

#[test]
fn durations_are_divided_downwards() {
    let mut vm = machine();
    let seven = TimeDelta { days: 0, seconds: 0, microseconds: 7 };
    let d = object(HeapData::TimeDelta(seven), &mut vm);
    for (by, total) in [(-2, -4), (2, 3), (7, 1), (-7, -1)] {
        let q = done(d.py_floordiv(&Value::Int(by), &mut vm));
        match q {
            Value::Ref(id) => match vm.heap.get(id) {
                HeapData::TimeDelta(t) => {
                    let days = t.days as i64 * 86_400_000_000;
                    assert_eq!(days + t.seconds as i64 * 1_000_000 + t.microseconds as i64, total)
                }
                other => panic!("{other:?}"),
            },
            other => panic!("{other:?}"),
        }
    }
}

#[test]
fn powers_of_truth_values_are_integers() {
    let mut vm = machine();
    let large = Value::Int(4_294_967_296);
    assert_eq!(done(Value::Bool(true).py_pow(&large, &mut vm)), Value::Int(1));
    assert_eq!(done(Value::Bool(false).py_pow(&large, &mut vm)), Value::Int(0));
    assert_eq!(done(Value::Bool(false).py_pow(&Value::Int(0), &mut vm)), Value::Int(1));
}
