use std::mem::size_of;

use monty::args::ArgValues;
use monty::arith::{new_list, new_tuple};
use monty::call::CallResult;
use monty::heap::{HeapData, HeapId};
use monty::intern::{StaticStrings, StringId};
use monty::order::Order;
use monty::types::bytes::Bytes;
use monty::types::containers::{Dict, List, Range, SetStorage};
use monty::types::dataclass::Dataclass;
use monty::types::dict_view::{DictItemsView, DictKeysView};
use monty::types::long_int::LongInt;
use monty::types::namedtuple::NamedTuple;
use monty::types::path::Path;
use monty::types::sizes::named_tuple_size;
use monty::types::slice::{normalize_sequence_index, slice_positions, Slice};
use monty::types::slice_ops::{option_i64_to_value, value_to_option_i64};
use monty::types::str::{allocate_string, Str};
use monty::types::test_cm::TestContextManager;
use monty::types::timezone::TimeZone;
use monty::types::tuple::Tuple;
use monty::types::tuple_ops::py_call_attr;
use monty::value::{EitherStr, FloatBits, Marker, Value};
use monty::value_repr::{spelled, Glyph};
use monty::vm::VM;
use monty::{ExcType, RunResult};

fn machine() -> VM {
    VM::new(1000, 1 << 20, 64)
}

fn object(data: HeapData, vm: &mut VM) -> Value {
    Value::Ref(vm.allocate(data).unwrap())
}

fn string(text: &str, vm: &mut VM) -> Value {
    allocate_string(text.to_owned(), vm).unwrap()
}

fn float(x: f64) -> Value {
    Value::Float(FloatBits(x.to_bits()))
}

fn shown(r: RunResult<Vec<Glyph>>) -> String {
    spelled(&r.unwrap()).unwrap()
}

fn id_of(v: &Value) -> HeapId {
    v.ref_id().unwrap()
}

#[test]
fn numbers_are_equal_across_types() {
    let mut vm = machine();
    assert!(Value::Int(1).py_eq(&Value::Bool(true), &vm).unwrap());
    assert!(Value::Int(2).py_eq(&float(2.0), &vm).unwrap());
    assert!(!Value::Int(2).py_eq(&float(2.5), &vm).unwrap());
    assert!(!float(f64::NAN).py_eq(&float(f64::NAN), &vm).unwrap());
    let big = object(HeapData::LongInt(LongInt::from_i64(10).pow(22)), &mut vm);
    assert!(big.py_eq(&float(1e22), &vm).unwrap());
    assert!(!Value::Int(1).py_eq(&Value::PyNone, &vm).unwrap());
}

#[test]
fn containers_are_equal_item_by_item() {
    let mut vm = machine();
    let a = new_tuple(&[Value::Int(1), Value::Int(2)], &mut vm).unwrap();
    let b = new_tuple(&[Value::Bool(true), float(2.0)], &mut vm).unwrap();
    let list = new_list(&[Value::Int(1), Value::Int(2)], &mut vm).unwrap();
    assert!(a.py_eq(&b, &vm).unwrap());
    assert!(!a.py_eq(&list, &vm).unwrap());
    let names = vec![EitherStr::from("x".to_owned()), EitherStr::from("y".to_owned())];
    let point = NamedTuple::new(
        EitherStr::from("Point".to_owned()),
        names,
        vec![Value::Int(1), Value::Int(2)],
    );
    let point = object(HeapData::NamedTuple(point), &mut vm);
    assert!(point.py_eq(&a, &vm).unwrap());
    assert!(a.py_eq(&point, &vm).unwrap());
    let s = object(HeapData::SetData(SetStorage { items: vec![Value::Int(1), Value::Int(2)] }), &mut vm);
    let t = object(HeapData::FrozenSet(SetStorage { items: vec![Value::Int(2), Value::Int(1)] }), &mut vm);
    assert!(s.py_eq(&s, &vm).unwrap());
    assert!(t.py_eq(&t, &vm).unwrap());
    let r = object(HeapData::Range(Range { start: 0, stop: 3, step: 2 }), &mut vm);
    let q = object(HeapData::Range(Range { start: 0, stop: 4, step: 2 }), &mut vm);
    assert!(r.py_eq(&q, &vm).unwrap());
}

#[test]
fn a_list_that_holds_itself_recurses_too_deeply() {
    let mut vm = machine();
    let a = object(HeapData::List(List::new(vec![])), &mut vm);
    let b = object(HeapData::List(List::new(vec![])), &mut vm);
    vm.set_data(id_of(&a), HeapData::List(List::new(vec![Value::Ref(id_of(&a))])));
    vm.set_data(id_of(&b), HeapData::List(List::new(vec![Value::Ref(id_of(&b))])));
    let e = a.py_eq(&b, &vm).unwrap_err();
    assert_eq!(e.exc_type, ExcType::RecursionError);
    assert_eq!(shown(a.py_repr(&vm)), "[[...]]");
}

#[test]
fn values_are_ordered() {
    let mut vm = machine();
    assert_eq!(Value::Int(1).py_cmp(&float(1.5), &vm).unwrap(), Some(Order::Less));
    assert_eq!(Value::Bool(true).py_cmp(&Value::Int(0), &vm).unwrap(), Some(Order::Greater));
    assert_eq!(Value::Int(1).py_cmp(&Value::PyNone, &vm).unwrap(), None);
    let a = string("abc", &mut vm);
    let b = string("abd", &mut vm);
    assert_eq!(a.py_cmp(&b, &vm).unwrap(), Some(Order::Less));
    assert_eq!(b.py_cmp(&a, &vm).unwrap(), Some(Order::Greater));
    let t = new_tuple(&[Value::Int(1), Value::Int(2)], &mut vm).unwrap();
    let u = new_tuple(&[Value::Int(1)], &mut vm).unwrap();
    assert_eq!(t.py_cmp(&u, &vm).unwrap(), Some(Order::Greater));
}

#[test]
fn equal_keys_hash_alike() {
    let mut vm = machine();
    let hash = |v: &Value, vm: &VM| v.py_hash(vm).unwrap().unwrap().raw();
    assert_eq!(hash(&Value::Int(1), &vm), 1);
    assert_eq!(hash(&Value::Bool(true), &vm), hash(&Value::Int(1), &vm));
    assert_eq!(hash(&float(2.0), &vm), hash(&Value::Int(2), &vm));
    let big = object(HeapData::LongInt(LongInt::from_i64(10).pow(22)), &mut vm);
    assert_eq!(hash(&big, &vm), hash(&float(1e22), &vm));
    assert_eq!(LongInt::from_i64(5).hash(), 5);
    let a = string("abc", &mut vm);
    let id = vm.interns.intern("abc");
    assert_eq!(hash(&a, &vm), hash(&Value::InternString(id), &vm));
    let b = string("abd", &mut vm);
    assert_ne!(hash(&a, &vm), hash(&b, &vm));
    let t = new_tuple(&[Value::Int(1), Value::Int(2)], &mut vm).unwrap();
    let u = new_tuple(&[Value::Bool(true), float(2.0)], &mut vm).unwrap();
    assert_eq!(hash(&t, &vm), hash(&u, &vm));
    let list = new_list(&[], &mut vm).unwrap();
    assert!(list.py_hash(&vm).unwrap().is_none());
}

#[test]
fn values_are_shown() {
    let mut vm = machine();
    assert_eq!(shown(Value::PyNone.py_repr(&vm)), "None");
    assert_eq!(shown(Value::Int(-3).py_repr(&vm)), "-3");
    let text = string("it's", &mut vm);
    assert_eq!(shown(text.py_repr(&vm)), "\"it's\"");
    assert_eq!(shown(text.py_str(&vm)), "it's");
    let one = new_tuple(&[Value::Int(1)], &mut vm).unwrap();
    assert_eq!(shown(one.py_repr(&vm)), "(1,)");
    let bytes = object(HeapData::Bytes(Bytes::new(vec![0, 65, 39, 0xff])), &mut vm);
    assert_eq!(shown(bytes.py_repr(&vm)), "b\"\\x00A'\\xff\"");
    let slice = object(HeapData::Slice(Slice::new(Some(1), None, Some(2))), &mut vm);
    assert_eq!(shown(slice.py_repr(&vm)), "slice(1, None, 2)");
    let names = vec![EitherStr::from("x".to_owned())];
    let point = NamedTuple::new(EitherStr::from("P".to_owned()), names, vec![Value::Int(1)]);
    let point = object(HeapData::NamedTuple(point), &mut vm);
    assert_eq!(shown(point.py_repr(&vm)), "P(x=1)");
    let mut dict = Dict::new();
    dict.entries.push((Value::Int(1), Value::PyNone));
    let dict = object(HeapData::Dict(dict), &mut vm);
    assert_eq!(shown(dict.py_repr(&vm)), "{1: None}");
    let keys = object(HeapData::DictKeysView(DictKeysView::new(id_of(&dict))), &mut vm);
    assert_eq!(shown(keys.py_repr(&vm)), "dict_keys([1])");
    match float(0.5).py_repr(&vm).unwrap().as_slice() {
        [Glyph::Float(bits)] => assert_eq!(f64::from_bits(bits.0), 0.5),
        other => panic!("{other:?}"),
    }
}

#[test]
fn values_have_identities() {
    let mut vm = machine();
    let a = string("abc", &mut vm);
    let b = string("abc", &mut vm);
    assert_ne!(a.id(&vm), b.id(&vm));
    assert!(a.is(&a, &vm));
    assert!(!a.is(&b, &vm));
    assert!(Value::PyNone.is(&Value::PyNone, &vm));
    assert_ne!(Value::PyNone.id(&vm), Value::Ellipsis.id(&vm));
    assert_ne!(Value::Bool(true).id(&vm), Value::Bool(false).id(&vm));
    assert_ne!(Value::Int(1).id(&vm), Value::Bool(true).id(&vm));
}

#[test]
fn lengths_and_truth() {
    let mut vm = machine();
    let empty = new_list(&[], &mut vm).unwrap();
    assert_eq!(empty.py_len(&vm), Some(0));
    assert!(!empty.py_bool(&vm));
    let text = string("añb", &mut vm);
    assert_eq!(text.py_len(&vm), Some(3));
    assert!(text.py_bool(&vm));
    assert_eq!(Value::Int(3).py_len(&vm), None);
    assert!(!float(0.0).py_bool(&vm));
    let r = object(HeapData::Range(Range { start: 0, stop: 10, step: 3 }), &mut vm);
    assert_eq!(r.py_len(&vm), Some(4));
}

#[test]
fn membership() {
    let mut vm = machine();
    let list = new_list(&[Value::Int(1), Value::PyNone], &mut vm).unwrap();
    assert!(list.py_contains(&float(1.0), &vm).unwrap());
    assert!(!list.py_contains(&Value::Int(2), &vm).unwrap());
    let text = string("banana", &mut vm);
    let part = string("nan", &mut vm);
    assert!(text.py_contains(&part, &vm).unwrap());
    let e = text.py_contains(&Value::Int(1), &vm).unwrap_err();
    assert_eq!(e.exc_type, ExcType::TypeError);
    let r = object(HeapData::Range(Range { start: 10, stop: 0, step: -3 }), &mut vm);
    assert!(r.py_contains(&Value::Int(4), &vm).unwrap());
    assert!(!r.py_contains(&Value::Int(5), &vm).unwrap());
    let set = object(HeapData::SetData(SetStorage { items: vec![Value::Int(1)] }), &mut vm);
    assert!(set.py_contains(&Value::Bool(true), &vm).unwrap());
    assert_eq!(set.py_contains(&list, &vm).unwrap_err().exc_type, ExcType::TypeError);
    let e = Value::Int(3).py_contains(&Value::Int(1), &vm).unwrap_err();
    assert_eq!(e.message, "argument of type 'int' is not iterable");
    let mut dict = Dict::new();
    dict.entries.push((Value::Int(1), Value::Int(2)));
    let dict = object(HeapData::Dict(dict), &mut vm);
    let items = object(HeapData::DictItemsView(DictItemsView::new(id_of(&dict))), &mut vm);
    let pair = new_tuple(&[Value::Int(1), Value::Int(2)], &mut vm).unwrap();
    assert!(items.py_contains(&pair, &vm).unwrap());
    assert!(dict.py_contains(&Value::Int(1), &vm).unwrap());
}

#[test]
fn items_are_read() {
    let mut vm = machine();
    let list = new_list(&[Value::Int(1), Value::Int(2), Value::Int(3)], &mut vm).unwrap();
    let tuple = new_tuple(&[Value::Int(1), Value::Int(2), Value::Int(3)], &mut vm).unwrap();
    assert_eq!(list.py_getitem(&Value::Int(-1), &mut vm).unwrap(), Some(Value::Int(3)));
    assert_eq!(tuple.py_getitem(&Value::Bool(true), &mut vm).unwrap(), Some(Value::Int(2)));
    let e = tuple.py_getitem(&Value::Int(3), &mut vm).unwrap_err();
    assert_eq!((e.exc_type, e.message.as_str()), (ExcType::IndexError, "tuple index out of range"));
    let slice = object(HeapData::Slice(Slice::new(None, None, Some(0))), &mut vm);
    let e = tuple.py_getitem(&slice, &mut vm).unwrap_err();
    assert_eq!((e.exc_type, e.message.as_str()), (ExcType::ValueError, "slice step cannot be zero"));
    let e = Value::Int(1).py_getitem(&Value::Int(0), &mut vm).unwrap_err();
    assert_eq!(e.message, "'int' object is not subscriptable");
    let e = tuple.py_setitem(Value::Int(0), Value::Int(1), &mut vm).unwrap_err();
    assert_eq!(e.message, "'tuple' object does not support item assignment");
}

#[test]
fn slices_select_positions() {
    assert_eq!(slice_positions(&Slice::new(Some(1), Some(-1), None), 5).unwrap(), [1, 2, 3]);
    assert_eq!(slice_positions(&Slice::new(None, None, Some(-2)), 5).unwrap(), [4, 2, 0]);
    assert_eq!(slice_positions(&Slice::new(Some(9), None, None), 5).unwrap(), [] as [usize; 0]);
    assert_eq!(Slice::new(Some(-3), None, None).indices(10).unwrap(), (7, 10, 1));
    assert_eq!(Slice::new(Some(-99), Some(99), None).indices(10).unwrap(), (0, 10, 1));
    assert_eq!(Slice::new(Some(99), Some(-99), Some(-1)).indices(10).unwrap(), (9, -1, -1));
    assert_eq!(normalize_sequence_index(-2, 5), 3);
    assert_eq!(normalize_sequence_index(-9, 5), 0);
    for bound in [None, Some(-7), Some(0)] {
        assert_eq!(value_to_option_i64(&option_i64_to_value(bound)).unwrap(), bound);
    }
    let mut vm = machine();
    let args = ArgValues::positional(vec![Value::Int(1), Value::Int(2)]);
    let v = Slice::init(&mut vm, args).unwrap();
    assert_eq!(shown(v.py_repr(&vm)), "slice(1, 2, None)");
}

fn call_tuple(tuple: &Tuple, name: &str, args: Vec<Value>, vm: &mut VM) -> RunResult<Value> {
    let name = EitherStr::from(vm.interns.intern(name));
    match py_call_attr(tuple, vm, &name, ArgValues::positional(args))? {
        CallResult::Value(v) => Ok(v),
        other => panic!("{other:?}"),
    }
}

#[test]
fn tuples_find_and_count() {
    let mut vm = machine();
    let mut keeper = machine();
    let items = [Value::Int(1), Value::Int(2), Value::Bool(true)];
    let held = new_tuple(&items, &mut keeper).unwrap();
    let tuple = match keeper.heap.get(id_of(&held)) {
        HeapData::Tuple(tuple) => tuple,
        other => panic!("{other:?}"),
    };
    assert_eq!(call_tuple(tuple, "index", vec![Value::Int(1)], &mut vm).unwrap(), Value::Int(0));
    assert_eq!(call_tuple(tuple, "count", vec![Value::Int(1)], &mut vm).unwrap(), Value::Int(2));
    let after = vec![Value::Int(1), Value::Int(1)];
    assert_eq!(call_tuple(tuple, "index", after, &mut vm).unwrap(), Value::Int(2));
    let e = call_tuple(tuple, "index", vec![Value::Int(3)], &mut vm).unwrap_err();
    assert_eq!(e.message, "tuple.index(x): x not in tuple");
}

#[test]
fn instances_keep_their_attributes() {
    let mut vm = machine();
    let x = Value::InternString(vm.interns.intern("x"));
    let mut attrs = Dict::new();
    attrs.entries.push((x, Value::Int(1)));
    let fields = vec!["x".to_owned()];
    let made = Dataclass::new(EitherStr::from("P".to_owned()), 7, fields, attrs, false);
    let v = object(HeapData::Dataclass(made), &mut vm);
    let name = EitherStr::from(vm.interns.intern("y"));
    v.py_set_attr(&name, Value::Int(5), &mut vm).unwrap();
    match v.py_getattr(&name, &mut vm).unwrap() {
        Some(CallResult::Value(Value::Int(5))) => {}
        other => panic!("{other:?}"),
    }
    assert_eq!(shown(v.py_repr(&vm)), "P(x=1)");
    let nothing = EitherStr::from(vm.interns.intern("nothing"));
    let e = v.py_getattr(&nothing, &mut vm).unwrap_err();
    assert_eq!(e.message, "'P' object has no attribute 'nothing'");
    let frozen = Dataclass::new(EitherStr::from("F".to_owned()), 8, vec![], Dict::new(), true);
    let f = object(HeapData::Dataclass(frozen), &mut vm);
    let e = f.py_set_attr(&name, Value::Int(1), &mut vm).unwrap_err();
    assert_eq!(e.exc_type, ExcType::FrozenInstanceError);
    assert_eq!(e.message, "cannot assign to field 'y'");
}

#[test]
fn views_are_compared_with_sets() {
    let mut vm = machine();
    let mut dict = Dict::new();
    dict.entries.push((Value::Int(1), Value::PyNone));
    dict.entries.push((Value::Int(2), Value::PyNone));
    let dict = object(HeapData::Dict(dict), &mut vm);
    let keys = DictKeysView::new(id_of(&dict));
    assert_eq!(keys.to_set(&mut vm).unwrap().items.len(), 2);
    let other = new_list(&[Value::Int(3)], &mut vm).unwrap();
    assert!(keys.isdisjoint_from_value(&other, &mut vm).unwrap());
    let other = new_list(&[Value::Int(2)], &mut vm).unwrap();
    assert!(!keys.isdisjoint_from_value(&other, &mut vm).unwrap());
    let e = keys.isdisjoint_from_value(&Value::Int(1), &mut vm).unwrap_err();
    assert_eq!(e.message, "'int' object is not iterable");
    let view = object(HeapData::DictKeysView(keys), &mut vm);
    let set = object(
        HeapData::SetData(SetStorage { items: vec![Value::Int(2), Value::Int(1)] }),
        &mut vm,
    );
    assert!(view.py_eq(&set, &vm).unwrap());
}

#[test]
fn context_managers() {
    let mut vm = machine();
    let plain = object(HeapData::TestContextManager(TestContextManager::new()), &mut vm);
    assert!(plain.py_is_context_manager(&vm));
    assert!(!Value::Int(1).py_is_context_manager(&vm));
    match plain.py_enter(&mut vm).unwrap() {
        CallResult::Value(v) => assert_eq!(v, plain),
        other => panic!("{other:?}"),
    }
    assert_eq!(vm.heap.refs(id_of(&plain)), 2);
    match plain.py_exit(None, &mut vm).unwrap() {
        CallResult::Value(Value::PyNone) => {}
        other => panic!("{other:?}"),
    }
    let mut swallowing = TestContextManager::default();
    swallowing.suppress = true;
    let swallowing = object(HeapData::TestContextManager(swallowing), &mut vm);
    match swallowing.py_exit(Some(id_of(&plain)), &mut vm).unwrap() {
        CallResult::Value(Value::Bool(true)) => {}
        other => panic!("{other:?}"),
    }
    let e = Value::Int(1).py_enter(&mut vm).unwrap_err();
    assert_eq!(e.message, "'int' object has no attribute '__enter__'");
    let e = Value::PyNone.py_exit(None, &mut vm).unwrap_err();
    assert_eq!(e.message, "'NoneType' object has no attribute '__exit__'");
}

#[test]
fn markers_have_types() {
    let vm = machine();
    assert_eq!(Value::Marker(Marker(StaticStrings::Stdout)).py_type(&vm).as_str(), "_io.TextIOWrapper");
    assert_eq!(Value::PyNone.py_type(&vm).as_str(), "NoneType");
    assert_eq!(Value::from(true), Value::Bool(true));
}

#[test]
fn undefined_equals_nothing() {
    let vm = machine();
    assert!(!Value::Undefined.py_eq(&Value::Undefined, &vm).unwrap());
    assert!(!Value::Undefined.py_eq(&Value::PyNone, &vm).unwrap());
}

#[test]
fn one_side_may_not_know_the_other() {
    let mut vm = machine();
    let text = string("ab", &mut vm);
    assert_eq!(Value::Int(1).py_eq_impl(&Value::Bool(true), &vm).unwrap(), Some(true));
    assert_eq!(Value::Int(1).py_eq_impl(&text, &vm).unwrap(), None);
}

#[test]
fn equal_frozen_instances_hash_alike() {
    let mut vm = machine();
    let x = vm.interns.intern("x");
    let mut make = |value: Value, vm: &mut VM| {
        let mut attrs = Dict::new();
        attrs.entries.push((Value::InternString(x), value));
        let fields = vec!["x".to_owned()];
        let made = Dataclass::new(EitherStr::from("P".to_owned()), 7, fields, attrs, true);
        object(HeapData::Dataclass(made), vm)
    };
    let a = make(Value::Int(1), &mut vm);
    let b = make(Value::Bool(true), &mut vm);
    let c = make(Value::Int(2), &mut vm);
    assert!(a.py_eq(&b, &vm).unwrap());
    assert!(!a.py_eq(&c, &vm).unwrap());
    let hash = |v: &Value, vm: &VM| v.py_hash(vm).unwrap().unwrap().raw();
    assert_eq!(hash(&a, &vm), hash(&b, &vm));
}

#[test]
fn named_tuples_give_fields() {
    let vm = machine();
    let names = vec![EitherStr::from("x".to_owned()), EitherStr::from("y".to_owned())];
    let items = vec![Value::Int(1), Value::Int(2)];
    let point = NamedTuple::new(EitherStr::from("P".to_owned()), names, items);
    assert_eq!(point.get_by_index(-1), Some(&Value::Int(2)));
    assert_eq!(point.get_by_index(2), None);
    assert_eq!(point.get_by_name("y", &vm.interns), Some(&Value::Int(2)));
    assert_eq!(point.get_by_name("z", &vm.interns), None);
    assert_eq!(point.as_vec().len(), point.field_names().len());
    assert!(!point.contains_refs());
}

#[test]
fn literals_are_interned() {
    let mut vm = machine();
    let bytes = vm.interns.add_bytes(vec![1, 2, 3]);
    let number = vm.interns.add_long_int(LongInt::from_i64(10).pow(30));
    assert_eq!(Value::InternBytes(bytes).raw_bytes(&vm), Some(&[1u8, 2, 3][..]));
    assert_eq!(Value::InternBytes(bytes).py_len(&vm), Some(3));
    let v = Value::InternLongInt(number);
    assert_eq!(shown(v.py_repr(&vm)), "1000000000000000000000000000000");
    let id = vm.interns.intern("word");
    assert_eq!(vm.interns.intern("word"), id);
    assert_eq!(vm.interns.get_str(id), "word");
}

#[test]
fn attributes_can_be_changed_in_place() {
    let mut vm = machine();
    let x = vm.interns.intern("x");
    let fields = vec!["x".to_owned()];
    let mut made = Dataclass::new(EitherStr::from("P".to_owned()), 7, fields, Dict::new(), false);
    made.attrs_mut().entries.push((Value::InternString(x), Value::Int(3)));
    assert_eq!(made.attrs().get_by_str("x", &vm), Some(&Value::Int(3)));
    assert_eq!((made.type_id(), made.is_frozen()), (7, false));
    assert_eq!(made.field_names(), &["x".to_owned()]);
}

#[test]
fn strings_serve_as_names() {
    let mut vm = machine();
    let v = string("attribute", &mut vm);
    match v.as_either_str(&vm) {
        Some(name) => assert_eq!(name.into_string(&vm.interns), "attribute"),
        None => panic!("no name"),
    }
    assert!(Value::Int(1).as_either_str(&vm).is_none());
    let name = vm.interns.intern("math");
    let module = object(HeapData::Module(name), &mut vm);
    assert_eq!(module.module_name(&vm), "math");
    assert_eq!(Value::Int(1).module_name(&vm), "<unknown>");
}

#[test]
fn tuples_are_made_of_iterables() {
    let mut vm = machine();
    let list = new_list(&[Value::Int(1), Value::Int(2)], &mut vm).unwrap();
    let v = Tuple::init(&mut vm, ArgValues::positional(vec![list])).unwrap();
    assert_eq!(shown(v.py_repr(&vm)), "(1, 2)");
    let v = Tuple::init(&mut vm, ArgValues::empty()).unwrap();
    assert_eq!(shown(v.py_repr(&vm)), "()");
    let text = string("ab", &mut vm);
    let v = Tuple::init(&mut vm, ArgValues::positional(vec![text])).unwrap();
    assert_eq!(shown(v.py_repr(&vm)), "('a', 'b')");
    let e = Tuple::init(&mut vm, ArgValues::positional(vec![Value::Int(1)])).unwrap_err();
    assert_eq!(e.message, "'int' object is not iterable");
}

#[test]
fn views_of_items_hold_pairs() {
    let mut vm = machine();
    let mut dict = Dict::new();
    dict.entries.push((Value::Int(1), Value::Int(2)));
    let dict = object(HeapData::Dict(dict), &mut vm);
    let view = DictItemsView::new(id_of(&dict));
    assert_eq!(view.dict_id(), id_of(&dict));
    assert_eq!(view.to_set(&mut vm).unwrap().items.len(), 1);
    let pair = new_tuple(&[Value::Int(1), Value::Int(2)], &mut vm).unwrap();
    let other = new_list(&[pair], &mut vm).unwrap();
    assert!(!view.isdisjoint_from_value(&other, &mut vm).unwrap());
    let name = EitherStr::from(vm.interns.intern("isdisjoint"));
    let args = ArgValues::positional(vec![other]);
    match view.py_call_attr(&mut vm, &name, args).unwrap() {
        CallResult::Value(Value::Bool(false)) => {}
        other => panic!("{other:?}"),
    }
}

#[test]
fn copies_are_counted() {
    let mut vm = machine();
    let list = new_list(&[], &mut vm).unwrap();
    let id = id_of(&list);
    let copy = vm.clone_value(&list);
    assert_eq!(vm.heap.refs(id), 2);
    vm.drop_value(copy);
    assert_eq!(vm.heap.refs(id), 1);
    assert_eq!(Value::Int(3).clone_immediate(), Value::Int(3));
}

#[test]
fn comparisons_turn_round_with_their_operands() {
    let mut vm = machine();
    let a = new_tuple(&[Value::Int(1), Value::PyNone, Value::Int(2)], &mut vm).unwrap();
    let b = new_tuple(&[Value::Bool(true), Value::PyNone, float(3.0)], &mut vm).unwrap();
    assert_eq!(a.py_cmp(&b, &vm).unwrap(), Some(Order::Less));
    assert_eq!(b.py_cmp(&a, &vm).unwrap(), Some(Order::Greater));
    assert!(!a.py_eq(&b, &vm).unwrap() && !b.py_eq(&a, &vm).unwrap());
    let c = new_tuple(&[float(1.0), Value::PyNone, Value::Int(2)], &mut vm).unwrap();
    assert_eq!(a.py_cmp(&c, &vm).unwrap(), Some(Order::Equal));
    assert!(a.py_eq(&c, &vm).unwrap() && c.py_eq(&a, &vm).unwrap());
    let x = new_list(&[Value::Ref(id_of(&a))], &mut vm).unwrap();
    let y = new_list(&[Value::Ref(id_of(&c))], &mut vm).unwrap();
    assert!(x.py_eq(&y, &vm).unwrap() && y.py_eq(&x, &vm).unwrap());
    assert_eq!(x.py_cmp(&y, &vm).unwrap(), None);
}

#[test]
fn slices_meet_at_an_index() {
    let whole = slice_positions(&Slice::new(None, None, None), 5).unwrap();
    assert_eq!(whole, [0, 1, 2, 3, 4]);
    let backwards = slice_positions(&Slice::new(None, None, Some(-1)), 5).unwrap();
    assert_eq!(backwards, [4, 3, 2, 1, 0]);
    for index in [-9, -2, 0, 3, 5, 9] {
        let mut both = slice_positions(&Slice::new(None, Some(index), None), 5).unwrap();
        both.extend(slice_positions(&Slice::new(Some(index), None, None), 5).unwrap());
        assert_eq!(both, whole);
    }
}

#[test]
fn memory_is_estimated() {
    assert_eq!(Slice::new(None, None, None).py_estimate_size(), size_of::<Slice>());
    let text = Str::new("añb".to_owned());
    assert_eq!(text.py_estimate_size(), size_of::<Str>() + 4);
    let zone = TimeZone::new(60, Some("Z".to_owned())).unwrap();
    assert_eq!(zone.py_estimate_size(), size_of::<TimeZone>() + 1);
    let mut vm = machine();
    let name = EitherStr::from(vm.interns.intern("P"));
    let field = EitherStr::from(vm.interns.intern("x"));
    let point = NamedTuple::new(name, vec![field], vec![Value::Int(1)]);
    assert_eq!(
        point.py_estimate_size(),
        size_of::<NamedTuple>() + size_of::<StringId>() + size_of::<Value>()
    );
    assert_eq!(
        named_tuple_size(3, 2, 4),
        size_of::<NamedTuple>() + 3 + 2 * size_of::<StringId>() + 4 * size_of::<Value>()
    );
    assert_eq!(named_tuple_size(0, usize::MAX, 1), usize::MAX);
    let path = Path::new("/a".to_owned());
    assert!(path.py_estimate_size() >= size_of::<Path>() + 2);
}

#[test]
fn numbers_past_the_largest_are_in_no_range() {
    let mut vm = machine();
    let range = Range { start: 0, stop: i64::MAX, step: i64::MAX - 1 };
    let range = object(HeapData::Range(range), &mut vm);
    assert!(!range.py_contains(&float(9_223_372_036_854_775_808.0), &vm).unwrap());
    assert!(range.py_contains(&float(0.0), &vm).unwrap());
    let all = object(HeapData::Range(Range { start: i64::MAX, stop: 0, step: -1 }), &mut vm);
    assert!(all.py_contains(&Value::Int(i64::MAX), &vm).unwrap());
    assert!(!all.py_contains(&float(9_223_372_036_854_775_808.0), &vm).unwrap());
}

#[test]
fn methods_of_instances_take_their_arguments_along() {
    let mut vm = machine();
    let made = Dataclass::new(EitherStr::from("P".to_owned()), 7, vec![], Dict::new(), false);
    let this = vm.allocate(HeapData::Dataclass(made)).unwrap();
    let arg = id_of(&string("a longer text", &mut vm));
    let name = EitherStr::from(vm.interns.intern("run"));
    let args = ArgValues::positional(vec![Value::Ref(arg)]);
    match monty::types::dataclass_ops::py_call_attr(this, &mut vm, &name, args).unwrap() {
        CallResult::MethodCall(_, longer) => {
            assert_eq!(longer.pos, [Value::Ref(this), Value::Ref(arg)]);
        }
        other => panic!("{other:?}"),
    }
    assert_eq!((vm.heap.refs(this), vm.heap.refs(arg)), (2, 1));
    let name = EitherStr::from(vm.interns.intern("_hidden"));
    let args = ArgValues::positional(vec![Value::Ref(arg)]);
    assert!(monty::types::dataclass_ops::py_call_attr(this, &mut vm, &name, args).is_err());
    assert_eq!((vm.heap.refs(this), vm.heap.refs(arg)), (2, 0));
}

#[test]
fn values_are_dropped_when_their_name_finds_no_room() {
    let mut vm = VM::new(4, 1 << 20, 64);
    let made = Dataclass::new(EitherStr::from("P".to_owned()), 7, vec![], Dict::new(), false);
    let v = object(HeapData::Dataclass(made), &mut vm);
    let value = string("a longer text", &mut vm);
    let id = id_of(&value);
    let e = v.py_set_attr(&EitherStr::from("unusual".to_owned()), value, &mut vm).unwrap_err();
    assert_eq!((e.exc_type, vm.heap.refs(id)), (ExcType::MemoryError, 0));
}

#[test]
fn sets_of_items_own_new_tuples() {
    let mut vm = VM::new(6, 1 << 20, 64);
    let value = id_of(&string("a longer text", &mut vm));
    let mut dict = Dict::new();
    dict.entries.push((Value::Int(1), Value::Ref(value)));
    let dict = object(HeapData::Dict(dict), &mut vm);
    let view = DictItemsView::new(id_of(&dict));
    let set = view.to_set(&mut vm).unwrap();
    let pair = id_of(&set.items[0]);
    match vm.heap.get(pair) {
        HeapData::Tuple(tuple) => assert_eq!(tuple.as_slice(), [Value::Int(1), Value::Ref(value)]),
        other => panic!("{other:?}"),
    }
    assert_eq!((vm.heap.refs(pair), vm.heap.refs(value)), (1, 2));
    vm.drop_values(set.items);
    assert_eq!((vm.heap.refs(pair), vm.heap.refs(value)), (0, 1));
    assert!(view.to_set(&mut vm).is_ok());
    assert_eq!(view.to_set(&mut vm).unwrap_err().exc_type, ExcType::MemoryError);
}

#[test]
fn unhashable_items_make_no_set() {
    let mut vm = machine();
    let list = object(HeapData::List(List::new(vec![])), &mut vm);
    let mut dict = Dict::new();
    dict.entries.push((Value::Int(1), list));
    let dict = object(HeapData::Dict(dict), &mut vm);
    let view = DictItemsView::new(id_of(&dict));
    assert_eq!(view.to_set(&mut vm).unwrap_err().exc_type, ExcType::TypeError);
}

#[test]
fn equal_frozen_sets_hash_alike() {
    let mut vm = machine();
    let hash = |v: &Value, vm: &VM| v.py_hash(vm).unwrap().unwrap().raw();
    let a = SetStorage { items: vec![Value::Int(1), Value::Int(2), Value::PyNone] };
    let b = SetStorage { items: vec![Value::PyNone, float(2.0), Value::Bool(true)] };
    let a = object(HeapData::FrozenSet(a), &mut vm);
    let b = object(HeapData::FrozenSet(b), &mut vm);
    assert!(a.py_eq(&b, &vm).unwrap());
    assert_eq!(hash(&a, &vm), hash(&b, &vm));
    let x = new_tuple(&[a], &mut vm).unwrap();
    let y = new_tuple(&[b], &mut vm).unwrap();
    assert!(x.py_eq(&y, &vm).unwrap());
    assert_eq!(hash(&x, &vm), hash(&y, &vm));
}
