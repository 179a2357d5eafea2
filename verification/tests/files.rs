use monty::args::ArgValues;
use monty::call::{CallResult, OsFunctionCall};
use monty::heap::{HeapData, HeapId};
use monty::types::file::OpenFile;
use monty::types::file_chunk::resolve_seek_target;
use monty::types::file_mode::FileMode;
use monty::types::file_ops::py_call_attr;
use monty::types::file_store::{apply_buffer_store, apply_write_position};
use monty::types::str::allocate_string;
use monty::value::{EitherStr, Value};
use monty::vm::VM;
use monty::{ExcType, RunResult};

fn machine() -> VM {
    VM::new(1000, 1 << 20, 64)
}

fn open(mode: &str, vm: &mut VM) -> HeapId {
    let mode = FileMode::from_str(mode).unwrap();
    vm.allocate(HeapData::OpenFile(OpenFile::with_state("/f".to_owned(), mode, 0))).unwrap()
}

fn call(id: HeapId, name: &str, args: Vec<Value>, vm: &mut VM) -> RunResult<CallResult> {
    let name = EitherStr::from(vm.interns.intern(name));
    py_call_attr(id, vm, &name, ArgValues::positional(args))
}

fn value(r: RunResult<CallResult>) -> Value {
    match r.unwrap() {
        CallResult::Value(v) => v,
        other => panic!("{other:?}"),
    }
}

fn reads(id: HeapId, content: &str, vm: &mut VM) -> Value {
    match call(id, "read", vec![Value::Int(3)], vm).unwrap() {
        CallResult::OsCallStoreBuffer { call: OsFunctionCall::ReadText(path), file_id } => {
            assert_eq!(path, "/f");
            assert_eq!(file_id, id);
        }
        other => panic!("{other:?}"),
    }
    let answer = allocate_string(content.to_owned(), vm).unwrap();
    apply_buffer_store(id, answer, vm).unwrap()
}

#[test]
fn modes_are_parsed_and_named() {
    for mode in ["r", "w", "a", "rb", "wb", "ab", "x", "xb"] {
        if let Ok(parsed) = FileMode::from_str(mode) {
            assert_eq!(parsed.as_str(), mode);
        }
    }
    assert!(FileMode::from_str("q").is_err());
    assert!(FileMode::from_str("rw").is_err());
    let rb = FileMode::from_str("rb").unwrap();
    assert!(rb.is_binary() && rb.readable() && !rb.writable());
    let a = FileMode::from_str("a").unwrap();
    assert!(a.is_append() && a.writable() && !a.readable() && !a.truncate());
}

#[test]
fn the_host_reads_once_and_slices_follow() {
    let mut vm = machine();
    let id = open("r", &mut vm);
    let first = reads(id, "añb\nsecond\nthird", &mut vm);
    assert_eq!(first.text(&vm), Some("añb"));
    let rest = value(call(id, "readline", vec![], &mut vm));
    assert_eq!(rest.text(&vm), Some("\n"));
    let line = value(call(id, "readline", vec![], &mut vm));
    assert_eq!(line.text(&vm), Some("second\n"));
    assert_eq!(value(call(id, "tell", vec![], &mut vm)), Value::Int(11));
    assert_eq!(value(call(id, "seek", vec![Value::Int(2)], &mut vm)), Value::Int(2));
    let tail = value(call(id, "read", vec![], &mut vm));
    assert_eq!(tail.text(&vm), Some("b\nsecond\nthird"));
    let end = value(call(id, "read", vec![], &mut vm));
    assert_eq!(end.text(&vm), Some(""));
}

#[test]
fn seeking_then_reading_gives_the_rest() {
    let mut vm = machine();
    let id = open("r", &mut vm);
    reads(id, "0123456789", &mut vm);
    value(call(id, "seek", vec![Value::Int(0)], &mut vm));
    let all = value(call(id, "read", vec![], &mut vm));
    assert_eq!(all.text(&vm), Some("0123456789"));
    value(call(id, "seek", vec![Value::Int(99)], &mut vm));
    let none = value(call(id, "read", vec![], &mut vm));
    assert_eq!(none.text(&vm), Some(""));
}

#[test]
fn seek_targets() {
    assert_eq!(resolve_seek_target(3, 0, 5, 10).unwrap(), 3);
    assert_eq!(resolve_seek_target(-2, 1, 5, 10).unwrap(), 3);
    assert_eq!(resolve_seek_target(-2, 2, 5, 10).unwrap(), 8);
    assert_eq!(resolve_seek_target(0, 7, 5, 10).unwrap_err().exc_type, ExcType::ValueError);
}

#[test]
fn writing_is_done_by_the_host() {
    let mut vm = machine();
    let id = open("w", &mut vm);
    let text = allocate_string("héllo".to_owned(), &mut vm).unwrap();
    match call(id, "write", vec![text], &mut vm).unwrap() {
        CallResult::OsCall(OsFunctionCall::AppendText { path, data }) => {
            assert_eq!((path.as_str(), data.as_str()), ("/f", "héllo"));
        }
        other => panic!("{other:?}"),
    }
    let written = apply_write_position(id, Value::Int(5), &mut vm).unwrap();
    assert_eq!(written, Value::Int(5));
    let e = call(id, "write", vec![Value::Int(1)], &mut vm).unwrap_err();
    assert_eq!(e.message, "write() argument must be str, not int");
    let e = call(id, "read", vec![], &mut vm).unwrap_err();
    assert_eq!((e.exc_type, e.message.as_str()), (ExcType::UnsupportedOperation, "not readable"));
}

#[test]
fn closed_files_refuse_everything() {
    let mut vm = machine();
    let id = open("r", &mut vm);
    assert_eq!(value(call(id, "close", vec![], &mut vm)), Value::PyNone);
    assert_eq!(value(call(id, "close", vec![], &mut vm)), Value::PyNone);
    let e = call(id, "read", vec![], &mut vm).unwrap_err();
    assert_eq!((e.exc_type, e.message.as_str()), (ExcType::ValueError, "I/O operation on closed file."));
    let closed = EitherStr::from(vm.interns.intern("closed"));
    match Value::Ref(id).py_getattr(&closed, &mut vm).unwrap() {
        Some(CallResult::Value(Value::Bool(true))) => {}
        other => panic!("{other:?}"),
    }
    let e = Value::Ref(id).py_enter(&mut vm).unwrap_err();
    assert_eq!(e.exc_type, ExcType::ValueError);
}

#[test]
fn binary_files_give_bytes() {
    let mut vm = machine();
    let id = open("rb", &mut vm);
    match call(id, "read", vec![Value::Int(2)], &mut vm).unwrap() {
        CallResult::OsCallStoreBuffer { call: OsFunctionCall::ReadBytes(_), .. } => {}
        other => panic!("{other:?}"),
    }
    let answer = monty::outcome::allocate_bytes(vec![1, 2, 10, 3], &mut vm).unwrap();
    let first = apply_buffer_store(id, answer, &mut vm).unwrap();
    assert_eq!(first.raw_bytes(&vm), Some(&[1u8, 2][..]));
    let line = value(call(id, "readline", vec![], &mut vm));
    assert_eq!(line.raw_bytes(&vm), Some(&[10u8][..]));
    assert_eq!(value(call(id, "readable", vec![], &mut vm)), Value::Bool(true));
    assert_eq!(value(call(id, "writable", vec![], &mut vm)), Value::Bool(false));
    assert_eq!(value(call(id, "seekable", vec![], &mut vm)), Value::Bool(true));
}

#[test]
fn lines_are_read_at_once() {
    let mut vm = machine();
    let id = open("r", &mut vm);
    reads(id, "ab\ncd\nef", &mut vm);
    value(call(id, "seek", vec![Value::Int(0)], &mut vm));
    let v = value(call(id, "readlines", vec![], &mut vm));
    let lines: Vec<String> = match v {
        Value::Ref(id) => match vm.heap.get(id) {
            HeapData::List(list) => {
                list.as_slice().iter().map(|x| x.text(&vm).unwrap().to_owned()).collect()
            }
            other => panic!("{other:?}"),
        },
        other => panic!("{other:?}"),
    };
    assert_eq!(lines, ["ab\n", "cd\n", "ef"]);
    assert_eq!(lines.concat(), "ab\ncd\nef");
    assert_eq!(value(call(id, "flush", vec![], &mut vm)), Value::PyNone);
}

#[test]
fn a_write_that_fails_is_undone() {
    let mode = FileMode::from_str("w").unwrap();
    let mut file = OpenFile::with_state("/f".to_owned(), mode, 4);
    let before = (file.position, file.file_length);
    file.position = 9;
    file.file_length = 9;
    file.rollback_write_position(before.0, before.1);
    assert_eq!((file.position, file.file_length), before);
    file.clear_pending_read();
    assert!(file.pending_read.is_none());
}

#[test]
fn modes_name_their_types() {
    let named = |mode: &str| FileMode::from_str(mode).unwrap().bare_type_name();
    assert_eq!(named("r"), "TextIOWrapper");
    assert_eq!(named("rb"), "BufferedReader");
    assert_eq!(named("wb"), "BufferedWriter");
    assert!(FileMode::from_str("w").unwrap().create());
    assert!(!FileMode::from_str("r").unwrap().create());
}

#[test]
fn a_place_that_was_told_is_found_again() {
    let mut vm = machine();
    let id = open("r", &mut vm);
    reads(id, "0123456789", &mut vm);
    let told = value(call(id, "tell", vec![], &mut vm));
    assert_eq!(told, Value::Int(3));
    let rest = value(call(id, "read", vec![], &mut vm));
    assert_eq!(rest.text(&vm), Some("3456789"));
    assert_eq!(value(call(id, "seek", vec![Value::Int(3)], &mut vm)), Value::Int(3));
    assert_eq!(value(call(id, "tell", vec![], &mut vm)), Value::Int(3));
    let again = value(call(id, "read", vec![], &mut vm));
    assert_eq!(again.text(&vm), Some("3456789"));
}

#[test]
fn a_read_that_failed_can_be_tried_again() {
    let mut vm = machine();
    let id = open("r", &mut vm);
    match call(id, "read", vec![], &mut vm).unwrap() {
        CallResult::OsCallStoreBuffer { .. } => {}
        other => panic!("{other:?}"),
    }
    let mut file = match vm.heap.get(id) {
        HeapData::OpenFile(file) => file.duplicate(),
        other => panic!("{other:?}"),
    };
    assert!(file.pending_read.is_some());
    file.clear_pending_read();
    assert!(file.buffer.is_none() && !file.eof && file.position == 0);
    vm.set_data(id, HeapData::OpenFile(file));
    let first = reads(id, "abcdef", &mut vm);
    assert_eq!(first.text(&vm), Some("abc"));
    assert!(matches!(call(id, "read", vec![], &mut vm).unwrap(), CallResult::Value(_)));
}
