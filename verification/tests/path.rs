use monty::args::ArgValues;
use monty::call::{CallResult, OsFunctionCall, PathArgs};
use monty::heap::HeapData;
use monty::types::bytes::Bytes;
use monty::types::path::{path_size, Path};
use monty::types::path_host::is_path_os_method;
use monty::types::path_ops::py_call_attr;
use monty::types::str::allocate_string;
use monty::value::{EitherStr, Value};
use monty::vm::VM;
use monty::ExcType;

fn path(text: &str) -> Path {
    Path::new(text.to_owned())
}

#[test]
fn path_is_normalized() {
    let p = path("//usr\\./lib//python/");
    assert_eq!(p.as_str(), "/usr/lib/python");
    assert_eq!(p.name(), "python");
    assert_eq!(path("./").as_str(), ".");
    assert_eq!(path("//").as_str(), "/");
    assert_eq!(path(p.as_str()).as_str(), p.as_str());
}

#[test]
fn parts_of_paths() {
    let p = path("/a/b.tar.gz");
    assert_eq!(p.stem(), "b.tar");
    assert_eq!(p.suffix(), ".gz");
    assert_eq!(p.suffixes(), [".tar", ".gz"]);
    assert_eq!(p.parts(), ["/", "a", "b.tar.gz"]);
    assert_eq!(p.parent(), Some("/a"));
    assert_eq!(path(".bashrc").suffix(), "");
    assert_eq!(path(".bashrc").stem(), ".bashrc");
    assert!(p.is_absolute());
    assert!(!path("a").is_absolute());
}

#[test]
fn paths_are_changed() {
    assert_eq!(path("/a").joinpath("b/c"), "/a/b/c");
    assert_eq!(path("/a").joinpath("/b"), "/b");
    assert_eq!(path("/a/b.txt").with_name("c.txt").unwrap(), "/a/c.txt");
    assert_eq!(path("/a/b.txt").with_stem("c").unwrap(), "/a/c.txt");
    assert_eq!(path("/a/b.txt").with_suffix(".md").unwrap(), "/a/b.md");
    assert_eq!(path("/a/b.txt").with_suffix("").unwrap(), "/a/b");
    assert!(path("/a/b").with_name("c/d").is_err());
    assert_eq!(path("/a/b").with_suffix("md").unwrap(), "/a/b.md");
    assert!(path("/a/b").with_suffix("m/d").is_err());
    assert!(path("/").with_name("a").is_err());
}

#[test]
fn methods_of_paths() {
    let mut vm = VM::new(100, 1 << 20, 64);
    let p = path("/a/b.txt");
    let id = vm.allocate(HeapData::Path(p.duplicate())).unwrap();
    let name = EitherStr::from(vm.interns.intern("with_suffix"));
    let suffix = allocate_string(".md".to_owned(), &mut vm).unwrap();
    let args = ArgValues::positional(vec![suffix]);
    match py_call_attr(id, &p, &mut vm, &name, args).unwrap() {
        CallResult::Value(Value::Ref(made)) => match vm.heap.get(made) {
            HeapData::Path(q) => assert_eq!(q.as_str(), "/a/b.md"),
            other => panic!("{other:?}"),
        },
        other => panic!("{other:?}"),
    }
    assert!(is_path_os_method("exists"));
    assert!(!is_path_os_method("joinpath"));
    let name = EitherStr::from(vm.interns.intern("exists"));
    match py_call_attr(id, &p, &mut vm, &name, ArgValues::empty()).unwrap() {
        CallResult::OsCall(OsFunctionCall::PathMethod { path, args, .. }) => {
            assert_eq!(path, "/a/b.txt");
            assert!(matches!(args, PathArgs::Nothing));
        }
        other => panic!("{other:?}"),
    }
    let name = EitherStr::from(vm.interns.intern("nothing"));
    let e = py_call_attr(id, &p, &mut vm, &name, ArgValues::empty()).unwrap_err();
    assert_eq!(e.exc_type, ExcType::AttributeError);
}

#[test]
fn paths_are_constructed_from_segments() {
    let mut vm = VM::new(100, 1 << 20, 64);
    let a = allocate_string("usr".to_owned(), &mut vm).unwrap();
    let b = allocate_string("lib".to_owned(), &mut vm).unwrap();
    let v = Path::init(&mut vm, ArgValues::positional(vec![a, b])).unwrap();
    match v {
        Value::Ref(id) => match vm.heap.get(id) {
            HeapData::Path(p) => assert_eq!(p.as_str(), "usr/lib"),
            other => panic!("{other:?}"),
        },
        other => panic!("{other:?}"),
    }
    let e = Path::init(&mut vm, ArgValues::positional(vec![Value::Int(1)])).unwrap_err();
    assert_eq!(e.exc_type, ExcType::TypeError);
}

#[test]
fn names_are_stems_and_suffixes() {
    for text in ["/a/b.tar.gz", ".bashrc", "plain", "/", "a.", "..."] {
        let p = path(text);
        assert_eq!(p.stem().to_owned() + p.suffix(), p.name());
    }
}

#[test]
fn suffixes_make_up_the_end_of_a_name() {
    for (name, front, suffixes) in [
        ("a.tar.gz", "a", vec![".tar", ".gz"]),
        ("..a", ".", vec![".a"]),
        (".bashrc.bak", ".bashrc", vec![".bak"]),
        (".bashrc", ".bashrc", vec![]),
        ("plain", "plain", vec![]),
        ("end.", "end", vec!["."]),
        ("...", ".", vec![".", "."]),
    ] {
        let p = path(name);
        assert_eq!(p.suffixes(), suffixes);
        assert_eq!(front.to_owned() + &p.suffixes().concat(), name);
        assert_eq!(p.suffix(), suffixes.last().copied().unwrap_or(""));
    }
}

#[test]
fn sizes_of_paths_count_what_is_allocated() {
    assert_eq!(path_size(10), std::mem::size_of::<Path>() + 10);
    assert_eq!(path_size(usize::MAX), usize::MAX);
    assert!(path("ab").py_estimate_size() >= path_size(2));
}

fn host_call(name: &str, args: ArgValues, vm: &mut VM) -> monty::RunResult<PathArgs> {
    let p = path("/a");
    let id = vm.allocate(HeapData::Path(path("/a"))).unwrap();
    let attr = EitherStr::from(vm.interns.intern(name));
    match py_call_attr(id, &p, vm, &attr, args)? {
        CallResult::OsCall(OsFunctionCall::PathMethod { path, method, args }) => {
            assert_eq!((path.as_str(), vm.interns.get_str(method)), ("/a", name));
            Ok(args)
        }
        other => panic!("{other:?}"),
    }
}

#[test]
fn host_methods_hand_their_arguments_on() {
    let mut vm = VM::new(100, 1 << 20, 64);
    let text = allocate_string("hello".to_owned(), &mut vm).unwrap();
    let args = ArgValues::positional(vec![text.clone_with_heap(&mut vm)]);
    match host_call("write_text", args, &mut vm).unwrap() {
        PathArgs::Text(data) => assert_eq!(data, "hello"),
        other => panic!("{other:?}"),
    }
    let args = ArgValues::positional(vec![text.clone_with_heap(&mut vm)]);
    match host_call("rename", args, &mut vm).unwrap() {
        PathArgs::Target(target) => assert_eq!(target, "hello"),
        other => panic!("{other:?}"),
    }
    let data = vm.allocate(HeapData::Bytes(Bytes::new(vec![1, 2]))).unwrap();
    let args = ArgValues::positional(vec![Value::Ref(data)]);
    match host_call("write_bytes", args, &mut vm).unwrap() {
        PathArgs::Data(data) => assert_eq!(data, [1, 2]),
        other => panic!("{other:?}"),
    }
    let parents = EitherStr::from(vm.interns.intern("parents"));
    let args = ArgValues { pos: vec![], kwargs: vec![(parents, Value::Int(1))] };
    match host_call("mkdir", args, &mut vm).unwrap() {
        PathArgs::MakeDir { parents, exist_ok } => assert_eq!((parents, exist_ok), (true, false)),
        other => panic!("{other:?}"),
    }
}

#[test]
fn host_methods_check_their_arguments() {
    let mut vm = VM::new(100, 1 << 20, 64);
    let one = |v: Value| ArgValues::positional(vec![v]);
    let e = host_call("exists", one(Value::Int(1)), &mut vm).unwrap_err();
    assert_eq!(e.message, "exists() takes no arguments (1 given)");
    let e = host_call("write_text", one(Value::Int(1)), &mut vm).unwrap_err();
    assert_eq!(e.message, "data must be str, not int");
    let e = host_call("write_text", ArgValues::empty(), &mut vm).unwrap_err();
    assert_eq!(e.message, "write_text() takes exactly one argument (0 given)");
    let e = host_call("write_bytes", one(Value::PyNone), &mut vm).unwrap_err();
    assert_eq!(e.message, "memoryview: a bytes-like object is required, not 'NoneType'");
    let e = host_call("rename", one(Value::Int(1)), &mut vm).unwrap_err();
    assert_eq!(e.message, "expected str or Path, got int");
    let e = host_call("mkdir", one(Value::Int(1)), &mut vm).unwrap_err();
    assert_eq!(e.exc_type, ExcType::TypeError);
}
