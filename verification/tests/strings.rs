use monty::args::ArgValues;
use monty::heap::HeapData;
use monty::intern::StaticStrings;
use monty::types::containers::List;
use monty::types::slice::Slice;
use monty::types::str::{allocate_string, get_char_at_index, Str};
use monty::types::str_chars::{
    category_is_decimal, category_is_digit, is_unicode_decimal, is_unicode_digit,
};
use monty::types::str_methods::call_str_method;
use monty::types::str_repr::{repr_needs_escape, StringRepr};
use monty::value::{EitherStr, Value};
use monty::value_repr::StrMade;
use monty::vm::VM;
use monty::{ExcType, RunResult};

fn machine() -> VM {
    VM::new(1000, 1 << 20, 64)
}

fn string(text: &str, vm: &mut VM) -> Value {
    allocate_string(text.to_owned(), vm).unwrap()
}

fn call(s: &str, name: &str, args: &[&str], vm: &mut VM) -> RunResult<Value> {
    let pos: Vec<Value> = args
        .iter()
        .map(|a| match a.parse::<i64>() {
            Ok(n) => Value::Int(n),
            Err(_) => string(a, vm),
        })
        .collect();
    let id = vm.interns.intern(name);
    call_str_method(s, id, ArgValues::positional(pos), vm)
}

fn text(s: &str, name: &str, args: &[&str]) -> String {
    let mut vm = machine();
    let v = call(s, name, args, &mut vm).unwrap();
    v.text(&vm).unwrap().to_owned()
}

fn pieces(s: &str, name: &str, args: &[&str]) -> Vec<String> {
    let mut vm = machine();
    let v = call(s, name, args, &mut vm).unwrap();
    let items = match v {
        Value::Ref(id) => match vm.heap.get(id) {
            HeapData::List(list) => list.as_slice(),
            HeapData::Tuple(tuple) => tuple.as_slice(),
            other => panic!("{other:?}"),
        },
        other => panic!("{other:?}"),
    };
    items.iter().map(|x| x.text(&vm).unwrap().to_owned()).collect()
}

fn value(s: &str, name: &str, args: &[&str]) -> Value {
    let mut vm = machine();
    call(s, name, args, &mut vm).unwrap()
}

fn error(s: &str, name: &str, args: &[&str]) -> (ExcType, String) {
    let mut vm = machine();
    let e = call(s, name, args, &mut vm).unwrap_err();
    (e.exc_type, e.message)
}

#[test]
fn case_methods() {
    assert_eq!(text("Straße", "upper", &[]), "STRASSE");
    assert_eq!(text("ÀB", "lower", &[]), "àb");
    assert_eq!(text("ÀB", "casefold", &[]), "àb");
    assert_eq!(text("hELLO wORLD", "capitalize", &[]), "Hello world");
    assert_eq!(text("hello wORLD's", "title", &[]), "Hello World'S");
    assert_eq!(text("aBc", "swapcase", &[]), "AbC");
}

#[test]
fn class_methods() {
    assert_eq!(value("abcé", "isalpha", &[]), Value::Bool(true));
    assert_eq!(value("", "isalpha", &[]), Value::Bool(false));
    assert_eq!(value("12²", "isdigit", &[]), Value::Bool(true));
    assert_eq!(value("12²", "isdecimal", &[]), Value::Bool(false));
    assert_eq!(value("½", "isnumeric", &[]), Value::Bool(true));
    assert_eq!(value("a1", "isalnum", &[]), Value::Bool(true));
    assert_eq!(value(" \t", "isspace", &[]), Value::Bool(true));
    assert_eq!(value("ab1", "islower", &[]), Value::Bool(true));
    assert_eq!(value("1", "isupper", &[]), Value::Bool(false));
    assert_eq!(value("_a1", "isidentifier", &[]), Value::Bool(true));
    assert_eq!(value("1a", "isidentifier", &[]), Value::Bool(false));
    assert_eq!(value("Hello World", "istitle", &[]), Value::Bool(true));
    assert_eq!(value("é", "isascii", &[]), Value::Bool(false));
    assert!(is_unicode_decimal('٣'));
    assert!(!is_unicode_decimal('²'));
    assert!(is_unicode_digit('²'));
}

#[test]
fn searching_methods() {
    assert_eq!(value("banana", "find", &["na"]), Value::Int(2));
    assert_eq!(value("banana", "find", &["na", "3"]), Value::Int(4));
    assert_eq!(value("banana", "find", &["x"]), Value::Int(-1));
    assert_eq!(value("banana", "rfind", &["na"]), Value::Int(4));
    assert_eq!(value("banana", "index", &["an"]), Value::Int(1));
    assert_eq!(value("banana", "rindex", &["an"]), Value::Int(3));
    assert_eq!(error("banana", "index", &["x"]).0, ExcType::ValueError);
    assert_eq!(error("banana", "index", &["x"]).1, "substring not found");
    assert_eq!(value("banana", "count", &["a"]), Value::Int(3));
    assert_eq!(value("aaa", "count", &[""]), Value::Int(4));
    assert_eq!(value("banana", "startswith", &["ba"]), Value::Bool(true));
    assert_eq!(value("banana", "endswith", &["na", "0", "4"]), Value::Bool(true));
    assert_eq!(value("äöü", "find", &["ü"]), Value::Int(2));
}

#[test]
fn trimming_methods() {
    assert_eq!(text("  a b ", "strip", &[]), "a b");
    assert_eq!(text("xxaxx", "lstrip", &["x"]), "axx");
    assert_eq!(text("xxaxx", "rstrip", &["x"]), "xxa");
    assert_eq!(text("prefix-a", "removeprefix", &["prefix-"]), "a");
    assert_eq!(text("a.py", "removesuffix", &[".py"]), "a");
    assert_eq!(text("a.py", "removesuffix", &[".rs"]), "a.py");
}

#[test]
fn splitting_methods() {
    assert_eq!(pieces("a,b,,c", "split", &[","]), ["a", "b", "", "c"]);
    assert_eq!(pieces("a,b,c", "split", &[",", "1"]), ["a", "b,c"]);
    assert_eq!(pieces("a,b,c", "rsplit", &[",", "1"]), ["a,b", "c"]);
    assert_eq!(pieces("  a  b ", "split", &[]), ["a", "b"]);
    assert_eq!(error("a", "split", &[""]), (ExcType::ValueError, "empty separator".to_owned()));
    assert_eq!(pieces("a\nb\r\nc", "splitlines", &[]), ["a", "b", "c"]);
    assert_eq!(pieces("a=b=c", "partition", &["="]), ["a", "=", "b=c"]);
    assert_eq!(pieces("a=b=c", "rpartition", &["="]), ["a=b", "=", "c"]);
    assert_eq!(pieces("abc", "partition", &["="]), ["abc", "", ""]);
}

#[test]
fn splitting_and_joining_give_the_text_back() {
    for s in ["a,b,,c", "", ",", "no separator"] {
        assert_eq!(pieces(s, "split", &[","]).join(","), s);
    }
    for s in ["a=b=c", "abc", "=", ""] {
        assert_eq!(pieces(s, "partition", &["="]).concat(), s);
        assert_eq!(pieces(s, "rpartition", &["="]).concat(), s);
    }
}

#[test]
fn stripping_twice_changes_nothing_more() {
    for s in ["  a ", "\t\n", "b", ""] {
        let once = text(s, "strip", &[]);
        assert_eq!(text(&once, "strip", &[]), once);
    }
}

#[test]
fn filling_methods() {
    assert_eq!(text("ab", "center", &["7", "*"]), "**ab***");
    assert_eq!(text("ab", "ljust", &["4"]), "ab  ");
    assert_eq!(text("ab", "rjust", &["4", "."]), "..ab");
    assert_eq!(text("-42", "zfill", &["6"]), "-00042");
    assert_eq!(text("a\tbc\td", "expandtabs", &["4"]), "a   bc  d");
    assert_eq!(error("ab", "center", &["7", "**"]).0, ExcType::TypeError);
}

#[test]
fn replacing_and_joining() {
    assert_eq!(text("banana", "replace", &["a", "o"]), "bonono");
    assert_eq!(text("banana", "replace", &["a", "o", "2"]), "bonona");
    assert_eq!(text("abc", "replace", &["", "-"]), "-a-b-c-");
    let mut vm = machine();
    let a = string("aa", &mut vm);
    let b = string("bb", &mut vm);
    let list = Value::Ref(vm.allocate(HeapData::List(List::new(vec![a, b]))).unwrap());
    let args = ArgValues::positional(vec![list]);
    let v = call_str_method(", ", StaticStrings::Join.id(), args, &mut vm).unwrap();
    assert_eq!(v.text(&vm), Some("aa, bb"));
    let list = Value::Ref(vm.allocate(HeapData::List(List::new(vec![Value::Int(1)]))).unwrap());
    let args = ArgValues::positional(vec![list]);
    let e = call_str_method(", ", StaticStrings::Join.id(), args, &mut vm).unwrap_err();
    assert_eq!(e.message, "sequence item 0: expected str instance, int found");
}

#[test]
fn encoding_gives_utf8() {
    let mut vm = machine();
    let v = call("é", "encode", &[], &mut vm).unwrap();
    assert_eq!(v.raw_bytes(&vm), Some(&[0xc3u8, 0xa9][..]));
    assert_eq!(error("é", "encode", &["latin-1"]).0, ExcType::LookupError);
}

#[test]
fn unknown_methods_are_attribute_errors() {
    let (exc, message) = error("a", "nothing", &[]);
    assert_eq!(exc, ExcType::AttributeError);
    assert_eq!(message, "'str' object has no attribute 'nothing'");
}

#[test]
fn wrong_arguments_are_type_errors() {
    assert_eq!(error("a", "upper", &["b"]).0, ExcType::TypeError);
    assert_eq!(error("a", "find", &["1"]).0, ExcType::TypeError);
    assert_eq!(error("a", "find", &[]).0, ExcType::TypeError);
}

#[test]
fn strings_are_shown_with_quotes() {
    assert_eq!(StringRepr("it's").to_text(), "\"it's\"");
    assert_eq!(StringRepr("a'\"b").to_text(), "'a\\'\"b'");
    assert_eq!(StringRepr("tab\t\n\\").to_text(), "'tab\\t\\n\\\\'");
    assert_eq!(StringRepr("\u{1}\u{ad}é").to_text(), "'\\x01\\xadé'");
    assert_eq!(StringRepr("\u{200b}\u{e000}").to_text(), "'\\u200b\\ue000'");
}

#[test]
fn characters_are_found_from_both_ends() {
    assert_eq!(get_char_at_index("añb", 1), Some('ñ'));
    assert_eq!(get_char_at_index("añb", -1), Some('b'));
    assert_eq!(get_char_at_index("añb", 3), None);
}

#[test]
fn short_strings_are_interned() {
    let mut vm = machine();
    assert_eq!(string("a", &mut vm), Value::InternString(monty::intern::StringId(97)));
    assert_eq!(string("", &mut vm), Value::InternString(StaticStrings::EmptyString.id()));
    assert!(matches!(string("é", &mut vm), Value::Ref(_)));
}

#[test]
fn strings_are_sliced() {
    let mut vm = machine();
    let v = string("hällo", &mut vm);
    let slice = HeapData::Slice(Slice::new(None, None, Some(-1)));
    let slice = Value::Ref(vm.allocate(slice).unwrap());
    let r = v.py_getitem(&slice, &mut vm).unwrap().unwrap();
    assert_eq!(r.text(&vm), Some("olläh"));
    let r = v.py_getitem(&Value::Int(-4), &mut vm).unwrap().unwrap();
    assert_eq!(r.text(&vm), Some("ä"));
    let e = v.py_getitem(&Value::Int(9), &mut vm).unwrap_err();
    assert_eq!((e.exc_type, e.message.as_str()), (ExcType::IndexError, "string index out of range"));
}

#[test]
fn values_become_strings() {
    let mut vm = machine();
    match Str::init(&mut vm, ArgValues::positional(vec![Value::Int(-7)])).unwrap() {
        StrMade::Value(v) => assert_eq!(v.text(&vm), Some("-7")),
        other => panic!("{other:?}"),
    }
    match Str::init(&mut vm, ArgValues::empty()).unwrap() {
        StrMade::Value(v) => assert_eq!(v.text(&vm), Some("")),
        other => panic!("{other:?}"),
    }
}

#[test]
fn names_are_compared_by_text() {
    let mut vm = machine();
    let id = vm.interns.intern("unusual");
    let held = EitherStr::from("unusual".to_owned());
    assert!(held.matches(id, &vm.interns));
    assert_eq!(EitherStr::from(id).as_str(&vm.interns), "unusual");
    assert_eq!(EitherStr::from(StaticStrings::Upper).static_string(), Some(StaticStrings::Upper));
    assert_eq!(held.string_id(), None);
}

#[test]
fn characters_that_cannot_be_seen_are_escaped() {
    assert!(repr_needs_escape('\u{200b}'));
    assert!(repr_needs_escape('\u{a0}'));
    assert!(!repr_needs_escape(' '));
    assert!(!repr_needs_escape('é'));
}

#[test]
fn lines_with_ends_give_the_text_back() {
    for s in ["a\nb\r\nc", "\n", "", "no end"] {
        assert_eq!(pieces(s, "splitlines", &["1"]).concat(), s);
    }
}

#[test]
fn splitting_from_the_right_and_joining_give_the_text_back() {
    for s in ["a,b,,c", "", ",", "no separator"] {
        assert_eq!(pieces(s, "rsplit", &[","]).join(","), s);
        assert_eq!(pieces(s, "rsplit", &[",", "1"]).join(","), s);
    }
}

#[test]
fn decimal_digits_are_those_of_the_category() {
    for c in ['0', '٣', '\u{ff19}', '\u{1d7ce}', '\u{1d7ff}', '\u{16a60}', '\u{1e140}'] {
        assert!(is_unicode_decimal(c));
        assert!(is_unicode_digit(c));
    }
    for c in ['a', '²', '½', '\u{1369}', '\u{2469}', '一'] {
        assert!(!is_unicode_decimal(c));
    }
    assert_eq!(value("\u{1d7ce}\u{1d7cf}", "isdecimal", &[]), Value::Bool(true));
}

#[test]
fn digits_need_the_numeric_type() {
    for c in ['²', '₉', '①', '⑨', '\u{24fd}', '\u{24ff}', '❶', '\u{1369}', '\u{19da}', '\u{1f10a}'] {
        assert!(is_unicode_digit(c));
    }
    for c in ['⑩', '\u{2473}', '\u{24fe}', '\u{2789}', '\u{2793}', '\u{1f10b}', '½', '一'] {
        assert!(!is_unicode_digit(c));
    }
    assert!(category_is_decimal("Nd") && !category_is_decimal("No"));
    assert!(category_is_digit('\u{b2}', "No") && !category_is_digit('\u{2469}', "No"));
    assert_eq!(value("①⑩", "isdigit", &[]), Value::Bool(false));
}

#[test]
fn casefolding_goes_beyond_lower_case() {
    for (s, folded) in [
        ("Straße", "strasse"),
        ("ẞ", "ss"),
        ("ΣΑΣ ς", "σασ σ"),
        ("ﬁ", "fi"),
        ("µ", "μ"),
        ("ı", "ı"),
        ("\u{ab70}\u{13a0}", "\u{13a0}\u{13a0}"),
        ("Ἀι ᾳ", "ἀι αι"),
    ] {
        assert_eq!(text(s, "casefold", &[]), folded);
    }
}

#[test]
fn line_breaks_are_kept_for_what_is_true() {
    let mut vm = machine();
    let empty = Value::Ref(vm.allocate(HeapData::List(List::new(vec![]))).unwrap());
    let full = Value::Ref(vm.allocate(HeapData::List(List::new(vec![Value::Int(0)]))).unwrap());
    for (keepends, first) in [(empty, "a"), (full, "a\n"), (Value::Int(0), "a")] {
        let args = ArgValues::positional(vec![keepends]);
        let v = call_str_method("a\nb", StaticStrings::Splitlines.id(), args, &mut vm).unwrap();
        match v {
            Value::Ref(id) => match vm.heap.get(id) {
                HeapData::List(list) => assert_eq!(list.as_slice()[0].text(&vm), Some(first)),
                other => panic!("{other:?}"),
            },
            other => panic!("{other:?}"),
        }
    }
}

#[test]
fn arguments_of_methods_are_dropped() {
    let mut vm = machine();
    let id = match string("needle", &mut vm) {
        Value::Ref(id) => id,
        other => panic!("{other:?}"),
    };
    let args = ArgValues::positional(vec![Value::Ref(id)]);
    let v = call_str_method("a needle", StaticStrings::Find.id(), args, &mut vm).unwrap();
    assert_eq!((v, vm.heap.refs(id)), (Value::Int(2), 0));
    let id = match string("needle", &mut vm) {
        Value::Ref(id) => id,
        other => panic!("{other:?}"),
    };
    let args = ArgValues::positional(vec![Value::Ref(id)]);
    assert!(call_str_method("a", StaticStrings::Upper.id(), args, &mut vm).is_err());
    assert_eq!(vm.heap.refs(id), 0);
}

#[test]
fn the_shown_text_can_be_read_back() {
    for (s, shown) in [
        ("a\\b\n", "'a\\\\b\\n'"),
        ("it's", "\"it's\""),
        ("'\"", "'\\'\"'"),
        ("\u{7f}\u{2028}\u{10ffff}", "'\\x7f\\u2028\\U0010ffff'"),
    ] {
        assert_eq!(StringRepr(s).to_text(), shown);
    }
}
