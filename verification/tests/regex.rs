use monty::args::ArgValues;
use monty::heap::HeapData;
use monty::regex_bounds::{is_modest, tame_template};
use monty::types::re_match::ReMatch;
use monty::types::re_ops::{first_match, list_all_matches, substitute};
use monty::types::re_pattern::{RePattern, DOTALL, IGNORECASE, MULTILINE};
use monty::types::re_template::translate_replacement;
use monty::types::str::allocate_string;
use monty::value::{EitherStr, Value};
use monty::vm::VM;
use monty::ExcType;

fn machine() -> VM {
    VM::new(1000, 1 << 20, 64)
}

fn pattern(text: &str, flags: u16) -> RePattern {
    RePattern::compile(text.to_owned(), flags).unwrap()
}

fn object<'a>(v: &Value, vm: &'a VM) -> &'a ReMatch {
    match v {
        Value::Ref(id) => match vm.heap.get(*id) {
            HeapData::ReMatch(m) => m,
            other => panic!("{other:?}"),
        },
        other => panic!("{other:?}"),
    }
}

fn matched(v: &Value, group: usize, vm: &VM) -> Option<String> {
    let m = object(v, vm);
    m.groups[group].map(|(a, b)| m.text[a..b].to_owned())
}

fn objects(v: &Value, vm: &VM) -> Vec<Vec<Option<(usize, usize)>>> {
    match v {
        Value::Ref(id) => match vm.heap.get(*id) {
            HeapData::List(list) => {
                list.as_slice().iter().map(|x| object(x, vm).groups.clone()).collect()
            }
            other => panic!("{other:?}"),
        },
        other => panic!("{other:?}"),
    }
}

fn texts(v: &Value, vm: &VM) -> Vec<String> {
    match v {
        Value::Ref(id) => match vm.heap.get(*id) {
            HeapData::List(list) => {
                list.as_slice().iter().map(|x| x.text(vm).unwrap().to_owned()).collect()
            }
            HeapData::Tuple(tuple) => {
                tuple.as_slice().iter().map(|x| x.text(vm).unwrap().to_owned()).collect()
            }
            other => panic!("{other:?}"),
        },
        other => panic!("{other:?}"),
    }
}

fn rows(v: &Value, vm: &VM) -> Vec<Vec<String>> {
    match v {
        Value::Ref(id) => match vm.heap.get(*id) {
            HeapData::List(list) => list.as_slice().iter().map(|x| texts(x, vm)).collect(),
            other => panic!("{other:?}"),
        },
        other => panic!("{other:?}"),
    }
}

fn string(text: &str, vm: &mut VM) -> Value {
    allocate_string(text.to_owned(), vm).unwrap()
}

fn call(p: &RePattern, name: &str, args: Vec<Value>, vm: &mut VM) -> monty::RunResult<Value> {
    let id = vm.interns.intern(name);
    p.py_call_attr(&EitherStr::from(id), ArgValues::positional(args), vm)
}

#[test]
fn patterns_that_do_not_compile_are_errors() {
    let e = RePattern::compile("(".to_owned(), 0).unwrap_err();
    assert_eq!(e.exc_type, ExcType::PatternError);
    assert!(e.message.contains("parenthesis"));
}

#[test]
fn searching_finds_the_first_match_anywhere() {
    let mut vm = machine();
    let p = pattern("b+", 0);
    let v = p.search("aabbb", &mut vm).unwrap();
    assert_eq!(object(&v, &vm).groups, vec![Some((2, 5))]);
    assert_eq!(object(&v, &vm).pattern, "b+");
    assert_eq!(p.search("ccc", &mut vm).unwrap(), Value::PyNone);
}

#[test]
fn matching_is_anchored_at_the_start() {
    let mut vm = machine();
    let p = pattern("b|ab", 0);
    let v = p.match_start("ab", &mut vm).unwrap();
    assert_eq!(matched(&v, 0, &vm).unwrap(), "ab");
    assert_eq!(pattern("b", 0).match_start("ab", &mut vm).unwrap(), Value::PyNone);
    assert_eq!(pattern("^b", MULTILINE).match_start("a\nb", &mut vm).unwrap(), Value::PyNone);
    assert_ne!(pattern("^b", MULTILINE).search("a\nb", &mut vm).unwrap(), Value::PyNone);
}

#[test]
fn full_matches_try_all_alternatives() {
    let mut vm = machine();
    let p = pattern("a|ab", 0);
    let v = p.fullmatch("ab", &mut vm).unwrap();
    assert_eq!(matched(&v, 0, &vm).unwrap(), "ab");
    assert_eq!(p.fullmatch("abc", &mut vm).unwrap(), Value::PyNone);
}

#[test]
fn flags_are_handed_to_the_engine() {
    let mut vm = machine();
    assert_eq!(pattern("abc", 0).search("ABC", &mut vm).unwrap(), Value::PyNone);
    assert_ne!(pattern("abc", IGNORECASE).search("ABC", &mut vm).unwrap(), Value::PyNone);
    assert_eq!(pattern("a.b", 0).search("a\nb", &mut vm).unwrap(), Value::PyNone);
    assert_ne!(pattern("a.b", DOTALL).search("a\nb", &mut vm).unwrap(), Value::PyNone);
}

#[test]
fn matches_are_objects_in_the_heap() {
    let mut vm = machine();
    let v = pattern("é(b)?", 0).search("aéc", &mut vm).unwrap();
    assert_eq!(object(&v, &vm).groups, vec![Some((1, 3)), None]);
    assert_eq!(v.py_type(&vm).as_str(), "re.Match");
    let mut out: Vec<char> = Vec::new();
    object(&v, &vm).py_repr_fmt(&mut out);
    let shown: String = out.into_iter().collect();
    assert_eq!(shown, "<re.Match object; span=(1, 2), match='é'>");
    let mut full = VM::new(0, 1 << 20, 64);
    assert_eq!(pattern("a", 0).search("a", &mut full).unwrap_err().exc_type, ExcType::MemoryError);
    assert_eq!(pattern("a", 0).search("b", &mut full).unwrap(), Value::PyNone);
    let mut tight = VM::new(4, 1 << 20, 64);
    let e = pattern("a", 0).finditer("aa", &mut tight).unwrap_err();
    assert_eq!(e.exc_type, ExcType::MemoryError);
    let mut enough = VM::new(4, 1 << 20, 64);
    let v = pattern("a", 0).finditer("a", &mut enough).unwrap();
    assert_eq!(objects(&v, &enough), vec![vec![Some((0, 1))]]);
}

#[test]
fn what_was_found_becomes_matches() {
    let mut vm = machine();
    let v = first_match(Ok(Some(vec![Some((0, 1)), None])), "(a)", "ab", &mut vm).unwrap();
    assert_eq!(object(&v, &vm).groups, vec![Some((0, 1)), None]);
    assert_eq!(first_match(Ok(None), "(a)", "ab", &mut vm).unwrap(), Value::PyNone);
    let e = first_match(Err("limit".to_owned()), "(a)", "ab", &mut vm).unwrap_err();
    assert_eq!((e.exc_type, e.message.as_str()), (ExcType::PatternError, "limit"));
    let found = vec![Ok(vec![Some((0, 1))]), Ok(vec![Some((2, 3))])];
    let v = list_all_matches(&found, "a", "aba", &mut vm).unwrap();
    assert_eq!(objects(&v, &vm), vec![vec![Some((0, 1))], vec![Some((2, 3))]]);
    let found = vec![Ok(vec![Some((0, 1))]), Err("limit".to_owned())];
    let e = list_all_matches(&found, "a", "aba", &mut vm).unwrap_err();
    assert_eq!((e.exc_type, e.message.as_str()), (ExcType::PatternError, "limit"));
}

#[test]
fn findall_gives_texts_or_tuples() {
    let mut vm = machine();
    let v = pattern("\\d+", 0).findall("1 22 333", &mut vm).unwrap();
    assert_eq!(texts(&v, &vm), ["1", "22", "333"]);
    let v = pattern("(\\w)=", 0).findall("a=1 b=2", &mut vm).unwrap();
    assert_eq!(texts(&v, &vm), ["a", "b"]);
    let v = pattern("(\\w)=(\\d)?", 0).findall("a=1 b=", &mut vm).unwrap();
    assert_eq!(rows(&v, &vm), [["a", "1"], ["b", ""]]);
    let v = pattern("é+", 0).findall("aéé bé", &mut vm).unwrap();
    assert_eq!(texts(&v, &vm), ["éé", "é"]);
    let v = pattern("x", 0).findall("abc", &mut vm).unwrap();
    assert!(texts(&v, &vm).is_empty());
}

#[test]
fn substitution_replaces_all_or_some() {
    let mut vm = machine();
    let p = pattern("(\\w)(\\d)", 0);
    let v = p.sub("\\2\\g<1>-", "a1 b2 c3", 0, &mut vm).unwrap();
    assert_eq!(v.text(&vm), Some("1a- 2b- 3c-"));
    let v = p.sub("$", "a1 b2 c3", 2, &mut vm).unwrap();
    assert_eq!(v.text(&vm), Some("$ $ c3"));
    let v = p.sub("x", "none here", 0, &mut vm).unwrap();
    assert_eq!(v.text(&vm), Some("none here"));
    let v = pattern("ü", 0).sub("u", "über ü", 0, &mut vm).unwrap();
    assert_eq!(v.text(&vm), Some("uber u"));
}

#[test]
fn substitution_stops_at_the_size_limit() {
    let mut vm = VM::new(100, 20, 64);
    let e = pattern("a", 0).sub("0123456789", "aaa", 0, &mut vm).unwrap_err();
    assert_eq!(e.exc_type, ExcType::MemoryError);
}

#[test]
fn substitution_follows_what_was_found() {
    let mut vm = machine();
    let found = vec![Ok((1, 2, "<b>".to_owned())), Ok((3, 3, "!".to_owned()))];
    let v = substitute("abcd", &found, 0, &mut vm).unwrap();
    assert_eq!(v.text(&vm), Some("a<b>c!d"));
    let v = substitute("abcd", &found, 1, &mut vm).unwrap();
    assert_eq!(v.text(&vm), Some("a<b>cd"));
    let v = substitute("abcd", &found, 9, &mut vm).unwrap();
    assert_eq!(v.text(&vm), Some("a<b>c!d"));
    let found = vec![Ok((0, 1, "x".to_owned())), Err("limit".to_owned())];
    let e = substitute("abcd", &found, 0, &mut vm).unwrap_err();
    assert_eq!((e.exc_type, e.message.as_str()), (ExcType::PatternError, "limit"));
    let v = substitute("abcd", &found, 1, &mut vm).unwrap();
    assert_eq!(v.text(&vm), Some("xbcd"));
}

#[test]
fn splitting_gives_the_pieces_between() {
    let mut vm = machine();
    let p = pattern(",\\s*", 0);
    let v = p.split("a, b,c", 0, &mut vm).unwrap();
    assert_eq!(texts(&v, &vm), ["a", "b", "c"]);
    let v = p.split("a, b,c", 1, &mut vm).unwrap();
    assert_eq!(texts(&v, &vm), ["a", "b,c"]);
}

#[test]
fn all_matches_are_given_in_order() {
    let mut vm = machine();
    let v = pattern("\\d", 0).finditer("1a2", &mut vm).unwrap();
    assert_eq!(objects(&v, &vm), vec![vec![Some((0, 1))], vec![Some((2, 3))]]);
}

#[test]
fn engine_errors_are_pattern_errors() {
    let text = "ab".repeat(28) + "cd";
    let e = pattern("(a|b|ab)*(?>c)(?!d)", 0).search(&text, &mut machine()).unwrap_err();
    assert_eq!(e.exc_type, ExcType::PatternError);
}

#[test]
fn templates_are_translated() {
    assert_eq!(translate_replacement("plain"), "plain");
    assert_eq!(translate_replacement("\\1-\\g<name>-\\g<2>"), "$1-${name}-${2}");
    assert_eq!(translate_replacement("a\\\\b$"), "a\\b$$");
    assert_eq!(translate_replacement("\\g\\n"), "\\g\\n");
    assert_eq!(translate_replacement("x\\g<open"), "x\\g<open");
    assert_eq!(translate_replacement("end\\"), "end\\");
}

#[test]
fn searches_that_would_not_end_are_known() {
    assert!(pattern("a\\Kb", 0).settles());
    assert!(!pattern("(?<=\\Ka)", 0).settles());
    assert!(!pattern("(?<k>\\Ka){0}(?<=\\g<k>)", 0).settles());
    let engine = fancy_regex::Regex::new("(?<=\\Ka)").unwrap();
    assert_eq!(engine.find_iter("ab").take(9).count(), 9);
    let mut vm = machine();
    let v = pattern("(?<=\\Ka)", 0).search("ab", &mut vm).unwrap();
    assert_eq!(matched(&v, 0, &vm).unwrap(), "a");
}

#[test]
fn lookaheads_may_keep_text_out() {
    let mut vm = machine();
    let kept = pattern("(?=a)a\\Kb", 0);
    assert!(kept.settles());
    let v = kept.findall("abc abd ab", &mut vm).unwrap();
    assert_eq!(texts(&v, &vm), ["b", "b", "b"]);
    let v = pattern("(?=a\\K)", 0).findall("aa", &mut vm).unwrap();
    assert_eq!(texts(&v, &vm), ["", ""]);
}

#[test]
fn large_numbers_in_patterns_are_refused() {
    for text in [
        "(?:ab){9223372036854775808}",
        "(a)\\k<-9223372036854775808>",
        "(?:(?:a{9999}){9999}){9999}",
        "(a)\\12345678901",
        "(?x)a{ 12345678901 }",
        "a{2,12345678901}",
    ] {
        let e = RePattern::compile(text.to_owned(), 0).unwrap_err();
        assert_eq!(e.exc_type, ExcType::PatternError);
        assert_eq!(e.message, "the numbers in the pattern are too large");
    }
    assert!(!is_modest("(?:ab){2147483648}"));
}

#[test]
fn ordinary_numbers_in_patterns_are_fine() {
    for text in [
        "(?:[0-9a-f]{1,4}:){7}[0-9a-f]{1,4}",
        "[0-9a-f]{8}-[0-9a-f]{4}-[0-9a-f]{4}-[0-9a-f]{4}-[0-9a-f]{12}",
        ".{10}.{20}.{30}.{40}.{50}.{60}.{70}.{80}.{90}.{99}",
        "(\\d{3})-\\1",
        "12345678901234567890\\d{2}",
        "(?<n>\\w)(?<=a)",
    ] {
        assert!(is_modest(text));
        pattern(text, 0);
    }
    let mut vm = machine();
    let v = pattern("(?:\\d{2}:){2}\\d{2}", 0).findall("at 12:34:56", &mut vm).unwrap();
    assert_eq!(texts(&v, &vm), ["12:34:56"]);
}

#[test]
fn groups_that_cannot_exist_are_replaced_by_nothing() {
    let mut vm = machine();
    for p in [pattern("a(?!b)", 0), pattern("a", 0)] {
        for template in ["[\\g<9223372036854775808>]", "[\\12345678901]", "[\\g<7>]"] {
            let v = p.sub(template, "a", 0, &mut vm).unwrap();
            assert_eq!(v.text(&vm), Some("[]"));
        }
        let v = p.sub("$12345678901", "a", 0, &mut vm).unwrap();
        assert_eq!(v.text(&vm), Some("$12345678901"));
        let v = p.sub("\\g<00000000000>", "a", 0, &mut vm).unwrap();
        assert_eq!(v.text(&vm), Some("a"));
    }
    for same in ["$$12345678901 ${x} ${1}", "${12345678901", "${12345678901 x}", "$12345678901x"] {
        assert_eq!(tame_template(same), same);
    }
    assert_eq!(tame_template("${12345678901}-$$$9999999999."), "${___________}-$$$__________.");
}

#[test]
fn references_and_calls_are_no_obstacle() {
    let mut vm = machine();
    let text = "(a)".to_owned() + &"\\1".repeat(40) + "b{2}";
    let v = pattern(&text, 0).search(&("a".repeat(41) + "bb"), &mut vm).unwrap();
    assert_eq!(matched(&v, 0, &vm).unwrap().len(), 43);
    let text = "(?<n>\\d)-\\g<n>-\\g<n>x{2}";
    let v = pattern(text, 0).search("1-2-3xx", &mut vm).unwrap();
    assert_eq!(matched(&v, 0, &vm).unwrap(), "1-2-3xx");
    let text = "(\\w)".to_owned() + &"\\1".repeat(31) + "(?:ab){2}";
    assert!(is_modest(&text));
    assert!(is_modest("(?<n>ab)(?:\\g<n>){3}"));
}

#[test]
fn closed_lookbehinds_do_not_matter() {
    let mut vm = machine();
    let p = pattern("(?<=a)b\\Kc", 0);
    assert!(p.settles());
    let v = p.findall("abc abc", &mut vm).unwrap();
    assert_eq!(texts(&v, &vm), ["c", "c"]);
    assert!(pattern("(?<=(a)\\()b\\K", 0).settles());
    assert!(!pattern("(?<=\\)\\Ka)", 0).settles());
    assert!(!pattern("(?<=[)]\\Ka)", 0).settles());
    assert!(!pattern("(?<=(?:a)\\Kb)", 0).settles());
}

#[test]
fn methods_check_their_arguments() {
    let mut vm = machine();
    let p = pattern("a", 0);
    let text = string("banana", &mut vm);
    let v = call(&p, "search", vec![text.clone_with_heap(&mut vm)], &mut vm).unwrap();
    assert_eq!(object(&v, &vm).groups, vec![Some((1, 2))]);
    let v = call(&p, "finditer", vec![text.clone_with_heap(&mut vm)], &mut vm).unwrap();
    assert_eq!(objects(&v, &vm).len(), 3);
    let e = call(&p, "match", vec![], &mut vm).unwrap_err();
    assert_eq!(e.message, "Pattern.match() takes exactly one argument (0 given)");
    let e = call(&p, "fullmatch", vec![Value::Int(1)], &mut vm).unwrap_err();
    assert_eq!(e.message, "expected string, not int");
    let e = call(&p, "nothing", vec![], &mut vm).unwrap_err();
    assert_eq!(e.exc_type, ExcType::AttributeError);
    let repl = string("oo", &mut vm);
    let args = vec![repl.clone_with_heap(&mut vm), text.clone_with_heap(&mut vm), Value::Int(2)];
    let v = call(&p, "sub", args, &mut vm).unwrap();
    assert_eq!(v.text(&vm), Some("boonoona"));
    let args = vec![repl.clone_with_heap(&mut vm), text.clone_with_heap(&mut vm), Value::Int(-1)];
    let v = call(&p, "sub", args, &mut vm).unwrap();
    assert_eq!(v, text);
    let args = vec![Value::Int(3), text.clone_with_heap(&mut vm)];
    let e = call(&p, "sub", args, &mut vm).unwrap_err();
    assert_eq!(e.message, "callable replacement is not yet supported in re.sub()");
    let args = vec![text.clone_with_heap(&mut vm), Value::PyNone];
    let e = call(&p, "split", args, &mut vm).unwrap_err();
    assert_eq!(e.message, "expected int for maxsplit, not NoneType");
    let e = call(&p, "split", vec![], &mut vm).unwrap_err();
    assert_eq!(e.message, "split() missing required argument 'string' (pos 1)");
}

#[test]
fn patterns_show_their_flags() {
    let mut out: Vec<char> = Vec::new();
    pattern("a'b", IGNORECASE | DOTALL).py_repr_fmt(&mut out);
    let shown: String = out.into_iter().collect();
    assert_eq!(shown, "re.compile(\"a'b\", re.IGNORECASE|re.DOTALL)");
}
