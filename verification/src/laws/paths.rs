//! What paths are made of.

use vstd::prelude::*;

use crate::args::ArgValues;
use crate::call::CallResult;
use crate::exception::RunResult;
use crate::heap::{HeapData, HeapId};
use crate::intern::StaticStrings;
use crate::laws::date_methods::value_of;
use crate::laws::results::{
    lemma_consumed, lemma_object_given, lemma_string_given, lemma_texts_given, texts_are,
    tuple_items,
};
use crate::text::{join_char, last_pos, lemma_last_pos, lemma_last_pos_unique, split_char};
use crate::types::file_ops::as_value;
use crate::types::path::{
    are_segments, joined, kept_segment, lemma_path_text, lemma_stem_and_suffix, name_of,
    normalized, parent_of, parts_of, path_text, renamed, stem_of, suffix_of, Path,
};
use crate::types::path_ops::{
    held_path, joined_from, path_call, path_call_done, path_made, path_of_args,
};
use crate::value::{EitherStr, Value};
use crate::value_attr::attr_done;
use crate::vm::VM;

verus! {

/// The text of a path.
pub open spec fn path_at(vm: VM, v: Value) -> Option<Seq<char>> {
    match vm.data_of(v) {
        Some(HeapData::Path(path)) => Some(path@),
        _ => None,
    }
}

/// A path that was made has its text.
proof fn lemma_path_given(before: VM, after: VM, r: RunResult<Value>, text: Seq<char>)
    requires
        held_path(before, after, r, text),
        r is Ok,
    ensures
        path_at(after, r->Ok_0) == Some(text),
        after.ok(r->Ok_0),
{
    let path = choose|path: Path|
        #![trigger crate::outcome::object_result(before, after, r, HeapData::Path(path))]
        path@ == text && crate::outcome::object_result(before, after, r, HeapData::Path(path));
    lemma_object_given(before, after, r, HeapData::Path(path));
}

proof fn lemma_names_of_attributes()
    ensures
        "name"@ != "parent"@,
        "name"@ != "stem"@,
        "name"@ != "suffix"@,
        "name"@ != "parts"@,
        "parent"@ != "stem"@,
        "parent"@ != "suffix"@,
        "parent"@ != "parts"@,
        "stem"@ != "suffix"@,
        "stem"@ != "parts"@,
        "suffix"@ != "parts"@,
        "suffixes"@ != "parts"@,
{
    reveal_strlit("name");
    reveal_strlit("parent");
    reveal_strlit("stem");
    reveal_strlit("suffix");
    reveal_strlit("suffixes");
    reveal_strlit("parts");
    assert("name"@[0] == 'n' && "stem"@[0] == 's');
    assert("parent"@[0] == 'p' && "suffix"@[0] == 's');
    assert("name"@.len() == 4 && "parent"@.len() == 6 && "stem"@.len() == 4 && "suffix"@.len() == 6
        && "suffixes"@.len() == 8 && "parts"@.len() == 5);
}

/// Where the last slash of a path of segments is.
proof fn lemma_last_slash(root: bool, kept: Seq<Seq<char>>)
    requires
        are_segments(kept),
        kept.len() > 0,
    ensures
        name_of(path_text(root, kept)) == kept.last(),
        parent_of(path_text(root, kept)) == Some(
            if kept.len() > 1 {
                path_text(root, kept.drop_last())
            } else if root {
                seq!['/']
            } else {
                seq!['.']
            },
        ),
{
    let p = path_text(root, kept);
    let last = kept.last();
    let front = p.len() - last.len();
    assert(!last.contains('/') && kept_segment(last));
    assert(forall|j: int| 0 <= j < last.len() ==> last.contains(#[trigger] last[j]));
    if kept.len() > 1 {
        let head = path_text(root, kept.drop_last());
        assert(p =~= head.push('/') + last);
        lemma_path_text(root, kept.drop_last());
        assert forall|j: int| front - 1 < j < p.len() implies p[j] != '/' by {
            assert(p[j] == last[j - front]);
        }
        lemma_last_pos_unique(p, '/', front - 1);
        assert(p.take(front - 1) =~= head);
        assert(p.skip(front) =~= last);
        if p == seq!['/'] {
            assert(p.len() == 1);
        }
    } else if root {
        assert(p =~= seq!['/'] + last);
        assert forall|j: int| 0 < j < p.len() implies p[j] != '/' by {
            assert(p[j] == last[j - 1]);
        }
        lemma_last_pos_unique(p, '/', 0);
        assert(p.skip(1) =~= last);
        if p == seq!['/'] {
            assert(p.len() == 1);
        }
    } else {
        assert(p =~= last);
        lemma_last_pos(p, '/');
        assert(p.skip(0) =~= last);
        if p == seq!['/'] {
            assert(last.contains('/'));
        }
    }
}

/// The name of a path is its last segment.
pub proof fn lemma_path_name(
    before: VM,
    after: VM,
    v: Value,
    root: bool,
    kept: Seq<Seq<char>>,
    attr: EitherStr,
    r: RunResult<CallResult>,
)
    requires
        before.wf(),
        are_segments(kept),
        kept.len() > 0,
        path_at(before, v) == Some(path_text(root, kept)),
        attr.text(before.interns) == "name"@,
        attr_done(before, after, r, v, attr),
        r is Ok,
    ensures
        value_of(r) matches Some(w) && after.text_of(w) == Some(kept.last()),
{
    lemma_last_slash(root, kept);
    lemma_string_given(before, after, as_value(r)->0, kept.last());
}

/// The parent of a path is the path of all segments but the last; that of one segment
/// is the root, or `.` where it does not start at the root.
pub proof fn lemma_path_parent(
    before: VM,
    after: VM,
    v: Value,
    root: bool,
    kept: Seq<Seq<char>>,
    attr: EitherStr,
    r: RunResult<CallResult>,
)
    requires
        are_segments(kept),
        kept.len() > 0,
        path_at(before, v) == Some(path_text(root, kept)),
        attr.text(before.interns) == "parent"@,
        attr_done(before, after, r, v, attr),
        r is Ok,
    ensures
        kept.len() > 1 ==> (value_of(r) matches Some(w) && path_at(after, w) == Some(
            path_text(root, kept.drop_last()),
        )),
        kept.len() == 1 ==> (value_of(r) matches Some(w) && path_at(after, w) == Some(
            normalized(
                if root {
                    seq!['/']
                } else {
                    seq!['.']
                },
            ),
        )),
{
    lemma_names_of_attributes();
    lemma_last_slash(root, kept);
    let made = normalized(parent_of(path_text(root, kept))->0);
    lemma_path_given(before, after, as_value(r)->0, made);
    if kept.len() > 1 {
        lemma_path_text(root, kept.drop_last());
    }
}

/// The stem and the suffix of a path together are its name; the suffix is empty or
/// starts with the only dot in it.
pub proof fn lemma_path_stem_and_suffix(
    before: VM,
    v: Value,
    p: Seq<char>,
    root: bool,
    kept: Seq<Seq<char>>,
    stem: EitherStr,
    suffix: EitherStr,
    v1: VM,
    r: RunResult<CallResult>,
    v2: VM,
    s: RunResult<CallResult>,
)
    requires
        before.wf(),
        are_segments(kept),
        kept.len() > 0,
        p == path_text(root, kept),
        path_at(before, v) == Some(p),
        stem.text(before.interns) == "stem"@,
        suffix.text(before.interns) == "suffix"@,
        attr_done(before, v1, r, v, stem),
        attr_done(before, v2, s, v, suffix),
        r is Ok,
        s is Ok,
    ensures
        value_of(r) matches Some(a) && value_of(s) matches Some(b) && v1.text_of(a) matches Some(x)
            && v2.text_of(b) matches Some(y) && {
            &&& x + y == kept.last()
            &&& y.len() > 0 ==> y[0] == '.' && !y.skip(1).contains('.') && x.len() > 0
            &&& y.len() == 0 && kept.last().len() > 1 ==> !kept.last().skip(1).contains('.')
        },
{
    lemma_names_of_attributes();
    lemma_last_slash(root, kept);
    lemma_stem_and_suffix(p);
    lemma_string_given(before, v1, as_value(r)->0, stem_of(p));
    lemma_string_given(before, v2, as_value(s)->0, suffix_of(p));
    let name = name_of(p);
    let y = suffix_of(p);
    let i = last_pos(name, '.');
    lemma_last_pos(name, '.');
    if y.len() > 0 {
        assert(y =~= name.skip(i));
        assert forall|k: int| 0 <= k < y.skip(1).len() implies y.skip(1)[k] != '.' by {
            assert(y.skip(1)[k] == name[i + 1 + k]);
        }
        if i == 0 {
            assert forall|k: int| 0 <= k < name.skip(1).len() implies name.skip(1)[k] != '.' by {
                assert(name.skip(1)[k] == name[k + 1]);
            }
            assert(plain(name));
        }
    } else if name.len() > 1 && name.skip(1).contains('.') {
        let k = choose|k: int| 0 <= k < name.skip(1).len() && name.skip(1)[k] == '.';
        assert(name[k + 1] == '.');
        assert(name.contains('.'));
        assert(name.skip(i).len() > 0);
    }
}

/// Whether a name starts with its only dot.
pub open spec fn plain(name: Seq<char>) -> bool {
    crate::types::path::plain_dotfile(name)
}

proof fn lemma_nonempty_all(kept: Seq<Seq<char>>)
    requires
        are_segments(kept),
    ensures
        kept.filter(|piece: Seq<char>| piece.len() > 0) == kept,
    decreases kept.len(),
{
    reveal(Seq::filter);
    if kept.len() > 0 {
        assert(kept_segment(kept.last()));
        assert forall|i: int| 0 <= i < kept.drop_last().len() implies kept_segment(
            #[trigger] kept.drop_last()[i],
        ) && !kept.drop_last()[i].contains('/') && !kept.drop_last()[i].contains('\\') by {
            assert(kept.drop_last()[i] == kept[i]);
        }
        lemma_nonempty_all(kept.drop_last());
        assert(kept.drop_last().push(kept.last()) =~= kept);
    } else {
        assert(kept.filter(|piece: Seq<char>| piece.len() > 0) =~= kept);
    }
}

/// The parts of a path are its segments, after the root where it starts there.
pub proof fn lemma_path_parts(
    before: VM,
    after: VM,
    v: Value,
    root: bool,
    kept: Seq<Seq<char>>,
    attr: EitherStr,
    r: RunResult<CallResult>,
)
    requires
        before.wf(),
        are_segments(kept),
        kept.len() > 0,
        path_at(before, v) == Some(path_text(root, kept)),
        attr.text(before.interns) == "parts"@,
        attr_done(before, after, r, v, attr),
        r is Ok,
    ensures
        value_of(r) matches Some(w) && tuple_items(after, w) matches Some(vs) && texts_are(
            after,
            vs,
            if root {
                seq![seq!['/']] + kept
            } else {
                kept
            },
        ),
{
    lemma_names_of_attributes();
    let p = path_text(root, kept);
    lemma_path_text(root, kept);
    lemma_nonempty_all(kept);
    let all = parts_of(p);
    if root {
        assert(p.skip(1) =~= join_char(kept, '/'));
    }
    assert(all.len() > 0);
    crate::laws::results::lemma_bounded(after);
    lemma_texts_given(before, after, all);
}

/// A path is absolute exactly when it starts at the root.
pub proof fn lemma_path_absolute(
    before: VM,
    after: VM,
    id: HeapId,
    p: Seq<char>,
    attr: EitherStr,
    args: ArgValues,
    r: RunResult<CallResult>,
)
    requires
        args.just(0),
        !crate::types::path_host::asks_host(attr.text(before.interns)),
        attr.well_known() == Some(StaticStrings::IsAbsolute),
        path_call_done(before, after, r, id, p, args, path_call(before, p, attr, args)),
    ensures
        value_of(r) == Some(Value::Bool(p.len() > 0 && p[0] == '/')),
{
}

/// One more run of segments at the end of a path.
proof fn lemma_join_more(a: Seq<Seq<char>>, b: Seq<Seq<char>>)
    requires
        a.len() > 0,
        b.len() > 0,
    ensures
        join_char(a + b, '/') == join_char(a, '/').push('/') + join_char(b, '/'),
    decreases b.len(),
{
    let whole = a + b;
    assert(whole.drop_last() =~= a + b.drop_last());
    assert(whole.last() == b.last());
    if b.len() > 1 {
        lemma_join_more(a, b.drop_last());
        assert(join_char(whole, '/') =~= join_char(a, '/').push('/') + join_char(b, '/'));
    } else {
        assert(whole.drop_last() =~= a);
        assert(join_char(whole, '/') =~= join_char(a, '/').push('/') + join_char(b, '/'));
    }
}

proof fn lemma_joined(root: bool, kept: Seq<Seq<char>>, more: Seq<Seq<char>>)
    requires
        are_segments(kept),
        are_segments(more),
        kept.len() > 0,
        more.len() > 0,
    ensures
        joined(path_text(root, kept), path_text(false, more)) == path_text(root, kept + more),
        joined(path_text(root, kept), path_text(true, more)) == path_text(true, more),
{
    let p = path_text(root, kept);
    lemma_path_text(root, kept);
    lemma_path_text(false, more);
    lemma_path_text(true, more);
    assert forall|i: int| 0 <= i < (kept + more).len() implies kept_segment(
        #[trigger] (kept + more)[i],
    ) && !(kept + more)[i].contains('/') && !(kept + more)[i].contains('\\') by {
        if i < kept.len() {
            assert((kept + more)[i] == kept[i]);
        } else {
            assert((kept + more)[i] == more[i - kept.len()]);
        }
    }
    lemma_path_text(root, kept + more);
    lemma_join_more(kept, more);
    assert(p.push('/') + path_text(false, more) =~= path_text(root, kept + more));
    if p == seq!['.'] {
        assert(!root);
        assert(kept == seq![seq!['.']]) by {
            assert(split_char(join_char(kept, '/'), '/') == kept);
            assert(!p.contains('/')) by {
                assert(p.len() == 1 && p[0] == '.');
            }
            crate::text::lemma_split_whole(p, '/');
        }
        assert(kept_segment(kept[0]));
    }
}

/// `joinpath` with a path that does not start at the root puts its segments after
/// those of the path; one that does takes its place.
pub proof fn lemma_path_join(
    before: VM,
    mid: VM,
    after: VM,
    id: HeapId,
    root: bool,
    kept: Seq<Seq<char>>,
    again: bool,
    more: Seq<Seq<char>>,
    attr: EitherStr,
    args: ArgValues,
    r: RunResult<CallResult>,
)
    requires
        are_segments(kept),
        are_segments(more),
        kept.len() > 0,
        more.len() > 0,
        args.just(1),
        before.text_of(args.pos@[0]) == Some(path_text(again, more)) || path_at(
            before,
            args.pos@[0],
        ) == Some(path_text(again, more)),
        attr is Interned,
        !crate::types::path_host::asks_host(attr.text(before.interns)),
        attr.well_known() == Some(StaticStrings::Joinpath),
        args.consumed(mid, after),
        path_call_done(
            before,
            mid,
            r,
            id,
            path_text(root, kept),
            args,
            path_call(before, path_text(root, kept), attr, args),
        ),
        r is Ok,
    ensures
        value_of(r) matches Some(w) && path_at(after, w) == Some(
            if again {
                path_text(true, more)
            } else {
                path_text(root, kept + more)
            },
        ),
{
    let p = path_text(root, kept);
    lemma_joined(root, kept, more);
    let made = if again {
        path_text(true, more)
    } else {
        path_text(root, kept + more)
    };
    crate::types::path::lemma_normalized_idempotent(
        if again {
            path_text(true, more)
        } else {
            p.push('/') + path_text(false, more)
        },
    );
    lemma_join_normal(root, kept, more);
    reveal_with_fuel(joined_from, 2);
    assert(joined_from(before, p, args.pos@, 0) == Ok::<Seq<char>, crate::args::Raised>(made));
    lemma_path_given(before, mid, as_value(r)->0, made);
    lemma_consumed(args, mid, after);
}

proof fn lemma_join_normal(root: bool, kept: Seq<Seq<char>>, more: Seq<Seq<char>>)
    requires
        are_segments(kept),
        are_segments(more),
        kept.len() > 0,
        more.len() > 0,
    ensures
        normalized(path_text(root, kept + more)) == path_text(root, kept + more),
        normalized(path_text(true, more)) == path_text(true, more),
{
    lemma_path_text(true, more);
    assert forall|i: int| 0 <= i < (kept + more).len() implies kept_segment(
        #[trigger] (kept + more)[i],
    ) && !(kept + more)[i].contains('/') && !(kept + more)[i].contains('\\') by {
        if i < kept.len() {
            assert((kept + more)[i] == kept[i]);
        } else {
            assert((kept + more)[i] == more[i - kept.len()]);
        }
    }
    lemma_path_text(root, kept + more);
}

/// `path / other` is the path joined with a text or another path.
pub proof fn lemma_path_quotient(
    before: VM,
    after: VM,
    a: Value,
    b: Value,
    root: bool,
    kept: Seq<Seq<char>>,
    again: bool,
    more: Seq<Seq<char>>,
    r: RunResult<crate::arith::Arith>,
)
    requires
        are_segments(kept),
        are_segments(more),
        kept.len() > 0,
        more.len() > 0,
        path_at(before, a) == Some(path_text(root, kept)),
        before.text_of(b) == Some(path_text(again, more)) || path_at(before, b) == Some(
            path_text(again, more),
        ),
        crate::arith::computed(
            before,
            after,
            r,
            crate::value_div::quotient_of(before, a, b),
        ),
        r is Ok,
    ensures
        crate::laws::dates::value_done(r) matches Some(w) && path_at(after, w) == Some(
            if again {
                path_text(true, more)
            } else {
                path_text(root, kept + more)
            },
        ),
{
    lemma_joined(root, kept, more);
    lemma_join_normal(root, kept, more);
    let v = crate::arith::as_done(r)->0;
    let text = joined(path_text(root, kept), path_text(again, more));
    let path = choose|path: Path|
        #![trigger crate::outcome::object_result(before, after, v, HeapData::Path(path))]
        path@ == normalized(text) && crate::outcome::object_result(
            before,
            after,
            v,
            HeapData::Path(path),
        );
    lemma_object_given(before, after, v, HeapData::Path(path));
}

/// `as_posix` and `__fspath__` give the text of a path.
pub proof fn lemma_path_text_given(
    before: VM,
    mid: VM,
    after: VM,
    id: HeapId,
    p: Seq<char>,
    attr: EitherStr,
    args: ArgValues,
    r: RunResult<CallResult>,
)
    requires
        before.wf(),
        args.just(0),
        attr is Interned,
        !crate::types::path_host::asks_host(attr.text(before.interns)),
        attr.well_known() == Some(StaticStrings::AsPosix) || attr.well_known() == Some(
            StaticStrings::Fspath,
        ),
        args.consumed(mid, after),
        path_call_done(before, mid, r, id, p, args, path_call(before, p, attr, args)),
        r is Ok,
    ensures
        value_of(r) matches Some(w) && after.text_of(w) == Some(p),
{
    lemma_string_given(before, mid, as_value(r)->0, p);
    lemma_consumed(args, mid, after);
}

/// `with_suffix` with a suffix that starts with a dot, and `with_stem`, give the path
/// with a last segment that keeps its stem or its suffix.
pub proof fn lemma_path_with_suffix_or_stem(
    before: VM,
    mid: VM,
    after: VM,
    id: HeapId,
    root: bool,
    kept: Seq<Seq<char>>,
    text: Seq<char>,
    suffix: bool,
    attr: EitherStr,
    args: ArgValues,
    r: RunResult<CallResult>,
)
    requires
        are_segments(kept),
        kept.len() > 0,
        text.len() > 0,
        suffix ==> text[0] == '.',
        are_segments(
            seq![
                if suffix {
                    stem_of(path_text(root, kept)) + text
                } else {
                    text + suffix_of(path_text(root, kept))
                },
            ],
        ),
        args.just(1),
        before.text_of(args.pos@[0]) == Some(text),
        attr is Interned,
        !crate::types::path_host::asks_host(attr.text(before.interns)),
        attr.well_known() == Some(
            if suffix {
                StaticStrings::WithSuffix
            } else {
                StaticStrings::WithStem
            },
        ),
        args.consumed(mid, after),
        path_call_done(
            before,
            mid,
            r,
            id,
            path_text(root, kept),
            args,
            path_call(before, path_text(root, kept), attr, args),
        ),
        r is Ok,
    ensures
        stem_of(path_text(root, kept)) + suffix_of(path_text(root, kept)) == kept.last(),
        value_of(r) matches Some(w) && path_at(after, w) == Some(
            path_text(
                root,
                kept.update(
                    kept.len() - 1,
                    if suffix {
                        stem_of(path_text(root, kept)) + text
                    } else {
                        text + suffix_of(path_text(root, kept))
                    },
                ),
            ),
        ),
{
    let p = path_text(root, kept);
    let name = if suffix {
        stem_of(p) + text
    } else {
        text + suffix_of(p)
    };
    assert(seq![name][0] == name);
    lemma_stem_and_suffix(p);
    lemma_last_slash(root, kept);
    lemma_renamed(root, kept, name);
    let made = path_text(root, kept.update(kept.len() - 1, name));
    assert(!text.contains('/')) by {
        if text.contains('/') {
            let k = choose|k: int| 0 <= k < text.len() && text[k] == '/';
            if suffix {
                assert(name[stem_of(p).len() + k] == '/');
            } else {
                assert(name[k] == '/');
            }
            assert(name.contains('/'));
        }
    }
    lemma_path_given(before, mid, as_value(r)->0, made);
    lemma_consumed(args, mid, after);
}

/// A path with another last segment.
proof fn lemma_renamed(root: bool, kept: Seq<Seq<char>>, name: Seq<char>)
    requires
        are_segments(kept),
        kept.len() > 0,
        are_segments(seq![name]),
    ensures
        ({
            let next = path_text(root, kept.update(kept.len() - 1, name));
            &&& renamed(path_text(root, kept), name) == Ok::<Seq<char>, Seq<char>>(next)
            &&& normalized(next) == next
        }),
        name_of(path_text(root, kept)).len() > 0,
{
    let next = kept.update(kept.len() - 1, name);
    assert(seq![name][0] == name);
    lemma_last_slash(root, kept);
    assert(kept_segment(kept.last()));
    assert forall|i: int| 0 <= i < next.len() implies kept_segment(#[trigger] next[i])
        && !next[i].contains('/') && !next[i].contains('\\') by {
        if i < kept.len() - 1 {
            assert(next[i] == kept[i]);
        }
    }
    lemma_path_text(root, next);
    if kept.len() > 1 {
        let head = path_text(root, kept.drop_last());
        assert(next.drop_last() =~= kept.drop_last());
        lemma_path_text(root, kept.drop_last());
        assert(head.push('/') + name =~= path_text(root, next));
        if head == seq!['.'] {
            assert(!root);
            assert(!head.contains('/')) by {
                assert(head.len() == 1 && head[0] == '.');
            }
            crate::text::lemma_split_whole(head, '/');
            assert(kept.drop_last() == seq![seq!['.']]);
            assert(kept_segment(kept.drop_last()[0]));
        }
        assert(head != seq!['/']) by {
            if head == seq!['/'] {
                assert(head.last() == '/');
            }
        }
    } else if root {
        assert(seq!['/'] + name =~= path_text(root, next));
    } else {
        assert(name =~= path_text(root, next));
    }
    let p = path_text(root, kept);
    assert(name.len() > 0 && !name.contains('/')) by {
        assert(kept_segment(seq![name][0]) && !seq![name][0].contains('/'));
    }
    assert(name_of(p).len() > 0);
    if !root && kept.len() == 1 {
        assert(seq!['.'] != seq!['/']) by {
            assert(seq!['.'][0] != seq!['/'][0]);
        }
    }
    assert(renamed(p, name) == Ok::<Seq<char>, Seq<char>>(path_text(root, next)));
}

/// `with_name` gives the path with another last segment.
pub proof fn lemma_path_with_name(
    before: VM,
    mid: VM,
    after: VM,
    id: HeapId,
    root: bool,
    kept: Seq<Seq<char>>,
    name: Seq<char>,
    attr: EitherStr,
    args: ArgValues,
    r: RunResult<CallResult>,
)
    requires
        are_segments(kept),
        kept.len() > 0,
        are_segments(seq![name]),
        args.just(1),
        before.text_of(args.pos@[0]) == Some(name),
        attr is Interned,
        !crate::types::path_host::asks_host(attr.text(before.interns)),
        attr.well_known() == Some(StaticStrings::WithName),
        args.consumed(mid, after),
        path_call_done(
            before,
            mid,
            r,
            id,
            path_text(root, kept),
            args,
            path_call(before, path_text(root, kept), attr, args),
        ),
        r is Ok,
    ensures
        value_of(r) matches Some(w) && path_at(after, w) == Some(
            path_text(root, kept.update(kept.len() - 1, name)),
        ),
{
    let next = kept.update(kept.len() - 1, name);
    lemma_renamed(root, kept, name);
    lemma_path_given(before, mid, as_value(r)->0, path_text(root, next));
    lemma_consumed(args, mid, after);
}

/// `Path` of a text in normal form has that text.
pub proof fn lemma_path_of(
    before: VM,
    mid: VM,
    after: VM,
    root: bool,
    kept: Seq<Seq<char>>,
    args: ArgValues,
    r: RunResult<Value>,
)
    requires
        are_segments(kept),
        kept.len() > 0,
        args.just(1),
        before.text_of(args.pos@[0]) == Some(path_text(root, kept)),
        args.consumed(mid, after),
        path_made(before, mid, r, path_of_args(before, args)),
        r is Ok,
    ensures
        path_at(after, r->Ok_0) == Some(path_text(root, kept)),
{
    lemma_path_text(root, kept);
    reveal_with_fuel(joined_from, 1);
    lemma_path_given(before, mid, r, path_text(root, kept));
    lemma_consumed(args, mid, after);
}

/// `Path` of nothing is the path of the current directory.
pub proof fn lemma_path_of_nothing(
    before: VM,
    mid: VM,
    after: VM,
    args: ArgValues,
    r: RunResult<Value>,
)
    requires
        args.just(0),
        args.consumed(mid, after),
        path_made(before, mid, r, path_of_args(before, args)),
        r is Ok,
    ensures
        path_at(after, r->Ok_0) == Some(seq!['.']),
{
    reveal_strlit(".");
    assert("."@ =~= seq!['.']);
    crate::types::path::lemma_current_directory();
    lemma_path_given(before, mid, r, seq!['.']);
    lemma_consumed(args, mid, after);
}

} // verus!
