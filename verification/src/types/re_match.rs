//! Matches of regular expressions.

use vstd::prelude::*;

use crate::decimal::{int_digits, push_nat};
use crate::exception::RunResult;
use crate::heap::HeapData;
use crate::outcome::{allocate_object, object_result};
use crate::regex::{Groups, Span};
use crate::text::{chars_of, push_str, string_of, sub_chars};
use crate::types::str_repr::{repr_text, string_repr_fmt};
use crate::utf8::{char_place, find_place, text_between};
use crate::value::Value;
use crate::vm::VM;

verus! {

/// A match: the pattern and the text that it was found in, and the byte offsets
/// of its groups.
#[derive(Debug)]
pub struct ReMatch {
    pub pattern: String,
    pub text: String,
    pub groups: Groups,
}

/// The place of the whole match, which is its first group.
pub open spec fn whole_span(groups: Seq<Option<Span>>) -> Span {
    if groups.len() > 0 && groups[0] is Some {
        groups[0]->0
    } else {
        (0, 0)
    }
}

/// The `repr` of a match: where it stands, counted in characters, and its text.
pub open spec fn match_repr(text: Seq<char>, span: Span) -> Seq<char> {
    "<re.Match object; span=("@ + int_digits(char_place(text, span.0 as int)) + ", "@ + int_digits(
        char_place(text, span.1 as int),
    ) + "), match="@ + repr_text(text_between(text, span.0 as int, span.1 as int)) + ">"@
}

impl ReMatch {
    /// Whether this is a match of a pattern in a text with these groups.
    pub open spec fn is(self, pattern: Seq<char>, text: Seq<char>, groups: Seq<Option<Span>>) -> bool {
        self.pattern@ == pattern && self.text@ == text && self.groups@ == groups
    }

    /// The place of the whole match.
    fn span(&self) -> (r: Span)
        ensures
            r == whole_span(self.groups@),
    {
        if self.groups.len() > 0 {
            if let Some(span) = self.groups[0] {
                return span;
            }
        }
        (0, 0)
    }

    /// Writes the `repr` of the match.
    pub fn py_repr_fmt(&self, out: &mut Vec<char>)
        ensures
            final(out)@ == old(out)@ + match_repr(self.text@, whole_span(self.groups@)),
    {
        let chars = chars_of(self.text.as_str());
        let (from, to) = self.span();
        let a: usize = find_place(&chars, from);
        let b: usize = find_place(&chars, to);
        push_str(out, "<re.Match object; span=(");
        push_nat(out, a as u64);
        push_str(out, ", ");
        push_nat(out, b as u64);
        push_str(out, "), match=");
        let text: Vec<char> = if a < b {
            sub_chars(&chars, a, b)
        } else {
            Vec::new()
        };
        assert(text@ =~= text_between(self.text@, from as int, to as int));
        string_repr_fmt(string_of(&text).as_str(), out);
        push_str(out, ">");
        assert(out@ =~= old(out)@ + match_repr(self.text@, whole_span(self.groups@)));
    }
}

/// Whether a result is a new match, or the error for a heap that is full.
pub open spec fn match_result(
    before: VM,
    after: VM,
    r: RunResult<Value>,
    pattern: Seq<char>,
    text: Seq<char>,
    groups: Seq<Option<Span>>,
) -> bool {
    exists|m: ReMatch|
        #![trigger object_result(before, after, r, HeapData::ReMatch(m))]
        m.is(pattern, text, groups) && object_result(before, after, r, HeapData::ReMatch(m))
}

/// Puts a match into the heap.
pub fn allocate_match(pattern: &str, text: &str, groups: Groups, vm: &mut VM) -> (r: RunResult<
    Value,
>)
    requires
        old(vm).wf(),
    ensures
        final(vm).wf(),
        r matches Ok(v) ==> final(vm).ok(v),
        match_result(*old(vm), *final(vm), r, pattern@, text@, groups@),
{
    let m = ReMatch { pattern: pattern.to_owned(), text: text.to_owned(), groups };
    let ghost made = m;
    let r = allocate_object(HeapData::ReMatch(m), vm);
    assert(made.is(pattern@, text@, groups@));
    assert(object_result(*old(vm), *vm, r, HeapData::ReMatch(made)));
    r
}

} // verus!
