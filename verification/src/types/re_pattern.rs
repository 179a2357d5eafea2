//! Compiled regular expressions.

use vstd::prelude::*;

use crate::args::{raises, Raised};
use crate::exception::{ExcType, RunError, RunResult};
use crate::regex::{
    fault, has_pair, held_to_start, is_flag_group, keeps_out_at, keeps_out_late, pair_at, regex_fault, settles, still_open,
};
use crate::regex_bounds::{find_pair, is_modest, modest};
use crate::text::{chars_of, push_str, string_of};
use crate::types::str_repr::{repr_text, string_repr_fmt};

verus! {

/// Letters match in either case.
pub const IGNORECASE: u16 = 2;

/// `^` and `$` match at line ends.
pub const MULTILINE: u16 = 8;

/// `.` matches line ends.
pub const DOTALL: u16 = 16;

/// Classes match ASCII only; accepted without effect.
pub const ASCII: u16 = 256;

/// A regular expression that compiles, and its flags.
#[derive(Debug)]
pub struct RePattern {
    pattern: String,
    flags: u16,
}

/// Whether a flag is set.
pub open spec fn has_flag(flags: u16, flag: u16) -> bool {
    flags & flag != 0
}

/// A text with one more name, behind a bar if it is not the first.
pub open spec fn with_name(text: Seq<char>, set: bool, name: Seq<char>) -> Seq<char> {
    if !set {
        text
    } else if text.len() == 0 {
        name
    } else {
        text + "|"@ + name
    }
}

/// The names of the flags that are set.
pub open spec fn flag_names(flags: u16) -> Seq<char> {
    let i = with_name(Seq::empty(), has_flag(flags, IGNORECASE), "re.IGNORECASE"@);
    let m = with_name(i, has_flag(flags, MULTILINE), "re.MULTILINE"@);
    let s = with_name(m, has_flag(flags, DOTALL), "re.DOTALL"@);
    with_name(s, has_flag(flags, ASCII), "re.ASCII"@)
}

/// The `repr` of a pattern.
pub open spec fn pattern_repr(pattern: Seq<char>, flags: u16) -> Seq<char> {
    if flags == 0 {
        "re.compile("@ + repr_text(pattern) + ")"@
    } else {
        "re.compile("@ + repr_text(pattern) + ", "@ + flag_names(flags) + ")"@
    }
}

fn push_name(out: &mut Vec<char>, set: bool, name: &str)
    ensures
        final(out)@ == with_name(old(out)@, set, name@),
{
    if set {
        if out.len() > 0 {
            push_str(out, "|");
        }
        push_str(out, name);
        assert(out@ =~= with_name(old(out)@, set, name@));
    }
}

/// The letters of the flags that the engine takes.
pub open spec fn flag_letters(flags: u16) -> Seq<char> {
    let i = if has_flag(flags, IGNORECASE) {
        seq!['i']
    } else {
        Seq::empty()
    };
    let m = if has_flag(flags, MULTILINE) {
        i.push('m')
    } else {
        i
    };
    if has_flag(flags, DOTALL) {
        m.push('s')
    } else {
        m
    }
}

/// The pattern as the engine takes it: the flags in front, in one group.
pub open spec fn full_pattern(pattern: Seq<char>, flags: u16) -> Seq<char> {
    if flag_letters(flags).len() == 0 {
        pattern
    } else {
        "(?"@ + flag_letters(flags) + ")"@ + pattern
    }
}

/// The flags in front of a pattern.
pub open spec fn flag_group(flags: u16) -> Seq<char> {
    if flag_letters(flags).len() == 0 {
        Seq::empty()
    } else {
        "(?"@ + flag_letters(flags) + ")"@
    }
}

/// The pattern as the engine takes it is the flags and then the pattern.
proof fn lemma_flag_group(pattern: Seq<char>, flags: u16)
    ensures
        full_pattern(pattern, flags) == flag_group(flags) + pattern,
        is_flag_group(flag_group(flags)),
{
    let front = flag_group(flags);
    let letters = flag_letters(flags);
    reveal_strlit("(?");
    reveal_strlit(")");
    assert(full_pattern(pattern, flags) =~= front + pattern);
    if letters.len() > 0 {
        assert(front.take(2) =~= "(?"@);
        assert forall|i: int| 2 <= i < front.len() - 1 implies (#[trigger] front[i] == 'i'
            || front[i] == 'm' || front[i] == 's') by {
            assert(front[i] == letters[i - 2]);
        }
    }
}

/// The pattern where it has to match at the start of a text.
pub open spec fn at_start(pattern: Seq<char>) -> Seq<char> {
    "\\A(?:"@ + pattern + ")"@
}

/// The pattern where it has to match a whole text.
pub open spec fn at_both_ends(pattern: Seq<char>) -> Seq<char> {
    "\\A(?:"@ + pattern + ")\\z"@
}

/// Why a pattern cannot be had: its numbers are too large, or it does not compile.
pub open spec fn compile_fault(pattern: Seq<char>) -> Option<Seq<char>> {
    if modest(pattern) {
        regex_fault(pattern)
    } else {
        Some("the numbers in the pattern are too large"@)
    }
}

/// The error for a pattern that does not compile: that of the pattern itself,
/// otherwise that of one of its anchored forms.
pub open spec fn pattern_error(pattern: Seq<char>, flags: u16) -> Option<Raised> {
    match compile_fault(full_pattern(pattern, flags)) {
        Some(e) => Some((ExcType::PatternError, e)),
        None => match compile_fault(full_pattern(at_start(pattern), flags)) {
            Some(e) => Some((ExcType::PatternError, e)),
            None => match compile_fault(full_pattern(at_both_ends(pattern), flags)) {
                Some(e) => Some((ExcType::PatternError, e)),
                None => None,
            },
        },
    }
}

/// The pattern as the engine takes it.
pub fn regex_source(pattern: &str, flags: u16) -> (r: String)
    ensures
        r@ == full_pattern(pattern@, flags),
{
    let mut letters: Vec<char> = Vec::new();
    if flags & IGNORECASE != 0 {
        letters.push('i');
        assert(letters@ =~= seq!['i']);
    }
    if flags & MULTILINE != 0 {
        letters.push('m');
    }
    if flags & DOTALL != 0 {
        letters.push('s');
    }
    assert(letters@ =~= flag_letters(flags));
    if letters.len() == 0 {
        return pattern.to_owned();
    }
    let mut out: Vec<char> = chars_of("(?");
    out.append(&mut letters);
    push_str(&mut out, ")");
    push_str(&mut out, pattern);
    assert(out@ =~= full_pattern(pattern@, flags));
    string_of(&out)
}

/// A text between two others.
fn between(before: &str, text: &str, after: &str) -> (r: String)
    ensures
        r@ == before@ + text@ + after@,
{
    let mut out: Vec<char> = chars_of(before);
    push_str(&mut out, text);
    push_str(&mut out, after);
    string_of(&out)
}

/// Compiles a pattern with its flags, for the error that this may give.
pub fn compile_regex(pattern: &str, flags: u16) -> (r: RunResult<()>)
    ensures
        match compile_fault(full_pattern(pattern@, flags)) {
            Some(e) => raises(r, (ExcType::PatternError, e)),
            None => r is Ok,
        },
{
    let source = regex_source(pattern, flags);
    if !is_modest(source.as_str()) {
        return Err(
            RunError::new_msg(
                ExcType::PatternError,
                "the numbers in the pattern are too large".to_owned(),
            ),
        );
    }
    match fault(source.as_str()) {
        Some(e) => Err(RunError::new_msg(ExcType::PatternError, e)),
        None => Ok(()),
    }
}

/// A pair of characters in a text with something in front of it.
proof fn lemma_pair_behind(front: Seq<char>, pattern: Seq<char>, a: char, b: char)
    requires
        front.len() > 0,
        front.last() != a,
        !has_pair(front, a, b),
    ensures
        forall|i: int| #[trigger]
            pair_at(front + pattern, a, b, i) <==> pair_at(pattern, a, b, i - front.len()),
        has_pair(front + pattern, a, b) == has_pair(pattern, a, b),
{
    let full = front + pattern;
    assert forall|i: int| #[trigger]
        pair_at(full, a, b, i) <==> pair_at(pattern, a, b, i - front.len()) by {
        if i < front.len() {
            if pair_at(full, a, b, i) {
                assert(pair_at(front, a, b, i));
            }
        } else if i == front.len() {
            assert(full[i - 1] == front.last());
        } else if i < full.len() {
            assert(full[i - 1] == pattern[i - 1 - front.len()]);
            assert(full[i] == pattern[i - front.len()]);
        }
    }
    if has_pair(pattern, a, b) {
        let i = choose|i: int| #[trigger] pair_at(pattern, a, b, i);
        assert(pair_at(full, a, b, i + front.len()));
    }
    if has_pair(full, a, b) {
        let i = choose|i: int| #[trigger] pair_at(full, a, b, i);
        assert(pair_at(pattern, a, b, i - front.len()));
    }
}

/// The flags in front of a pattern do not decide whether a search comes to an end.
pub proof fn lemma_flags_settle(pattern: Seq<char>, flags: u16)
    ensures
        settles(full_pattern(pattern, flags)) == settles(pattern),
{
    let full = full_pattern(pattern, flags);
    let letters = flag_letters(flags);
    if letters.len() > 0 {
        reveal_strlit("(?");
        reveal_strlit(")");
        let front = "(?"@ + letters + ")"@;
        assert(full =~= front + pattern);
        assert(forall|i: int|
            0 <= i < front.len() ==> front[i] != '=' && front[i] != '\\' && front[i] != 'P');
        assert(front.last() == ')');
        lemma_pair_behind(front, pattern, '<', '=');
        lemma_pair_behind(front, pattern, '\\', 'K');
        lemma_pair_behind(front, pattern, '\\', 'g');
        lemma_pair_behind(front, pattern, 'P', '>');
        if keeps_out_late(pattern) {
            let (i, j) = choose|i: int, j: int| #[trigger] keeps_out_at(pattern, i, j);
            lemma_open_behind(front, pattern, i + 1, j - 1, 1);
            assert(pair_at(full, '<', '=', i + front.len()));
            assert(pair_at(full, '\\', 'K', j + front.len()));
            assert(keeps_out_at(full, i + front.len(), j + front.len()));
        }
        if keeps_out_late(full) {
            let (i, j) = choose|i: int, j: int| #[trigger] keeps_out_at(full, i, j);
            assert(pair_at(pattern, '<', '=', i - front.len()));
            assert(pair_at(pattern, '\\', 'K', j - front.len()));
            lemma_open_behind(front, pattern, i - front.len() + 1, j - front.len() - 1, 1);
            assert(keeps_out_at(pattern, i - front.len(), j - front.len()));
        }
    }
}

/// Whether a group is open does not depend on what stands in front of it.
proof fn lemma_open_behind(front: Seq<char>, pattern: Seq<char>, from: int, to: int, depth: nat)
    requires
        0 <= from,
    ensures
        still_open(front + pattern, from + front.len(), to + front.len(), depth) == still_open(
            pattern,
            from,
            to,
            depth,
        ),
    decreases to - from,
{
    if from < to && from < pattern.len() {
        let c = pattern[from];
        assert((front + pattern)[from + front.len()] == c);
        if c == '\\' {
            if from + 2 < to {
                lemma_open_behind(front, pattern, from + 2, to, depth);
            }
        } else if c == '(' {
            lemma_open_behind(front, pattern, from + 1, to, depth + 1);
        } else if c == ')' {
            if depth > 1 {
                lemma_open_behind(front, pattern, from + 1, to, (depth - 1) as nat);
            }
        } else {
            lemma_open_behind(front, pattern, from + 1, to, depth);
        }
    }
}

fn is_still_open(chars: &[char], from: usize, to: usize) -> (r: bool)
    requires
        1 <= from <= chars@.len(),
        to <= chars@.len(),
    ensures
        r == still_open(chars@, from as int, to as int, 1),
{
    let mut at: usize = from;
    let mut depth: usize = 1;
    while at < to
        invariant
            1 <= from <= at,
            to <= chars@.len(),
            at <= chars@.len(),
            1 <= depth <= at - from + 1,
            still_open(chars@, at as int, to as int, depth as nat) == still_open(
                chars@,
                from as int,
                to as int,
                1,
            ),
        decreases to - at,
    {
        let c = chars[at];
        if c == '\\' {
            if to - at <= 2 {
                return true;
            }
            at = at + 2;
        } else if c == '[' || c == '#' || c == '<' || c == '\'' {
            return true;
        } else {
            if c == '(' {
                depth = depth + 1;
            } else if c == ')' {
                if depth == 1 {
                    return false;
                }
                depth = depth - 1;
            }
            at = at + 1;
        }
    }
    true
}

fn keeps_out(chars: &[char]) -> (r: bool)
    ensures
        r == keeps_out_late(chars@),
{
    for i in 0..chars.len()
        invariant
            forall|a: int, b: int| a < i ==> !#[trigger] keeps_out_at(chars@, a, b),
    {
        if i > 0 && chars[i - 1] == '<' && chars[i] == '=' {
            for j in 0..chars.len()
                invariant
                    0 < i < chars@.len(),
                    pair_at(chars@, '<', '=', i as int),
                    forall|b: int| b < j ==> !#[trigger] keeps_out_at(chars@, i as int, b),
            {
                if i < j && chars[j - 1] == '\\' && chars[j] == 'K' {
                    if is_still_open(chars, i + 1, j - 1) {
                        assert(keeps_out_at(chars@, i as int, j as int));
                        return true;
                    }
                }
            }
        }
    }
    false
}

impl RePattern {
    /// The pattern and its anchored forms compile.
    #[verifier::type_invariant]
    spec fn compiled(self) -> bool {
        pattern_error(self.pattern@, self.flags) is None
    }

    /// The pattern as it was written.
    pub closed spec fn text(self) -> Seq<char> {
        self.pattern@
    }

    /// The flags.
    pub closed spec fn bits(self) -> u16 {
        self.flags
    }

    /// Compiles a pattern.
    pub fn compile(pattern: String, flags: u16) -> (r: RunResult<RePattern>)
        ensures
            match pattern_error(pattern@, flags) {
                Some(e) => raises(r, e),
                None => r matches Ok(p) && p.text() == pattern@ && p.bits() == flags,
            },
    {
        match compile_regex(pattern.as_str(), flags) {
            Ok(_) => {},
            Err(e) => {
                return Err(e);
            },
        }
        let started = between("\\A(?:", pattern.as_str(), ")");
        match compile_regex(started.as_str(), flags) {
            Ok(_) => {},
            Err(e) => {
                return Err(e);
            },
        }
        let whole = between("\\A(?:", pattern.as_str(), ")\\z");
        match compile_regex(whole.as_str(), flags) {
            Ok(_) => {},
            Err(e) => {
                return Err(e);
            },
        }
        Ok(RePattern { pattern, flags })
    }

    /// The pattern as it was written.
    pub fn pattern(&self) -> (r: &str)
        ensures
            r@ == self.text(),
    {
        self.pattern.as_str()
    }

    /// The flags.
    pub fn flags(&self) -> (r: u16)
        ensures
            r == self.bits(),
    {
        self.flags
    }

    /// The pattern as the engine takes it.
    pub(crate) fn source(&self) -> (r: String)
        ensures
            r@ == full_pattern(self.text(), self.bits()),
            modest(r@),
            regex_fault(r@) is None,
    {
        proof {
            use_type_invariant(self);
        }
        regex_source(self.pattern.as_str(), self.flags)
    }

    /// The pattern as the engine takes it to match at the start of a text.
    pub(crate) fn start_source(&self) -> (r: String)
        ensures
            r@ == full_pattern(at_start(self.text()), self.bits()),
            modest(r@),
            regex_fault(r@) is None,
            !has_pair(self.text(), '\\', 'K') ==> held_to_start(
                r@,
                flag_group(self.bits()),
                self.text(),
                ")"@,
            ),
    {
        proof {
            use_type_invariant(self);
            lemma_flag_group(self.text(), self.bits());
            lemma_flag_group(at_start(self.text()), self.bits());
        }
        regex_source(between("\\A(?:", self.pattern.as_str(), ")").as_str(), self.flags)
    }

    /// The pattern as the engine takes it to match a whole text.
    pub(crate) fn whole_source(&self) -> (r: String)
        ensures
            r@ == full_pattern(at_both_ends(self.text()), self.bits()),
            modest(r@),
            regex_fault(r@) is None,
            !has_pair(self.text(), '\\', 'K') ==> held_to_start(
                r@,
                flag_group(self.bits()),
                self.text(),
                ")\\z"@,
            ),
    {
        proof {
            use_type_invariant(self);
            lemma_flag_group(self.text(), self.bits());
            lemma_flag_group(at_both_ends(self.text()), self.bits());
        }
        regex_source(between("\\A(?:", self.pattern.as_str(), ")\\z").as_str(), self.flags)
    }

    /// Whether searching a text for all matches comes to an end.
    pub fn settles(&self) -> (r: bool)
        ensures
            r == settles(self.text()),
    {
        let chars = chars_of(self.pattern.as_str());
        let kept: bool = find_pair(&chars, '<', '=') && find_pair(&chars, '\\', 'K');
        let calls: bool = find_pair(&chars, '\\', 'g') || find_pair(&chars, 'P', '>');
        !keeps_out(&chars) && !(kept && calls)
    }

    /// Writes the `repr` of the pattern.
    pub fn py_repr_fmt(&self, out: &mut Vec<char>)
        ensures
            final(out)@ == old(out)@ + pattern_repr(self.text(), self.bits()),
    {
        push_str(out, "re.compile(");
        string_repr_fmt(self.pattern.as_str(), out);
        if self.flags != 0 {
            let mut names: Vec<char> = Vec::new();
            push_name(&mut names, self.flags & IGNORECASE != 0, "re.IGNORECASE");
            push_name(&mut names, self.flags & MULTILINE != 0, "re.MULTILINE");
            push_name(&mut names, self.flags & DOTALL != 0, "re.DOTALL");
            push_name(&mut names, self.flags & ASCII != 0, "re.ASCII");
            push_str(out, ", ");
            out.append(&mut names);
        }
        push_str(out, ")");
        assert(out@ =~= old(out)@ + pattern_repr(self.text(), self.bits()));
    }
}

} // verus!
