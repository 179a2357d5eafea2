//! Arguments of calls, and the errors for calls with the wrong ones.

use vstd::prelude::*;

use crate::decimal::{nat_digits, push_nat};
use crate::exception::{ExcType, RunError, RunResult};
use crate::intern::Interns;
use crate::text::{push_str, same_text, string_of};
use crate::value::{value_ok, values_ok, EitherStr, Value};

verus! {

/// The arguments of a call. What takes them drops their references or hands them
/// on; what only looks at them borrows them.
#[derive(Debug)]
pub struct ArgValues {
    pub pos: Vec<Value>,
    pub kwargs: Vec<(EitherStr, Value)>,
}

/// An exception as the contracts see it: its class and its message.
pub type Raised = (ExcType, Seq<char>);

/// Whether a result raises the given exception.
pub open spec fn raises<T>(r: RunResult<T>, e: Raised) -> bool {
    match r {
        Ok(_) => false,
        Err(err) => err.says(e.0, e.1),
    }
}

/// "s" unless there is one.
pub open spec fn plural(n: nat) -> Seq<char> {
    if n == 1 {
        ""@
    } else {
        "s"@
    }
}

/// The error for arguments to a function that takes none.
pub open spec fn no_args_error(name: Seq<char>, given: nat) -> Raised {
    (ExcType::TypeError, name + "() takes no arguments ("@ + nat_digits(given) + " given)"@)
}

/// The error for anything but one argument.
pub open spec fn one_arg_error(name: Seq<char>, given: nat) -> Raised {
    (ExcType::TypeError, name + "() takes exactly one argument ("@ + nat_digits(given) + " given)"@)
}

/// The error for too few arguments.
pub open spec fn at_least_error(name: Seq<char>, least: nat, given: nat) -> Raised {
    (
        ExcType::TypeError,
        name + " expected at least "@ + nat_digits(least) + " argument"@ + plural(least) + ", got "@
            + nat_digits(given),
    )
}

/// The error for too many arguments.
pub open spec fn at_most_error(name: Seq<char>, most: nat, given: nat) -> Raised {
    (
        ExcType::TypeError,
        name + " expected at most "@ + nat_digits(most) + " argument"@ + plural(most) + ", got "@
            + nat_digits(given),
    )
}

/// The error for keyword arguments to a function that takes none.
pub open spec fn no_kwargs_error(name: Seq<char>) -> Raised {
    (ExcType::TypeError, name + "() takes no keyword arguments"@)
}

/// The error for more arguments than there are parameters.
pub open spec fn takes_at_most_error(name: Seq<char>, most: nat, given: nat) -> Raised {
    (
        ExcType::TypeError,
        name + "() takes at most "@ + nat_digits(most) + " argument"@ + plural(most) + " ("@
            + nat_digits(given) + " given)"@,
    )
}

/// The error for too few positional arguments.
pub open spec fn takes_at_least_error(name: Seq<char>, least: nat, given: nat) -> Raised {
    (
        ExcType::TypeError,
        name + "() takes at least "@ + nat_digits(least) + " positional argument"@ + plural(least)
            + " ("@ + nat_digits(given) + " given)"@,
    )
}

/// The error for a keyword that is no parameter.
pub open spec fn unexpected_kwarg_error(name: Seq<char>, keyword: Seq<char>) -> Raised {
    (ExcType::TypeError, name + "() got an unexpected keyword argument '"@ + keyword + "'"@)
}

/// The error for an argument given by name and by position.
pub open spec fn duplicate_arg_error(name: Seq<char>, keyword: Seq<char>, place: nat) -> Raised {
    (
        ExcType::TypeError,
        "argument for "@ + name + "() given by name ('"@ + keyword + "') and position ("@
            + nat_digits(place) + ")"@,
    )
}

/// A `TypeError` that counts: `head`, a number, `middle`, a number, `tail`.
fn counting_error(
    name: &str,
    head: &str,
    first: usize,
    middle: &str,
    second: usize,
    tail: &str,
) -> (r: RunError)
    ensures
        r.says(
            ExcType::TypeError,
            name@ + head@ + nat_digits(first as nat) + middle@ + plural(first as nat) + tail@
                + nat_digits(second as nat),
        ),
{
    let mut out: Vec<char> = Vec::new();
    push_str(&mut out, name);
    push_str(&mut out, head);
    push_nat(&mut out, first as u64);
    push_str(&mut out, middle);
    if first == 1 {
        push_str(&mut out, "");
    } else {
        push_str(&mut out, "s");
    }
    push_str(&mut out, tail);
    push_nat(&mut out, second as u64);
    proof {
        assert(out@ =~= name@ + head@ + nat_digits(first as nat) + middle@ + plural(first as nat)
            + tail@ + nat_digits(second as nat));
    }
    RunError::new_msg(ExcType::TypeError, string_of(&out))
}

/// The same with text after the second number.
fn counting_error_closed(
    name: &str,
    head: &str,
    first: usize,
    middle: &str,
    second: usize,
) -> (r: RunError)
    ensures
        r.says(
            ExcType::TypeError,
            name@ + head@ + nat_digits(first as nat) + middle@ + plural(first as nat) + " ("@
                + nat_digits(second as nat) + " given)"@,
        ),
{
    let start = counting_error(name, head, first, middle, second, " (");
    let mut out: Vec<char> = crate::text::chars_of(start.message.as_str());
    push_str(&mut out, " given)");
    RunError::new_msg(ExcType::TypeError, string_of(&out))
}

/// A `TypeError` with one number: `name`, `head`, the number, `tail`.
fn given_error(name: &str, head: &str, given: usize, tail: &str) -> (r: RunError)
    ensures
        r.says(ExcType::TypeError, name@ + head@ + nat_digits(given as nat) + tail@),
{
    let mut out: Vec<char> = Vec::new();
    push_str(&mut out, name);
    push_str(&mut out, head);
    push_nat(&mut out, given as u64);
    push_str(&mut out, tail);
    proof {
        assert(out@ =~= name@ + head@ + nat_digits(given as nat) + tail@);
    }
    RunError::new_msg(ExcType::TypeError, string_of(&out))
}

/// The text of the name of a keyword argument.
pub open spec fn kwarg_names(kwargs: Seq<(EitherStr, Value)>, interns: Interns) -> Seq<Seq<char>> {
    kwargs.map_values(|kw: (EitherStr, Value)| kw.0.text(interns))
}

/// The texts of parameter names.
pub open spec fn param_texts(params: Seq<&str>) -> Seq<Seq<char>> {
    params.map_values(|p: &str| p@)
}

/// The first place at or after `from` where a text stands, or the length.
pub open spec fn place_of(names: Seq<Seq<char>>, name: Seq<char>, from: int) -> int
    decreases names.len() - from,
{
    if from >= names.len() || names[from] == name {
        from
    } else {
        place_of(names, name, from + 1)
    }
}

/// The error for a keyword argument, if it is none that the function takes.
pub open spec fn one_kwarg_error(
    name: Seq<char>,
    params: Seq<Seq<char>>,
    pos_only: int,
    npos: int,
    keyword: Seq<char>,
) -> Option<Raised> {
    let place = place_of(params, keyword, pos_only);
    if place >= params.len() {
        Some(unexpected_kwarg_error(name, keyword))
    } else if place < npos {
        Some(duplicate_arg_error(name, keyword, (place + 1) as nat))
    } else {
        None
    }
}

/// The error for the first keyword argument that the function does not take.
pub open spec fn kwargs_error(
    name: Seq<char>,
    params: Seq<Seq<char>>,
    pos_only: int,
    npos: int,
    keywords: Seq<Seq<char>>,
) -> Option<Raised>
    decreases keywords.len(),
{
    if keywords.len() == 0 {
        None
    } else {
        match kwargs_error(name, params, pos_only, npos, keywords.drop_last()) {
            Some(e) => Some(e),
            None => one_kwarg_error(name, params, pos_only, npos, keywords.last()),
        }
    }
}

impl ArgValues {
    /// Whether what the arguments refer to exists.
    pub open spec fn ok(self, entries: nat, interns: Interns) -> bool {
        &&& self.total() <= usize::MAX
        &&& values_ok(self.pos@, entries, interns)
        &&& forall|i: int|
            0 <= i < self.kwargs@.len() ==> (#[trigger] self.kwargs@[i]).0.ok(interns) && value_ok(
                self.kwargs@[i].1,
                entries,
                interns,
            )
    }

    /// The number of arguments.
    pub open spec fn total(self) -> nat {
        self.pos@.len() + self.kwargs@.len()
    }

    /// Whether the arguments are `n` positional ones and nothing else.
    pub open spec fn just(self, n: nat) -> bool {
        self.pos@.len() == n && self.kwargs@.len() == 0
    }

    /// The error for a call that does not fit the parameters, if any. The
    /// first `pos_only` parameters are required and cannot be named.
    pub open spec fn binding_error(
        self,
        name: Seq<char>,
        params: Seq<Seq<char>>,
        pos_only: nat,
        interns: Interns,
    ) -> Option<Raised> {
        if self.total() > params.len() {
            Some(takes_at_most_error(name, params.len(), self.total()))
        } else if self.pos@.len() < pos_only {
            Some(takes_at_least_error(name, pos_only, self.pos@.len()))
        } else {
            kwargs_error(
                name,
                params,
                pos_only as int,
                self.pos@.len() as int,
                kwarg_names(self.kwargs@, interns),
            )
        }
    }

    /// The argument for parameter `i`, which may also be given by its name.
    pub open spec fn argument(self, i: int, name: Seq<char>, interns: Interns) -> Option<Value> {
        if i < self.pos@.len() {
            Some(self.pos@[i])
        } else {
            let k = place_of(kwarg_names(self.kwargs@, interns), name, 0);
            if k < self.kwargs@.len() {
                Some(self.kwargs@[k].1)
            } else {
                None
            }
        }
    }

    /// No arguments.
    pub fn empty() -> (r: ArgValues)
        ensures
            r.just(0),
    {
        ArgValues { pos: Vec::new(), kwargs: Vec::new() }
    }

    /// Positional arguments only.
    pub fn positional(pos: Vec<Value>) -> (r: ArgValues)
        ensures
            r.pos == pos,
            r.kwargs@.len() == 0,
    {
        ArgValues { pos, kwargs: Vec::new() }
    }

    /// The number of arguments, as far as a machine word goes.
    fn count(&self) -> (r: usize)
        ensures
            self.total() <= usize::MAX ==> r == self.total(),
    {
        let pos: usize = self.pos.len();
        let kwargs: usize = self.kwargs.len();
        if kwargs > usize::MAX - pos {
            usize::MAX
        } else {
            pos + kwargs
        }
    }

    /// Accepts a call without arguments.
    pub fn check_zero_args(&self, name: &str) -> (r: RunResult<()>)
        requires
            self.total() <= usize::MAX,
        ensures
            self.total() == 0 ==> r is Ok,
            self.total() > 0 ==> raises(r, no_args_error(name@, self.total())),
    {
        let count: usize = self.count();
        if count == 0 {
            Ok(())
        } else {
            Err(given_error(name, "() takes no arguments (", count, " given)"))
        }
    }

    /// The only argument.
    pub fn get_one_arg<'a>(&'a self, name: &str) -> (r: RunResult<&'a Value>)
        requires
            self.total() <= usize::MAX,
        ensures
            self.just(1) ==> (r matches Ok(v) && *v == self.pos@[0]),
            !self.just(1) ==> raises(r, one_arg_error(name@, self.total())),
    {
        if self.pos.len() == 1 && self.kwargs.len() == 0 {
            Ok(&self.pos[0])
        } else {
            Err(given_error(name, "() takes exactly one argument (", self.count(), " given)"))
        }
    }

    /// The only argument, if there is one.
    pub fn get_zero_one_arg<'a>(&'a self, name: &str) -> (r: RunResult<Option<&'a Value>>)
        requires
            self.total() <= usize::MAX,
        ensures
            self.just(0) ==> r == Ok::<Option<&'a Value>, RunError>(None),
            self.just(1) ==> (r matches Ok(Some(v)) && *v == self.pos@[0]),
            !self.just(0) && !self.just(1) ==> raises(r, at_most_error(name@, 1, self.total())),
    {
        if self.kwargs.len() == 0 && self.pos.len() == 0 {
            Ok(None)
        } else if self.kwargs.len() == 0 && self.pos.len() == 1 {
            Ok(Some(&self.pos[0]))
        } else {
            Err(at_most(name, 1, self.count()))
        }
    }

    /// One or two arguments.
    pub fn get_one_two_args<'a>(&'a self, name: &str) -> (r: RunResult<
        (&'a Value, Option<&'a Value>),
    >)
        requires
            self.total() <= usize::MAX,
        ensures
            self.just(1) ==> (r matches Ok((a, None)) && *a == self.pos@[0]),
            self.just(2) ==> (r matches Ok((a, Some(b))) && *a == self.pos@[0] && *b == self.pos@[1]),
            self.total() == 0 ==> raises(r, at_least_error(name@, 1, 0)),
            self.total() > 0 && !self.just(1) && !self.just(2) ==> raises(
                r,
                at_most_error(name@, 2, self.total()),
            ),
    {
        let count: usize = self.count();
        if count == 0 {
            Err(at_least(name, 1, 0))
        } else if self.kwargs.len() == 0 && self.pos.len() == 1 {
            Ok((&self.pos[0], None))
        } else if self.kwargs.len() == 0 && self.pos.len() == 2 {
            Ok((&self.pos[0], Some(&self.pos[1])))
        } else {
            Err(at_most(name, 2, count))
        }
    }

    /// The positional arguments of a function that takes no others.
    pub fn into_pos_only<'a>(&'a self, name: &str) -> (r: RunResult<&'a [Value]>)
        ensures
            self.kwargs@.len() == 0 ==> (r matches Ok(pos) && pos@ == self.pos@),
            self.kwargs@.len() > 0 ==> raises(r, no_kwargs_error(name@)),
    {
        if self.kwargs.len() == 0 {
            Ok(self.pos.as_slice())
        } else {
            let mut out: Vec<char> = Vec::new();
            push_str(&mut out, name);
            push_str(&mut out, "() takes no keyword arguments");
            assert(out@ =~= name@ + "() takes no keyword arguments"@);
            Err(RunError::new_msg(ExcType::TypeError, string_of(&out)))
        }
    }

    /// Checks a call against the parameters of a function.
    pub fn check_binding(
        &self,
        name: &str,
        params: &[&'static str],
        pos_only: usize,
        interns: &Interns,
    ) -> (r: RunResult<()>)
        requires
            self.total() <= usize::MAX,
            forall|i: int|
                0 <= i < self.kwargs@.len() ==> (#[trigger] self.kwargs@[i]).0.ok(*interns),
        ensures
            match self.binding_error(name@, param_texts(params@), pos_only as nat, *interns) {
                Some(e) => raises(r, e),
                None => r is Ok,
            },
    {
        let count: usize = self.count();
        if count > params.len() {
            return Err(
                counting_error_closed(
                    name,
                    "() takes at most ",
                    params.len(),
                    " argument",
                    count,
                ),
            );
        }
        if self.pos.len() < pos_only {
            return Err(
                counting_error_closed(
                    name,
                    "() takes at least ",
                    pos_only,
                    " positional argument",
                    self.pos.len(),
                ),
            );
        }
        let ghost names = kwarg_names(self.kwargs@, *interns);
        let ghost texts = param_texts(params@);
        for k in 0..self.kwargs.len()
            invariant
                names == kwarg_names(self.kwargs@, *interns),
                texts == param_texts(params@),
                pos_only <= self.pos@.len() <= params@.len(),
                forall|i: int|
                    0 <= i < self.kwargs@.len() ==> (#[trigger] self.kwargs@[i]).0.ok(*interns),
                kwargs_error(
                    name@,
                    texts,
                    pos_only as int,
                    self.pos@.len() as int,
                    names.take(k as int),
                ) is None,
                self.binding_error(name@, texts, pos_only as nat, *interns) == kwargs_error(
                    name@,
                    texts,
                    pos_only as int,
                    self.pos@.len() as int,
                    names,
                ),
        {
            let keyword = self.kwargs[k].0.as_str(interns);
            proof {
                assert(names.take(k + 1).drop_last() =~= names.take(k as int));
                assert(names.take(k + 1).last() == keyword@);
            }
            let mut place: usize = pos_only;
            while place < params.len() && !same_text(params[place], keyword)
                invariant
                    texts == param_texts(params@),
                    pos_only <= place <= params@.len(),
                    place_of(texts, keyword@, pos_only as int) == place_of(
                        texts,
                        keyword@,
                        place as int,
                    ),
                decreases params@.len() - place,
            {
                place = place + 1;
            }
            if place >= params.len() || place < self.pos.len() {
                let mut out: Vec<char> = Vec::new();
                if place >= params.len() {
                    push_str(&mut out, name);
                    push_str(&mut out, "() got an unexpected keyword argument '");
                    push_str(&mut out, keyword);
                    push_str(&mut out, "'");
                    assert(out@ =~= unexpected_kwarg_error(name@, keyword@).1);
                } else {
                    push_str(&mut out, "argument for ");
                    push_str(&mut out, name);
                    push_str(&mut out, "() given by name ('");
                    push_str(&mut out, keyword);
                    push_str(&mut out, "') and position (");
                    push_nat(&mut out, place as u64 + 1);
                    push_str(&mut out, ")");
                    assert(out@ =~= duplicate_arg_error(name@, keyword@, (place + 1) as nat).1);
                }
                proof {
                    lemma_first_kwarg_error(
                        name@,
                        texts,
                        pos_only as int,
                        self.pos@.len() as int,
                        names,
                        k as int,
                    );
                }
                return Err(RunError::new_msg(ExcType::TypeError, string_of(&out)));
            }
        }
        assert(names.take(names.len() as int) =~= names);
        Ok(())
    }

    /// The argument for parameter `i`, which may also be given by its name.
    pub fn get_argument<'a>(&'a self, i: usize, name: &str, interns: &Interns) -> (r: Option<
        &'a Value,
    >)
        requires
            forall|i: int|
                0 <= i < self.kwargs@.len() ==> (#[trigger] self.kwargs@[i]).0.ok(*interns),
        ensures
            match (r, self.argument(i as int, name@, *interns)) {
                (Some(v), Some(w)) => *v == w,
                (None, None) => true,
                _ => false,
            },
    {
        if i < self.pos.len() {
            return Some(&self.pos[i]);
        }
        let ghost names = kwarg_names(self.kwargs@, *interns);
        let mut k: usize = 0;
        while k < self.kwargs.len()
            invariant
                names == kwarg_names(self.kwargs@, *interns),
                k <= self.kwargs@.len(),
                i >= self.pos@.len(),
                forall|i: int|
                    0 <= i < self.kwargs@.len() ==> (#[trigger] self.kwargs@[i]).0.ok(*interns),
                place_of(names, name@, 0) == place_of(names, name@, k as int),
            decreases self.kwargs@.len() - k,
        {
            let keyword = self.kwargs[k].0.as_str(interns);
            assert(names[k as int] == keyword@);
            if same_text(keyword, name) {
                return Some(&self.kwargs[k].1);
            }
            k = k + 1;
        }
        None
    }
}

/// Once a keyword argument is an error, that error stands.
proof fn lemma_first_kwarg_error(
    name: Seq<char>,
    params: Seq<Seq<char>>,
    pos_only: int,
    npos: int,
    keywords: Seq<Seq<char>>,
    k: int,
)
    requires
        0 <= k < keywords.len(),
        kwargs_error(name, params, pos_only, npos, keywords.take(k + 1)) is Some,
    ensures
        kwargs_error(name, params, pos_only, npos, keywords) == kwargs_error(
            name,
            params,
            pos_only,
            npos,
            keywords.take(k + 1),
        ),
    decreases keywords.len(),
{
    if k + 1 == keywords.len() {
        assert(keywords.take(k + 1) =~= keywords);
    } else {
        assert(keywords.drop_last().take(k + 1) =~= keywords.take(k + 1));
        lemma_first_kwarg_error(name, params, pos_only, npos, keywords.drop_last(), k);
    }
}

/// The error for too few arguments.
pub fn at_least(name: &str, least: usize, given: usize) -> (r: RunError)
    ensures
        r.says(ExcType::TypeError, at_least_error(name@, least as nat, given as nat).1),
{
    counting_error(name, " expected at least ", least, " argument", given, ", got ")
}

/// The error for too many arguments.
pub fn at_most(name: &str, most: usize, given: usize) -> (r: RunError)
    ensures
        r.says(ExcType::TypeError, at_most_error(name@, most as nat, given as nat).1),
{
    counting_error(name, " expected at most ", most, " argument", given, ", got ")
}

} // verus!
