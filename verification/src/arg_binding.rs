//! Binding of arguments to the parameters of constructors and methods that
//! take them by position or by name.

use vstd::prelude::*;

use crate::args::{kwarg_names, param_texts, place_of, plural, raises, ArgValues, Raised};
use crate::decimal::{nat_digits, push_nat};
use crate::exception::{ExcType, RunError, RunResult};
use crate::intern::Interns;
use crate::text::{push_str, same_text, string_of};

verus! {

/// The parameters of a callable: what errors call it, its names, how many
/// arguments it needs and how many may be positional.
pub struct Signature {
    /// What errors call it, with the brackets if it has any.
    pub label: &'static str,
    /// What errors about unknown keywords call it.
    pub subject: &'static str,
    pub required: usize,
    pub max_positional: usize,
}

/// The error for too many arguments.
pub open spec fn too_many_error(label: Seq<char>, most: nat, kind: Seq<char>, given: nat) -> Raised {
    (
        ExcType::TypeError,
        label + " takes at most "@ + nat_digits(most) + kind + " argument"@ + plural(most) + " ("@
            + nat_digits(given) + " given)"@,
    )
}

/// The error for an argument that is missing.
pub open spec fn required_error(label: Seq<char>, parameter: Seq<char>, place: nat) -> Raised {
    (
        ExcType::TypeError,
        label + " missing required argument '"@ + parameter + "' (pos "@ + nat_digits(place)
            + ")"@,
    )
}

/// The error for an argument that is given twice.
pub open spec fn doubled_error(label: Seq<char>, parameter: Seq<char>, place: nat) -> Raised {
    (
        ExcType::TypeError,
        "argument for "@ + label + " given by name ('"@ + parameter + "') and position ("@
            + nat_digits(place) + ")"@,
    )
}

/// The error for a keyword that is no parameter.
pub open spec fn unknown_error(subject: Seq<char>, keyword: Seq<char>) -> Raised {
    (ExcType::TypeError, subject + " got an unexpected keyword argument '"@ + keyword + "'"@)
}

impl ArgValues {
    /// Whether an argument is given by this name.
    pub open spec fn named(self, name: Seq<char>, interns: Interns) -> bool {
        place_of(kwarg_names(self.kwargs@, interns), name, 0) < self.kwargs@.len()
    }

    /// The first parameter from `i` on that is required and not given.
    pub open spec fn first_missing(
        self,
        params: Seq<Seq<char>>,
        required: int,
        interns: Interns,
        i: int,
    ) -> Option<int>
        decreases required - i,
    {
        if i >= required {
            None
        } else if self.argument(i, params[i], interns) is None {
            Some(i)
        } else {
            self.first_missing(params, required, interns, i + 1)
        }
    }

    /// The first parameter from `i` on that is given by position and by name.
    pub open spec fn first_doubled(
        self,
        params: Seq<Seq<char>>,
        interns: Interns,
        i: int,
    ) -> Option<int>
        decreases params.len() - i,
    {
        if i >= params.len() || i >= self.pos@.len() {
            None
        } else if self.named(params[i], interns) {
            Some(i)
        } else {
            self.first_doubled(params, interns, i + 1)
        }
    }

    /// The first keyword argument from `k` on that is no parameter.
    pub open spec fn first_unknown(
        self,
        params: Seq<Seq<char>>,
        interns: Interns,
        k: int,
    ) -> Option<int>
        decreases self.kwargs@.len() - k,
    {
        if k >= self.kwargs@.len() {
            None
        } else if place_of(params, self.kwargs@[k].0.text(interns), 0) >= params.len() {
            Some(k)
        } else {
            self.first_unknown(params, interns, k + 1)
        }
    }

    /// The error for a call that does not fit the parameters, if any.
    pub open spec fn signature_error(
        self,
        signature: Signature,
        params: Seq<Seq<char>>,
        interns: Interns,
    ) -> Option<Raised> {
        if self.total() > params.len() {
            Some(too_many_error(signature.label@, params.len(), ""@, self.total()))
        } else if self.pos@.len() > signature.max_positional {
            Some(
                too_many_error(
                    signature.label@,
                    signature.max_positional as nat,
                    " positional"@,
                    self.pos@.len(),
                ),
            )
        } else if let Some(i) = self.first_missing(params, signature.required as int, interns, 0) {
            Some(required_error(signature.label@, params[i], (i + 1) as nat))
        } else if let Some(i) = self.first_doubled(params, interns, 0) {
            Some(doubled_error(signature.label@, params[i], (i + 1) as nat))
        } else if let Some(k) = self.first_unknown(params, interns, 0) {
            Some(unknown_error(signature.subject@, self.kwargs@[k].0.text(interns)))
        } else {
            None
        }
    }
}

fn too_many(label: &str, most: usize, kind: &str, given: usize) -> (r: RunError)
    ensures
        r.says(
            ExcType::TypeError,
            too_many_error(label@, most as nat, kind@, given as nat).1,
        ),
{
    let mut out: Vec<char> = Vec::new();
    push_str(&mut out, label);
    push_str(&mut out, " takes at most ");
    push_nat(&mut out, most as u64);
    push_str(&mut out, kind);
    push_str(&mut out, " argument");
    if most == 1 {
        push_str(&mut out, "");
    } else {
        push_str(&mut out, "s");
    }
    push_str(&mut out, " (");
    push_nat(&mut out, given as u64);
    push_str(&mut out, " given)");
    assert(out@ =~= too_many_error(label@, most as nat, kind@, given as nat).1);
    RunError::new_msg(ExcType::TypeError, string_of(&out))
}

fn placed_error(
    head: &str,
    label: &str,
    middle: &str,
    parameter: &str,
    tail: &str,
    place: usize,
) -> (r: RunError)
    requires
        place < usize::MAX,
    ensures
        r.says(
            ExcType::TypeError,
            head@ + label@ + middle@ + parameter@ + tail@ + nat_digits((place + 1) as nat) + ")"@,
        ),
{
    let mut out: Vec<char> = Vec::new();
    push_str(&mut out, head);
    push_str(&mut out, label);
    push_str(&mut out, middle);
    push_str(&mut out, parameter);
    push_str(&mut out, tail);
    push_nat(&mut out, place as u64 + 1);
    push_str(&mut out, ")");
    assert(out@ =~= head@ + label@ + middle@ + parameter@ + tail@ + nat_digits((place + 1) as nat)
        + ")"@);
    RunError::new_msg(ExcType::TypeError, string_of(&out))
}

fn unknown(subject: &str, keyword: &str) -> (r: RunError)
    ensures
        r.says(ExcType::TypeError, unknown_error(subject@, keyword@).1),
{
    let mut out: Vec<char> = Vec::new();
    push_str(&mut out, subject);
    push_str(&mut out, " got an unexpected keyword argument '");
    push_str(&mut out, keyword);
    push_str(&mut out, "'");
    assert(out@ =~= unknown_error(subject@, keyword@).1);
    RunError::new_msg(ExcType::TypeError, string_of(&out))
}

/// Whether a name is one of the parameters.
fn is_param(params: &[&'static str], keyword: &str) -> (r: bool)
    ensures
        r == (place_of(param_texts(params@), keyword@, 0) < params@.len()),
{
    let ghost texts = param_texts(params@);
    let mut place: usize = 0;
    while place < params.len()
        invariant
            texts == param_texts(params@),
            place <= params@.len(),
            place_of(texts, keyword@, 0) == place_of(texts, keyword@, place as int),
        decreases params@.len() - place,
    {
        if same_text(params[place], keyword) {
            return true;
        }
        place = place + 1;
    }
    false
}

impl ArgValues {
    /// Whether an argument is given by this name.
    fn has_keyword(&self, name: &str, interns: &Interns) -> (r: bool)
        requires
            forall|i: int|
                0 <= i < self.kwargs@.len() ==> (#[trigger] self.kwargs@[i]).0.ok(*interns),
        ensures
            r == self.named(name@, *interns),
    {
        let ghost names = kwarg_names(self.kwargs@, *interns);
        let mut k: usize = 0;
        while k < self.kwargs.len()
            invariant
                names == kwarg_names(self.kwargs@, *interns),
                k <= self.kwargs@.len(),
                forall|i: int|
                    0 <= i < self.kwargs@.len() ==> (#[trigger] self.kwargs@[i]).0.ok(*interns),
                place_of(names, name@, 0) == place_of(names, name@, k as int),
            decreases self.kwargs@.len() - k,
        {
            let keyword = self.kwargs[k].0.as_str(interns);
            assert(names[k as int] == keyword@);
            if same_text(keyword, name) {
                return true;
            }
            k = k + 1;
        }
        false
    }

    /// Checks a call against the parameters of a callable.
    pub fn check_signature(
        &self,
        signature: &Signature,
        params: &[&'static str],
        interns: &Interns,
    ) -> (r: RunResult<()>)
        requires
            self.total() <= usize::MAX,
            signature.required <= params@.len() < usize::MAX,
            forall|i: int|
                0 <= i < self.kwargs@.len() ==> (#[trigger] self.kwargs@[i]).0.ok(*interns),
        ensures
            match self.signature_error(*signature, param_texts(params@), *interns) {
                Some(e) => raises(r, e),
                None => r is Ok,
            },
    {
        let ghost texts = param_texts(params@);
        let count: usize = self.pos.len() + self.kwargs.len();
        if count > params.len() {
            return Err(too_many(signature.label, params.len(), "", count));
        }
        if self.pos.len() > signature.max_positional {
            return Err(
                too_many(
                    signature.label,
                    signature.max_positional,
                    " positional",
                    self.pos.len(),
                ),
            );
        }
        for i in 0..signature.required
            invariant
                texts == param_texts(params@),
                signature.required <= params@.len() < usize::MAX,
                self.total() <= params@.len(),
                self.pos@.len() <= signature.max_positional,
                forall|i: int|
                    0 <= i < self.kwargs@.len() ==> (#[trigger] self.kwargs@[i]).0.ok(*interns),
                self.first_missing(texts, signature.required as int, *interns, 0)
                    == self.first_missing(texts, signature.required as int, *interns, i as int),
        {
            assert(texts[i as int] == params@[i as int]@);
            if self.get_argument(i, params[i], interns).is_none() {
                proof {
                    reveal_strlit("");
                    assert(""@ + signature.label@ =~= signature.label@);
                }
                return Err(
                    placed_error(
                        "",
                        signature.label,
                        " missing required argument '",
                        params[i],
                        "' (pos ",
                        i,
                    ),
                );
            }
        }
        let mut i: usize = 0;
        while i < params.len() && i < self.pos.len()
            invariant
                i <= params@.len() < usize::MAX,
                texts == param_texts(params@),
                forall|i: int|
                    0 <= i < self.kwargs@.len() ==> (#[trigger] self.kwargs@[i]).0.ok(*interns),
                self.total() <= params@.len(),
                self.pos@.len() <= signature.max_positional,
                self.first_missing(texts, signature.required as int, *interns, 0) is None,
                self.first_doubled(texts, *interns, 0) == self.first_doubled(
                    texts,
                    *interns,
                    i as int,
                ),
            decreases params@.len() - i,
        {
            assert(texts[i as int] == params@[i as int]@);
            if self.has_keyword(params[i], interns) {
                return Err(
                    placed_error(
                        "argument for ",
                        signature.label,
                        " given by name ('",
                        params[i],
                        "') and position (",
                        i,
                    ),
                );
            }
            i = i + 1;
        }
        for k in 0..self.kwargs.len()
            invariant
                texts == param_texts(params@),
                forall|i: int|
                    0 <= i < self.kwargs@.len() ==> (#[trigger] self.kwargs@[i]).0.ok(*interns),
                self.total() <= params@.len(),
                self.pos@.len() <= signature.max_positional,
                self.first_missing(texts, signature.required as int, *interns, 0) is None,
                self.first_doubled(texts, *interns, 0) is None,
                self.first_unknown(texts, *interns, 0) == self.first_unknown(
                    texts,
                    *interns,
                    k as int,
                ),
        {
            let keyword = self.kwargs[k].0.as_str(interns);
            if !is_param(params, keyword) {
                return Err(unknown(signature.subject, keyword));
            }
        }
        Ok(())
    }

    /// An integer argument of 32 bits; `fallback` stands for one that is not given.
    pub open spec fn small_arg(
        self,
        i: int,
        name: Seq<char>,
        fallback: int,
        interns: Interns,
    ) -> Result<int, Raised> {
        match self.argument(i, name, interns) {
            None => Ok(fallback),
            Some(v) => crate::value_int::small_int(v),
        }
    }

    /// An integer argument of 32 bits; `fallback` stands for one that is not given.
    pub fn get_small_arg(&self, i: usize, name: &str, fallback: i32, interns: &Interns) -> (r:
        RunResult<i32>)
        requires
            forall|i: int|
                0 <= i < self.kwargs@.len() ==> (#[trigger] self.kwargs@[i]).0.ok(*interns),
        ensures
            match self.small_arg(i as int, name@, fallback as int, *interns) {
                Ok(n) => r matches Ok(m) && m == n,
                Err(e) => raises(r, e),
            },
    {
        match self.get_argument(i, name, interns) {
            None => Ok(fallback),
            Some(v) => v.to_i32(),
        }
    }
}

/// The error of the first of `n` integer arguments from `i` on that is none of
/// 32 bits, if any.
pub open spec fn first_bad_int(
    args: ArgValues,
    params: Seq<Seq<char>>,
    fallbacks: Seq<i32>,
    interns: Interns,
    i: int,
) -> Option<Raised>
    decreases fallbacks.len() - i,
{
    if i >= fallbacks.len() {
        None
    } else {
        match args.small_arg(i, params[i], fallbacks[i] as int, interns) {
            Err(e) => Some(e),
            Ok(_) => first_bad_int(args, params, fallbacks, interns, i + 1),
        }
    }
}

/// Whether integers are the arguments for the first parameters.
pub open spec fn ints_are(
    values: Seq<i32>,
    args: ArgValues,
    params: Seq<Seq<char>>,
    fallbacks: Seq<i32>,
    interns: Interns,
) -> bool {
    &&& values.len() == fallbacks.len()
    &&& forall|i: int|
        0 <= i < values.len() ==> args.small_arg(i, params[i], fallbacks[i] as int, interns) == Ok::<
            int,
            Raised,
        >((#[trigger] values[i]) as int)
}

/// The integer arguments for the first parameters.
pub fn get_small_args(
    args: &ArgValues,
    params: &[&'static str],
    fallbacks: &[i32],
    interns: &Interns,
) -> (r: RunResult<Vec<i32>>)
    requires
        fallbacks@.len() <= params@.len(),
        forall|i: int|
            0 <= i < args.kwargs@.len() ==> (#[trigger] args.kwargs@[i]).0.ok(*interns),
    ensures
        match first_bad_int(*args, param_texts(params@), fallbacks@, *interns, 0) {
            Some(e) => raises(r, e),
            None => r matches Ok(values) && ints_are(
                values@,
                *args,
                param_texts(params@),
                fallbacks@,
                *interns,
            ),
        },
{
    let ghost texts = param_texts(params@);
    let mut out: Vec<i32> = Vec::new();
    for i in 0..fallbacks.len()
        invariant
            texts == param_texts(params@),
            fallbacks@.len() <= params@.len(),
            out@.len() == i,
            forall|j: int|
                0 <= j < args.kwargs@.len() ==> (#[trigger] args.kwargs@[j]).0.ok(*interns),
            forall|j: int|
                0 <= j < i ==> args.small_arg(j, texts[j], fallbacks@[j] as int, *interns) == Ok::<
                    int,
                    Raised,
                >((#[trigger] out@[j]) as int),
            first_bad_int(*args, texts, fallbacks@, *interns, 0) == first_bad_int(
                *args,
                texts,
                fallbacks@,
                *interns,
                i as int,
            ),
    {
        assert(texts[i as int] == params@[i as int]@);
        match args.get_small_arg(i, params[i], fallbacks[i], interns) {
            Ok(n) => out.push(n),
            Err(e) => {
                return Err(e);
            },
        }
    }
    Ok(out)
}

} // verus!
