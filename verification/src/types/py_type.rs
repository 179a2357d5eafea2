//! Python's types by name.

use vstd::prelude::*;

verus! {

/// The type of a value.
#[derive(Clone, Copy, Debug, PartialEq, Eq, Structural)]
pub enum Type {
    Bool,
    BufferedRandom,
    BufferedReader,
    BufferedWriter,
    BuiltinFunction,
    Bytes,
    Dataclass,
    Date,
    DateTime,
    Dict,
    DictItems,
    DictKeys,
    DictValues,
    Ellipsis,
    Float,
    FrozenSet,
    Function,
    Int,
    List,
    Module,
    NamedTuple,
    NoneType,
    Path,
    Property,
    Range,
    ReMatch,
    RePattern,
    SetType,
    Slice,
    SpecialForm,
    Str,
    TestContextManager,
    TextIOWrapper,
    TimeDelta,
    TimeZone,
    Tuple,
    Type,
}

impl Type {
    /// The name that messages show.
    pub open spec fn text(self) -> Seq<char> {
        match self {
            Type::Bool => "bool"@,
            Type::BufferedRandom => "_io.BufferedRandom"@,
            Type::BufferedReader => "_io.BufferedReader"@,
            Type::BufferedWriter => "_io.BufferedWriter"@,
            Type::BuiltinFunction => "builtin_function_or_method"@,
            Type::Bytes => "bytes"@,
            Type::Dataclass => "dataclass"@,
            Type::Date => "datetime.date"@,
            Type::DateTime => "datetime.datetime"@,
            Type::Dict => "dict"@,
            Type::DictItems => "dict_items"@,
            Type::DictKeys => "dict_keys"@,
            Type::DictValues => "dict_values"@,
            Type::Ellipsis => "ellipsis"@,
            Type::Float => "float"@,
            Type::FrozenSet => "frozenset"@,
            Type::Function => "function"@,
            Type::Int => "int"@,
            Type::List => "list"@,
            Type::Module => "module"@,
            Type::NamedTuple => "namedtuple"@,
            Type::NoneType => "NoneType"@,
            Type::Path => "PosixPath"@,
            Type::Property => "property"@,
            Type::Range => "range"@,
            Type::ReMatch => "re.Match"@,
            Type::RePattern => "re.Pattern"@,
            Type::SetType => "set"@,
            Type::Slice => "slice"@,
            Type::SpecialForm => "_SpecialForm"@,
            Type::Str => "str"@,
            Type::TestContextManager => "_test_cm"@,
            Type::TextIOWrapper => "_io.TextIOWrapper"@,
            Type::TimeDelta => "datetime.timedelta"@,
            Type::TimeZone => "datetime.timezone"@,
            Type::Tuple => "tuple"@,
            Type::Type => "type"@,
        }
    }

    /// The name that messages show.
    pub fn as_str(self) -> (r: &'static str)
        ensures
            r@ == self.text(),
    {
        match self {
            Type::Bool => "bool",
            Type::BufferedRandom => "_io.BufferedRandom",
            Type::BufferedReader => "_io.BufferedReader",
            Type::BufferedWriter => "_io.BufferedWriter",
            Type::BuiltinFunction => "builtin_function_or_method",
            Type::Bytes => "bytes",
            Type::Dataclass => "dataclass",
            Type::Date => "datetime.date",
            Type::DateTime => "datetime.datetime",
            Type::Dict => "dict",
            Type::DictItems => "dict_items",
            Type::DictKeys => "dict_keys",
            Type::DictValues => "dict_values",
            Type::Ellipsis => "ellipsis",
            Type::Float => "float",
            Type::FrozenSet => "frozenset",
            Type::Function => "function",
            Type::Int => "int",
            Type::List => "list",
            Type::Module => "module",
            Type::NamedTuple => "namedtuple",
            Type::NoneType => "NoneType",
            Type::Path => "PosixPath",
            Type::Property => "property",
            Type::Range => "range",
            Type::ReMatch => "re.Match",
            Type::RePattern => "re.Pattern",
            Type::SetType => "set",
            Type::Slice => "slice",
            Type::SpecialForm => "_SpecialForm",
            Type::Str => "str",
            Type::TestContextManager => "_test_cm",
            Type::TextIOWrapper => "_io.TextIOWrapper",
            Type::TimeDelta => "datetime.timedelta",
            Type::TimeZone => "datetime.timezone",
            Type::Tuple => "tuple",
            Type::Type => "type",
        }
    }

    /// The name that argument errors show: `None` rather than `NoneType`.
    pub open spec fn arg_text(self) -> Seq<char> {
        if self == Type::NoneType {
            "None"@
        } else {
            self.text()
        }
    }

    /// The name that argument errors show: `None` rather than `NoneType`.
    pub fn cpython_arg_name(self) -> (r: &'static str)
        ensures
            r@ == self.arg_text(),
    {
        match self {
            Type::NoneType => "None",
            other => other.as_str(),
        }
    }
}

} // verus!
