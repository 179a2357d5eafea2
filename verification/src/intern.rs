//! Interned strings, bytes and integer literals.

use vstd::prelude::*;

use crate::text::{string_of, same_text};
use crate::types::long_int::LongInt;

verus! {

/// Number of one-character ASCII strings that are always interned.
pub const ASCII_STRINGS: usize = 128;

/// Number of names that are always interned.
pub const STATIC_STRINGS: usize = 102;

/// Index of an interned string.
#[derive(Clone, Copy, Debug, PartialEq, Eq, Structural)]
pub struct StringId(pub usize);

/// Index of an interned bytes literal.
#[derive(Clone, Copy, Debug, PartialEq, Eq, Structural)]
pub struct BytesId(pub usize);

/// Index of an interned integer literal that does not fit in 64 bits.
#[derive(Clone, Copy, Debug, PartialEq, Eq, Structural)]
pub struct LongIntId(pub usize);

/// Index of a function of the program.
#[derive(Clone, Copy, Debug, PartialEq, Eq, Structural)]
pub struct FunctionId(pub usize);

impl StringId {
    /// The position in the table.
    pub fn index(self) -> (r: usize)
        ensures
            r == self.0,
    {
        self.0
    }
}

/// Names that the interpreter itself refers to.
#[derive(Clone, Copy, Debug, PartialEq, Eq, Structural)]
pub enum StaticStrings {
    EmptyString,
    AsPosix,
    Capitalize,
    Casefold,
    Center,
    Close,
    Closed,
    Count,
    Date,
    Day,
    DunderName,
    Encode,
    Encoding,
    Endswith,
    Expandtabs,
    Find,
    Findall,
    Finditer,
    Flags,
    Flush,
    Fspath,
    Fullmatch,
    Hour,
    Index,
    IsAbsolute,
    Isalnum,
    Isalpha,
    Isascii,
    Isdecimal,
    Isdigit,
    Isdisjoint,
    Isidentifier,
    Islower,
    Isnumeric,
    Isoformat,
    Isoweekday,
    Isspace,
    Istitle,
    Isupper,
    Join,
    Joinpath,
    Ljust,
    Lower,
    Lstrip,
    Match,
    Microsecond,
    Minute,
    Mode,
    Month,
    Name,
    Open,
    Parent,
    Partition,
    Parts,
    PatternAttr,
    Read,
    Readable,
    Readline,
    Readlines,
    Removeprefix,
    Removesuffix,
    Replace,
    Rfind,
    Rindex,
    Rjust,
    Rpartition,
    Rsplit,
    Rstrip,
    Search,
    Second,
    Seek,
    Seekable,
    Split,
    Splitlines,
    Start,
    Startswith,
    Stderr,
    Stdout,
    Stem,
    Step,
    Stop,
    Strftime,
    Strip,
    Sub,
    Suffix,
    Suffixes,
    Swapcase,
    Tell,
    Timestamp,
    Title,
    Tz,
    Tzinfo,
    UnionType,
    Upper,
    Weekday,
    WithName,
    WithStem,
    WithSuffix,
    Writable,
    Write,
    Year,
    Zfill,
}

impl StaticStrings {
    /// The text of the name.
    pub open spec fn text(self) -> Seq<char> {
        match self {
            StaticStrings::EmptyString => ""@,
            StaticStrings::AsPosix => "as_posix"@,
            StaticStrings::Capitalize => "capitalize"@,
            StaticStrings::Casefold => "casefold"@,
            StaticStrings::Center => "center"@,
            StaticStrings::Close => "close"@,
            StaticStrings::Closed => "closed"@,
            StaticStrings::Count => "count"@,
            StaticStrings::Date => "date"@,
            StaticStrings::Day => "day"@,
            StaticStrings::DunderName => "__name__"@,
            StaticStrings::Encode => "encode"@,
            StaticStrings::Encoding => "encoding"@,
            StaticStrings::Endswith => "endswith"@,
            StaticStrings::Expandtabs => "expandtabs"@,
            StaticStrings::Find => "find"@,
            StaticStrings::Findall => "findall"@,
            StaticStrings::Finditer => "finditer"@,
            StaticStrings::Flags => "flags"@,
            StaticStrings::Flush => "flush"@,
            StaticStrings::Fspath => "__fspath__"@,
            StaticStrings::Fullmatch => "fullmatch"@,
            StaticStrings::Hour => "hour"@,
            StaticStrings::Index => "index"@,
            StaticStrings::IsAbsolute => "is_absolute"@,
            StaticStrings::Isalnum => "isalnum"@,
            StaticStrings::Isalpha => "isalpha"@,
            StaticStrings::Isascii => "isascii"@,
            StaticStrings::Isdecimal => "isdecimal"@,
            StaticStrings::Isdigit => "isdigit"@,
            StaticStrings::Isdisjoint => "isdisjoint"@,
            StaticStrings::Isidentifier => "isidentifier"@,
            StaticStrings::Islower => "islower"@,
            StaticStrings::Isnumeric => "isnumeric"@,
            StaticStrings::Isoformat => "isoformat"@,
            StaticStrings::Isoweekday => "isoweekday"@,
            StaticStrings::Isspace => "isspace"@,
            StaticStrings::Istitle => "istitle"@,
            StaticStrings::Isupper => "isupper"@,
            StaticStrings::Join => "join"@,
            StaticStrings::Joinpath => "joinpath"@,
            StaticStrings::Ljust => "ljust"@,
            StaticStrings::Lower => "lower"@,
            StaticStrings::Lstrip => "lstrip"@,
            StaticStrings::Match => "match"@,
            StaticStrings::Microsecond => "microsecond"@,
            StaticStrings::Minute => "minute"@,
            StaticStrings::Mode => "mode"@,
            StaticStrings::Month => "month"@,
            StaticStrings::Name => "name"@,
            StaticStrings::Open => "open"@,
            StaticStrings::Parent => "parent"@,
            StaticStrings::Partition => "partition"@,
            StaticStrings::Parts => "parts"@,
            StaticStrings::PatternAttr => "pattern"@,
            StaticStrings::Read => "read"@,
            StaticStrings::Readable => "readable"@,
            StaticStrings::Readline => "readline"@,
            StaticStrings::Readlines => "readlines"@,
            StaticStrings::Removeprefix => "removeprefix"@,
            StaticStrings::Removesuffix => "removesuffix"@,
            StaticStrings::Replace => "replace"@,
            StaticStrings::Rfind => "rfind"@,
            StaticStrings::Rindex => "rindex"@,
            StaticStrings::Rjust => "rjust"@,
            StaticStrings::Rpartition => "rpartition"@,
            StaticStrings::Rsplit => "rsplit"@,
            StaticStrings::Rstrip => "rstrip"@,
            StaticStrings::Search => "search"@,
            StaticStrings::Second => "second"@,
            StaticStrings::Seek => "seek"@,
            StaticStrings::Seekable => "seekable"@,
            StaticStrings::Split => "split"@,
            StaticStrings::Splitlines => "splitlines"@,
            StaticStrings::Start => "start"@,
            StaticStrings::Startswith => "startswith"@,
            StaticStrings::Stderr => "stderr"@,
            StaticStrings::Stdout => "stdout"@,
            StaticStrings::Stem => "stem"@,
            StaticStrings::Step => "step"@,
            StaticStrings::Stop => "stop"@,
            StaticStrings::Strftime => "strftime"@,
            StaticStrings::Strip => "strip"@,
            StaticStrings::Sub => "sub"@,
            StaticStrings::Suffix => "suffix"@,
            StaticStrings::Suffixes => "suffixes"@,
            StaticStrings::Swapcase => "swapcase"@,
            StaticStrings::Tell => "tell"@,
            StaticStrings::Timestamp => "timestamp"@,
            StaticStrings::Title => "title"@,
            StaticStrings::Tz => "tz"@,
            StaticStrings::Tzinfo => "tzinfo"@,
            StaticStrings::UnionType => "Union"@,
            StaticStrings::Upper => "upper"@,
            StaticStrings::Weekday => "weekday"@,
            StaticStrings::WithName => "with_name"@,
            StaticStrings::WithStem => "with_stem"@,
            StaticStrings::WithSuffix => "with_suffix"@,
            StaticStrings::Writable => "writable"@,
            StaticStrings::Write => "write"@,
            StaticStrings::Year => "year"@,
            StaticStrings::Zfill => "zfill"@,
        }
    }

    /// The position of the name among the names.
    pub open spec fn position(self) -> int {
        match self {
            StaticStrings::EmptyString => 0,
            StaticStrings::AsPosix => 1,
            StaticStrings::Capitalize => 2,
            StaticStrings::Casefold => 3,
            StaticStrings::Center => 4,
            StaticStrings::Close => 5,
            StaticStrings::Closed => 6,
            StaticStrings::Count => 7,
            StaticStrings::Date => 8,
            StaticStrings::Day => 9,
            StaticStrings::DunderName => 10,
            StaticStrings::Encode => 11,
            StaticStrings::Encoding => 12,
            StaticStrings::Endswith => 13,
            StaticStrings::Expandtabs => 14,
            StaticStrings::Find => 15,
            StaticStrings::Findall => 16,
            StaticStrings::Finditer => 17,
            StaticStrings::Flags => 18,
            StaticStrings::Flush => 19,
            StaticStrings::Fspath => 20,
            StaticStrings::Fullmatch => 21,
            StaticStrings::Hour => 22,
            StaticStrings::Index => 23,
            StaticStrings::IsAbsolute => 24,
            StaticStrings::Isalnum => 25,
            StaticStrings::Isalpha => 26,
            StaticStrings::Isascii => 27,
            StaticStrings::Isdecimal => 28,
            StaticStrings::Isdigit => 29,
            StaticStrings::Isdisjoint => 30,
            StaticStrings::Isidentifier => 31,
            StaticStrings::Islower => 32,
            StaticStrings::Isnumeric => 33,
            StaticStrings::Isoformat => 34,
            StaticStrings::Isoweekday => 35,
            StaticStrings::Isspace => 36,
            StaticStrings::Istitle => 37,
            StaticStrings::Isupper => 38,
            StaticStrings::Join => 39,
            StaticStrings::Joinpath => 40,
            StaticStrings::Ljust => 41,
            StaticStrings::Lower => 42,
            StaticStrings::Lstrip => 43,
            StaticStrings::Match => 44,
            StaticStrings::Microsecond => 45,
            StaticStrings::Minute => 46,
            StaticStrings::Mode => 47,
            StaticStrings::Month => 48,
            StaticStrings::Name => 49,
            StaticStrings::Open => 50,
            StaticStrings::Parent => 51,
            StaticStrings::Partition => 52,
            StaticStrings::Parts => 53,
            StaticStrings::PatternAttr => 54,
            StaticStrings::Read => 55,
            StaticStrings::Readable => 56,
            StaticStrings::Readline => 57,
            StaticStrings::Readlines => 58,
            StaticStrings::Removeprefix => 59,
            StaticStrings::Removesuffix => 60,
            StaticStrings::Replace => 61,
            StaticStrings::Rfind => 62,
            StaticStrings::Rindex => 63,
            StaticStrings::Rjust => 64,
            StaticStrings::Rpartition => 65,
            StaticStrings::Rsplit => 66,
            StaticStrings::Rstrip => 67,
            StaticStrings::Search => 68,
            StaticStrings::Second => 69,
            StaticStrings::Seek => 70,
            StaticStrings::Seekable => 71,
            StaticStrings::Split => 72,
            StaticStrings::Splitlines => 73,
            StaticStrings::Start => 74,
            StaticStrings::Startswith => 75,
            StaticStrings::Stderr => 76,
            StaticStrings::Stdout => 77,
            StaticStrings::Stem => 78,
            StaticStrings::Step => 79,
            StaticStrings::Stop => 80,
            StaticStrings::Strftime => 81,
            StaticStrings::Strip => 82,
            StaticStrings::Sub => 83,
            StaticStrings::Suffix => 84,
            StaticStrings::Suffixes => 85,
            StaticStrings::Swapcase => 86,
            StaticStrings::Tell => 87,
            StaticStrings::Timestamp => 88,
            StaticStrings::Title => 89,
            StaticStrings::Tz => 90,
            StaticStrings::Tzinfo => 91,
            StaticStrings::UnionType => 92,
            StaticStrings::Upper => 93,
            StaticStrings::Weekday => 94,
            StaticStrings::WithName => 95,
            StaticStrings::WithStem => 96,
            StaticStrings::WithSuffix => 97,
            StaticStrings::Writable => 98,
            StaticStrings::Write => 99,
            StaticStrings::Year => 100,
            StaticStrings::Zfill => 101,
        }
    }

    /// The text of the name.
    pub fn as_str(self) -> (r: &'static str)
        ensures
            r@ == self.text(),
    {
        match self {
            StaticStrings::EmptyString => "",
            StaticStrings::AsPosix => "as_posix",
            StaticStrings::Capitalize => "capitalize",
            StaticStrings::Casefold => "casefold",
            StaticStrings::Center => "center",
            StaticStrings::Close => "close",
            StaticStrings::Closed => "closed",
            StaticStrings::Count => "count",
            StaticStrings::Date => "date",
            StaticStrings::Day => "day",
            StaticStrings::DunderName => "__name__",
            StaticStrings::Encode => "encode",
            StaticStrings::Encoding => "encoding",
            StaticStrings::Endswith => "endswith",
            StaticStrings::Expandtabs => "expandtabs",
            StaticStrings::Find => "find",
            StaticStrings::Findall => "findall",
            StaticStrings::Finditer => "finditer",
            StaticStrings::Flags => "flags",
            StaticStrings::Flush => "flush",
            StaticStrings::Fspath => "__fspath__",
            StaticStrings::Fullmatch => "fullmatch",
            StaticStrings::Hour => "hour",
            StaticStrings::Index => "index",
            StaticStrings::IsAbsolute => "is_absolute",
            StaticStrings::Isalnum => "isalnum",
            StaticStrings::Isalpha => "isalpha",
            StaticStrings::Isascii => "isascii",
            StaticStrings::Isdecimal => "isdecimal",
            StaticStrings::Isdigit => "isdigit",
            StaticStrings::Isdisjoint => "isdisjoint",
            StaticStrings::Isidentifier => "isidentifier",
            StaticStrings::Islower => "islower",
            StaticStrings::Isnumeric => "isnumeric",
            StaticStrings::Isoformat => "isoformat",
            StaticStrings::Isoweekday => "isoweekday",
            StaticStrings::Isspace => "isspace",
            StaticStrings::Istitle => "istitle",
            StaticStrings::Isupper => "isupper",
            StaticStrings::Join => "join",
            StaticStrings::Joinpath => "joinpath",
            StaticStrings::Ljust => "ljust",
            StaticStrings::Lower => "lower",
            StaticStrings::Lstrip => "lstrip",
            StaticStrings::Match => "match",
            StaticStrings::Microsecond => "microsecond",
            StaticStrings::Minute => "minute",
            StaticStrings::Mode => "mode",
            StaticStrings::Month => "month",
            StaticStrings::Name => "name",
            StaticStrings::Open => "open",
            StaticStrings::Parent => "parent",
            StaticStrings::Partition => "partition",
            StaticStrings::Parts => "parts",
            StaticStrings::PatternAttr => "pattern",
            StaticStrings::Read => "read",
            StaticStrings::Readable => "readable",
            StaticStrings::Readline => "readline",
            StaticStrings::Readlines => "readlines",
            StaticStrings::Removeprefix => "removeprefix",
            StaticStrings::Removesuffix => "removesuffix",
            StaticStrings::Replace => "replace",
            StaticStrings::Rfind => "rfind",
            StaticStrings::Rindex => "rindex",
            StaticStrings::Rjust => "rjust",
            StaticStrings::Rpartition => "rpartition",
            StaticStrings::Rsplit => "rsplit",
            StaticStrings::Rstrip => "rstrip",
            StaticStrings::Search => "search",
            StaticStrings::Second => "second",
            StaticStrings::Seek => "seek",
            StaticStrings::Seekable => "seekable",
            StaticStrings::Split => "split",
            StaticStrings::Splitlines => "splitlines",
            StaticStrings::Start => "start",
            StaticStrings::Startswith => "startswith",
            StaticStrings::Stderr => "stderr",
            StaticStrings::Stdout => "stdout",
            StaticStrings::Stem => "stem",
            StaticStrings::Step => "step",
            StaticStrings::Stop => "stop",
            StaticStrings::Strftime => "strftime",
            StaticStrings::Strip => "strip",
            StaticStrings::Sub => "sub",
            StaticStrings::Suffix => "suffix",
            StaticStrings::Suffixes => "suffixes",
            StaticStrings::Swapcase => "swapcase",
            StaticStrings::Tell => "tell",
            StaticStrings::Timestamp => "timestamp",
            StaticStrings::Title => "title",
            StaticStrings::Tz => "tz",
            StaticStrings::Tzinfo => "tzinfo",
            StaticStrings::UnionType => "Union",
            StaticStrings::Upper => "upper",
            StaticStrings::Weekday => "weekday",
            StaticStrings::WithName => "with_name",
            StaticStrings::WithStem => "with_stem",
            StaticStrings::WithSuffix => "with_suffix",
            StaticStrings::Writable => "writable",
            StaticStrings::Write => "write",
            StaticStrings::Year => "year",
            StaticStrings::Zfill => "zfill",
        }
    }

    /// The position of the name among the names.
    pub fn index(self) -> (r: usize)
        ensures
            r == self.position(),
            r < STATIC_STRINGS,
    {
        match self {
            StaticStrings::EmptyString => 0,
            StaticStrings::AsPosix => 1,
            StaticStrings::Capitalize => 2,
            StaticStrings::Casefold => 3,
            StaticStrings::Center => 4,
            StaticStrings::Close => 5,
            StaticStrings::Closed => 6,
            StaticStrings::Count => 7,
            StaticStrings::Date => 8,
            StaticStrings::Day => 9,
            StaticStrings::DunderName => 10,
            StaticStrings::Encode => 11,
            StaticStrings::Encoding => 12,
            StaticStrings::Endswith => 13,
            StaticStrings::Expandtabs => 14,
            StaticStrings::Find => 15,
            StaticStrings::Findall => 16,
            StaticStrings::Finditer => 17,
            StaticStrings::Flags => 18,
            StaticStrings::Flush => 19,
            StaticStrings::Fspath => 20,
            StaticStrings::Fullmatch => 21,
            StaticStrings::Hour => 22,
            StaticStrings::Index => 23,
            StaticStrings::IsAbsolute => 24,
            StaticStrings::Isalnum => 25,
            StaticStrings::Isalpha => 26,
            StaticStrings::Isascii => 27,
            StaticStrings::Isdecimal => 28,
            StaticStrings::Isdigit => 29,
            StaticStrings::Isdisjoint => 30,
            StaticStrings::Isidentifier => 31,
            StaticStrings::Islower => 32,
            StaticStrings::Isnumeric => 33,
            StaticStrings::Isoformat => 34,
            StaticStrings::Isoweekday => 35,
            StaticStrings::Isspace => 36,
            StaticStrings::Istitle => 37,
            StaticStrings::Isupper => 38,
            StaticStrings::Join => 39,
            StaticStrings::Joinpath => 40,
            StaticStrings::Ljust => 41,
            StaticStrings::Lower => 42,
            StaticStrings::Lstrip => 43,
            StaticStrings::Match => 44,
            StaticStrings::Microsecond => 45,
            StaticStrings::Minute => 46,
            StaticStrings::Mode => 47,
            StaticStrings::Month => 48,
            StaticStrings::Name => 49,
            StaticStrings::Open => 50,
            StaticStrings::Parent => 51,
            StaticStrings::Partition => 52,
            StaticStrings::Parts => 53,
            StaticStrings::PatternAttr => 54,
            StaticStrings::Read => 55,
            StaticStrings::Readable => 56,
            StaticStrings::Readline => 57,
            StaticStrings::Readlines => 58,
            StaticStrings::Removeprefix => 59,
            StaticStrings::Removesuffix => 60,
            StaticStrings::Replace => 61,
            StaticStrings::Rfind => 62,
            StaticStrings::Rindex => 63,
            StaticStrings::Rjust => 64,
            StaticStrings::Rpartition => 65,
            StaticStrings::Rsplit => 66,
            StaticStrings::Rstrip => 67,
            StaticStrings::Search => 68,
            StaticStrings::Second => 69,
            StaticStrings::Seek => 70,
            StaticStrings::Seekable => 71,
            StaticStrings::Split => 72,
            StaticStrings::Splitlines => 73,
            StaticStrings::Start => 74,
            StaticStrings::Startswith => 75,
            StaticStrings::Stderr => 76,
            StaticStrings::Stdout => 77,
            StaticStrings::Stem => 78,
            StaticStrings::Step => 79,
            StaticStrings::Stop => 80,
            StaticStrings::Strftime => 81,
            StaticStrings::Strip => 82,
            StaticStrings::Sub => 83,
            StaticStrings::Suffix => 84,
            StaticStrings::Suffixes => 85,
            StaticStrings::Swapcase => 86,
            StaticStrings::Tell => 87,
            StaticStrings::Timestamp => 88,
            StaticStrings::Title => 89,
            StaticStrings::Tz => 90,
            StaticStrings::Tzinfo => 91,
            StaticStrings::UnionType => 92,
            StaticStrings::Upper => 93,
            StaticStrings::Weekday => 94,
            StaticStrings::WithName => 95,
            StaticStrings::WithStem => 96,
            StaticStrings::WithSuffix => 97,
            StaticStrings::Writable => 98,
            StaticStrings::Write => 99,
            StaticStrings::Year => 100,
            StaticStrings::Zfill => 101,
        }
    }

    /// The name at a position.
    fn at(index: usize) -> (r: StaticStrings)
        requires
            index < STATIC_STRINGS,
        ensures
            r.position() == index,
    {
        match index {
            0 => StaticStrings::EmptyString,
            1 => StaticStrings::AsPosix,
            2 => StaticStrings::Capitalize,
            3 => StaticStrings::Casefold,
            4 => StaticStrings::Center,
            5 => StaticStrings::Close,
            6 => StaticStrings::Closed,
            7 => StaticStrings::Count,
            8 => StaticStrings::Date,
            9 => StaticStrings::Day,
            10 => StaticStrings::DunderName,
            11 => StaticStrings::Encode,
            12 => StaticStrings::Encoding,
            13 => StaticStrings::Endswith,
            14 => StaticStrings::Expandtabs,
            15 => StaticStrings::Find,
            16 => StaticStrings::Findall,
            17 => StaticStrings::Finditer,
            18 => StaticStrings::Flags,
            19 => StaticStrings::Flush,
            20 => StaticStrings::Fspath,
            21 => StaticStrings::Fullmatch,
            22 => StaticStrings::Hour,
            23 => StaticStrings::Index,
            24 => StaticStrings::IsAbsolute,
            25 => StaticStrings::Isalnum,
            26 => StaticStrings::Isalpha,
            27 => StaticStrings::Isascii,
            28 => StaticStrings::Isdecimal,
            29 => StaticStrings::Isdigit,
            30 => StaticStrings::Isdisjoint,
            31 => StaticStrings::Isidentifier,
            32 => StaticStrings::Islower,
            33 => StaticStrings::Isnumeric,
            34 => StaticStrings::Isoformat,
            35 => StaticStrings::Isoweekday,
            36 => StaticStrings::Isspace,
            37 => StaticStrings::Istitle,
            38 => StaticStrings::Isupper,
            39 => StaticStrings::Join,
            40 => StaticStrings::Joinpath,
            41 => StaticStrings::Ljust,
            42 => StaticStrings::Lower,
            43 => StaticStrings::Lstrip,
            44 => StaticStrings::Match,
            45 => StaticStrings::Microsecond,
            46 => StaticStrings::Minute,
            47 => StaticStrings::Mode,
            48 => StaticStrings::Month,
            49 => StaticStrings::Name,
            50 => StaticStrings::Open,
            51 => StaticStrings::Parent,
            52 => StaticStrings::Partition,
            53 => StaticStrings::Parts,
            54 => StaticStrings::PatternAttr,
            55 => StaticStrings::Read,
            56 => StaticStrings::Readable,
            57 => StaticStrings::Readline,
            58 => StaticStrings::Readlines,
            59 => StaticStrings::Removeprefix,
            60 => StaticStrings::Removesuffix,
            61 => StaticStrings::Replace,
            62 => StaticStrings::Rfind,
            63 => StaticStrings::Rindex,
            64 => StaticStrings::Rjust,
            65 => StaticStrings::Rpartition,
            66 => StaticStrings::Rsplit,
            67 => StaticStrings::Rstrip,
            68 => StaticStrings::Search,
            69 => StaticStrings::Second,
            70 => StaticStrings::Seek,
            71 => StaticStrings::Seekable,
            72 => StaticStrings::Split,
            73 => StaticStrings::Splitlines,
            74 => StaticStrings::Start,
            75 => StaticStrings::Startswith,
            76 => StaticStrings::Stderr,
            77 => StaticStrings::Stdout,
            78 => StaticStrings::Stem,
            79 => StaticStrings::Step,
            80 => StaticStrings::Stop,
            81 => StaticStrings::Strftime,
            82 => StaticStrings::Strip,
            83 => StaticStrings::Sub,
            84 => StaticStrings::Suffix,
            85 => StaticStrings::Suffixes,
            86 => StaticStrings::Swapcase,
            87 => StaticStrings::Tell,
            88 => StaticStrings::Timestamp,
            89 => StaticStrings::Title,
            90 => StaticStrings::Tz,
            91 => StaticStrings::Tzinfo,
            92 => StaticStrings::UnionType,
            93 => StaticStrings::Upper,
            94 => StaticStrings::Weekday,
            95 => StaticStrings::WithName,
            96 => StaticStrings::WithStem,
            97 => StaticStrings::WithSuffix,
            98 => StaticStrings::Writable,
            99 => StaticStrings::Write,
            100 => StaticStrings::Year,
            _ => StaticStrings::Zfill,
        }
    }

    /// The interned string of the name.
    pub open spec fn spec_id(self) -> StringId {
        StringId((ASCII_STRINGS + self.position()) as usize)
    }

    /// The interned string of the name.
    pub fn id(self) -> (r: StringId)
        ensures
            r == self.spec_id(),
    {
        StringId(ASCII_STRINGS + self.index())
    }

    /// The name that an interned string stands for, if it is one.
    pub fn from_string_id(id: StringId) -> (r: Option<StaticStrings>)
        ensures
            match r {
                Some(name) => name.spec_id() == id,
                None => forall|name: StaticStrings| #[trigger] name.spec_id() != id,
            },
    {
        if ASCII_STRINGS <= id.0 && id.0 - ASCII_STRINGS < STATIC_STRINGS {
            Some(StaticStrings::at(id.0 - ASCII_STRINGS))
        } else {
            None
        }
    }
}

/// Different names have different identifiers.
pub proof fn lemma_names_differ()
    ensures
        forall|a: StaticStrings, b: StaticStrings|
            #[trigger] a.spec_id() == #[trigger] b.spec_id() ==> a == b,
{
    assert forall|a: StaticStrings, b: StaticStrings|
        #[trigger] a.spec_id() == #[trigger] b.spec_id() implies a == b by {
        lemma_position_injective(a, b);
    }
}

/// Two names with the same position are the same name.
pub proof fn lemma_position_injective(a: StaticStrings, b: StaticStrings)
    requires
        a.position() == b.position(),
    ensures
        a == b,
{
}

/// The tables of interned literals.
#[derive(Debug)]
pub struct Interns {
    pub strings: Vec<String>,
    pub bytes: Vec<Vec<u8>>,
    pub long_ints: Vec<LongInt>,
}

impl Interns {
    /// Whether the one-character strings and the names are where they belong.
    pub open spec fn wf(self) -> bool {
        &&& self.strings@.len() >= ASCII_STRINGS + STATIC_STRINGS
        &&& forall|i: int|
            0 <= i < ASCII_STRINGS ==> (#[trigger] self.strings@[i])@ == seq![i as char]
        &&& forall|name: StaticStrings|
            self.strings@[ASCII_STRINGS + #[trigger] name.position()]@ == name.text()
    }

    /// The text of an interned string.
    pub open spec fn str_at(self, id: StringId) -> Seq<char> {
        self.strings@[id.0 as int]@
    }

    /// The bytes of an interned literal.
    pub open spec fn bytes_at(self, id: BytesId) -> Seq<u8> {
        self.bytes@[id.0 as int]@
    }

    /// The value of an interned integer.
    pub open spec fn long_int_at(self, id: LongIntId) -> int {
        self.long_ints@[id.0 as int]@
    }

    /// Tables that hold only what is always interned.
    pub fn new() -> (r: Interns)
        ensures
            r.wf(),
            r.strings@.len() == ASCII_STRINGS + STATIC_STRINGS,
            r.bytes@.len() == 0,
            r.long_ints@.len() == 0,
    {
        let mut strings: Vec<String> = Vec::new();
        let mut code: u8 = 0;
        while code < 128
            invariant
                code <= 128,
                strings@.len() == code,
                forall|i: int| 0 <= i < code ==> (#[trigger] strings@[i])@ == seq![i as char],
            decreases 128 - code,
        {
            let c = code as char;
            let one = string_of(&vec![c]);
            assert(one@ =~= seq![code as char]);
            strings.push(one);
            code = code + 1;
        }
        let mut k: usize = 0;
        while k < STATIC_STRINGS
            invariant
                k <= STATIC_STRINGS,
                strings@.len() == ASCII_STRINGS + k,
                forall|i: int|
                    0 <= i < ASCII_STRINGS ==> (#[trigger] strings@[i])@ == seq![i as char],
                forall|name: StaticStrings|
                    #[trigger] name.position() < k ==> strings@[ASCII_STRINGS + name.position()]@
                        == name.text(),
            decreases STATIC_STRINGS - k,
        {
            let name = StaticStrings::at(k);
            let ghost before = strings@;
            strings.push(name.as_str().to_owned());
            proof {
                assert forall|other: StaticStrings| #[trigger]
                    other.position() < k + 1 implies strings@[ASCII_STRINGS + other.position()]@
                    == other.text() by {
                    if other.position() == k {
                        lemma_position_injective(other, name);
                    } else {
                        assert(strings@[ASCII_STRINGS + other.position()] == before[ASCII_STRINGS
                            + other.position()]);
                    }
                }
                assert forall|i: int| 0 <= i < ASCII_STRINGS implies (#[trigger] strings@[i])@
                    == seq![i as char] by {
                    assert(strings@[i] == before[i]);
                }
            }
            k = k + 1;
        }
        Interns { strings, bytes: Vec::new(), long_ints: Vec::new() }
    }

    /// The text of an interned string.
    pub fn get_str(&self, id: StringId) -> (r: &str)
        requires
            id.0 < self.strings@.len(),
        ensures
            r@ == self.str_at(id),
    {
        self.strings[id.0].as_str()
    }

    /// The bytes of an interned literal.
    pub fn get_bytes(&self, id: BytesId) -> (r: &Vec<u8>)
        requires
            id.0 < self.bytes@.len(),
        ensures
            r@ == self.bytes_at(id),
    {
        &self.bytes[id.0]
    }

    /// The value of an interned integer.
    pub fn get_long_int(&self, id: LongIntId) -> (r: &LongInt)
        requires
            id.0 < self.long_ints@.len(),
        ensures
            r@ == self.long_int_at(id),
    {
        &self.long_ints[id.0]
    }

    /// Interns a string: the entry it already has, or a new one.
    pub fn intern(&mut self, text: &str) -> (r: StringId)
        requires
            old(self).wf(),
        ensures
            final(self).wf(),
            r.0 < final(self).strings@.len(),
            final(self).str_at(r) == text@,
            old(self).strings@.is_prefix_of(final(self).strings@),
            final(self).bytes == old(self).bytes,
            final(self).long_ints == old(self).long_ints,
            (exists|i: int| 0 <= i < old(self).strings@.len() && #[trigger] old(self).strings@[i]@ == text@)
                ==> final(self).strings == old(self).strings,
    {
        let mut i: usize = 0;
        while i < self.strings.len()
            invariant
                i <= self.strings@.len(),
                *self == *old(self),
                old(self).wf(),
                forall|j: int| 0 <= j < i ==> (#[trigger] self.strings@[j])@ != text@,
            decreases self.strings@.len() - i,
        {
            if same_text(self.strings[i].as_str(), text) {
                return StringId(i);
            }
            i = i + 1;
        }
        self.strings.push(text.to_owned());
        proof {
            let before = old(self).strings@;
            assert forall|k: int| 0 <= k < ASCII_STRINGS implies (#[trigger] self.strings@[k])@
                == seq![k as char] by {
                assert(self.strings@[k] == before[k]);
            }
            assert forall|name: StaticStrings|
                self.strings@[ASCII_STRINGS + #[trigger] name.position()]@ == name.text() by {
                assert(self.strings@[ASCII_STRINGS + name.position()] == before[ASCII_STRINGS
                    + name.position()]);
            }
            assert(before.is_prefix_of(self.strings@));
        }
        StringId(i)
    }

    /// Adds a bytes literal.
    pub fn add_bytes(&mut self, bytes: Vec<u8>) -> (r: BytesId)
        requires
            old(self).wf(),
        ensures
            final(self).wf(),
            final(self).strings == old(self).strings,
            final(self).long_ints == old(self).long_ints,
            final(self).bytes@ == old(self).bytes@.push(bytes),
            r.0 == old(self).bytes@.len(),
    {
        let id: usize = self.bytes.len();
        self.bytes.push(bytes);
        BytesId(id)
    }

    /// Adds an integer literal.
    pub fn add_long_int(&mut self, value: LongInt) -> (r: LongIntId)
        requires
            old(self).wf(),
        ensures
            final(self).wf(),
            final(self).strings == old(self).strings,
            final(self).bytes == old(self).bytes,
            final(self).long_ints@ == old(self).long_ints@.push(value),
            r.0 == old(self).long_ints@.len(),
    {
        let id: usize = self.long_ints.len();
        self.long_ints.push(value);
        LongIntId(id)
    }
}

} // verus!
