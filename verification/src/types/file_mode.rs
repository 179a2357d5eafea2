//! Modes of `open()`.

use vstd::prelude::*;

use crate::text::{chars_of, debug_char, debug_quoted_char, push_str, string_of};
use crate::types::py_type::Type;

verus! {

/// A parsed `open()` mode. The flag says whether the file is binary.
///
/// The update modes complete the space of modes; parsing rejects them.
#[derive(Clone, Copy, Debug, PartialEq, Eq, Structural)]
pub enum FileMode {
    Read(bool),
    ReadUpdate(bool),
    Write(bool),
    WriteUpdate(bool),
    Append(bool),
    AppendUpdate(bool),
}

/// Why the character at position `i` of a mode is rejected, if it is.
pub open spec fn mode_char_error(mode: Seq<char>, i: int) -> Option<Seq<char>> {
    let c = mode[i];
    let before = mode.take(i);
    if c == 'r' || c == 'w' || c == 'a' {
        if before.contains('r') || before.contains('w') || before.contains('a') {
            Some("must have exactly one of create/read/write/append mode"@)
        } else {
            None
        }
    } else if c == 'x' {
        Some("exclusive creation mode is not supported"@)
    } else if c == 'b' {
        if before.contains('b') {
            Some("invalid mode: binary mode specified twice"@)
        } else {
            None
        }
    } else if c == 't' {
        if before.contains('t') {
            Some("invalid mode: text mode specified twice"@)
        } else {
            None
        }
    } else if c == '+' {
        Some("update modes ('+') are not yet supported"@)
    } else {
        Some("invalid mode: "@ + debug_quoted_char(c))
    }
}

/// Why the first rejected character among the first `n` is rejected, if one is.
pub open spec fn mode_error(mode: Seq<char>, n: int) -> Option<Seq<char>>
    decreases n,
{
    if n <= 0 {
        None
    } else {
        match mode_error(mode, n - 1) {
            Some(message) => Some(message),
            None => mode_char_error(mode, n - 1),
        }
    }
}

/// The mode that a string denotes, or why it denotes none.
pub open spec fn parsed_mode(mode: Seq<char>) -> Result<FileMode, Seq<char>> {
    if mode.len() == 0 {
        Err(
            "Must have exactly one of create/read/write/append mode and at most one plus"@,
        )
    } else {
        match mode_error(mode, mode.len() as int) {
            Some(message) => Err(message),
            None => if mode.contains('b') && mode.contains('t') {
                Err("can't have text and binary mode at once"@)
            } else if mode.contains('w') {
                Ok(FileMode::Write(mode.contains('b')))
            } else if mode.contains('a') {
                Ok(FileMode::Append(mode.contains('b')))
            } else {
                Ok(FileMode::Read(mode.contains('b')))
            },
        }
    }
}

impl FileMode {
    /// The canonical mode string.
    pub open spec fn text(self) -> Seq<char> {
        match self {
            FileMode::Read(false) => "r"@,
            FileMode::Read(true) => "rb"@,
            FileMode::ReadUpdate(false) => "r+"@,
            FileMode::ReadUpdate(true) => "rb+"@,
            FileMode::Write(false) => "w"@,
            FileMode::Write(true) => "wb"@,
            FileMode::WriteUpdate(false) => "w+"@,
            FileMode::WriteUpdate(true) => "wb+"@,
            FileMode::Append(false) => "a"@,
            FileMode::Append(true) => "ab"@,
            FileMode::AppendUpdate(false) => "a+"@,
            FileMode::AppendUpdate(true) => "ab+"@,
        }
    }

    /// Whether the file is binary.
    pub open spec fn binary(self) -> bool {
        match self {
            FileMode::Read(b) => b,
            FileMode::ReadUpdate(b) => b,
            FileMode::Write(b) => b,
            FileMode::WriteUpdate(b) => b,
            FileMode::Append(b) => b,
            FileMode::AppendUpdate(b) => b,
        }
    }

    /// Whether the mode allows reading.
    pub open spec fn can_read(self) -> bool {
        self is Read || self is ReadUpdate || self is WriteUpdate || self is AppendUpdate
    }

    /// Whether the mode allows writing.
    pub open spec fn can_write(self) -> bool {
        !(self is Read)
    }

    /// Whether every write appends.
    pub open spec fn appends(self) -> bool {
        self is Append || self is AppendUpdate
    }

    /// Whether opening empties the file.
    pub open spec fn truncates(self) -> bool {
        self is Write || self is WriteUpdate
    }

    /// The type of the file object.
    pub open spec fn object_type(self) -> Type {
        if !self.binary() {
            Type::TextIOWrapper
        } else if self is Read {
            Type::BufferedReader
        } else if self is Write || self is Append {
            Type::BufferedWriter
        } else {
            Type::BufferedRandom
        }
    }

    /// The canonical Python mode string.
    pub fn as_str(&self) -> (r: &'static str)
        ensures
            r@ == self.text(),
    {
        match *self {
            FileMode::Read(false) => "r",
            FileMode::Read(true) => "rb",
            FileMode::ReadUpdate(false) => "r+",
            FileMode::ReadUpdate(true) => "rb+",
            FileMode::Write(false) => "w",
            FileMode::Write(true) => "wb",
            FileMode::WriteUpdate(false) => "w+",
            FileMode::WriteUpdate(true) => "wb+",
            FileMode::Append(false) => "a",
            FileMode::Append(true) => "ab",
            FileMode::AppendUpdate(false) => "a+",
            FileMode::AppendUpdate(true) => "ab+",
        }
    }

    /// Whether the file is binary rather than text.
    pub fn is_binary(&self) -> (r: bool)
        ensures
            r == self.binary(),
    {
        match *self {
            FileMode::Read(b) => b,
            FileMode::ReadUpdate(b) => b,
            FileMode::Write(b) => b,
            FileMode::WriteUpdate(b) => b,
            FileMode::Append(b) => b,
            FileMode::AppendUpdate(b) => b,
        }
    }

    /// Whether `read()` is allowed.
    pub fn readable(&self) -> (r: bool)
        ensures
            r == self.can_read(),
    {
        match *self {
            FileMode::Read(_) | FileMode::ReadUpdate(_) | FileMode::WriteUpdate(_)
            | FileMode::AppendUpdate(_) => true,
            _ => false,
        }
    }

    /// Whether `write()` is allowed.
    pub fn writable(&self) -> (r: bool)
        ensures
            r == self.can_write(),
    {
        match *self {
            FileMode::Read(_) => false,
            _ => true,
        }
    }

    /// Whether writes always append.
    pub fn is_append(&self) -> (r: bool)
        ensures
            r == self.appends(),
    {
        match *self {
            FileMode::Append(_) | FileMode::AppendUpdate(_) => true,
            _ => false,
        }
    }

    /// Whether opening empties the file.
    pub fn truncate(&self) -> (r: bool)
        ensures
            r == self.truncates(),
    {
        match *self {
            FileMode::Write(_) | FileMode::WriteUpdate(_) => true,
            _ => false,
        }
    }

    /// Whether opening creates a missing file.
    pub fn create(&self) -> (r: bool)
        ensures
            r == (self.truncates() || self.appends()),
    {
        match *self {
            FileMode::Write(_) | FileMode::WriteUpdate(_) | FileMode::Append(_)
            | FileMode::AppendUpdate(_) => true,
            _ => false,
        }
    }

    /// The type of a file opened with this mode.
    pub fn file_type(&self) -> (r: Type)
        ensures
            r == self.object_type(),
    {
        if !self.is_binary() {
            Type::TextIOWrapper
        } else {
            match *self {
                FileMode::Read(_) => Type::BufferedReader,
                FileMode::Write(_) | FileMode::Append(_) => Type::BufferedWriter,
                _ => Type::BufferedRandom,
            }
        }
    }

    /// The bare name of the type of a file opened with this mode.
    pub fn bare_type_name(&self) -> (r: &'static str)
        ensures
            r@ == (if !self.binary() {
                "TextIOWrapper"@
            } else if *self is Read {
                "BufferedReader"@
            } else if *self is Write || *self is Append {
                "BufferedWriter"@
            } else {
                "BufferedRandom"@
            }),
    {
        if !self.is_binary() {
            "TextIOWrapper"
        } else {
            match *self {
                FileMode::Read(_) => "BufferedReader",
                FileMode::Write(_) | FileMode::Append(_) => "BufferedWriter",
                _ => "BufferedRandom",
            }
        }
    }

    /// Parses a mode string. The error is the message to raise.
    pub fn from_str(mode: &str) -> (r: Result<FileMode, String>)
        ensures
            match (r, parsed_mode(mode@)) {
                (Ok(a), Ok(b)) => a == b,
                (Err(a), Err(b)) => a@ == b,
                _ => false,
            },
    {
        let chars = chars_of(mode);
        if chars.len() == 0 {
            return Err(
                "Must have exactly one of create/read/write/append mode and at most one plus".to_owned(),
            );
        }
        let mut action: Option<char> = None;
        let mut binary = false;
        let mut text = false;
        for i in 0..chars.len()
            invariant
                chars@ == mode@,
                mode_error(mode@, i as int) is None,
                binary == mode@.take(i as int).contains('b'),
                text == mode@.take(i as int).contains('t'),
                action is Some <==> (mode@.take(i as int).contains('r') || mode@.take(
                    i as int,
                ).contains('w') || mode@.take(i as int).contains('a')),
                action == Some('w') <==> mode@.take(i as int).contains('w'),
                action == Some('a') <==> mode@.take(i as int).contains('a'),
        {
            let ch = chars[i];
            proof {
                lemma_first_error(mode@, i + 1, mode@.len() as int);
                lemma_contains_next(mode@, i as int, 'r');
                lemma_contains_next(mode@, i as int, 'w');
                lemma_contains_next(mode@, i as int, 'a');
                lemma_contains_next(mode@, i as int, 'b');
                lemma_contains_next(mode@, i as int, 't');
            }
            if ch == 'r' || ch == 'w' || ch == 'a' {
                if action.is_some() {
                    return Err("must have exactly one of create/read/write/append mode".to_owned());
                }
                action = Some(ch);
            } else if ch == 'x' {
                return Err("exclusive creation mode is not supported".to_owned());
            } else if ch == 'b' {
                if binary {
                    return Err("invalid mode: binary mode specified twice".to_owned());
                }
                binary = true;
            } else if ch == 't' {
                if text {
                    return Err("invalid mode: text mode specified twice".to_owned());
                }
                text = true;
            } else if ch == '+' {
                return Err("update modes ('+') are not yet supported".to_owned());
            } else {
                let mut out = chars_of("invalid mode: ");
                push_str(&mut out, debug_char(ch).as_str());
                return Err(string_of(&out));
            }
        }
        assert(mode@.take(mode@.len() as int) =~= mode@);
        if binary && text {
            return Err("can't have text and binary mode at once".to_owned());
        }
        Ok(
            match action {
                Some('w') => FileMode::Write(binary),
                Some('a') => FileMode::Append(binary),
                _ => FileMode::Read(binary),
            },
        )
    }
}

/// Once a character is rejected, the rest of the mode does not matter.
proof fn lemma_first_error(mode: Seq<char>, n: int, m: int)
    requires
        0 <= n <= m,
    ensures
        mode_error(mode, n) is Some ==> mode_error(mode, m) == mode_error(mode, n),
    decreases m - n,
{
    if n < m {
        lemma_first_error(mode, n, m - 1);
    }
}

/// One more character is in the prefix when it is that character.
proof fn lemma_contains_next(s: Seq<char>, i: int, c: char)
    requires
        0 <= i < s.len(),
    ensures
        s.take(i + 1).contains(c) <==> (s.take(i).contains(c) || s[i] == c),
{
    let short = s.take(i);
    let long = s.take(i + 1);
    if short.contains(c) {
        let k = choose|k: int| 0 <= k < short.len() && short[k] == c;
        assert(long[k] == c);
    }
    if s[i] == c {
        assert(long[i] == c);
    }
    if long.contains(c) {
        let k = choose|k: int| 0 <= k < long.len() && long[k] == c;
        if k < i {
            assert(short[k] == c);
        }
    }
}

/// Every mode that parsing can give is parsed back from its canonical string.
pub proof fn lemma_mode_round_trip(mode: FileMode)
    requires
        mode is Read || mode is Write || mode is Append,
    ensures
        parsed_mode(mode.text()) == Ok::<FileMode, Seq<char>>(mode),
{
    reveal_strlit("r");
    reveal_strlit("rb");
    reveal_strlit("w");
    reveal_strlit("wb");
    reveal_strlit("a");
    reveal_strlit("ab");
    let s = mode.text();
    reveal_with_fuel(mode_error, 3);
    assert(s.take(0) =~= Seq::<char>::empty());
    assert(!s.take(0).contains('r') && !s.take(0).contains('w') && !s.take(0).contains('a')
        && !s.take(0).contains('b'));
    assert(mode_char_error(s, 0) is None);
    if mode.binary() {
        assert(s.take(1) =~= seq![s[0]]);
        assert(!s.take(1).contains('b'));
        assert(mode_char_error(s, 1) is None);
        assert(s[1] == 'b');
        assert(s.contains('b'));
    }
    assert(s.contains(s[0]));
}

/// Update modes are rejected.
pub proof fn lemma_update_modes_rejected(mode: FileMode)
    requires
        mode is ReadUpdate || mode is WriteUpdate || mode is AppendUpdate,
    ensures
        parsed_mode(mode.text()) == Err::<FileMode, Seq<char>>(
            "update modes ('+') are not yet supported"@,
        ),
{
    reveal_strlit("r+");
    reveal_strlit("rb+");
    reveal_strlit("w+");
    reveal_strlit("wb+");
    reveal_strlit("a+");
    reveal_strlit("ab+");
    let s = mode.text();
    reveal_with_fuel(mode_error, 4);
    assert(s.take(0) =~= Seq::<char>::empty());
    assert(mode_char_error(s, 0) is None);
    if mode.binary() {
        assert(s.take(1) =~= seq![s[0]]);
        assert(!s.take(1).contains('b'));
        assert(mode_char_error(s, 1) is None);
    }
}

} // verus!
