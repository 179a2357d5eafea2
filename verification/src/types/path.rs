//! Python `pathlib.Path`: pure path arithmetic on POSIX paths.

use vstd::layout::size_of;
use vstd::prelude::*;
use vstd::string::{StrSliceExecFns, StringExecFns};
use vstd::utf8::encode_utf8;

use crate::text::{
    chars_of, debug_quoted, debug_string, has_char, join_char, last_pos, lemma_last_pos,
    lemma_last_pos_unique, lemma_split_char, lemma_split_join, push_range, push_str, rfind_char,
    split_at_char, split_char, string_of, sub_chars, texts,
};
use crate::types::sizes::capped;

verus! {

/// Backslashes turned into forward slashes.
pub open spec fn posix_slashes(s: Seq<char>) -> Seq<char> {
    s.map_values(|c: char| if c == '\\' { '/' } else { c })
}

/// Whether a path segment is kept: empty segments and `.` are dropped.
pub open spec fn kept_segment(piece: Seq<char>) -> bool {
    piece.len() > 0 && piece != seq!['.']
}

/// The segments of a path that are kept.
pub open spec fn components(s: Seq<char>) -> Seq<Seq<char>> {
    split_char(posix_slashes(s), '/').filter(|piece: Seq<char>| kept_segment(piece))
}

/// Whether a path starts at the root.
pub open spec fn rooted(s: Seq<char>) -> bool {
    s.len() > 0 && s[0] == '/'
}

/// The normal form of a path: forward slashes, no empty or `.` segments, no
/// trailing slash except for the root itself. `..` is not resolved.
pub open spec fn normalized(s: Seq<char>) -> Seq<char> {
    let kept = components(s);
    let root = rooted(posix_slashes(s));
    if s.len() == 0 {
        s
    } else if kept.len() == 0 {
        if root {
            seq!['/']
        } else {
            seq!['.']
        }
    } else if root {
        seq!['/'] + join_char(kept, '/')
    } else {
        join_char(kept, '/')
    }
}

/// The final component.
pub open spec fn name_of(p: Seq<char>) -> Seq<char> {
    p.skip(last_pos(p, '/') + 1)
}

/// The path without its final component; the root has no parent.
pub open spec fn parent_of(p: Seq<char>) -> Option<Seq<char>> {
    let i = last_pos(p, '/');
    if p == seq!['/'] {
        None
    } else if i < 0 {
        Some(seq!['.'])
    } else if i == 0 {
        Some(seq!['/'])
    } else {
        Some(p.take(i))
    }
}

/// Whether a name is a dot file without a further dot.
pub open spec fn plain_dotfile(name: Seq<char>) -> bool {
    name.len() > 0 && name[0] == '.' && !name.skip(1).contains('.')
}

/// The name without its last suffix.
pub open spec fn stem_of(p: Seq<char>) -> Seq<char> {
    let name = name_of(p);
    if plain_dotfile(name) || last_pos(name, '.') < 0 {
        name
    } else {
        name.take(last_pos(name, '.'))
    }
}

/// The last suffix with its dot, or nothing.
pub open spec fn suffix_of(p: Seq<char>) -> Seq<char> {
    let name = name_of(p);
    if plain_dotfile(name) || last_pos(name, '.') < 0 {
        Seq::<char>::empty()
    } else {
        name.skip(last_pos(name, '.'))
    }
}

/// A name is its stem and its last suffix.
pub proof fn lemma_stem_and_suffix(p: Seq<char>)
    ensures
        stem_of(p) + suffix_of(p) == name_of(p),
{
    let name = name_of(p);
    lemma_last_pos(name, '.');
    assert(stem_of(p) + suffix_of(p) =~= name);
}

/// All suffixes with their dots. A leading dot starts no suffix.
pub open spec fn suffixes_of(p: Seq<char>) -> Seq<Seq<char>> {
    let name = name_of(p);
    let body = if name.len() > 0 && name[0] == '.' {
        name.skip(1)
    } else {
        name
    };
    if name.len() == 0 || name == seq!['.'] || name == seq!['.', '.'] {
        Seq::empty()
    } else {
        split_char(body, '.').skip(1).map_values(|piece: Seq<char>| seq!['.'] + piece)
    }
}

/// Texts put together.
pub open spec fn concatenated(pieces: Seq<Seq<char>>) -> Seq<char>
    decreases pieces.len(),
{
    if pieces.len() == 0 {
        Seq::empty()
    } else {
        concatenated(pieces.drop_last()) + pieces.last()
    }
}

/// The pieces of a text but for the first, each with the character before it.
pub open spec fn marked(pieces: Seq<Seq<char>>, c: char) -> Seq<Seq<char>> {
    pieces.skip(1).map_values(|piece: Seq<char>| seq![c] + piece)
}

/// A text is its first piece and the others with what parts them, and no piece
/// holds that.
proof fn lemma_marked_pieces(s: Seq<char>, c: char)
    ensures
        split_char(s, c).len() >= 1,
        split_char(s, c)[0] + concatenated(marked(split_char(s, c), c)) == s,
        forall|i: int| 0 <= i < split_char(s, c).len() ==> !(#[trigger] split_char(s, c)[i]).contains(c),
    decreases s.len(),
{
    let all = split_char(s, c);
    if s.len() == 0 {
        assert(marked(all, c) =~= Seq::empty());
        assert(all[0] + concatenated(marked(all, c)) =~= s);
    } else {
        let before = split_char(s.drop_last(), c);
        lemma_marked_pieces(s.drop_last(), c);
        assert(s =~= s.drop_last().push(s.last()));
        if s.last() == c {
            assert(marked(all, c) =~= marked(before, c).push(seq![c]));
            assert(marked(all, c).drop_last() =~= marked(before, c));
            assert(all[0] + concatenated(marked(all, c)) =~= s);
        } else {
            let longer = before.last().push(s.last());
            assert(!longer.contains(c)) by {
                if longer.contains(c) {
                    let k = choose|k: int| 0 <= k < longer.len() && longer[k] == c;
                    assert(before.last()[k] == c);
                }
            }
            assert forall|i: int| 0 <= i < all.len() implies !(#[trigger] all[i]).contains(c) by {
                if i < before.len() - 1 {
                    assert(all[i] == before[i]);
                }
            }
            if before.len() == 1 {
                assert(marked(all, c) =~= Seq::empty());
                assert(marked(before, c) =~= Seq::empty());
            } else {
                let last = seq![c] + before.last();
                assert(marked(all, c) =~= marked(before, c).drop_last().push(last.push(s.last())));
                assert(marked(before, c).last() =~= last);
                assert(marked(all, c).drop_last() =~= marked(before, c).drop_last());
            }
            assert(all[0] + concatenated(marked(all, c)) =~= s);
        }
    }
}

/// The suffixes each start with a dot and hold no other. Together they are the end
/// of the name, and what precedes them has no dot but for its first character. There
/// are none exactly where there is no last suffix, which is otherwise the last of
/// them.
pub proof fn lemma_suffixes(p: Seq<char>)
    requires
        name_of(p) != seq!['.', '.'],
    ensures
        forall|i: int|
            0 <= i < suffixes_of(p).len() ==> (#[trigger] suffixes_of(p)[i]).len() > 0
                && suffixes_of(p)[i][0] == '.' && !suffixes_of(p)[i].skip(1).contains('.'),
        concatenated(suffixes_of(p)).is_suffix_of(name_of(p)),
        ({
            let front = name_of(p).take(name_of(p).len() - concatenated(suffixes_of(p)).len());
            &&& name_of(p).len() > 0 ==> front.len() > 0
            &&& forall|i: int| 0 < i < front.len() ==> front[i] != '.'
        }),
        suffixes_of(p).len() == 0 <==> suffix_of(p).len() == 0,
        suffixes_of(p).len() > 0 ==> suffixes_of(p).last() == suffix_of(p),
{
    let name = name_of(p);
    let found = suffixes_of(p);
    lemma_last_pos(name, '.');
    if name.len() == 0 || name == seq!['.'] {
        assert(found =~= Seq::empty());
        assert(concatenated(found) =~= Seq::empty());
        assert(name.len() > 0 ==> name.skip(1) =~= Seq::empty());
        assert(name.take(name.len() as int) =~= name);
    } else {
        let lead = if name[0] == '.' {
            1int
        } else {
            0int
        };
        let body = name.skip(lead);
        assert(name.skip(0) =~= name);
        let all = split_char(body, '.');
        lemma_marked_pieces(body, '.');
        assert(found =~= marked(all, '.'));
        assert forall|i: int| 0 <= i < found.len() implies (#[trigger] found[i]).len() > 0
            && found[i][0] == '.' && !found[i].skip(1).contains('.') by {
            assert(found[i].skip(1) =~= all[i + 1]);
        }
        let tail = concatenated(found);
        let front = name.take(name.len() - tail.len());
        lemma_front(name, lead, all[0], tail);
        assert forall|i: int| 0 < i < front.len() implies front[i] != '.' by {
            assert(front[i] == all[0][i - lead]);
        }
        if front.len() == 0 {
            assert(lead == 0);
            if found.len() > 0 {
                lemma_concatenated_start(found);
            }
        }
        if found.len() > 0 {
            lemma_last_suffix(name, front, found);
            if lead == 1 {
                let place = name.len() - found.last().len();
                assert(name.skip(1)[place - 1] == '.');
            }
        } else {
            assert(tail =~= Seq::empty());
            assert(body =~= all[0]);
        }
    }
}

/// What stands before the end of a text, from what stands before the end of its rest.
proof fn lemma_front(name: Seq<char>, lead: int, first: Seq<char>, tail: Seq<char>)
    requires
        0 <= lead <= name.len(),
        name.skip(lead) == first + tail,
    ensures
        tail.len() + first.len() + lead == name.len(),
        name.take(name.len() - tail.len()) == name.take(lead) + first,
        name.skip(name.len() - tail.len()) == tail,
        name == name.take(name.len() - tail.len()) + tail,
{
    let rest = name.skip(lead);
    assert(rest.len() == first.len() + tail.len());
    assert forall|i: int| lead <= i < name.len() implies name[i] == (first + tail)[i - lead] by {
        assert(name[i] == rest[i - lead]);
    }
    assert(name.take(name.len() - tail.len()) =~= name.take(lead) + first);
    assert(name.skip(name.len() - tail.len()) =~= tail);
    assert(name =~= name.take(name.len() - tail.len()) + tail);
}

/// The last dot of a name starts the last of its suffixes.
proof fn lemma_last_suffix(name: Seq<char>, front: Seq<char>, found: Seq<Seq<char>>)
    requires
        found.len() > 0,
        name == front + concatenated(found),
        found.last().len() > 0,
        found.last()[0] == '.',
        !found.last().skip(1).contains('.'),
    ensures
        concatenated(found).len() >= found.last().len(),
        last_pos(name, '.') == name.len() - found.last().len(),
        name.skip(name.len() - found.last().len()) == found.last(),
{
    let last = found.last();
    let before = front + concatenated(found.drop_last());
    assert(name =~= before + last);
    let place = before.len() as int;
    assert forall|j: int| place < j < name.len() implies name[j] != '.' by {
        assert(name[j] == last.skip(1)[j - place - 1]);
    }
    lemma_last_pos_unique(name, '.', place);
    assert(name.skip(place) =~= last);
}

/// Texts that start with a dot do so together.
proof fn lemma_concatenated_start(pieces: Seq<Seq<char>>)
    requires
        pieces.len() > 0,
        pieces[0].len() > 0,
    ensures
        concatenated(pieces).len() > 0,
        concatenated(pieces)[0] == pieces[0][0],
    decreases pieces.len(),
{
    if pieces.len() > 1 {
        lemma_concatenated_start(pieces.drop_last());
    } else {
        assert(concatenated(pieces.drop_last()) =~= Seq::empty());
    }
}

/// The segments of a path, with the root as a first part of its own.
pub open spec fn parts_of(p: Seq<char>) -> Seq<Seq<char>> {
    let segments = |s: Seq<char>| split_char(s, '/').filter(|piece: Seq<char>| piece.len() > 0);
    if p.len() == 0 {
        Seq::empty()
    } else if p[0] == '/' {
        seq![seq!['/']] + segments(p.skip(1))
    } else {
        segments(p)
    }
}

/// The path that `p / other` denotes.
pub open spec fn joined(p: Seq<char>, other: Seq<char>) -> Seq<char> {
    if rooted(other) || p.len() == 0 || p == seq!['.'] {
        normalized(other)
    } else if p.last() == '/' {
        normalized(p + other)
    } else {
        normalized(p.push('/') + other)
    }
}

/// `p` with its name replaced, or why that cannot be done.
pub open spec fn renamed(p: Seq<char>, name: Seq<char>) -> Result<Seq<char>, Seq<char>> {
    if name.len() == 0 {
        Err("Invalid name: empty string"@)
    } else if name.contains('/') {
        Err("Invalid name: "@ + debug_quoted(name) + " contains path separator"@)
    } else if name_of(p).len() == 0 {
        Err("Path has no name"@)
    } else {
        match parent_of(p) {
            None => Ok(name),
            Some(parent) => if parent == seq!['/'] {
                Ok(seq!['/'] + name)
            } else if parent == seq!['.'] {
                Ok(name)
            } else {
                Ok(parent.push('/') + name)
            },
        }
    }
}

/// `p` with its stem replaced and its suffix kept, or why that cannot be done.
pub open spec fn restemmed(p: Seq<char>, stem: Seq<char>) -> Result<Seq<char>, Seq<char>> {
    if stem.len() == 0 {
        Err("Invalid stem: empty string"@)
    } else if stem.contains('/') {
        Err("Invalid stem: "@ + debug_quoted(stem) + " contains path separator"@)
    } else if name_of(p).len() == 0 {
        Err("Path has no name"@)
    } else {
        renamed(p, stem + suffix_of(p))
    }
}

/// `p` with its suffix replaced, or why that cannot be done.
pub open spec fn resuffixed(p: Seq<char>, suffix: Seq<char>) -> Result<Seq<char>, Seq<char>> {
    let dotted = if suffix.len() == 0 || suffix[0] == '.' {
        suffix
    } else {
        seq!['.'] + suffix
    };
    if name_of(p).len() == 0 {
        Err("Path has no name"@)
    } else if dotted.contains('/') {
        Err("Invalid suffix: "@ + debug_quoted(dotted) + " contains path separator"@)
    } else {
        renamed(p, stem_of(p) + dotted)
    }
}

/// Whether an executable result carries the text of a specified one.
pub open spec fn text_result(r: Result<String, String>, expected: Result<Seq<char>, Seq<char>>) -> bool {
    match (r, expected) {
        (Ok(a), Ok(b)) => a@ == b,
        (Err(a), Err(b)) => a@ == b,
        _ => false,
    }
}

/// The texts of a vector of strings.
pub open spec fn strings(v: Seq<String>) -> Seq<Seq<char>> {
    v.map_values(|x: String| x@)
}

/// A pure POSIX path, kept in normal form.
#[derive(Debug)]
pub struct Path {
    path: String,
}

impl View for Path {
    type V = Seq<char>;

    closed spec fn view(&self) -> Seq<char> {
        self.path@
    }
}

/// The kept segments of `chars`.
fn kept_segments(chars: &[char]) -> (r: Vec<Vec<char>>)
    ensures
        texts(r@) == split_char(chars@, '/').filter(|piece: Seq<char>| kept_segment(piece)),
{
    let pieces = split_at_char(chars, '/');
    let mut kept: Vec<Vec<char>> = Vec::new();
    let ghost all = texts(pieces@);
    let ghost pred = |piece: Seq<char>| kept_segment(piece);
    for i in 0..pieces.len()
        invariant
            all == texts(pieces@),
            pred == (|piece: Seq<char>| kept_segment(piece)),
            texts(kept@) == all.take(i as int).filter(pred),
    {
        let piece = &pieces[i];
        proof {
            reveal(Seq::filter);
            assert(all.take(i + 1).drop_last() =~= all.take(i as int));
            assert(all[i as int] == piece@);
            assert(piece@.len() == 1 && piece@[0] == '.' ==> piece@ =~= seq!['.']);
        }
        if piece.len() > 0 && !(piece.len() == 1 && piece[0] == '.') {
            let copy = sub_chars(piece, 0, piece.len());
            let ghost before = texts(kept@);
            kept.push(copy);
            proof {
                assert(copy@ =~= piece@);
                assert(texts(kept@) =~= before.push(piece@));
            }
        }
    }
    proof {
        assert(all.take(all.len() as int) =~= all);
    }
    kept
}

/// The pieces with slashes between them.
fn join_slash(pieces: &Vec<Vec<char>>) -> (r: Vec<char>)
    ensures
        r@ == join_char(texts(pieces@), '/'),
{
    let mut out: Vec<char> = Vec::new();
    let ghost all = texts(pieces@);
    for i in 0..pieces.len()
        invariant
            all == texts(pieces@),
            out@ == join_char(all.take(i as int), '/'),
    {
        proof {
            assert(all.take(i + 1).drop_last() =~= all.take(i as int));
            assert(all.take(i + 1).last() == pieces@[i as int]@);
        }
        if i > 0 {
            out.push('/');
        }
        let ghost before = out@;
        push_range(&mut out, &pieces[i], 0, pieces[i].len());
        proof {
            assert(pieces@[i as int]@.subrange(0, pieces@[i as int]@.len() as int)
                =~= pieces@[i as int]@);
            if i == 0 {
                assert(out@ =~= all.take(1)[0]);
            } else {
                assert(out@ =~= join_char(all.take(i + 1), '/'));
            }
        }
    }
    proof {
        assert(all.take(all.len() as int) =~= all);
    }
    out
}

/// Normalizes a path string to POSIX form.
fn normalize_path(path: &str) -> (r: String)
    ensures
        r@ == normalized(path@),
{
    let given = chars_of(path);
    if given.len() == 0 {
        return String::from_str(path);
    }
    let mut chars: Vec<char> = Vec::new();
    for i in 0..given.len()
        invariant
            chars@ == posix_slashes(given@.take(i as int)),
    {
        if given[i] == '\\' {
            chars.push('/');
        } else {
            chars.push(given[i]);
        }
        assert(chars@ =~= posix_slashes(given@.take(i + 1)));
    }
    assert(given@.take(given@.len() as int) =~= given@);
    let is_absolute = chars[0] == '/';
    let kept = kept_segments(&chars);
    if kept.len() == 0 {
        assert(texts(kept@).len() == 0);
        if is_absolute {
            return string_of(&vec!['/']);
        } else {
            return string_of(&vec!['.']);
        }
    }
    let body = join_slash(&kept);
    if is_absolute {
        let mut out: Vec<char> = Vec::new();
        out.push('/');
        push_range(&mut out, &body, 0, body.len());
        assert(out@ =~= seq!['/'] + body@);
        string_of(&out)
    } else {
        string_of(&body)
    }
}

impl Path {
    /// Creates a path from a string, in normal form.
    pub fn new(path: String) -> (r: Path)
        ensures
            r@ == normalized(path@),
    {
        Path { path: normalize_path(path.as_str()) }
    }

    /// A copy of this path.
    pub fn duplicate(&self) -> (r: Path)
        ensures
            r@ == self@,
    {
        Path { path: self.path.clone() }
    }

    /// The path as a string slice.
    pub fn as_str(&self) -> (r: &str)
        ensures
            r@ == self@,
    {
        self.path.as_str()
    }

    /// The final component of the path.
    pub fn name(&self) -> (r: &str)
        ensures
            r@ == name_of(self@),
    {
        let chars = chars_of(self.path.as_str());
        proof {
            lemma_last_pos(self@, '/');
        }
        let start: usize = match rfind_char(&chars, '/') {
            Some(i) => i + 1,
            None => 0,
        };
        let r = self.path.as_str().substring_char(start, chars.len());
        assert(r@ =~= name_of(self@));
        r
    }

    /// The path without its final component. `None` for the root, `.` for a
    /// relative path of one component.
    pub fn parent(&self) -> (r: Option<&str>)
        ensures
            match (r, parent_of(self@)) {
                (Some(a), Some(b)) => a@ == b,
                (None, None) => true,
                _ => false,
            },
    {
        let chars = chars_of(self.path.as_str());
        proof {
            lemma_last_pos(self@, '/');
            reveal_strlit("/");
            reveal_strlit(".");
            assert("/"@ =~= seq!['/']);
            assert("."@ =~= seq!['.']);
            assert(self@.len() == 1 && self@[0] == '/' ==> self@ =~= seq!['/']);
        }
        if chars.len() == 1 && chars[0] == '/' {
            return None;
        }
        match rfind_char(&chars, '/') {
            Some(i) => {
                if i == 0 {
                    Some("/")
                } else {
                    let r = self.path.as_str().substring_char(0, i);
                    assert(r@ =~= self@.take(i as int));
                    Some(r)
                }
            },
            None => Some("."),
        }
    }

    /// The final component without its last suffix.
    pub fn stem(&self) -> (r: &str)
        ensures
            r@ == stem_of(self@),
    {
        let name = self.name();
        let chars = chars_of(name);
        proof {
            lemma_last_pos(name@, '.');
        }
        if is_plain_dotfile(&chars) {
            return name;
        }
        match rfind_char(&chars, '.') {
            Some(i) => {
                let r = name.substring_char(0, i);
                assert(r@ =~= name@.take(i as int));
                r
            },
            None => name,
        }
    }

    /// The last suffix with its dot, or an empty string.
    pub fn suffix(&self) -> (r: &str)
        ensures
            r@ == suffix_of(self@),
    {
        let name = self.name();
        let chars = chars_of(name);
        proof {
            lemma_last_pos(name@, '.');
            reveal_strlit("");
            assert(""@ =~= Seq::<char>::empty());
        }
        if is_plain_dotfile(&chars) {
            return "";
        }
        match rfind_char(&chars, '.') {
            Some(i) => {
                let r = name.substring_char(i, chars.len());
                assert(r@ =~= name@.skip(i as int));
                r
            },
            None => "",
        }
    }

    /// All suffixes, each with its dot.
    pub fn suffixes(&self) -> (r: Vec<String>)
        ensures
            strings(r@) == suffixes_of(self@),
    {
        let chars = chars_of(self.name());
        let n: usize = chars.len();
        proof {
            assert(n == 1 && chars@[0] == '.' ==> chars@ =~= seq!['.']);
            assert(n == 2 && chars@[0] == '.' && chars@[1] == '.' ==> chars@ =~= seq!['.', '.']);
        }
        let mut result: Vec<String> = Vec::new();
        if n == 0 || (n == 1 && chars[0] == '.') || (n == 2 && chars[0] == '.' && chars[1] == '.') {
            assert(strings(result@) =~= Seq::empty());
            return result;
        }
        let start: usize = if chars[0] == '.' {
            1
        } else {
            0
        };
        let body = sub_chars(&chars, start, n);
        proof {
            assert(chars@.skip(0) =~= chars@);
            assert(chars@.subrange(start as int, n as int) =~= chars@.skip(start as int));
            lemma_split_char(body@, '.');
        }
        let pieces = split_at_char(&body, '.');
        let ghost all = split_char(body@, '.');
        let ghost wanted = all.skip(1).map_values(|piece: Seq<char>| seq!['.'] + piece);
        assert(texts(pieces@).len() == pieces@.len());
        let mut i: usize = 1;
        while i < pieces.len()
            invariant
                1 <= i <= pieces.len(),
                all == texts(pieces@),
                wanted == all.skip(1).map_values(|piece: Seq<char>| seq!['.'] + piece),
                strings(result@) == wanted.take(i - 1),
            decreases pieces.len() - i,
        {
            let mut suffix: Vec<char> = Vec::new();
            suffix.push('.');
            push_range(&mut suffix, &pieces[i], 0, pieces[i].len());
            proof {
                assert(suffix@ =~= seq!['.'] + pieces@[i as int]@);
                assert(wanted[i - 1] == suffix@);
            }
            let ghost before = strings(result@);
            let text = string_of(&suffix);
            result.push(text);
            proof {
                assert(strings(result@) =~= before.push(text@));
                assert(wanted.take(i as int) =~= wanted.take(i - 1).push(wanted[i - 1]));
            }
            i = i + 1;
        }
        assert(wanted.take(wanted.len() as int) =~= wanted);
        result
    }

    /// The path components; an absolute path starts with `/`.
    pub fn parts(&self) -> (r: Vec<String>)
        ensures
            strings(r@) == parts_of(self@),
    {
        let chars = chars_of(self.path.as_str());
        let mut result: Vec<String> = Vec::new();
        if chars.len() == 0 {
            assert(strings(result@) =~= Seq::empty());
            return result;
        }
        let start: usize = if chars[0] == '/' {
            1
        } else {
            0
        };
        if start == 1 {
            let root = string_of(&vec!['/']);
            result.push(root);
            assert(root@ =~= seq!['/']);
            assert(strings(result@) =~= seq![seq!['/']]);
        } else {
            assert(strings(result@) =~= Seq::empty());
        }
        let ghost head = strings(result@);
        let body = sub_chars(&chars, start, chars.len());
        proof {
            assert(chars@.skip(0) =~= chars@);
            assert(chars@.subrange(start as int, chars@.len() as int) =~= chars@.skip(
                start as int,
            ));
        }
        let pieces = split_at_char(&body, '/');
        let ghost all = texts(pieces@);
        let ghost pred = |piece: Seq<char>| piece.len() > 0;
        for i in 0..pieces.len()
            invariant
                all == texts(pieces@),
                pred == (|piece: Seq<char>| piece.len() > 0),
                strings(result@) == head + all.take(i as int).filter(pred),
        {
            proof {
                reveal(Seq::filter);
                assert(all.take(i + 1).drop_last() =~= all.take(i as int));
                assert(all[i as int] == pieces@[i as int]@);
            }
            if pieces[i].len() > 0 {
                let text = string_of(&pieces[i]);
                let ghost before = strings(result@);
                result.push(text);
                proof {
                    assert(strings(result@) =~= before.push(text@));
                }
            }
        }
        proof {
            assert(all.take(all.len() as int) =~= all);
            assert(strings(result@) =~= parts_of(self@));
        }
        result
    }

    /// Whether the path starts at the root.
    pub fn is_absolute(&self) -> (r: bool)
        ensures
            r == rooted(self@),
    {
        starts_with_slash(self.path.as_str())
    }

    /// Joins this path with another; an absolute `other` replaces it.
    pub fn joinpath(&self, other: &str) -> (r: String)
        ensures
            r@ == joined(self@, other@),
    {
        let chars = chars_of(self.path.as_str());
        proof {
            assert(chars@.len() == 1 && chars@[0] == '.' ==> chars@ =~= seq!['.']);
        }
        if starts_with_slash(other) || chars.len() == 0 || (chars.len() == 1 && chars[0] == '.') {
            return normalize_path(other);
        }
        let ends_with_slash = chars[chars.len() - 1] == '/';
        let mut out = chars;
        if !ends_with_slash {
            out.push('/');
        }
        push_str(&mut out, other);
        let text = string_of(&out);
        normalize_path(text.as_str())
    }

    /// This path with another name.
    pub fn with_name(&self, name: &str) -> (r: Result<String, String>)
        ensures
            text_result(r, renamed(self@, name@)),
    {
        let chars = chars_of(name);
        if chars.len() == 0 {
            return Err("Invalid name: empty string".to_owned());
        }
        if has_char(&chars, '/') {
            return Err(separator_error("Invalid name: ", name));
        }
        if self.name().is_empty() {
            return Err("Path has no name".to_owned());
        }
        match self.parent() {
            Some(parent) => {
                let ghost p = parent@;
                let up = chars_of(parent);
                proof {
                    assert(up@.len() == 1 && up@[0] == '/' ==> up@ =~= seq!['/']);
                    assert(up@.len() == 1 && up@[0] == '.' ==> up@ =~= seq!['.']);
                }
                if up.len() == 1 && up[0] == '.' {
                    return Ok(name.to_owned());
                }
                let at_root = up.len() == 1 && up[0] == '/';
                let mut out = up;
                if !at_root {
                    out.push('/');
                }
                push_str(&mut out, name);
                Ok(string_of(&out))
            },
            None => Ok(name.to_owned()),
        }
    }

    /// This path with another stem and the same suffix.
    pub fn with_stem(&self, stem: &str) -> (r: Result<String, String>)
        ensures
            text_result(r, restemmed(self@, stem@)),
    {
        let chars = chars_of(stem);
        if chars.len() == 0 {
            return Err("Invalid stem: empty string".to_owned());
        }
        if has_char(&chars, '/') {
            return Err(separator_error("Invalid stem: ", stem));
        }
        if self.name().is_empty() {
            return Err("Path has no name".to_owned());
        }
        let mut new_name = chars;
        push_str(&mut new_name, self.suffix());
        let text = string_of(&new_name);
        self.with_name(text.as_str())
    }

    /// This path with another suffix. An empty one removes the suffix; a
    /// missing leading dot is added.
    pub fn with_suffix(&self, suffix: &str) -> (r: Result<String, String>)
        ensures
            text_result(r, resuffixed(self@, suffix@)),
    {
        if self.name().is_empty() {
            return Err("Path has no name".to_owned());
        }
        let given = chars_of(suffix);
        let mut dotted: Vec<char> = Vec::new();
        if given.len() > 0 && given[0] != '.' {
            dotted.push('.');
        }
        push_str(&mut dotted, suffix);
        proof {
            if given@.len() > 0 && given@[0] != '.' {
                assert(dotted@ =~= seq!['.'] + suffix@);
            } else {
                assert(dotted@ =~= suffix@);
            }
        }
        if has_char(&dotted, '/') {
            let text = string_of(&dotted);
            return Err(separator_error("Invalid suffix: ", text.as_str()));
        }
        let mut new_name = chars_of(self.stem());
        push_range(&mut new_name, &dotted, 0, dotted.len());
        proof {
            assert(dotted@.subrange(0, dotted@.len() as int) =~= dotted@);
        }
        let text = string_of(&new_name);
        self.with_name(text.as_str())
    }

    /// The memory that the path takes, with what its string has allocated; how much
    /// more that is than the text is left to the allocator.
    pub fn py_estimate_size(&self) -> (r: usize)
        ensures
            exists|c: usize|
                encode_utf8(self@).len() <= c <= isize::MAX && r == #[trigger] capped(
                    size_of::<Path>() + c as nat,
                ),
    {
        path_size(self.path.capacity())
    }

    /// The path with forward slashes, which is how it is kept.
    pub fn as_posix(&self) -> (r: &str)
        ensures
            r@ == self@,
    {
        self.path.as_str()
    }
}

/// The memory that a path takes whose string has allocated so many bytes.
pub fn path_size(capacity: usize) -> (r: usize)
    ensures
        r == capped(size_of::<Path>() + capacity as nat),
{
    std::mem::size_of::<Path>().saturating_add(capacity)
}

/// The message for a name that holds a separator.
fn separator_error(prefix: &str, text: &str) -> (r: String)
    ensures
        r@ == prefix@ + debug_quoted(text@) + " contains path separator"@,
{
    let mut out = chars_of(prefix);
    push_str(&mut out, debug_string(text).as_str());
    push_str(&mut out, " contains path separator");
    string_of(&out)
}

fn starts_with_slash(s: &str) -> (r: bool)
    ensures
        r == rooted(s@),
{
    let chars = chars_of(s);
    chars.len() > 0 && chars[0] == '/'
}

fn is_plain_dotfile(name: &[char]) -> (r: bool)
    ensures
        r == plain_dotfile(name@),
{
    if name.len() > 0 && name[0] == '.' {
        let rest = sub_chars(name, 1, name.len());
        assert(rest@ =~= name@.skip(1));
        !has_char(&rest, '.')
    } else {
        false
    }
}

/// The filtered pieces all pass the filter and come from the given ones.
proof fn lemma_filter_kept(pieces: Seq<Seq<char>>, i: int)
    requires
        0 <= i < pieces.filter(|piece: Seq<char>| kept_segment(piece)).len(),
    ensures
        kept_segment(pieces.filter(|piece: Seq<char>| kept_segment(piece))[i]),
        exists|k: int|
            0 <= k < pieces.len() && pieces[k] == pieces.filter(
                |piece: Seq<char>| kept_segment(piece),
            )[i],
    decreases pieces.len(),
{
    reveal(Seq::filter);
    let pred = |piece: Seq<char>| kept_segment(piece);
    let sub = pieces.drop_last().filter(pred);
    if i < sub.len() {
        lemma_filter_kept(pieces.drop_last(), i);
        let k = choose|k: int| 0 <= k < pieces.drop_last().len() && pieces.drop_last()[k] == sub[i];
        assert(pieces[k] == pieces.filter(pred)[i]);
    } else {
        assert(pieces[pieces.len() - 1] == pieces.filter(pred)[i]);
    }
}

/// A filter that everything passes changes nothing.
proof fn lemma_filter_all(pieces: Seq<Seq<char>>)
    requires
        forall|i: int| 0 <= i < pieces.len() ==> kept_segment(#[trigger] pieces[i]),
    ensures
        pieces.filter(|piece: Seq<char>| kept_segment(piece)) == pieces,
    decreases pieces.len(),
{
    reveal(Seq::filter);
    if pieces.len() > 0 {
        lemma_filter_all(pieces.drop_last());
        assert(pieces.drop_last().push(pieces.last()) =~= pieces);
    } else {
        assert(pieces.filter(|piece: Seq<char>| kept_segment(piece)) =~= pieces);
    }
}

/// A text of kept segments holds no backslash when the segments hold none.
proof fn lemma_join_chars(pieces: Seq<Seq<char>>, k: int)
    requires
        0 <= k < join_char(pieces, '/').len(),
    ensures
        join_char(pieces, '/')[k] == '/' || exists|i: int, j: int|
            0 <= i < pieces.len() && 0 <= j < pieces[i].len() && #[trigger] pieces[i][j]
                == join_char(pieces, '/')[k],
    decreases pieces.len(),
{
    if pieces.len() == 1 {
        assert(pieces[0][k] == join_char(pieces, '/')[k]);
    } else if pieces.len() > 1 {
        let head = join_char(pieces.drop_last(), '/');
        if k < head.len() {
            lemma_join_chars(pieces.drop_last(), k);
            if head[k] != '/' {
                let (i, j) = choose|i: int, j: int|
                    0 <= i < pieces.drop_last().len() && 0 <= j < pieces.drop_last()[i].len()
                        && #[trigger] pieces.drop_last()[i][j] == head[k];
                assert(pieces[i][j] == join_char(pieces, '/')[k]);
            }
        } else if k > head.len() {
            let j = k - head.len() - 1;
            assert(pieces[pieces.len() - 1][j] == join_char(pieces, '/')[k]);
        }
    }
}

/// A piece of a split holds only characters of the text.
proof fn lemma_split_chars(s: Seq<char>, c: char, i: int, j: int)
    requires
        0 <= i < split_char(s, c).len(),
        0 <= j < split_char(s, c)[i].len(),
    ensures
        s.contains(split_char(s, c)[i][j]),
    decreases s.len(),
{
    if s.len() > 0 {
        lemma_split_char(s.drop_last(), c);
        let before = split_char(s.drop_last(), c);
        let piece = split_char(s, c)[i];
        if i < before.len() - 1 || (s.last() == c && i < before.len()) {
            lemma_split_chars(s.drop_last(), c, i, j);
            let k = choose|k: int| 0 <= k < s.drop_last().len() && s.drop_last()[k] == piece[j];
            assert(s[k] == piece[j]);
        } else if s.last() != c {
            if j < before.last().len() {
                lemma_split_chars(s.drop_last(), c, i, j);
                let k = choose|k: int| 0 <= k < s.drop_last().len() && s.drop_last()[k] == piece[j];
                assert(s[k] == piece[j]);
            } else {
                assert(s[s.len() - 1] == piece[j]);
            }
        }
    }
}

/// Normalizing a path that is already in normal form changes nothing.
pub proof fn lemma_normalized_idempotent(s: Seq<char>)
    ensures
        normalized(normalized(s)) == normalized(s),
{
    let t = posix_slashes(s);
    let kept = components(s);
    let n = normalized(s);
    if s.len() > 0 {
        lemma_split_char(t, '/');
        assert forall|i: int| 0 <= i < kept.len() implies kept_segment(#[trigger] kept[i])
            && !kept[i].contains('/') && !kept[i].contains('\\') by {
            lemma_filter_kept(split_char(t, '/'), i);
            let k = choose|k: int| 0 <= k < split_char(t, '/').len() && split_char(t, '/')[k] == kept[i];
            assert(!split_char(t, '/')[k].contains('/'));
            if kept[i].contains('\\') {
                let j = choose|j: int| 0 <= j < kept[i].len() && kept[i][j] == '\\';
                lemma_split_chars(t, '/', k, j);
            }
        }
        if kept.len() == 0 {
            assert(posix_slashes(n) =~= n);
            if rooted(t) {
                assert(n =~= Seq::<char>::empty().push('/') + Seq::<char>::empty());
                lemma_pieces_of_root();
            } else {
                lemma_pieces_of_dot();
            }
        } else {
            let body = join_char(kept, '/');
            assert(posix_slashes(n) =~= n) by {
                assert forall|k: int| 0 <= k < n.len() implies n[k] != '\\' by {
                    let m = if rooted(t) { k - 1 } else { k };
                    if m >= 0 {
                        lemma_join_chars(kept, m);
                        if body[m] != '/' {
                            let (i, j) = choose|i: int, j: int|
                                0 <= i < kept.len() && 0 <= j < kept[i].len()
                                    && #[trigger] kept[i][j] == body[m];
                            assert(!kept[i].contains('\\'));
                        }
                    }
                }
            }
            lemma_split_join(kept, '/');
            lemma_join_nonempty(kept);
            lemma_filter_all(kept);
            if rooted(t) {
                lemma_split_rooted(body);
                let pieces = split_char(body, '/');
                lemma_filter_prefix(pieces);
                assert(split_char(n, '/') == seq![Seq::<char>::empty()] + pieces);
            } else {
                assert(n[0] == body[0]);
            }
        }
    }
}

/// Whether the pieces are segments that a path keeps.
pub open spec fn are_segments(kept: Seq<Seq<char>>) -> bool {
    forall|i: int|
        0 <= i < kept.len() ==> kept_segment(#[trigger] kept[i]) && !kept[i].contains('/')
            && !kept[i].contains('\\')
}

/// The path of segments, from the root or not.
pub open spec fn path_text(root: bool, kept: Seq<Seq<char>>) -> Seq<char> {
    if root {
        seq!['/'] + join_char(kept, '/')
    } else {
        join_char(kept, '/')
    }
}

/// The path of segments is in normal form, and they are what it is made of.
pub proof fn lemma_path_text(root: bool, kept: Seq<Seq<char>>)
    requires
        are_segments(kept),
        kept.len() > 0,
    ensures
        components(path_text(root, kept)) == kept,
        rooted(path_text(root, kept)) == root,
        normalized(path_text(root, kept)) == path_text(root, kept),
        path_text(root, kept).len() > 0,
        path_text(root, kept).last() != '/',
        split_char(join_char(kept, '/'), '/') == kept,
        posix_slashes(path_text(root, kept)) == path_text(root, kept),
{
    let n = path_text(root, kept);
    let body = join_char(kept, '/');
    assert(posix_slashes(n) =~= n) by {
        assert forall|k: int| 0 <= k < n.len() implies n[k] != '\\' by {
            let m = if root { k - 1 } else { k };
            if m >= 0 {
                lemma_join_chars(kept, m);
                if body[m] != '/' {
                    let (i, j) = choose|i: int, j: int|
                        0 <= i < kept.len() && 0 <= j < kept[i].len()
                            && #[trigger] kept[i][j] == body[m];
                    assert(!kept[i].contains('\\'));
                }
            }
        }
    }
    lemma_split_join(kept, '/');
    lemma_join_nonempty(kept);
    lemma_filter_all(kept);
    if root {
        lemma_split_rooted(body);
        let pieces = split_char(body, '/');
        lemma_filter_prefix(pieces);
        assert(split_char(n, '/') == seq![Seq::<char>::empty()] + pieces);
    } else {
        assert(n[0] == body[0]);
    }
    let last = kept.last();
    assert(kept_segment(last) && !last.contains('/'));
    assert(last.contains(last.last()));
    assert(n.last() == last.last());
}

/// An empty first piece is dropped by the filter.
proof fn lemma_filter_prefix(pieces: Seq<Seq<char>>)
    ensures
        (seq![Seq::<char>::empty()] + pieces).filter(|piece: Seq<char>| kept_segment(piece))
            == pieces.filter(|piece: Seq<char>| kept_segment(piece)),
    decreases pieces.len(),
{
    reveal(Seq::filter);
    let whole = seq![Seq::<char>::empty()] + pieces;
    if pieces.len() == 0 {
        reveal_with_fuel(Seq::filter, 2);
        assert(whole.drop_last() =~= Seq::empty());
        assert(whole.last() =~= Seq::<char>::empty());
        assert(whole.filter(|piece: Seq<char>| kept_segment(piece)) =~= Seq::empty());
        assert(pieces.filter(|piece: Seq<char>| kept_segment(piece)) =~= Seq::empty());
    } else {
        lemma_filter_prefix(pieces.drop_last());
        assert(whole.drop_last() =~= seq![Seq::<char>::empty()] + pieces.drop_last());
    }
}

/// A leading slash adds an empty first piece.
proof fn lemma_split_rooted(body: Seq<char>)
    ensures
        split_char(seq!['/'] + body, '/') == seq![Seq::<char>::empty()] + split_char(body, '/'),
    decreases body.len(),
{
    let whole = seq!['/'] + body;
    let e = Seq::<char>::empty();
    if body.len() == 0 {
        assert(whole.drop_last() =~= e);
        assert(split_char(whole.drop_last(), '/') =~= seq![e]);
        assert(split_char(whole, '/') =~= seq![e, e]);
        assert(split_char(body, '/') =~= seq![e]);
        assert(seq![e] + split_char(body, '/') =~= seq![e, e]);
    } else {
        lemma_split_rooted(body.drop_last());
        lemma_split_char(body.drop_last(), '/');
        assert(whole.drop_last() =~= seq!['/'] + body.drop_last());
        assert(split_char(whole, '/') =~= seq![e] + split_char(body, '/'));
    }
}

/// Kept segments put together start with the first of them, which is not a slash.
proof fn lemma_join_nonempty(kept: Seq<Seq<char>>)
    requires
        kept.len() >= 1,
        forall|i: int| 0 <= i < kept.len() ==> kept_segment(#[trigger] kept[i]) && !kept[i].contains('/'),
    ensures
        join_char(kept, '/').len() > 0,
        join_char(kept, '/')[0] == kept[0][0],
        join_char(kept, '/')[0] != '/',
    decreases kept.len(),
{
    assert(kept_segment(kept[0]));
    assert(kept[0].contains(kept[0][0]));
    if kept.len() > 1 {
        lemma_join_nonempty(kept.drop_last());
    }
}

/// The root has no kept segments.
proof fn lemma_pieces_of_root()
    ensures
        components(seq!['/']).len() == 0,
{
    reveal(Seq::filter);
    let t = posix_slashes(seq!['/']);
    let e = Seq::<char>::empty();
    assert(t =~= seq!['/']);
    assert(t.drop_last() =~= e);
    assert(split_char(t.drop_last(), '/') =~= seq![e]);
    assert(split_char(t, '/') =~= seq![e, e]);
    reveal_with_fuel(Seq::filter, 3);
    assert(seq![e, e].drop_last() =~= seq![e]);
    assert(seq![e].drop_last() =~= Seq::empty());
    assert(seq![e, e].last() == e);
    assert(seq![e].last() == e);
}

/// `.` has no kept segments.
proof fn lemma_pieces_of_dot()
    ensures
        components(seq!['.']).len() == 0,
{
    reveal(Seq::filter);
    let t = posix_slashes(seq!['.']);
    let e = Seq::<char>::empty();
    assert(t =~= seq!['.']);
    assert(t.drop_last() =~= e);
    assert(e.push('.') =~= seq!['.']);
    assert(split_char(t.drop_last(), '/') =~= seq![e]);
    assert(split_char(t, '/') =~= seq![seq!['.']]);
    reveal_with_fuel(Seq::filter, 2);
    assert(seq![seq!['.']].drop_last() =~= Seq::empty());
    assert(seq![seq!['.']].last() == seq!['.']);
}

/// The normal form of the current directory is itself.
pub proof fn lemma_current_directory()
    ensures
        normalized(seq!['.']) == seq!['.'],
{
    let s = seq!['.'];
    reveal_with_fuel(split_char, 3);
    assert(posix_slashes(s) =~= s);
    assert(s.drop_last() =~= Seq::<char>::empty());
    let none = Seq::<char>::empty();
    assert(split_char(s.drop_last(), '/') =~= seq![none]);
    let pieces = split_char(s, '/');
    assert(pieces =~= seq![none.push('.')]);
    assert(none.push('.') =~= seq!['.']);
    let keep = |piece: Seq<char>| kept_segment(piece);
    assert forall|i: int| 0 <= i < pieces.len() implies !keep(#[trigger] pieces[i]) by {}
    reveal(Seq::filter);
    assert(pieces.drop_last() =~= Seq::<Seq<char>>::empty());
    assert(pieces.drop_last().filter(keep) =~= Seq::<Seq<char>>::empty());
    assert(!keep(pieces.last()));
    assert(pieces.filter(keep) =~= Seq::<Seq<char>>::empty());
}

} // verus!
