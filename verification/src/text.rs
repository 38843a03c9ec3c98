//! Text: parts of application paths, and the comparisons that they need.
use vstd::prelude::*;

verus! {

/// An ASCII capital as a small letter; any other character as it is.
pub open spec fn ascii_lower(c: char) -> char {
    if 'A' <= c <= 'Z' {
        (c as u32 + 32) as char
    } else {
        c
    }
}

pub open spec fn ascii_lowered(text: Seq<char>) -> Seq<char> {
    text.map_values(|c: char| ascii_lower(c))
}

/// `str::to_ascii_lowercase`: the letters A to Z become a to z, and nothing else
/// changes.
pub assume_specification[ str::to_ascii_lowercase ](text: &str) -> (lowered: String)
    ensures
        lowered@ == ascii_lowered(text@),
;

/// The lowercase equivalent of a text, by the rules of Unicode.
pub uninterp spec fn lowercase(text: Seq<char>) -> Seq<char>;

/// `str::to_lowercase`: the lowercase equivalent of the text, which depends on the
/// text alone.
pub assume_specification[ str::to_lowercase ](text: &str) -> (lowered: String)
    ensures
        lowered@ == lowercase(text@),
;

/// `part` stands somewhere in `text`.
pub open spec fn has_part(text: Seq<char>, part: Seq<char>) -> bool {
    exists|i: int|
        0 <= i <= text.len() - part.len() && #[trigger] text.subrange(i, i + part.len()) == part
}

pub open spec fn starts_with(text: Seq<char>, start: Seq<char>) -> bool {
    start.len() <= text.len() && text.take(start.len() as int) == start
}

/// The next place at or after `from` where two colons stand; the length where there
/// is none.
pub open spec fn next_separator(text: Seq<char>, from: int) -> int
    decreases text.len() - from,
{
    if from + 1 >= text.len() {
        text.len() as int
    } else if text[from] == ':' && text[from + 1] == ':' {
        from
    } else {
        next_separator(text, from + 1)
    }
}

/// The parts of a text, from `from` on, between pairs of colons.
pub open spec fn parts_from(text: Seq<char>, from: int) -> Seq<Seq<char>>
    decreases text.len() - from,
{
    let end = next_separator(text, from);
    if end < from || end + 2 > text.len() {
        seq![text.skip(from)]
    } else {
        seq![text.subrange(from, end)] + parts_from(text, end + 2)
    }
}

/// The parts of an application path: the executable, and what tells apart the
/// applications that run in it.
pub open spec fn parts(path: Seq<char>) -> Seq<Seq<char>> {
    parts_from(path, 0)
}

/// The text after the last backslash.
pub open spec fn file_name(path: Seq<char>) -> Seq<char>
    decreases path.len(),
{
    if path.len() == 0 || path.last() == '\\' {
        Seq::empty()
    } else {
        file_name(path.drop_last()).push(path.last())
    }
}

/// The contents of some strings.
pub open spec fn texts(strings: Seq<String>) -> Seq<Seq<char>> {
    strings.map_values(|s: String| s@)
}

/// The content of a text that may be absent.
pub open spec fn text_of(text: Option<&str>) -> Option<Seq<char>> {
    match text {
        Some(text) => Some(text@),
        None => None,
    }
}

/// The content of a string that may be absent.
pub open spec fn content_of(text: Option<String>) -> Option<Seq<char>> {
    match text {
        Some(text) => Some(text@),
        None => None,
    }
}

/// The characters of a text.
pub fn chars_of(text: &str) -> (chars: Vec<char>)
    ensures
        chars@ == text@,
{
    let mut chars: Vec<char> = Vec::new();
    for c in it: text.chars()
        invariant
            chars@ == text@.take(it.index()),
            it.seq() == text@,
    {
        chars.push(c);
        assert(chars@ =~= text@.take(it.index() + 1));
    }
    assert(chars@ =~= text@);
    chars
}

/// Whether two texts are the same.
pub fn text_eq(one: &str, other: &str) -> (same: bool)
    ensures
        same == (one@ == other@),
{
    let a = chars_of(one);
    let b = chars_of(other);
    if a.len() != b.len() {
        return false;
    }
    let mut i: usize = 0;
    while i < a.len()
        invariant
            i <= a@.len(),
            a@ == one@,
            b@ == other@,
            a@.len() == b@.len(),
            a@.take(i as int) == b@.take(i as int),
        decreases a@.len() - i,
    {
        if a[i] != b[i] {
            assert(a@[i as int] != b@[i as int]);
            return false;
        }
        assert(a@.take(i + 1) =~= a@.take(i as int).push(a@[i as int]));
        assert(b@.take(i + 1) =~= b@.take(i as int).push(b@[i as int]));
        i += 1;
    }
    assert(a@.take(i as int) =~= a@);
    assert(b@.take(i as int) =~= b@);
    true
}

fn part_stands_at(text: &Vec<char>, part: &Vec<char>, at: usize) -> (stands: bool)
    requires
        at + part@.len() <= text@.len(),
    ensures
        stands == (text@.subrange(at as int, at + part@.len()) == part@),
{
    let mut i: usize = 0;
    let ghost piece = text@.subrange(at as int, at + part@.len());
    while i < part.len()
        invariant
            i <= part@.len(),
            at + part@.len() <= text@.len(),
            piece == text@.subrange(at as int, at + part@.len()),
            forall|j: int| 0 <= j < i ==> piece[j] == part@[j],
        decreases part@.len() - i,
    {
        assert(at + i < text.len());
        if text[at + i] != part[i] {
            assert(piece[i as int] != part@[i as int]);
            return false;
        }
        i += 1;
    }
    assert(piece =~= part@);
    true
}

/// Whether `part` stands somewhere in `text`.
pub fn contains_text(text: &str, part: &str) -> (found: bool)
    ensures
        found == has_part(text@, part@),
{
    let whole = chars_of(text);
    let piece = chars_of(part);
    if piece.len() > whole.len() {
        return false;
    }
    let last: usize = whole.len() - piece.len();
    let mut i: usize = 0;
    while i <= last
        invariant
            i <= last + 1,
            whole@ == text@,
            piece@ == part@,
            last + part@.len() == text@.len(),
            forall|j: int| 0 <= j < i ==> #[trigger] text@.subrange(j, j + part@.len()) != part@,
        decreases last + 1 - i,
    {
        if part_stands_at(&whole, &piece, i) {
            assert(text@.subrange(i as int, i + part@.len()) == part@);
            return true;
        }
        if i == last {
            assert(!has_part(text@, part@)) by {
                if has_part(text@, part@) {
                    let j = choose|j: int|
                        0 <= j <= text@.len() - part@.len() && #[trigger] text@.subrange(
                            j,
                            j + part@.len(),
                        ) == part@;
                    assert(0 <= j <= i);
                }
            }
            return false;
        }
        i += 1;
    }
    false
}

/// Whether `text` begins with `start`.
pub fn text_starts_with(text: &str, start: &str) -> (found: bool)
    ensures
        found == starts_with(text@, start@),
{
    let text = chars_of(text);
    let start = chars_of(start);
    if start.len() > text.len() {
        return false;
    }
    assert(text@.take(start@.len() as int) =~= text@.subrange(0, start@.len() as int));
    part_stands_at(&text, &start, 0)
}

proof fn lemma_next_separator(text: Seq<char>, from: int)
    requires
        0 <= from <= text.len(),
    ensures
        from <= next_separator(text, from) <= text.len(),
        next_separator(text, from) < text.len() ==> next_separator(text, from) + 2 <= text.len(),
    decreases text.len() - from,
{
    if from + 1 < text.len() && !(text[from] == ':' && text[from + 1] == ':') {
        lemma_next_separator(text, from + 1);
    }
}

fn find_separator(text: &Vec<char>, from: usize) -> (place: usize)
    requires
        from <= text@.len(),
    ensures
        place == next_separator(text@, from as int),
{
    let len: usize = text.len();
    let mut i: usize = from;
    while i < len && len - i > 1
        invariant
            from <= i <= len,
            len == text@.len(),
            next_separator(text@, from as int) == next_separator(text@, i as int),
        decreases len - i,
    {
        if text[i] == ':' && text[i + 1] == ':' {
            return i;
        }
        i += 1;
    }
    len
}

/// The parts of an application path.
pub fn path_parts(path: &str) -> (list: Vec<String>)
    ensures
        texts(list@) == parts(path@),
        list@.len() > 0,
{
    let chars = chars_of(path);
    let mut list: Vec<String> = Vec::new();
    let mut from: usize = 0;
    assert(texts(list@) + parts_from(path@, 0) =~= parts(path@));
    loop
        invariant
            chars@ == path@,
            from <= path@.len(),
            texts(list@) + parts_from(path@, from as int) == parts(path@),
        decreases path@.len() - from,
    {
        let end: usize = find_separator(&chars, from);
        proof {
            lemma_next_separator(path@, from as int);
        }
        let ghost before = texts(list@);
        if end >= chars.len() {
            list.push(path.substring_char(from, chars.len()).to_owned());
            assert(path@.subrange(from as int, path@.len() as int) =~= path@.skip(from as int));
            assert(texts(list@) =~= before.push(path@.skip(from as int)));
            assert(texts(list@) =~= before + parts_from(path@, from as int));
            return list;
        }
        list.push(path.substring_char(from, end).to_owned());
        assert(texts(list@) =~= before.push(path@.subrange(from as int, end as int)));
        assert(before + parts_from(path@, from as int) =~= texts(list@) + parts_from(
            path@,
            end + 2,
        ));
        from = end + 2;
    }
}

proof fn lemma_file_name(path: Seq<char>, at: int)
    requires
        0 <= at <= path.len(),
        at > 0 ==> path[at - 1] == '\\',
        forall|j: int| at <= j < path.len() ==> path[j] != '\\',
    ensures
        file_name(path) == path.skip(at),
    decreases path.len(),
{
    if at == path.len() {
        assert(path.skip(at) =~= Seq::<char>::empty());
    } else {
        lemma_file_name(path.drop_last(), at);
        assert(path.skip(at) =~= path.drop_last().skip(at).push(path.last()));
    }
}

/// The text after the last backslash.
pub fn path_file_name(path: &str) -> (name: String)
    ensures
        name@ == file_name(path@),
{
    let chars = chars_of(path);
    let mut at: usize = chars.len();
    while at > 0 && chars[at - 1] != '\\'
        invariant
            at <= chars@.len(),
            forall|j: int| at <= j < chars@.len() ==> chars@[j] != '\\',
        decreases at,
    {
        at -= 1;
    }
    proof {
        lemma_file_name(path@, at as int);
        assert(path@.subrange(at as int, path@.len() as int) =~= path@.skip(at as int));
    }
    path.substring_char(at, chars.len()).to_owned()
}

/// Whether two texts are the same but for the case of ASCII letters.
pub fn eq_ignore_ascii_case(one: &str, other: &str) -> (same: bool)
    ensures
        same == (ascii_lowered(one@) == ascii_lowered(other@)),
{
    let a = one.to_ascii_lowercase();
    let b = other.to_ascii_lowercase();
    a == b
}

} // verus!
