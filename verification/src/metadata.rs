//! Weight and face of a glyph source, read from its header text.
//!
//! A glyph source names its font on the first line that starts with `FONT`,
//! as a string of fields separated by hyphens. Counted from zero and with
//! the keyword's own piece as field zero, the weight is field three of that
//! line. The font's name is the same string without the keyword; the face is
//! field two of the name.

use vstd::prelude::*;
use vstd::string::StrSliceExecFns;

verus! {

/// Why a header could not be read.
#[derive(Debug, Clone, Copy, PartialEq, Eq, Structural)]
pub enum ParseError {
    /// No line of the text starts with `FONT`.
    NoFontLine,
    /// The name has too few fields for the one asked for.
    TooFewFields,
}

/// The position of the first `mark` in `s`, or the length of `s` where it
/// has none.
pub open spec fn find(s: Seq<char>, mark: char) -> nat
    decreases s.len(),
{
    if s.len() == 0 {
        0
    } else if s[0] == mark {
        0
    } else {
        1 + find(s.drop_first(), mark)
    }
}

/// Field `n` of `s`, counted from zero, where hyphens separate the fields.
/// A string without hyphens is one field; `None` where `s` has `n` fields
/// or fewer.
pub open spec fn field(s: Seq<char>, n: nat) -> Option<Seq<char>>
    decreases n,
{
    let end = find(s, '-');
    if n == 0 {
        Some(s.take(end as int))
    } else if end >= s.len() {
        None
    } else {
        field(s.skip(end as int + 1), (n - 1) as nat)
    }
}

/// The line that ends before position `end` of `text`, without its line
/// ending: where a line feed ends the line, a carriage return just before
/// it belongs to the ending.
pub open spec fn line_before(text: Seq<char>, end: int) -> Seq<char> {
    if 0 < end < text.len() && text[end - 1] == '\r' {
        text.take(end - 1)
    } else {
        text.take(end)
    }
}

/// The line starts with the keyword `FONT`.
pub open spec fn is_font_line(line: Seq<char>) -> bool {
    line.len() >= 4 && line[0] == 'F' && line[1] == 'O' && line[2] == 'N' && line[3] == 'T'
}

/// The first line of `text` that starts with `FONT`, if there is one. Lines
/// end at a line feed; the last line need not have one.
pub open spec fn font_line(text: Seq<char>) -> Option<Seq<char>>
    decreases text.len(),
{
    if text.len() == 0 {
        None
    } else {
        let end = find(text, '\n');
        let line = line_before(text, end as int);
        if is_font_line(line) {
            Some(line)
        } else if end >= text.len() {
            None
        } else {
            font_line(text.skip(end as int + 1))
        }
    }
}

/// The weight label that a header text declares, or why it declares none.
pub open spec fn weight_of(text: Seq<char>) -> Result<Seq<char>, ParseError> {
    match font_line(text) {
        None => Err(ParseError::NoFontLine),
        Some(line) => match field(line, 3) {
            None => Err(ParseError::TooFewFields),
            Some(weight) => Ok(weight),
        },
    }
}

/// The face label that a font name declares, or why it declares none.
pub open spec fn face_of(name: Seq<char>) -> Result<Seq<char>, ParseError> {
    match field(name, 2) {
        None => Err(ParseError::TooFewFields),
        Some(face) => Ok(face),
    }
}

/// `find` gives the position `k` where no mark stands before `k` and one
/// stands at `k`, or `s` ends there.
proof fn lemma_find(s: Seq<char>, mark: char, k: int)
    requires
        0 <= k <= s.len(),
        forall|j: int| 0 <= j < k ==> s[j] != mark,
        k < s.len() ==> s[k] == mark,
    ensures
        find(s, mark) == k,
    decreases k,
{
    if k > 0 {
        let rest = s.drop_first();
        assert forall|j: int| 0 <= j < k - 1 implies rest[j] != mark by {
            assert(rest[j] == s[j + 1]);
        }
        lemma_find(rest, mark, k - 1);
    }
}

/// The characters of a text.
fn chars_of(text: &str) -> (r: Vec<char>)
    ensures
        r@ == text@,
{
    let mut chars: Vec<char> = Vec::new();
    for c in it: text.chars()
        invariant
            it.seq() == text@,
            chars@ == it.seq().take(it.index() as int),
    {
        chars.push(c);
        assert(it.seq().take(it.index() + 1) == it.seq().take(it.index() as int).push(c));
    }
    assert(text@.take(text@.len() as int) == text@);
    chars
}

/// The position of the first `mark` in `chars[from..to]`, or `to` where
/// there is none.
fn find_from(chars: &Vec<char>, from: usize, to: usize, mark: char) -> (r: usize)
    requires
        from <= to <= chars@.len(),
    ensures
        from <= r <= to,
        r - from == find(chars@.subrange(from as int, to as int), mark),
{
    let mut i: usize = from;
    while i < to
        invariant
            from <= i <= to,
            to <= chars@.len(),
            forall|j: int| from <= j < i ==> chars@[j] != mark,
        ensures
            from <= i <= to,
            forall|j: int| from <= j < i ==> chars@[j] != mark,
            i < to ==> chars@[i as int] == mark,
        decreases to - i,
    {
        if chars[i] == mark {
            break ;
        }
        i = i + 1;
    }
    proof {
        lemma_find(chars@.subrange(from as int, to as int), mark, i - from);
    }
    i
}

/// The bounds of field `n` of `chars[from..to]`.
fn nth_field(chars: &Vec<char>, from: usize, to: usize, n: usize) -> (r: Option<(usize, usize)>)
    requires
        from <= to <= chars@.len(),
    ensures
        match r {
            Some((a, b)) => from <= a <= b <= to && field(
                chars@.subrange(from as int, to as int),
                n as nat,
            ) == Some(chars@.subrange(a as int, b as int)),
            None => field(chars@.subrange(from as int, to as int), n as nat) is None,
        },
{
    let ghost whole = chars@.subrange(from as int, to as int);
    let mut start: usize = from;
    let mut left: usize = n;
    loop
        invariant
            from <= start <= to <= chars@.len(),
            whole == chars@.subrange(from as int, to as int),
            field(whole, n as nat) == field(chars@.subrange(start as int, to as int), left as nat),
        decreases left,
    {
        let end: usize = find_from(chars, start, to, '-');
        let ghost rest = chars@.subrange(start as int, to as int);
        if left == 0 {
            assert(rest.take(end - start) =~= chars@.subrange(start as int, end as int));
            return Some((start, end));
        }
        if end >= to {
            return None;
        }
        assert(rest.skip(end - start + 1) =~= chars@.subrange(end + 1, to as int));
        start = end + 1;
        left = left - 1;
    }
}

/// The face of a font, taken from the font's name: field two of the name,
/// where hyphens separate the fields and the count starts at zero.
pub fn get_face(name: &str) -> (r: Result<String, ParseError>)
    ensures
        match r {
            Ok(face) => face_of(name@) == Ok::<Seq<char>, ParseError>(face@),
            Err(e) => face_of(name@) == Err::<Seq<char>, ParseError>(e),
        },
{
    let chars: Vec<char> = chars_of(name);
    assert(chars@.subrange(0, chars@.len() as int) =~= chars@);
    match nth_field(&chars, 0, chars.len(), 2) {
        Some((a, b)) => Ok(name.substring_char(a, b).to_owned()),
        None => Err(ParseError::TooFewFields),
    }
}

/// The weight of a font, taken from the header text of its source: field
/// three of the first line that starts with `FONT`, where hyphens separate
/// the fields and the count starts at zero.
pub fn get_weight(text: &str) -> (r: Result<String, ParseError>)
    ensures
        match r {
            Ok(weight) => weight_of(text@) == Ok::<Seq<char>, ParseError>(weight@),
            Err(e) => weight_of(text@) == Err::<Seq<char>, ParseError>(e),
        },
{
    let chars: Vec<char> = chars_of(text);
    let len: usize = chars.len();
    let mut pos: usize = 0;
    assert(text@.skip(0) =~= text@);
    while pos < len
        invariant
            chars@ == text@,
            len == chars@.len(),
            pos <= len,
            font_line(text@) == font_line(text@.skip(pos as int)),
        decreases len - pos,
    {
        let end: usize = find_from(&chars, pos, len, '\n');
        let ghost rest = text@.skip(pos as int);
        assert(rest =~= chars@.subrange(pos as int, len as int));
        let line_end: usize = if pos < end && end < len && chars[end - 1] == '\r' {
            end - 1
        } else {
            end
        };
        assert(line_before(rest, end - pos) =~= chars@.subrange(pos as int, line_end as int));
        if line_end - pos >= 4 && chars[pos] == 'F' && chars[pos + 1] == 'O' && chars[pos + 2]
            == 'N' && chars[pos + 3] == 'T' {
            assert(is_font_line(line_before(rest, end - pos)));
            return match nth_field(&chars, pos, line_end, 3) {
                Some((a, b)) => Ok(text.substring_char(a, b).to_owned()),
                None => Err(ParseError::TooFewFields),
            };
        }
        assert(!is_font_line(line_before(rest, end - pos)));
        if end >= len {
            return Err(ParseError::NoFontLine);
        }
        assert(rest.skip(end - pos + 1) =~= text@.skip(end + 1));
        pos = end + 1;
    }
    assert(text@.skip(pos as int).len() == 0);
    Err(ParseError::NoFontLine)
}

} // verus!
