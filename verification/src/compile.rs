//! Compiling one glyph source.
//!
//! A source is what was read of one glyph source file: its text, the font's
//! name, the bounds of its glyphs and the glyphs themselves, each with its
//! pixels row by row. Compiling a source reads its weight and face, checks
//! the face, and packs every glyph for the size that the bounds give.

use std::collections::HashSet;
use vstd::prelude::*;
use crate::bitmap::{pack, packed};
use crate::metadata::{face_of, get_face, get_weight, weight_of, ParseError};
use crate::types::FontSize;

verus! {

broadcast use vstd::std_specs::hash::group_hash_axioms;

/// One glyph of a source: its character and its pixels, row by row from the
/// top.
pub struct SourceGlyph {
    pub ch: char,
    pub pixels: Vec<bool>,
}

/// What was read of one glyph source file.
pub struct SourceFont {
    /// The text of the file, of which the header is read.
    pub text: String,
    /// The name of the font.
    pub name: String,
    /// The width of the glyphs' bounds, in pixels.
    pub width: u32,
    /// The height of the glyphs' bounds, in pixels.
    pub height: u32,
    /// The glyphs of the file.
    pub glyphs: Vec<SourceGlyph>,
}

/// Why a compilation failed. `file` is the place of the faulty source in
/// the list of sources, counted from zero.
#[derive(Debug, PartialEq, Eq)]
pub enum CompileError {
    /// There is no source to compile.
    NoSources,
    /// There are more sources than a table can have entries.
    TooManySources,
    /// The header or the name of a source could not be read.
    Parse { file: usize, cause: ParseError },
    /// A source is of another face than the first source.
    FaceMismatch { file: usize, expected: String, found: String },
    /// A source has two glyphs for one character.
    DuplicateGlyph { file: usize, ch: char },
    /// The bounds of a source that has glyphs hold more pixels than a `u32`
    /// can count.
    SizeOverflow { file: usize },
    /// A glyph has more pixels than the packed glyph has bits.
    PixelCount { file: usize, ch: char },
    /// A source is of the same weight and size as an earlier one.
    DuplicateSize { file: usize, weight: String, size: FontSize },
}

/// A `CompileError` as a ghost value.
pub enum Failure {
    NoSources,
    TooManySources,
    Parse { file: int, cause: ParseError },
    FaceMismatch { file: int, expected: Seq<char>, found: Seq<char> },
    DuplicateGlyph { file: int, ch: char },
    SizeOverflow { file: int },
    PixelCount { file: int, ch: char },
    DuplicateSize { file: int, weight: Seq<char>, size: FontSize },
}

impl View for CompileError {
    type V = Failure;

    open spec fn view(&self) -> Failure {
        match *self {
            CompileError::NoSources => Failure::NoSources,
            CompileError::TooManySources => Failure::TooManySources,
            CompileError::Parse { file, cause } => Failure::Parse { file: file as int, cause },
            CompileError::FaceMismatch { file, expected, found } => Failure::FaceMismatch {
                file: file as int,
                expected: expected@,
                found: found@,
            },
            CompileError::DuplicateGlyph { file, ch } => Failure::DuplicateGlyph {
                file: file as int,
                ch,
            },
            CompileError::SizeOverflow { file } => Failure::SizeOverflow { file: file as int },
            CompileError::PixelCount { file, ch } => Failure::PixelCount { file: file as int, ch },
            CompileError::DuplicateSize { file, weight, size } => Failure::DuplicateSize {
                file: file as int,
                weight: weight@,
                size,
            },
        }
    }
}

/// One packed glyph of a compiled source.
pub struct PackedGlyph {
    pub ch: char,
    pub bytes: Vec<u8>,
}

impl View for PackedGlyph {
    type V = (char, Seq<u8>);

    open spec fn view(&self) -> (char, Seq<u8>) {
        (self.ch, self.bytes@)
    }
}

/// One compiled source: its place in the list of sources, its weight, its
/// size and its packed glyphs, in the order of the source.
pub struct CompiledFile {
    pub file: usize,
    pub weight: String,
    pub size: FontSize,
    pub glyphs: Vec<PackedGlyph>,
}

/// A `CompiledFile` as a ghost value.
pub struct FileModel {
    pub file: int,
    pub weight: Seq<char>,
    pub size: FontSize,
    pub glyphs: Seq<(char, Seq<u8>)>,
}

/// The glyphs as ghost values.
pub open spec fn glyph_views(glyphs: Seq<PackedGlyph>) -> Seq<(char, Seq<u8>)> {
    glyphs.map_values(|g: PackedGlyph| g@)
}

impl View for CompiledFile {
    type V = FileModel;

    open spec fn view(&self) -> FileModel {
        FileModel {
            file: self.file as int,
            weight: self.weight@,
            size: self.size,
            glyphs: glyph_views(self.glyphs@),
        }
    }
}

/// The characters of the glyphs of a source, in the order of the source.
pub open spec fn glyph_chars(glyphs: Seq<SourceGlyph>) -> Seq<char> {
    glyphs.map_values(|g: SourceGlyph| g.ch)
}

/// The first character from position `from` on that stands at an earlier
/// position too.
pub open spec fn repeat_from(chars: Seq<char>, from: int) -> Option<char>
    decreases chars.len() - from,
{
    if from < 0 || from >= chars.len() {
        None
    } else if chars.take(from).contains(chars[from]) {
        Some(chars[from])
    } else {
        repeat_from(chars, from + 1)
    }
}

/// The first character that stands a second time.
pub open spec fn first_repeat(chars: Seq<char>) -> Option<char> {
    repeat_from(chars, 0)
}

/// What is wrong with one glyph of a source of the given size, if anything.
pub open spec fn glyph_fault(size: FontSize, file: int, glyph: SourceGlyph) -> Option<Failure> {
    if size.area() > u32::MAX {
        Some(Failure::SizeOverflow { file })
    } else if glyph.pixels@.len() > 8 * size.packed_len() {
        Some(Failure::PixelCount { file, ch: glyph.ch })
    } else {
        None
    }
}

/// What is wrong with the first faulty glyph from position `from` on.
pub open spec fn glyph_fault_from(
    size: FontSize,
    file: int,
    glyphs: Seq<SourceGlyph>,
    from: int,
) -> Option<Failure>
    decreases glyphs.len() - from,
{
    if from < 0 || from >= glyphs.len() {
        None
    } else {
        match glyph_fault(size, file, glyphs[from]) {
            Some(fault) => Some(fault),
            None => glyph_fault_from(size, file, glyphs, from + 1),
        }
    }
}

/// The glyphs of a source, packed for the given size.
pub open spec fn packed_glyphs(size: FontSize, glyphs: Seq<SourceGlyph>) -> Seq<(char, Seq<u8>)> {
    glyphs.map_values(|g: SourceGlyph| (g.ch, packed(size, g.pixels@)))
}

/// The size that a source declares.
pub open spec fn size_of(source: SourceFont) -> FontSize {
    FontSize { width: source.width, height: source.height }
}

/// What compiling one source gives: the compiled source, or the first fault
/// found. The checks come in this order: the weight can be read from the
/// header; the face can be read from the name; the face is `face`; no
/// character has two glyphs; glyph by glyph, the bounds do not overflow and
/// the pixels fit.
pub open spec fn compiled(source: SourceFont, file: int, face: Seq<char>) -> Result<
    FileModel,
    Failure,
> {
    match weight_of(source.text@) {
        Err(cause) => Err(Failure::Parse { file, cause }),
        Ok(weight) => match face_of(source.name@) {
            Err(cause) => Err(Failure::Parse { file, cause }),
            Ok(found) => if found != face {
                Err(Failure::FaceMismatch { file, expected: face, found })
            } else {
                match first_repeat(glyph_chars(source.glyphs@)) {
                    Some(ch) => Err(Failure::DuplicateGlyph { file, ch }),
                    None => match glyph_fault_from(size_of(source), file, source.glyphs@, 0) {
                        Some(fault) => Err(fault),
                        None => Ok(
                            FileModel {
                                file,
                                weight,
                                size: size_of(source),
                                glyphs: packed_glyphs(size_of(source), source.glyphs@),
                            },
                        ),
                    },
                }
            },
        },
    }
}

/// No character has two glyphs.
pub open spec fn distinct_chars(glyphs: Seq<(char, Seq<u8>)>) -> bool {
    forall|i: int, j: int| 0 <= i < j < glyphs.len() ==> glyphs[i].0 != glyphs[j].0
}

/// A compiled source is sound: no character has two glyphs, so that the
/// glyphs are no more than a table can have entries, and every glyph has
/// just the bytes that hold the pixels of the size.
pub open spec fn file_ok(file: FileModel) -> bool {
    &&& file.glyphs.len() <= u32::MAX
    &&& distinct_chars(file.glyphs)
    &&& forall|i: int|
        0 <= i < file.glyphs.len() ==> (#[trigger] file.glyphs[i]).1.len()
            == file.size.packed_len()
}

/// The code of a character lies below `0x11_0000`.
proof fn lemma_char_code(c: char)
    ensures
        0 <= (c as int),
        (c as int) < 0x11_0000,
{
}

/// Characters of which none stands twice are at most as many as there are
/// characters at all.
proof fn lemma_distinct_are_few(chars: Seq<char>)
    requires
        forall|i: int, j: int| 0 <= i < j < chars.len() ==> chars[i] != chars[j],
    ensures
        chars.len() <= 0x11_0000,
{
    let codes = chars.map_values(|c: char| c as int);
    let all = vstd::set_lib::set_int_range(0, 0x11_0000);
    assert forall|i: int, j: int|
        0 <= i < codes.len() && 0 <= j < codes.len() && i != j implies codes[i] != codes[j] by {
        if i < j {
            assert(chars[i] != chars[j]);
        } else {
            assert(chars[j] != chars[i]);
        }
    }
    codes.unique_seq_to_set();
    vstd::set_lib::lemma_int_range(0, 0x11_0000);
    assert forall|code: int| codes.to_set().contains(code) implies all.contains(code) by {
        assert(codes.contains(code));
        let i = choose|i: int| 0 <= i < codes.len() && codes[i] == code;
        lemma_char_code(chars[i]);
    }
    vstd::set_lib::lemma_len_subset(codes.to_set(), all);
}

/// Where no character repeats from the start on, all are distinct.
proof fn lemma_no_repeat(chars: Seq<char>, from: int)
    requires
        0 <= from <= chars.len(),
        repeat_from(chars, from) is None,
    ensures
        forall|i: int, j: int| 0 <= i < j < chars.len() && from <= j ==> chars[i] != chars[j],
    decreases chars.len() - from,
{
    if from < chars.len() {
        lemma_no_repeat(chars, from + 1);
        assert forall|i: int| 0 <= i < from implies chars[i] != chars[from] by {
            assert(chars.take(from)[i] == chars[i]);
        }
    }
}

/// The first character of the glyphs that stands a second time.
fn find_repeat(glyphs: &Vec<SourceGlyph>) -> (r: Option<char>)
    ensures
        r == first_repeat(glyph_chars(glyphs@)),
{
    let ghost chars = glyph_chars(glyphs@);
    let mut seen: HashSet<u32> = HashSet::new();
    let mut i: usize = 0;
    while i < glyphs.len()
        invariant
            chars == glyph_chars(glyphs@),
            i <= glyphs@.len(),
            first_repeat(chars) == repeat_from(chars, i as int),
            forall|v: u32|
                seen@.contains(v) <==> exists|k: int| 0 <= k < i && #[trigger] chars[k] as u32 == v,
        decreases glyphs@.len() - i,
    {
        let ch: char = glyphs[i].ch;
        let ghost upto = chars.take(i as int);
        assert(chars[i as int] == ch);
        let fresh: bool = seen.insert(ch as u32);
        proof {
            if upto.contains(ch) {
                let k = choose|k: int| 0 <= k < upto.len() && upto[k] == ch;
                assert(chars[k] as u32 == ch as u32);
            }
            if !fresh {
                let k = choose|k: int| 0 <= k < i && #[trigger] chars[k] as u32 == ch as u32;
                assert(upto[k] == ch);
            }
            assert(fresh == !upto.contains(ch));
        }
        if !fresh {
            return Some(ch);
        }
        proof {
            assert forall|v: u32| seen@.contains(v) <==> exists|k: int|
                0 <= k < i + 1 && #[trigger] chars[k] as u32 == v by {
                if v == ch as u32 {
                    assert(chars[i as int] as u32 == v);
                }
            }
        }
        i = i + 1;
    }
    None
}

/// Compiles one source: reads its weight and face, checks the face against
/// `face`, and packs its glyphs. `file` is the place of the source in the
/// list of sources and goes into the result or the error.
#[verifier::loop_isolation(false)]
pub fn compile_file(source: &SourceFont, file: usize, face: &String) -> (r: Result<
    CompiledFile,
    CompileError,
>)
    ensures
        match r {
            Ok(done) => compiled(*source, file as int, face@) == Ok::<FileModel, Failure>(done@)
                && file_ok(done@),
            Err(e) => compiled(*source, file as int, face@) == Err::<FileModel, Failure>(e@),
        },
{
    let weight: String = match get_weight(source.text.as_str()) {
        Ok(weight) => weight,
        Err(cause) => {
            return Err(CompileError::Parse { file, cause });
        },
    };
    let found: String = match get_face(source.name.as_str()) {
        Ok(found) => found,
        Err(cause) => {
            return Err(CompileError::Parse { file, cause });
        },
    };
    if !(found == *face) {
        return Err(CompileError::FaceMismatch { file, expected: face.clone(), found });
    }
    match find_repeat(&source.glyphs) {
        Some(ch) => {
            return Err(CompileError::DuplicateGlyph { file, ch });
        },
        None => {},
    }
    let size: FontSize = FontSize { width: source.width, height: source.height };
    let area: u64 = size.pixel_count();
    let ghost all = source.glyphs@;
    let mut glyphs: Vec<PackedGlyph> = Vec::new();
    let mut i: usize = 0;
    while i < source.glyphs.len()
        invariant
            all == source.glyphs@,
            size == size_of(*source),
            area == size.area(),
            i <= all.len(),
            glyph_fault_from(size, file as int, all, 0) == glyph_fault_from(
                size,
                file as int,
                all,
                i as int,
            ),
            glyph_views(glyphs@) == packed_glyphs(size, all.take(i as int)),
        decreases all.len() - i,
    {
        let glyph: &SourceGlyph = &source.glyphs[i];
        if area > u32::MAX as u64 {
            return Err(CompileError::SizeOverflow { file });
        }
        let capacity: u64 = 8 * ((area + 7) / 8);
        if glyph.pixels.len() as u64 > capacity {
            return Err(CompileError::PixelCount { file, ch: glyph.ch });
        }
        let bytes: Vec<u8> = pack(size, glyph.pixels.as_slice());
        let ghost before = glyphs@;
        glyphs.push(PackedGlyph { ch: glyph.ch, bytes });
        proof {
            assert(all.take(i + 1) =~= all.take(i as int).push(all[i as int]));
            assert(glyph_views(glyphs@) =~= glyph_views(before).push((glyph.ch, bytes@)));
            assert(packed_glyphs(size, all.take(i + 1)) =~= packed_glyphs(
                size,
                all.take(i as int),
            ).push((glyph.ch, packed(size, glyph.pixels@))));
        }
        i = i + 1;
    }
    let done = CompiledFile { file, weight, size, glyphs };
    proof {
        assert(all.take(all.len() as int) =~= all);
        let chars = glyph_chars(all);
        lemma_no_repeat(chars, 0);
        lemma_distinct_are_few(chars);
        assert forall|a: int, b: int| 0 <= a < b < done@.glyphs.len() implies done@.glyphs[a].0
            != done@.glyphs[b].0 by {
            assert(chars[a] != chars[b]);
        }
    }
    Ok(done)
}

/// A source that compiles gives a sound file of the weight that its header
/// declares.
pub proof fn lemma_compiled_ok(source: SourceFont, file: int, face: Seq<char>)
    requires
        compiled(source, file, face) is Ok,
    ensures
        file_ok(compiled(source, file, face)->Ok_0),
        weight_of(source.text@) == Ok::<Seq<char>, ParseError>(
            compiled(source, file, face)->Ok_0.weight,
        ),
        face_of(source.name@) == Ok::<Seq<char>, ParseError>(face),
{
    let done = compiled(source, file, face)->Ok_0;
    let chars = glyph_chars(source.glyphs@);
    lemma_no_repeat(chars, 0);
    lemma_distinct_are_few(chars);
    assert forall|a: int, b: int| 0 <= a < b < done.glyphs.len() implies done.glyphs[a].0
        != done.glyphs[b].0 by {
        assert(chars[a] != chars[b]);
    }
}

} // verus!
