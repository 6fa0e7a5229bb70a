//! Generating the source text of a font table.
//!
//! The sources are compiled one by one, grouped by weight and size, and
//! written as a `phf::Map` literal three maps deep: weight label, then
//! `[width, height]`, then character, then a reference to the packed bytes.
//! Any fault ends the generation; no part of a table is ever returned.

use vstd::prelude::*;
use crate::builders::{
    glyph_builder_build, glyph_builder_entries, glyph_builder_entry,
    glyph_builder_new, glyph_map_text, size_builder_build, size_builder_entries,
    size_builder_entry, size_builder_new, size_map_text, weight_builder_build,
    weight_builder_entries, weight_builder_entry, weight_builder_new, weight_map_text,
};
use crate::compile::{distinct_chars, file_ok, glyph_views, Failure, FileModel};
use crate::group::{file_views, files_ok, group_ok, group_views, table_of, table_ok, GroupModel};
use crate::literal::{byte_array_text, byte_literal};

pub use crate::compile::{
    compile_file, CompileError, CompiledFile, PackedGlyph, SourceFont, SourceGlyph,
};
pub use crate::group::{add_file, compile_table, WeightGroup};

verus! {

/// The path by which the text of a table names the `phf` crate: this crate
/// hands `phf` on under its own name.
pub const PHF_PATH: &'static str = "fontgen::phf";

/// The entries of a glyph map: each character with the source text of its
/// packed bytes.
pub open spec fn glyph_rows(glyphs: Seq<(char, Seq<u8>)>) -> Seq<(char, Seq<char>)> {
    glyphs.map_values(|g: (char, Seq<u8>)| (g.0, byte_literal(g.1)))
}

/// The source text of the glyph map of one compiled source.
pub open spec fn glyphs_text(glyphs: Seq<(char, Seq<u8>)>) -> Seq<char> {
    glyph_map_text(usize::BITS as nat, PHF_PATH@, glyph_rows(glyphs))
}

/// The entries of a size map: the size of each compiled source with the
/// source text of its glyph map.
pub open spec fn size_rows(files: Seq<FileModel>) -> Seq<((u32, u32), Seq<char>)> {
    files.map_values(|f: FileModel| ((f.size.width, f.size.height), glyphs_text(f.glyphs)))
}

/// The source text of the size map of one weight.
pub open spec fn sizes_text(files: Seq<FileModel>) -> Seq<char> {
    size_map_text(usize::BITS as nat, PHF_PATH@, size_rows(files))
}

/// The entries of a font table: the weight of each group with the source
/// text of its size map.
pub open spec fn weight_rows(groups: Seq<GroupModel>) -> Seq<(Seq<char>, Seq<char>)> {
    groups.map_values(|g: GroupModel| (g.weight, sizes_text(g.files)))
}

/// The source text of a font table.
pub open spec fn font_text(groups: Seq<GroupModel>) -> Seq<char> {
    weight_map_text(usize::BITS as nat, PHF_PATH@, weight_rows(groups))
}

/// The source text of the glyph map of one compiled source.
fn glyphs_source(glyphs: &Vec<PackedGlyph>) -> (r: String)
    requires
        glyphs@.len() <= u32::MAX,
        distinct_chars(glyph_views(glyphs@)),
    ensures
        r@ == glyphs_text(glyph_views(glyphs@)),
{
    let ghost rows = glyph_rows(glyph_views(glyphs@));
    let mut builder = glyph_builder_new();
    assert(glyph_builder_entries(builder) =~= rows.take(0));
    let mut i: usize = 0;
    while i < glyphs.len()
        invariant
            rows == glyph_rows(glyph_views(glyphs@)),
            i <= glyphs@.len(),
            glyph_builder_entries(builder) == rows.take(i as int),
        decreases glyphs@.len() - i,
    {
        let value: String = byte_array_text(glyphs[i].bytes.as_slice());
        glyph_builder_entry(&mut builder, glyphs[i].ch, value.as_str());
        assert(rows.take(i + 1) =~= rows.take(i as int).push(rows[i as int]));
        i = i + 1;
    }
    proof {
        assert(rows.take(rows.len() as int) =~= rows);
        assert forall|a: int, b: int| 0 <= a < b < rows.len() implies rows[a].0 != rows[b].0 by {
            assert(glyph_views(glyphs@)[a].0 != glyph_views(glyphs@)[b].0);
        }
    }
    glyph_builder_build(builder, PHF_PATH)
}

/// The source text of the size map of one weight.
fn sizes_source(files: &Vec<CompiledFile>) -> (r: String)
    requires
        files_ok(file_views(files@), u32::MAX as int),
    ensures
        r@ == sizes_text(file_views(files@)),
{
    let ghost models = file_views(files@);
    let ghost rows = size_rows(models);
    let mut builder = size_builder_new();
    assert(size_builder_entries(builder) =~= rows.take(0));
    let mut i: usize = 0;
    while i < files.len()
        invariant
            models == file_views(files@),
            rows == size_rows(models),
            files_ok(models, u32::MAX as int),
            i <= files@.len(),
            size_builder_entries(builder) == rows.take(i as int),
        decreases files@.len() - i,
    {
        assert(file_ok(models[i as int]));
        let value: String = glyphs_source(&files[i].glyphs);
        size_builder_entry(&mut builder, files[i].size, value.as_str());
        assert(rows.take(i + 1) =~= rows.take(i as int).push(rows[i as int]));
        i = i + 1;
    }
    proof {
        assert(rows.take(rows.len() as int) =~= rows);
        assert forall|a: int, b: int| 0 <= a < b < rows.len() implies rows[a].0 != rows[b].0 by {
            assert(models[a].size != models[b].size);
        }
    }
    size_builder_build(builder, PHF_PATH)
}

/// Writes a table as source text: a `phf::Map` literal from weight labels
/// to maps from `[width, height]` to maps from characters to references to
/// byte arrays.
pub fn table_text(groups: &Vec<WeightGroup>) -> (r: String)
    requires
        table_ok(group_views(groups@)),
    ensures
        r@ == font_text(group_views(groups@)),
{
    let ghost models = group_views(groups@);
    let ghost rows = weight_rows(models);
    let mut builder = weight_builder_new();
    assert(weight_builder_entries(builder) =~= rows.take(0));
    let mut i: usize = 0;
    while i < groups.len()
        invariant
            models == group_views(groups@),
            rows == weight_rows(models),
            table_ok(models),
            i <= groups@.len(),
            weight_builder_entries(builder) == rows.take(i as int),
        decreases groups@.len() - i,
    {
        assert(group_ok(models[i as int], u32::MAX as int));
        let value: String = sizes_source(&groups[i].files);
        weight_builder_entry(&mut builder, groups[i].weight.clone(), value.as_str());
        assert(rows.take(i + 1) =~= rows.take(i as int).push(rows[i as int]));
        i = i + 1;
    }
    proof {
        assert(rows.take(rows.len() as int) =~= rows);
        assert forall|a: int, b: int| 0 <= a < b < rows.len() implies rows[a].0 != rows[b].0 by {
            assert(models[a].weight != models[b].weight);
        }
    }
    weight_builder_build(builder, PHF_PATH)
}

/// Generates the source text of the font table of the given sources.
///
/// The text is an expression of type `ConstFontMap`. It names the `phf`
/// crate by the path `fontgen::phf`.
pub fn gen_font(sources: &Vec<SourceFont>) -> (r: Result<String, CompileError>)
    ensures
        sources@.len() == 0 ==> r == Err::<String, CompileError>(CompileError::NoSources),
        match r {
            Ok(text) => match table_of(sources@) {
                Ok(groups) => text@ == font_text(groups),
                Err(_) => false,
            },
            Err(e) => table_of(sources@) == Err::<Seq<GroupModel>, Failure>(e@),
        },
{
    match compile_table(sources) {
        Ok(groups) => Ok(table_text(&groups)),
        Err(e) => Err(e),
    }
}

} // verus!
