//! The builders of `phf_codegen` and what is taken on trust about them.
//!
//! The text of a map is made by `phf_codegen::Map`: entries go in one by
//! one, each a key and the source text of its value, and `build` lays them
//! out as a `phf::Map` literal. What that text is, character by character,
//! is not stated here: it has a name, and the functions of this module say
//! which entries the named text was made from. Nothing here is proved. The
//! functions only make the call into `phf_codegen`.
//!
//! The text depends on the machine that makes it in one way only: the
//! generator behind `build` draws its hash keys from a random number
//! generator with a fixed seed, whose algorithm is chosen by the width of
//! `usize`. The names therefore take that width as their first argument.

use vstd::prelude::*;
use crate::types::FontSize;

verus! {

/// `phf_codegen::Map`, declared so that its values can be handed on. Verus
/// sees nothing inside one.
#[verifier::external_type_specification]
#[verifier::external_body]
#[verifier::reject_recursive_types(K)]
pub struct ExMapBuilder<K>(phf_codegen::Map<K>);

/// A builder for the glyphs of one size.
pub type GlyphMapBuilder = phf_codegen::Map<char>;

/// A builder for the sizes of one weight.
pub type SizeMapBuilder = phf_codegen::Map<[u32; 2]>;

/// A builder for the weights of a font.
pub type WeightMapBuilder = phf_codegen::Map<String>;

/// The entries given to a glyph builder so far, in the order given: the
/// character and the source text of its value.
pub uninterp spec fn glyph_builder_entries(b: GlyphMapBuilder) -> Seq<(char, Seq<char>)>;

/// The source text of a `phf::Map` keyed by characters, as `phf_codegen`
/// writes it on a machine with `usize` of `bits` bits, for the path to the
/// `phf` crate and the entries.
pub uninterp spec fn glyph_map_text(
    bits: nat,
    path: Seq<char>,
    entries: Seq<(char, Seq<char>)>,
) -> Seq<char>;

/// The entries given to a size builder so far, in the order given: the size
/// as `(width, height)` and the source text of its value.
pub uninterp spec fn size_builder_entries(b: SizeMapBuilder) -> Seq<((u32, u32), Seq<char>)>;

/// The source text of a `phf::Map` keyed by `[width, height]`, as
/// `phf_codegen` writes it on a machine with `usize` of `bits` bits.
pub uninterp spec fn size_map_text(
    bits: nat,
    path: Seq<char>,
    entries: Seq<((u32, u32), Seq<char>)>,
) -> Seq<char>;

/// The entries given to a weight builder so far, in the order given: the
/// label and the source text of its value.
pub uninterp spec fn weight_builder_entries(b: WeightMapBuilder) -> Seq<(Seq<char>, Seq<char>)>;

/// The source text of a `phf::Map` keyed by strings, as `phf_codegen`
/// writes it on a machine with `usize` of `bits` bits.
pub uninterp spec fn weight_map_text(
    bits: nat,
    path: Seq<char>,
    entries: Seq<(Seq<char>, Seq<char>)>,
) -> Seq<char>;

/// No key stands twice among the entries.
pub open spec fn distinct_keys<K, V>(entries: Seq<(K, V)>) -> bool {
    forall|i: int, j: int| 0 <= i < j < entries.len() ==> entries[i].0 != entries[j].0
}

/// `phf_codegen::Map::new` for character keys: a builder without entries.
#[verifier::external_body]
pub(crate) fn glyph_builder_new() -> (b: GlyphMapBuilder)
    ensures
        glyph_builder_entries(b).len() == 0,
{
    phf_codegen::Map::new()
}

/// `phf_codegen::Map::entry` for character keys: the entry is added behind
/// those that the builder has.
#[verifier::external_body]
pub(crate) fn glyph_builder_entry(b: &mut GlyphMapBuilder, key: char, value: &str)
    ensures
        glyph_builder_entries(*final(b)) == glyph_builder_entries(*old(b)).push((key, value@)),
{
    b.entry(key, value);
}

/// `phf_codegen::Map::phf_path` and `build` for character keys, and the
/// text that the built map displays. `build` panics where a key stands
/// twice, and it reduces hashes modulo the number of entries as a `u32`.
#[verifier::external_body]
pub(crate) fn glyph_builder_build(b: GlyphMapBuilder, path: &str) -> (r: String)
    requires
        distinct_keys(glyph_builder_entries(b)),
        glyph_builder_entries(b).len() <= u32::MAX,
    ensures
        r@ == glyph_map_text(usize::BITS as nat, path@, glyph_builder_entries(b)),
{
    let mut b = b;
    b.phf_path(path).build().to_string()
}

/// `phf_codegen::Map::new` for size keys: a builder without entries.
#[verifier::external_body]
pub(crate) fn size_builder_new() -> (b: SizeMapBuilder)
    ensures
        size_builder_entries(b).len() == 0,
{
    phf_codegen::Map::new()
}

/// `phf_codegen::Map::entry` for size keys: the entry is added behind those
/// that the builder has, under the key `[width, height]`.
#[verifier::external_body]
pub(crate) fn size_builder_entry(b: &mut SizeMapBuilder, key: FontSize, value: &str)
    ensures
        size_builder_entries(*final(b)) == size_builder_entries(*old(b)).push(
            ((key.width, key.height), value@),
        ),
{
    b.entry([key.width, key.height], value);
}

/// `phf_codegen::Map::phf_path` and `build` for size keys, and the text
/// that the built map displays.
#[verifier::external_body]
pub(crate) fn size_builder_build(b: SizeMapBuilder, path: &str) -> (r: String)
    requires
        distinct_keys(size_builder_entries(b)),
        size_builder_entries(b).len() <= u32::MAX,
    ensures
        r@ == size_map_text(usize::BITS as nat, path@, size_builder_entries(b)),
{
    let mut b = b;
    b.phf_path(path).build().to_string()
}

/// `phf_codegen::Map::new` for string keys: a builder without entries.
#[verifier::external_body]
pub(crate) fn weight_builder_new() -> (b: WeightMapBuilder)
    ensures
        weight_builder_entries(b).len() == 0,
{
    phf_codegen::Map::new()
}

/// `phf_codegen::Map::entry` for string keys: the entry is added behind
/// those that the builder has.
#[verifier::external_body]
pub(crate) fn weight_builder_entry(b: &mut WeightMapBuilder, key: String, value: &str)
    ensures
        weight_builder_entries(*final(b)) == weight_builder_entries(*old(b)).push((key@, value@)),
{
    b.entry(key, value);
}

/// `phf_codegen::Map::phf_path` and `build` for string keys, and the text
/// that the built map displays.
#[verifier::external_body]
pub(crate) fn weight_builder_build(b: WeightMapBuilder, path: &str) -> (r: String)
    requires
        distinct_keys(weight_builder_entries(b)),
        weight_builder_entries(b).len() <= u32::MAX,
    ensures
        r@ == weight_map_text(usize::BITS as nat, path@, weight_builder_entries(b)),
{
    let mut b = b;
    b.phf_path(path).build().to_string()
}

} // verus!
