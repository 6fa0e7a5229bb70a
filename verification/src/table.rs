//! The constant font table and what is taken on trust about it.
//!
//! A font table is three `phf::Map`s deep: weight label, then glyph size,
//! then character, then the packed glyph. Verus cannot look inside a
//! `phf::Map`, so each level is described by two names: the keys in the
//! order in which the map hands them out (for a font table, each key with
//! the sizes that its size map hands out), and the mapping that a lookup
//! answers. The two are told apart because `phf` gives no way to see that a
//! map finds each of its own keys: that holds of the maps that `phf`'s
//! generator makes, not of every value of the type. Nothing here is proved.
//! The functions of this module only make the call into `phf` and state
//! what `phf::Map` does.

use vstd::prelude::*;
use crate::types::{FontSize, FontWeight};

verus! {

/// `phf::Map`, declared so that its values can be handed on. Verus sees
/// nothing inside one.
#[verifier::external_type_specification]
#[verifier::external_body]
#[verifier::reject_recursive_types(K)]
#[verifier::reject_recursive_types(V)]
pub struct ExPhfMap<K: 'static, V: 'static>(phf::Map<K, V>);

/// The glyphs of one size: character to packed bytes.
pub type GlyphMap = phf::Map<char, &'static [u8]>;

/// The sizes of one weight: `[width, height]` to the glyphs of that size.
pub type SizeMap = phf::Map<[u32; 2], GlyphMap>;

/// A whole font: weight label to the sizes of that weight.
pub type ConstFontMap = phf::Map<&'static str, SizeMap>;

/// The characters of a glyph map, in the order in which the map holds its
/// entries.
pub uninterp spec fn glyph_order(m: GlyphMap) -> Seq<char>;

/// What a glyph map answers: each character that `get` finds, with the
/// bytes it returns for it.
pub uninterp spec fn glyph_table(m: GlyphMap) -> Map<char, Seq<u8>>;

/// The sizes of a size map as `(width, height)`, in the order in which the
/// map hands out its keys.
pub uninterp spec fn size_order(m: SizeMap) -> Seq<(u32, u32)>;

/// What a size map answers: each size that `get` finds, with what the glyph
/// map it returns answers.
pub uninterp spec fn size_table(m: SizeMap) -> Map<(u32, u32), Map<char, Seq<u8>>>;

/// The entries of a font table in the order in which the map hands them
/// out: each weight label with the sizes of its size map, in that map's
/// order.
pub uninterp spec fn weight_entries(m: ConstFontMap) -> Seq<(Seq<char>, Seq<(u32, u32)>)>;

/// What a font table answers: each weight label that `get` finds, with what
/// the size map it returns answers.
pub uninterp spec fn weight_table(m: ConstFontMap) -> Map<
    Seq<char>,
    Map<(u32, u32), Map<char, Seq<u8>>>,
>;

/// `phf::Map::is_empty` on a glyph map: whether the map has no entries. A
/// lookup can only answer with one of the entries, so a map without entries
/// answers nothing.
#[verifier::external_body]
pub(crate) fn glyphs_empty(m: &GlyphMap) -> (r: bool)
    ensures
        r == (glyph_order(*m).len() == 0),
        r ==> glyph_table(*m).is_empty(),
{
    m.is_empty()
}

/// `phf::Map::get` on a glyph map: the bytes stored for `ch`, if the map
/// finds the character. The map must have an entry: `get` reduces the hash
/// modulo the number of entries.
#[verifier::external_body]
pub(crate) fn glyph_get(m: &'static GlyphMap, ch: char) -> (r: Option<&'static [u8]>)
    requires
        glyph_order(*m).len() > 0,
    ensures
        match r {
            Some(bytes) => glyph_table(*m).dom().contains(ch) && glyph_table(*m)[ch] == bytes@,
            None => !glyph_table(*m).dom().contains(ch),
        },
{
    m.get(&ch).copied()
}

/// `phf::Map::is_empty` on a size map: whether the map has no entries, in
/// which case it answers nothing.
#[verifier::external_body]
pub(crate) fn sizes_empty(m: &SizeMap) -> (r: bool)
    ensures
        r == (size_order(*m).len() == 0),
        r ==> size_table(*m).is_empty(),
{
    m.is_empty()
}

/// `phf::Map::get` on a size map: the glyph map stored for `size`, if the
/// map finds the size. What it finds is the value of an entry under that
/// key. The map must have an entry.
#[verifier::external_body]
pub(crate) fn size_get(m: &'static SizeMap, size: FontSize) -> (r: Option<&'static GlyphMap>)
    requires
        size_order(*m).len() > 0,
    ensures
        match r {
            Some(glyphs) => size_table(*m).dom().contains((size.width, size.height))
                && size_table(*m)[(size.width, size.height)] == glyph_table(*glyphs)
                && size_order(*m).contains((size.width, size.height)),
            None => !size_table(*m).dom().contains((size.width, size.height)),
        },
{
    m.get(&[size.width, size.height][..])
}

/// `phf::Map::keys` on a size map: the sizes in the map's order.
#[verifier::external_body]
pub(crate) fn size_keys(m: &SizeMap) -> (r: Vec<FontSize>)
    ensures
        r@.len() == size_order(*m).len(),
        forall|i: int|
            0 <= i < r@.len() ==> (#[trigger] r@[i].width, r@[i].height) == size_order(*m)[i],
{
    m.keys().map(|k| FontSize { width: k[0], height: k[1] }).collect()
}

/// `phf::Map::is_empty` on a font table: whether the table has no entries,
/// in which case it answers nothing.
#[verifier::external_body]
pub(crate) fn weights_empty(m: &ConstFontMap) -> (r: bool)
    ensures
        r == (weight_entries(*m).len() == 0),
        r ==> weight_table(*m).is_empty(),
{
    m.is_empty()
}

/// `phf::Map::get` on a font table: the size map stored for the label, if
/// the table finds the label. What it finds is the value of an entry under
/// that key. The table must have an entry.
#[verifier::external_body]
pub(crate) fn weight_get(m: &'static ConstFontMap, label: &str) -> (r: Option<&'static SizeMap>)
    requires
        weight_entries(*m).len() > 0,
    ensures
        match r {
            Some(sizes) => weight_table(*m).dom().contains(label@) && weight_table(*m)[label@]
                == size_table(*sizes) && weight_entries(*m).contains((label@, size_order(*sizes))),
            None => !weight_table(*m).dom().contains(label@),
        },
{
    m.get(label)
}

/// `phf::Map::keys` on a font table: the weights in the table's order.
#[verifier::external_body]
pub(crate) fn weight_keys(m: &'static ConstFontMap) -> (r: Vec<FontWeight>)
    ensures
        r@.len() == weight_entries(*m).len(),
        forall|i: int| 0 <= i < r@.len() ==> (#[trigger] r@[i])@ == weight_entries(*m)[i].0,
{
    m.keys().map(|k| FontWeight { inner: *k }).collect()
}

/// `phf::Map::values` on a font table: the size maps in the table's order.
#[verifier::external_body]
pub(crate) fn weight_values(m: &'static ConstFontMap) -> (r: Vec<&'static SizeMap>)
    ensures
        r@.len() == weight_entries(*m).len(),
        forall|i: int|
            0 <= i < r@.len() ==> size_order(*#[trigger] r@[i]) == weight_entries(*m)[i].1,
{
    m.values().collect()
}

} // verus!
