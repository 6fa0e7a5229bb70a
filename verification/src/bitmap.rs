//! Packed glyph bitmaps.
//!
//! A glyph of `width * height` pixels is stored row by row, eight pixels to
//! a byte, the first pixel of each byte in its lowest bit. Pixel `i` is bit
//! `i % 8` of byte `i / 8`.

use vstd::prelude::*;
use crate::types::FontSize;

verus! {

/// Whether pixel `i` is set in the packed bytes.
pub open spec fn pixel_at(bytes: Seq<u8>, i: int) -> bool {
    bytes[i / 8] & (1u8 << ((i % 8) as u8)) != 0
}

/// The first `n` pixels of the packed bytes.
pub open spec fn unpack(bytes: Seq<u8>, n: nat) -> Seq<bool> {
    Seq::new(n, |i: int| pixel_at(bytes, i))
}

/// The bit that pixel `i` contributes to its byte: its mask if the pixel is
/// there and set, nothing otherwise.
pub open spec fn pixel_mask(pixels: Seq<bool>, i: int) -> u8 {
    if 0 <= i < pixels.len() && pixels[i] {
        1u8 << ((i % 8) as u8)
    } else {
        0u8
    }
}

/// Byte `k` of the packing of `pixels`, made of its first `n` bits only.
pub open spec fn packed_bits(pixels: Seq<bool>, k: int, n: nat) -> u8
    decreases n,
{
    if n == 0 {
        0u8
    } else {
        packed_bits(pixels, k, (n - 1) as nat) | pixel_mask(pixels, 8 * k + n - 1)
    }
}

/// The packing of `pixels` for a glyph of the given size: `packed_len()`
/// bytes, pixel `i` in bit `i % 8` of byte `i / 8`, every other bit zero.
pub open spec fn packed(size: FontSize, pixels: Seq<bool>) -> Seq<u8> {
    Seq::new(size.packed_len(), |k: int| packed_bits(pixels, k, 8))
}

/// Or-ing nothing into a byte leaves the byte.
proof fn lemma_or_nothing(x: u8)
    ensures
        x | 0u8 == x,
{
    assert(x | 0u8 == x) by (bit_vector);
}

/// The mask of a pixel is its one bit or nothing, and it is nothing just
/// where the pixel is missing or unset.
proof fn lemma_mask_is_bit(pixels: Seq<bool>, i: int)
    requires
        0 <= i,
    ensures
        pixel_mask(pixels, i) == 0u8 || pixel_mask(pixels, i) == 1u8 << ((i % 8) as u8),
        pixel_mask(pixels, i) != 0u8 <==> (i < pixels.len() && pixels[i]),
{
    let j: u8 = (i % 8) as u8;
    assert(j < 8 ==> 1u8 << j != 0u8) by (bit_vector);
}

/// Or-ing the mask of bit `n` into a byte sets bit `n` where the mask is
/// not nothing, and leaves every other bit.
proof fn lemma_or_of_masks(b: u8, m: u8, n: u8, j: u8)
    requires
        n < 8,
        j < 8,
        m == 0u8 || m == 1u8 << n,
    ensures
        ((b | m) & (1u8 << j) != 0u8) <==> ((b & (1u8 << j) != 0u8) || (j == n && m != 0u8)),
{
    assert(n < 8 && j < 8 && (m == 0u8 || m == 1u8 << n) ==> (((b | m) & (1u8 << j) != 0u8) <==> ((b
        & (1u8 << j) != 0u8) || (j == n && m != 0u8)))) by (bit_vector);
}

/// Bit `j` of a partly made byte is set exactly when pixel `8 * k + j` is
/// among the first `n` of that byte, is there and is set.
proof fn lemma_packed_bits(pixels: Seq<bool>, k: int, n: nat, j: int)
    requires
        0 <= k,
        n <= 8,
        0 <= j < 8,
    ensures
        (packed_bits(pixels, k, n) & (1u8 << (j as u8)) != 0u8) <==> (j < n && 8 * k + j
            < pixels.len() && pixels[8 * k + j]),
    decreases n,
{
    if n == 0 {
        let jj: u8 = j as u8;
        assert(0u8 & (1u8 << jj) == 0u8) by (bit_vector);
    } else {
        let i: int = 8 * k + n - 1;
        lemma_packed_bits(pixels, k, (n - 1) as nat, j);
        lemma_mask_is_bit(pixels, i);
        assert(i % 8 == n - 1);
        lemma_or_of_masks(
            packed_bits(pixels, k, (n - 1) as nat),
            pixel_mask(pixels, i),
            (n - 1) as u8,
            j as u8,
        );
    }
}

/// Every pixel can be read back from the packing, and every bit past the
/// last pixel is zero.
pub proof fn lemma_packed_pixel(size: FontSize, pixels: Seq<bool>, i: int)
    requires
        0 <= i < 8 * size.packed_len(),
    ensures
        pixel_at(packed(size, pixels), i) == (i < pixels.len() && pixels[i]),
{
    lemma_packed_bits(pixels, i / 8, 8, i % 8);
}

/// Packing a glyph and unpacking all of it gives the pixels back.
pub proof fn lemma_pack_round_trip(size: FontSize, pixels: Seq<bool>)
    requires
        pixels.len() == size.area(),
    ensures
        packed(size, pixels).len() == size.packed_len(),
        unpack(packed(size, pixels), size.area()) == pixels,
{
    assert forall|i: int| 0 <= i < size.area() implies pixel_at(packed(size, pixels), i)
        == pixels[i] by {
        lemma_packed_pixel(size, pixels, i);
    }
    assert(unpack(packed(size, pixels), size.area()) =~= pixels);
}

/// Packs the pixels of one glyph, given row by row from the top.
///
/// The result has `ceil(width * height / 8)` bytes. Pixel `i` goes to bit
/// `i % 8` of byte `i / 8`; where `pixels` is shorter than the glyph, the
/// missing pixels count as unset.
pub fn pack(size: FontSize, pixels: &[bool]) -> (r: Vec<u8>)
    requires
        size.packed_len() <= usize::MAX,
        pixels@.len() <= 8 * size.packed_len(),
    ensures
        r@.len() == size.packed_len(),
        r@ == packed(size, pixels@),
{
    let area: u64 = size.pixel_count();
    let len: usize = ((area + 7) / 8) as usize;
    let mut bytes: Vec<u8> = Vec::new();
    bytes.resize(len, 0u8);
    let mut i: usize = 0;
    while i < pixels.len()
        invariant
            len == size.packed_len(),
            pixels@.len() <= 8 * len,
            i <= pixels@.len(),
            bytes@.len() == len,
            forall|k: int|
                0 <= k < len ==> #[trigger] bytes@[k] == packed_bits(
                    pixels@,
                    k,
                    if 8 * k + 8 <= i {
                        8nat
                    } else if i <= 8 * k {
                        0nat
                    } else {
                        (i - 8 * k) as nat
                    },
                ),
        decreases pixels@.len() - i,
    {
        let byte: usize = i / 8;
        let bit: usize = i % 8;
        proof {
            lemma_or_nothing(bytes@[byte as int]);
            assert(pixel_mask(pixels@, i as int) == if pixels@[i as int] {
                1u8 << (bit as u8)
            } else {
                0u8
            });
        }
        if pixels[i] {
            let old_byte: u8 = bytes[byte];
            bytes[byte] = old_byte | (1u8 << bit);
        }
        i = i + 1;
    }
    proof {
        assert forall|k: int| 0 <= k < len implies bytes@[k] == packed_bits(pixels@, k, 8) by {
            lemma_packed_tail(pixels@, k, i as int);
        }
        assert(bytes@ =~= packed(size, pixels@));
    }
    bytes
}

/// Pixels that are not there add nothing to a byte.
proof fn lemma_packed_tail(pixels: Seq<bool>, k: int, end: int)
    requires
        0 <= k,
        end == pixels.len(),
    ensures
        packed_bits(pixels, k, 8) == packed_bits(
            pixels,
            k,
            if 8 * k + 8 <= end {
                8nat
            } else if end <= 8 * k {
                0nat
            } else {
                (end - 8 * k) as nat
            },
        ),
{
    let n: nat = if 8 * k + 8 <= end {
        8nat
    } else if end <= 8 * k {
        0nat
    } else {
        (end - 8 * k) as nat
    };
    if n < 8 {
        lemma_packed_beyond(pixels, k, n, 8);
    }
}

/// The bits of a byte from bit `n` on add nothing where the pixels end at
/// bit `n` of the byte or before.
proof fn lemma_packed_beyond(pixels: Seq<bool>, k: int, n: nat, m: nat)
    requires
        0 <= k,
        n <= m <= 8,
        pixels.len() <= 8 * k + n,
    ensures
        packed_bits(pixels, k, m) == packed_bits(pixels, k, n),
    decreases m,
{
    if n < m {
        lemma_packed_beyond(pixels, k, n, (m - 1) as nat);
        lemma_or_nothing(packed_bits(pixels, k, (m - 1) as nat));
    }
}

/// One packed glyph of a font table, with the size it was made for.
pub struct BitMap {
    size: FontSize,
    map: &'static [u8],
}

impl BitMap {
    /// The size this glyph was stored under.
    pub closed spec fn dims(&self) -> FontSize {
        self.size
    }

    /// The packed bytes.
    pub closed spec fn bytes(&self) -> Seq<u8> {
        self.map@
    }

    /// The bytes hold all `width * height` pixels.
    pub open spec fn wf(&self) -> bool {
        self.dims().area() <= 8 * self.bytes().len()
    }

    /// The pixels of the glyph, row by row from the top.
    pub open spec fn pixels(&self) -> Seq<bool> {
        unpack(self.bytes(), self.dims().area())
    }

    /// The pixels of row `row`, from the left: as many pixels as the glyph
    /// is wide, from pixel `row * width` on.
    pub open spec fn row(&self, row: int) -> Seq<bool> {
        Seq::new(
            self.dims().width as nat,
            |x: int| pixel_at(self.bytes(), row * self.dims().width + x),
        )
    }

    /// The bytes hold all pixels of row `row`.
    pub open spec fn holds_row(&self, row: int) -> bool {
        (row + 1) * self.dims().width <= 8 * self.bytes().len()
    }

    /// The glyph of the given size and bytes.
    pub(crate) fn new(size: FontSize, map: &'static [u8]) -> (r: BitMap)
        ensures
            r.dims() == size,
            r.bytes() == map@,
    {
        BitMap { size, map }
    }

    /// Returns the raw bitmap
    pub fn raw(&self) -> (r: &'static [u8])
        ensures
            r@ == self.bytes(),
    {
        self.map
    }

    /// Returns the size of the font face.
    pub fn size(&self) -> (r: FontSize)
        ensures
            r == self.dims(),
    {
        self.size
    }

    /// Whether the bytes hold all `width * height` pixels, so that the glyph
    /// can be unpacked.
    pub fn is_complete(&self) -> (r: bool)
        ensures
            r == self.wf(),
    {
        let area: u64 = self.size.pixel_count();
        (area + 7) / 8 <= self.map.len() as u64
    }

    /// Converts the bitmap, calling `f` on each pixel and writing the result
    /// into the buffer, row by row from the top. What lies in the buffer
    /// behind the last pixel stays as it was.
    pub fn convert<F, T>(&self, f: F, buff: &mut [T]) where F: Fn(bool) -> T
        requires
            self.wf(),
            self.dims().area() <= old(buff)@.len(),
            forall|b: bool| call_requires(f, (b,)),
        ensures
            final(buff)@.len() == old(buff)@.len(),
            forall|i: int|
                0 <= i < self.dims().area() ==> call_ensures(
                    f,
                    (self.pixels()[i],),
                    #[trigger] final(buff)@[i],
                ),
            forall|i: int|
                self.dims().area() <= i < old(buff)@.len() ==> final(buff)@[i] == old(buff)@[i],
    {
        let area: u64 = self.size.pixel_count();
        let mut i: usize = 0;
        while (i as u64) < area
            invariant
                area == self.dims().area(),
                area <= buff@.len(),
                area <= 8 * self.map@.len(),
                i <= area,
                buff@.len() == old(buff)@.len(),
                forall|b: bool| call_requires(f, (b,)),
                forall|j: int|
                    0 <= j < i ==> call_ensures(f, (self.pixels()[j],), #[trigger] buff@[j]),
                forall|j: int| i <= j < old(buff)@.len() ==> buff@[j] == old(buff)@[j],
            decreases area - i,
        {
            let byte: usize = i / 8;
            let bit: usize = i % 8;
            let pixel: bool = self.map[byte] & (1u8 << bit) != 0;
            assert(pixel == self.pixels()[i as int]);
            buff[i] = f(pixel);
            i = i + 1;
        }
    }

    /// Converts one row of the bitmap, calling `f` on each of its pixels and
    /// writing the results to the front of the buffer, from the left. The
    /// rest of the buffer stays as it was.
    pub fn draw_scan<F, T>(&self, scan: u32, f: F, buff: &mut [T]) where F: Fn(bool) -> T
        requires
            self.holds_row(scan as int),
            self.dims().width <= old(buff)@.len(),
            forall|b: bool| call_requires(f, (b,)),
        ensures
            final(buff)@.len() == old(buff)@.len(),
            forall|x: int|
                0 <= x < self.dims().width ==> call_ensures(
                    f,
                    (self.row(scan as int)[x],),
                    #[trigger] final(buff)@[x],
                ),
            forall|x: int|
                self.dims().width <= x < old(buff)@.len() ==> final(buff)@[x] == old(buff)@[x],
    {
        let width: usize = self.size.width as usize;
        proof {
            assert(0 <= self.size.width * scan <= 0xffff_ffff * 0xffff_ffff && (scan + 1)
                * self.size.width == self.size.width * scan + self.size.width
                && scan as int * self.size.width == self.size.width * scan) by (nonlinear_arith)
                requires
                    0 <= self.size.width <= 0xffff_ffff,
                    0 <= scan <= 0xffff_ffff,
            ;
        }
        let start: u64 = self.size.width as u64 * scan as u64;
        let mut x: usize = 0;
        while x < width
            invariant
                width == self.dims().width,
                start == scan as int * self.dims().width,
                start <= 0xffff_fffe_0000_0001,
                start + width <= 8 * self.map@.len(),
                width <= buff@.len(),
                x <= width,
                buff@.len() == old(buff)@.len(),
                forall|b: bool| call_requires(f, (b,)),
                forall|j: int|
                    0 <= j < x ==> call_ensures(
                        f,
                        (self.row(scan as int)[j],),
                        #[trigger] buff@[j],
                    ),
                forall|j: int| x <= j < old(buff)@.len() ==> buff@[j] == old(buff)@[j],
            decreases width - x,
        {
            let i: u64 = start + x as u64;
            assert(i / 8 < self.map@.len());
            let byte: usize = (i / 8) as usize;
            let bit: u64 = i % 8;
            let pixel: bool = self.map[byte] & (1u8 << bit) != 0;
            assert(pixel == self.row(scan as int)[x as int]);
            buff[x] = f(pixel);
            x = x + 1;
        }
    }
}

/// A glyph that holds the packing of its own pixels gives these pixels
/// back: it can be unpacked, and what `convert` hands to its mapping, pixel
/// by pixel, is the sequence that was packed.
pub proof fn lemma_glyph_round_trip(glyph: BitMap, pixels: Seq<bool>)
    requires
        pixels.len() == glyph.dims().area(),
        glyph.bytes() == packed(glyph.dims(), pixels),
    ensures
        glyph.wf(),
        glyph.pixels() == pixels,
{
    lemma_pack_round_trip(glyph.dims(), pixels);
}

/// Row `row` of a glyph lies within the glyph.
pub proof fn lemma_row_in_glyph(size: FontSize, row: int)
    requires
        0 <= row < size.height,
    ensures
        0 <= size.width * row,
        size.width * row + size.width <= size.area(),
        row * size.width == size.width * row,
        (row + 1) * size.width == size.width * row + size.width,
{
    assert(0 <= size.width * row && size.width * row + size.width <= size.width * size.height
        && row * size.width == size.width * row && (row + 1) * size.width == size.width * row
        + size.width) by (nonlinear_arith)
        requires
            0 <= row < size.height,
            0 <= size.width,
    ;
}

/// The rows of a glyph are the parts of the whole: row `row` is what
/// `pixels()` holds from `row * width` up to `(row + 1) * width`, and a
/// glyph that can be unpacked holds each of its rows. So what `draw_scan`
/// writes for a row is what `convert` writes at that row's place: for a
/// mapping `f` of pixels to values, the mapped row is that part of the
/// mapped glyph.
pub proof fn lemma_scan_is_part_of_convert<T>(glyph: BitMap, row: int, f: spec_fn(bool) -> T)
    requires
        0 <= row < glyph.dims().height,
    ensures
        glyph.wf() ==> glyph.holds_row(row),
        glyph.row(row) == glyph.pixels().subrange(
            row * glyph.dims().width,
            (row + 1) * glyph.dims().width,
        ),
        glyph.row(row).map_values(f) == glyph.pixels().map_values(f).subrange(
            row * glyph.dims().width,
            (row + 1) * glyph.dims().width,
        ),
{
    lemma_row_in_glyph(glyph.dims(), row);
    assert(glyph.row(row) =~= glyph.pixels().subrange(
        row * glyph.dims().width,
        (row + 1) * glyph.dims().width,
    ));
    assert(glyph.row(row).map_values(f) =~= glyph.pixels().map_values(f).subrange(
        row * glyph.dims().width,
        (row + 1) * glyph.dims().width,
    ));
}

} // verus!
