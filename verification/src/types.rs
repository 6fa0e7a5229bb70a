//! The two keys of a font table: weight labels and glyph sizes.

use vstd::prelude::*;

verus! {

/// The weight of a font, such as "Regular" or "Bold".
///
/// A weight is nothing but its label. The crate defines no weights of its
/// own: two weights are the same weight exactly when their labels are the
/// same text.
#[derive(Ord, PartialOrd, Eq, PartialEq, Debug, Copy, Clone)]
pub struct FontWeight {
    pub inner: &'static str,
}

impl View for FontWeight {
    type V = Seq<char>;

    open spec fn view(&self) -> Seq<char> {
        self.inner@
    }
}

impl FontWeight {
    /// The label as text.
    pub fn label(&self) -> (r: String)
        ensures
            r@ == self@,
    {
        self.inner.to_owned()
    }
}

impl From<&'static str> for FontWeight {
    fn from(value: &'static str) -> (r: Self) {
        Self { inner: value }
    }
}

impl vstd::std_specs::convert::FromSpecImpl<&'static str> for FontWeight {
    open spec fn obeys_from_spec() -> bool {
        true
    }

    open spec fn from_spec(value: &'static str) -> Self {
        Self { inner: value }
    }
}

/// The size of a glyph raster in pixels.
///
/// Sizes are ordered by width first and by height second. The order serves
/// sorting and searching; it says nothing about which size is "larger".
#[derive(Ord, PartialOrd, Eq, PartialEq, Structural, Debug, Clone, Copy, Hash)]
pub struct FontSize {
    pub width: u32,
    pub height: u32,
}

impl FontSize {
    /// The number of pixels of a glyph of this size.
    pub open spec fn area(self) -> nat {
        (self.width * self.height) as nat
    }

    /// The number of bytes that hold `area()` pixels at eight pixels a byte.
    pub open spec fn packed_len(self) -> nat {
        (self.area() + 7) / 8
    }

    /// The order of sizes: by width, then by height.
    pub open spec fn precedes(self, other: FontSize) -> bool {
        self.width < other.width || (self.width == other.width && self.height < other.height)
    }

    /// Whether `self` comes strictly before `other` in the order of sizes.
    pub fn is_before(&self, other: &FontSize) -> (r: bool)
        ensures
            r == self.precedes(*other),
    {
        self.width < other.width || (self.width == other.width && self.height < other.height)
    }

    /// The number of pixels of a glyph fits a `u64`, with room to spare.
    pub proof fn lemma_area_fits(self)
        ensures
            self.area() <= 0xffff_fffe_0000_0001,
    {
        assert(self.width * self.height <= 0xffff_ffff * 0xffff_ffff) by (nonlinear_arith)
            requires
                self.width <= 0xffff_ffff,
                self.height <= 0xffff_ffff,
        ;
    }

    /// The number of pixels of a glyph of this size.
    pub fn pixel_count(&self) -> (r: u64)
        ensures
            r == self.area(),
            r <= 0xffff_fffe_0000_0001,
    {
        proof {
            self.lemma_area_fits();
        }
        self.width as u64 * self.height as u64
    }
}

impl From<(u32, u32)> for FontSize {
    fn from(value: (u32, u32)) -> (r: Self) {
        Self { width: value.0, height: value.1 }
    }
}

impl vstd::std_specs::convert::FromSpecImpl<(u32, u32)> for FontSize {
    open spec fn obeys_from_spec() -> bool {
        true
    }

    open spec fn from_spec(value: (u32, u32)) -> Self {
        Self { width: value.0, height: value.1 }
    }
}

} // verus!
