//! The 24-bit sRGB color model and squared-distance lookup used everywhere
//! in the library: palette entries, image pixels and the dithering kernel all
//! speak in terms of `Color`.

use vstd::prelude::*;

verus! {

/// One 24-bit sRGB color, a channel a byte.
#[derive(Clone, Copy, Debug, PartialEq, Eq, Structural, Hash)]
pub struct Color {
    pub red: u8,
    pub green: u8,
    pub blue: u8,
}

/// Squared Euclidean distance between two colors, the three channels taken
/// as independent dimensions.
pub open spec fn spec_dist2(a: Color, b: Color) -> int {
    let dr = a.red - b.red;
    let dg = a.green - b.green;
    let db = a.blue - b.blue;
    dr * dr + dg * dg + db * db
}

impl Color {
    pub fn new(red: u8, green: u8, blue: u8) -> (c: Color)
        ensures
            c == (Color { red, green, blue }),
    {
        Color { red, green, blue }
    }

    /// Squared distance in channel space; fits easily in an `i64`.
    pub fn dist2(&self, other: &Color) -> (d: i64)
        ensures
            d == spec_dist2(*self, *other),
    {
        let dr = self.red as i64 - other.red as i64;
        let dg = self.green as i64 - other.green as i64;
        let db = self.blue as i64 - other.blue as i64;
        proof {
            lemma_square_bound(dr as int, 255);
            lemma_square_bound(dg as int, 255);
            lemma_square_bound(db as int, 255);
        }
        dr * dr + dg * dg + db * db
    }
}

/// A square is non-negative, and bounded when its root is.
pub proof fn lemma_square_bound(x: int, m: int)
    requires
        -m <= x <= m,
    ensures
        0 <= x * x <= m * m,
{
    assert(0 <= x * x <= m * m) by (nonlinear_arith)
        requires
            -m <= x <= m,
    ;
}

/// A bare color palette: the target color space of quantization, with no
/// names attached.
#[derive(Debug, Clone)]
pub struct Palette {
    pub colors: Vec<Color>,
}

impl Palette {
    /// A palette holding exactly the given colors.
    pub fn from_colors(colors: Vec<Color>) -> (p: Palette)
        ensures
            p.colors@ == colors@,
    {
        Palette { colors }
    }

    pub fn len(&self) -> (n: usize)
        ensures
            n == self.colors@.len(),
    {
        self.colors.len()
    }
}

/// Squared distance is never negative.
pub proof fn lemma_dist2_nonneg(a: Color, b: Color)
    ensures
        spec_dist2(a, b) >= 0,
{
    lemma_square_bound(a.red - b.red, 255);
    lemma_square_bound(a.green - b.green, 255);
    lemma_square_bound(a.blue - b.blue, 255);
}

/// Distance zero means the channels agree.
pub proof fn lemma_dist2_zero(a: Color, b: Color)
    ensures
        spec_dist2(a, b) == 0 <==> a == b,
{
    let dr = a.red - b.red;
    let dg = a.green - b.green;
    let db = a.blue - b.blue;
    assert(dr * dr >= 0 && dg * dg >= 0 && db * db >= 0) by (nonlinear_arith);
    if spec_dist2(a, b) == 0 {
        assert(dr * dr == 0 && dg * dg == 0 && db * db == 0);
        assert(dr == 0 && dg == 0 && db == 0) by (nonlinear_arith)
            requires
                dr * dr == 0 && dg * dg == 0 && db * db == 0,
        ;
        assert(a.red == b.red && a.green == b.green && a.blue == b.blue);
    }
    if a == b {
        assert(dr == 0 && dg == 0 && db == 0);
        assert(dr * dr == 0 && dg * dg == 0 && db * db == 0) by (nonlinear_arith)
            requires
                dr == 0 && dg == 0 && db == 0,
        ;
    }
}

} // verus!
