//! Floyd-Steinberg error diffusion restricted to a palette.
//!
//! The kernel works on a fixed-point copy of the image: every channel is
//! scaled by 180, so the attenuated weights 1.5/18, 2.5/18 and 4.2/18 become
//! the integer ratios 15/180, 25/180 and 42/180 and the arithmetic is exact
//! and deterministic.  The scan quantizes the top-left pixel of each 2x2
//! kernel to its nearest palette color and spreads the quantization error
//! over the other three pixels; a second pass snaps every pixel to the
//! nearest palette color, so the output is palette-quantized everywhere,
//! edges included.

use vstd::prelude::*;

use crate::color::{Color, Palette};
use crate::image::{lemma_row_major_index_in_range, Img};

verus! {

/// Diffused channel values stay within this bound; the attenuated weights
/// (summing to 8.2/18 < 1) keep the drift far below it in practice, and the
/// kernel clamps to it so that the arithmetic is bounded for every input.
pub const CHANNEL_BOUND: i64 = 300000;

/// One fixed-point pixel.
#[derive(Clone, Copy, Debug)]
pub struct FixedPx {
    pub r: i64,
    pub g: i64,
    pub b: i64,
}

/// The pixel's channels lie within the working bound.
pub open spec fn px_ok(p: FixedPx) -> bool {
    &&& -CHANNEL_BOUND <= p.r <= CHANNEL_BOUND
    &&& -CHANNEL_BOUND <= p.g <= CHANNEL_BOUND
    &&& -CHANNEL_BOUND <= p.b <= CHANNEL_BOUND
}

/// Squared distance between a palette color and a fixed-point pixel, in the
/// scaled space.
pub open spec fn spec_sdist2(c: Color, p: FixedPx) -> int {
    let dr = 180 * c.red - p.r;
    let dg = 180 * c.green - p.g;
    let db = 180 * c.blue - p.b;
    dr * dr + dg * dg + db * db
}

/// First index among the first `k` colors minimizing the scaled squared
/// distance to `p`; earlier entries win ties.
pub open spec fn spec_nearest_scaled_upto(colors: Seq<Color>, p: FixedPx, k: int) -> int
    decreases k,
{
    if k <= 1 {
        0
    } else {
        let prev = spec_nearest_scaled_upto(colors, p, k - 1);
        if spec_sdist2(colors[k - 1], p) < spec_sdist2(colors[prev], p) {
            k - 1
        } else {
            prev
        }
    }
}

/// First index of the whole palette minimizing the scaled squared distance.
pub open spec fn spec_nearest_scaled(colors: Seq<Color>, p: FixedPx) -> int {
    spec_nearest_scaled_upto(colors, p, colors.len() as int)
}

/// The nearest scaled index is in range and minimizes the distance.
pub proof fn lemma_nearest_scaled_props(colors: Seq<Color>, p: FixedPx, k: int)
    requires
        1 <= k <= colors.len(),
    ensures
        0 <= spec_nearest_scaled_upto(colors, p, k) < k,
        forall|j: int|
            0 <= j < k ==> spec_sdist2(colors[spec_nearest_scaled_upto(colors, p, k)], p)
                <= spec_sdist2(#[trigger] colors[j], p),
    decreases k,
{
    if k > 1 {
        lemma_nearest_scaled_props(colors, p, k - 1);
    }
}

/// Scaled squared distance; bounded channels keep it within `i64`.
fn sdist2(c: Color, p: FixedPx) -> (d: i64)
    requires
        px_ok(p),
    ensures
        d == spec_sdist2(c, p),
{
    let dr = 180 * (c.red as i64) - p.r;
    let dg = 180 * (c.green as i64) - p.g;
    let db = 180 * (c.blue as i64) - p.b;
    proof {
        crate::color::lemma_square_bound(dr as int, 345900);
        crate::color::lemma_square_bound(dg as int, 345900);
        crate::color::lemma_square_bound(db as int, 345900);
    }
    dr * dr + dg * dg + db * db
}

/// Index of the palette color nearest to the fixed-point pixel; the first
/// color wins ties.
fn nearest_scaled(palette: &Palette, p: FixedPx) -> (r: usize)
    requires
        palette.colors@.len() > 0,
        px_ok(p),
    ensures
        r == spec_nearest_scaled(palette.colors@, p),
        r < palette.colors@.len(),
{
    let ghost colors = palette.colors@;
    let n = palette.colors.len();
    let mut best: usize = 0;
    let mut best_dist: i64 = sdist2(palette.colors[0], p);
    let mut i: usize = 1;
    while i < n
        invariant
            1 <= i <= n,
            best < i,
            n == colors.len(),
            colors == palette.colors@,
            px_ok(p),
            best == spec_nearest_scaled_upto(colors, p, i as int),
            best_dist == spec_sdist2(colors[best as int], p),
        decreases n - i,
    {
        let d = sdist2(palette.colors[i], p);
        if d < best_dist {
            best = i;
            best_dist = d;
        }
        i = i + 1;
    }
    proof {
        lemma_nearest_scaled_props(colors, p, n as int);
    }
    best
}

/// Clamp a channel into the working bound.
fn clamp_channel(v: i64) -> (r: i64)
    requires
        i64::MIN < v < i64::MAX,
    ensures
        -CHANNEL_BOUND <= r <= CHANNEL_BOUND,
{
    if v > CHANNEL_BOUND {
        CHANNEL_BOUND
    } else if v < -CHANNEL_BOUND {
        -CHANNEL_BOUND
    } else {
        v
    }
}

/// Add the weighted share `wnum/180` of the error to the pixel at `i`,
/// clamped to the working bound.
fn diffuse(buf: &mut Vec<FixedPx>, i: usize, er: i64, eg: i64, eb: i64, wnum: i64)
    requires
        i < old(buf)@.len(),
        px_ok(old(buf)@[i as int]),
        -345900 <= er <= 345900,
        -345900 <= eg <= 345900,
        -345900 <= eb <= 345900,
        0 <= wnum <= 42,
    ensures
        final(buf)@.len() == old(buf)@.len(),
        px_ok(final(buf)@[i as int]),
        forall|j: int| 0 <= j < old(buf)@.len() && j != i ==> final(buf)@[j] == old(buf)@[j],
{
    let p = buf[i];
    proof {
        assert(-345900 * 42 <= er * wnum <= 345900 * 42) by (nonlinear_arith)
            requires
                -345900 <= er <= 345900 && 0 <= wnum <= 42,
        ;
        assert(-345900 * 42 <= eg * wnum <= 345900 * 42) by (nonlinear_arith)
            requires
                -345900 <= eg <= 345900 && 0 <= wnum <= 42,
        ;
        assert(-345900 * 42 <= eb * wnum <= 345900 * 42) by (nonlinear_arith)
            requires
                -345900 <= eb <= 345900 && 0 <= wnum <= 42,
        ;
    }
    let q = FixedPx {
        r: clamp_channel(p.r + er * wnum / 180),
        g: clamp_channel(p.g + eg * wnum / 180),
        b: clamp_channel(p.b + eb * wnum / 180),
    };
    buf.set(i, q);
}

/// Dither an image to a palette with the attenuated Floyd-Steinberg kernel.
/// The output has the source's dimensions and every output pixel is a
/// palette color.
pub fn dithering_floyd_steinberg_srgb(source_image: &Img, palette_srgb: &Palette) -> (out: Img)
    requires
        source_image.wf(),
        palette_srgb.colors@.len() > 0,
    ensures
        out.wf(),
        out.spec_width() == source_image.spec_width(),
        out.spec_height() == source_image.spec_height(),
        forall|k: int|
            0 <= k < out.spec_pixels().len() ==> palette_srgb.colors@.contains(
                #[trigger] out.spec_pixels()[k],
            ),
{
    let w = source_image.width();
    let h = source_image.height();
    let n = source_image.pixel_count();

    // fixed-point working copy
    let mut buf: Vec<FixedPx> = Vec::new();
    let mut k: usize = 0;
    while k < n
        invariant
            k <= n,
            source_image.wf(),
            n == source_image.spec_pixels().len(),
            buf@.len() == k,
            forall|j: int| 0 <= j < k ==> px_ok(#[trigger] buf@[j]),
        decreases n - k,
    {
        let c = source_image.pixel(k);
        buf.push(FixedPx { r: 180 * (c.red as i64), g: 180 * (c.green as i64), b: 180 * (c.blue as i64) });
        k = k + 1;
    }

    // error-diffusion scan over 2x2 kernels
    if w >= 2 && h >= 2 {
        let mut y: usize = 0;
        while y < (h as usize) - 1
            invariant
                w >= 2,
                h >= 2,
                y <= h - 1,
                n == w * h,
                n <= usize::MAX,
                buf@.len() == n,
                palette_srgb.colors@.len() > 0,
                forall|j: int| 0 <= j < n ==> px_ok(#[trigger] buf@[j]),
            decreases h - y,
        {
            let mut x: usize = 0;
            while x < (w as usize) - 1
                invariant
                    w >= 2,
                    h >= 2,
                    y < h - 1,
                    x <= w - 1,
                    n == w * h,
                    n <= usize::MAX,
                    buf@.len() == n,
                    palette_srgb.colors@.len() > 0,
                    forall|j: int| 0 <= j < n ==> px_ok(#[trigger] buf@[j]),
                decreases w - x,
            {
                proof {
                    lemma_row_major_index_in_range(w as int, h as int, x + 1, y + 1);
                    lemma_row_major_index_in_range(w as int, h as int, x as int, y as int);
                    assert((y + 1) * (w as int) + (x + 1) == y * (w as int) + x + (w as int)
                        + 1) by (nonlinear_arith);
                }
                let idx = y * (w as usize) + x;
                let tl = buf[idx];
                let qi = nearest_scaled(palette_srgb, tl);
                let qc = palette_srgb.colors[qi];
                let qr = 180 * (qc.red as i64);
                let qg = 180 * (qc.green as i64);
                let qb = 180 * (qc.blue as i64);
                let er = tl.r - qr;
                let eg = tl.g - qg;
                let eb = tl.b - qb;
                buf.set(idx, FixedPx { r: qr, g: qg, b: qb });
                diffuse(&mut buf, idx + 1, er, eg, eb, 15);
                diffuse(&mut buf, idx + (w as usize), er, eg, eb, 25);
                diffuse(&mut buf, idx + (w as usize) + 1, er, eg, eb, 42);
                x = x + 1;
            }
            y = y + 1;
        }
    }

    // snap every pixel to the nearest palette color
    let mut pixels: Vec<Color> = Vec::new();
    let mut k: usize = 0;
    while k < n
        invariant
            k <= n,
            n == buf@.len(),
            palette_srgb.colors@.len() > 0,
            forall|j: int| 0 <= j < n ==> px_ok(#[trigger] buf@[j]),
            pixels@.len() == k,
            forall|j: int|
                0 <= j < k ==> palette_srgb.colors@.contains(#[trigger] pixels@[j]),
        decreases n - k,
    {
        let qi = nearest_scaled(palette_srgb, buf[k]);
        let c = palette_srgb.colors[qi];
        proof {
            assert(palette_srgb.colors@.contains(palette_srgb.colors@[qi as int]));
        }
        pixels.push(c);
        k = k + 1;
    }
    Img::from_pixels(w, h, pixels)
}

/// When every pixel is a palette color, no pixel is unmapped.
pub proof fn lemma_unmapped_zero(pixels: Seq<Color>, colors: Seq<Color>)
    requires
        forall|k: int| 0 <= k < pixels.len() ==> colors.contains(#[trigger] pixels[k]),
    ensures
        crate::dmc::spec_count_unmapped(pixels, colors) == 0,
    decreases pixels.len(),
{
    if pixels.len() > 0 {
        lemma_unmapped_zero(pixels.drop_last(), colors);
    }
}

/// Dither an image with a DMC palette and compute the bill of materials of
/// the result.  Every output pixel is a DMC color, so no pixel is unmapped
/// and the counts sum to the pixel count.
pub fn image_dither_using_dmc_palette(palette_dmc: &crate::dmc::PaletteDmc, src_img: &Img) -> (r: (
    Img,
    crate::dmc::DmcBom,
))
    requires
        palette_dmc.spec_elements().len() > 0,
        src_img.wf(),
    ensures
        r.0.wf(),
        r.0.spec_width() == src_img.spec_width(),
        r.0.spec_height() == src_img.spec_height(),
        forall|k: int|
            0 <= k < r.0.spec_pixels().len() ==> palette_dmc.spec_colors().contains(
                #[trigger] r.0.spec_pixels()[k],
            ),
        r.1@ == crate::dmc::spec_bom_pairs(
            crate::dmc::spec_bom_counts(r.0.spec_pixels(), palette_dmc.spec_colors()),
            palette_dmc.spec_elements(),
        ),
        crate::dmc::spec_count_unmapped(r.0.spec_pixels(), palette_dmc.spec_colors()) == 0,
        crate::dmc::spec_sum_bom(r.1@) == r.0.spec_pixels().len(),
{
    let palette_srgb = palette_dmc.downgrade_to_srgb_palette();
    let dithered_image = dithering_floyd_steinberg_srgb(src_img, &palette_srgb);
    let (dmc_bom, not_mapped_count) = palette_dmc.find_bom_of_image(&dithered_image);
    proof {
        lemma_unmapped_zero(dithered_image.spec_pixels(), palette_dmc.spec_colors());
    }
    (dithered_image, dmc_bom)
}

} // verus!
