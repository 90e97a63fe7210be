//! In-memory model of an RGB raster image: a row-major pixel buffer with its
//! dimensions.  Decoding and encoding of on-disk formats happen outside the
//! library; the functions here receive images already decoded to plain
//! pixels.

use vstd::prelude::*;

use crate::color::Color;

verus! {

/// A decoded RGB image: `pixels[y * width + x]` is the pixel at `(x, y)`.
#[derive(Clone, Debug)]
pub struct Img {
    width: u32,
    height: u32,
    pixels: Vec<Color>,
}

impl Img {
    /// The buffer covers the full rectangle.
    pub open spec fn wf(&self) -> bool {
        self.spec_pixels().len() == self.spec_width() * self.spec_height()
    }

    pub closed spec fn spec_width(&self) -> u32 {
        self.width
    }

    pub closed spec fn spec_height(&self) -> u32 {
        self.height
    }

    pub closed spec fn spec_pixels(&self) -> Seq<Color> {
        self.pixels@
    }

    pub open spec fn spec_pixel_at(&self, x: int, y: int) -> Color {
        self.spec_pixels()[y * self.spec_width() + x]
    }

    /// Build an image from a row-major buffer of the right length.
    pub fn from_pixels(width: u32, height: u32, pixels: Vec<Color>) -> (img: Img)
        requires
            pixels@.len() == width * height,
        ensures
            img.wf(),
            img.spec_width() == width,
            img.spec_height() == height,
            img.spec_pixels() == pixels@,
    {
        Img { width, height, pixels }
    }

    /// A solid-colored image.
    pub fn filled(width: u32, height: u32, fill: Color) -> (img: Img)
        requires
            width * height <= usize::MAX,
        ensures
            img.wf(),
            img.spec_width() == width,
            img.spec_height() == height,
            img.spec_pixels().len() == width * height,
            forall|k: int| 0 <= k < img.spec_pixels().len() ==> img.spec_pixels()[k] == fill,
    {
        let n = (width as usize) * (height as usize);
        let mut pixels: Vec<Color> = Vec::new();
        let mut k: usize = 0;
        while k < n
            invariant
                k <= n,
                n == width * height,
                pixels@.len() == k,
                forall|j: int| 0 <= j < k ==> pixels@[j] == fill,
            decreases n - k,
        {
            pixels.push(fill);
            k = k + 1;
        }
        Img { width, height, pixels }
    }

    pub fn width(&self) -> (w: u32)
        ensures
            w == self.spec_width(),
    {
        self.width
    }

    pub fn height(&self) -> (h: u32)
        ensures
            h == self.spec_height(),
    {
        self.height
    }

    /// Total number of pixels.
    pub fn pixel_count(&self) -> (n: usize)
        requires
            self.wf(),
        ensures
            n == self.spec_pixels().len(),
            n == self.spec_width() * self.spec_height(),
    {
        self.pixels.len()
    }

    pub fn get_pixel(&self, x: u32, y: u32) -> (c: Color)
        requires
            self.wf(),
            x < self.spec_width(),
            y < self.spec_height(),
        ensures
            c == self.spec_pixel_at(x as int, y as int),
    {
        proof {
            lemma_row_major_index_in_range(
                self.spec_width() as int,
                self.spec_height() as int,
                x as int,
                y as int,
            );
        }
        let buf_len = self.pixels.len();
        proof {
            assert(y * self.spec_width() + x < buf_len);
        }
        let idx = (y as usize) * (self.width as usize) + (x as usize);
        self.pixels[idx]
    }

    pub fn put_pixel(&mut self, x: u32, y: u32, c: Color)
        requires
            old(self).wf(),
            x < old(self).spec_width(),
            y < old(self).spec_height(),
        ensures
            final(self).wf(),
            final(self).spec_width() == old(self).spec_width(),
            final(self).spec_height() == old(self).spec_height(),
            final(self).spec_pixels() == old(self).spec_pixels().update(
                y * old(self).spec_width() + x,
                c,
            ),
    {
        proof {
            lemma_row_major_index_in_range(
                self.spec_width() as int,
                self.spec_height() as int,
                x as int,
                y as int,
            );
        }
        let buf_len = self.pixels.len();
        proof {
            assert(y * old(self).spec_width() + x < buf_len);
        }
        let idx = (y as usize) * (self.width as usize) + (x as usize);
        self.pixels.set(idx, c);
    }

    /// The pixel at index `k` of the row-major buffer.
    pub fn pixel(&self, k: usize) -> (c: Color)
        requires
            self.wf(),
            k < self.spec_pixels().len(),
        ensures
            c == self.spec_pixels()[k as int],
    {
        self.pixels[k]
    }
}

/// Inside the rectangle, the row-major index stays inside the buffer.
pub proof fn lemma_row_major_index_in_range(w: int, h: int, x: int, y: int)
    requires
        0 <= x < w,
        0 <= y < h,
    ensures
        0 <= y * w,
        y * w + x < w * h,
{
    assert(y * w + x < w * h) by (nonlinear_arith)
        requires
            0 <= x < w,
            0 <= y < h,
    ;
    assert(y * w >= 0) by (nonlinear_arith)
        requires
            y >= 0 && w > 0,
    ;
}

} // verus!
