//! The drawing canvas: an owned pixel buffer, white at creation, that the
//! composer draws glyphs and separators into, then crops to the used height
//! and reads back as row-major grayscale bytes for binarization.

use vstd::prelude::*;
use vstd::arithmetic::div_mod::{
    lemma_fundamental_div_mod, lemma_mod_multiples_vanish, lemma_small_mod,
};

verus! {

/// The backing pixel container. Its declaration is refused by the verifier
/// (the buffer type's generics carry trait bounds), so it is held opaquely
/// in this hidden-body struct and touched only by the trusted wrappers
/// below.
#[verifier::external_body]
pub struct PixelBuffer {
    img: image::RgbImage,
}

/// Canvases stay within this edge length, so buffers stay well below any
/// allocation limit.
pub const MAX_CANVAS_DIM: u32 = 16384;

/// Drawing origins handed to the canvas stay within this bound, so the
/// glyph-offset arithmetic inside the rasterizer stays within `i32`.
pub const MAX_DRAW_COORD: i32 = 0x0100_0000;

/// A drawing surface. Its fields are private and only `new` constructs it,
/// so the recorded dimensions always mirror the backing buffer's.
pub struct Canvas {
    buf: PixelBuffer,
    width: u32,
    height: u32,
}

impl Canvas {
    /// The canvas width in pixels.
    pub closed spec fn spec_width(&self) -> u32 {
        self.width
    }

    /// The canvas height in pixels.
    pub closed spec fn spec_height(&self) -> u32 {
        self.height
    }

    /// The canvas width in pixels.
    pub fn width(&self) -> (w: u32)
        ensures
            w == self.spec_width(),
    {
        self.width
    }

    /// The canvas height in pixels.
    pub fn height(&self) -> (h: u32)
        ensures
            h == self.spec_height(),
    {
        self.height
    }

    /// Relies on `image::ImageBuffer::from_pixel`: an all-white buffer of
    /// the requested dimensions.
    #[verifier::external_body]
    pub fn new(width: u32, height: u32) -> (c: Canvas)
        requires
            width <= MAX_CANVAS_DIM,
            height <= MAX_CANVAS_DIM,
        ensures
            c.spec_width() == width,
            c.spec_height() == height,
    {
        Canvas {
            buf: PixelBuffer {
                img: image::ImageBuffer::from_pixel(
                    width,
                    height,
                    image::Rgb([255u8, 255u8, 255u8]),
                ),
            },
            width,
            height,
        }
    }

    /// Relies on `imageproc::drawing::draw_text_mut`: draws the text's
    /// glyphs in black at the given origin and pixel scale; parts outside
    /// the canvas are clipped. The requires keeps the origin small enough
    /// that the per-glyph offset arithmetic inside cannot overflow `i32`.
    /// (That function also asserts a non-negative total text width, which
    /// holds for any font whose advances outweigh its kerning; the font is
    /// opaque here, so no requires can state it.)
    #[verifier::external_body]
    pub fn draw_text(&mut self, x: i32, y: i32, size: u16, font: &ab_glyph::FontArc, chars: &Vec<char>)
        requires
            -MAX_DRAW_COORD <= x <= MAX_DRAW_COORD,
            -MAX_DRAW_COORD <= y <= MAX_DRAW_COORD,
        ensures
            final(self).spec_width() == old(self).spec_width(),
            final(self).spec_height() == old(self).spec_height(),
    {
        let s: String = chars.iter().collect();
        let scale = ab_glyph::PxScale { x: size.into(), y: size.into() };
        imageproc::drawing::draw_text_mut(
            &mut self.buf.img,
            image::Rgb([0u8, 0u8, 0u8]),
            x,
            y,
            scale,
            font,
            &s,
        );
    }

    /// Relies on `image::ImageBuffer::put_pixel`, which panics outside the
    /// buffer: the requires keeps the pixel inside.
    #[verifier::external_body]
    pub fn put_pixel_black(&mut self, x: u32, y: u32)
        requires
            x < old(self).spec_width(),
            y < old(self).spec_height(),
        ensures
            final(self).spec_width() == old(self).spec_width(),
            final(self).spec_height() == old(self).spec_height(),
    {
        self.buf.img.put_pixel(x, y, image::Rgb([0u8, 0u8, 0u8]));
    }

    /// Relies on `image::DynamicImage::crop_imm`, `to_luma8` and
    /// `ImageBuffer::into_raw`: the row-major luma bytes of the top `used_h`
    /// rows, one byte per pixel, `width * used_h` bytes in all.
    #[verifier::external_body]
    pub fn crop_to_luma(self, used_h: u32) -> (luma: Vec<u8>)
        requires
            used_h <= self.spec_height(),
        ensures
            luma@.len() == (self.spec_width() as int) * (used_h as int),
    {
        image::DynamicImage::ImageRgb8(self.buf.img).crop_imm(0, 0, self.width, used_h).to_luma8()
            .into_raw()
    }
}

/// The first painted column of the separator: the left edge, clamped to
/// the canvas.
pub open spec fn spec_dash_start(left: int) -> int {
    if left > 0 {
        left
    } else {
        0
    }
}

/// One past the last paintable column: the right edge, clamped to the
/// canvas width.
pub open spec fn spec_dash_bound(right: int, width: int) -> int {
    if right < width {
        right
    } else {
        width
    }
}

/// The separator's dash pattern: column `x` is painted exactly when it
/// lies in the clamped span and its offset from the span's start falls in
/// the first three of every ten pixels.
pub open spec fn spec_is_dash_col(left: int, right: int, width: int, x: int) -> bool {
    let start = spec_dash_start(left);
    let bound = spec_dash_bound(right, width);
    &&& start <= x < bound
    &&& (x - start) % 10 < 3
}

proof fn lemma_dash_offset(start: int, x: int, v: int)
    requires
        0 <= start <= x,
        (x - start) % 10 == 0,
        x <= v < x + 10,
    ensures
        (v - start) % 10 == v - x,
{
    let a = (x - start) / 10;
    lemma_fundamental_div_mod(x - start, 10);
    assert(v - start == 10 * a + (v - x));
    lemma_mod_multiples_vanish(a, v - x, 10);
    lemma_small_mod((v - x) as nat, 10nat);
}

/// Computes exactly the columns the separator paints: those satisfying
/// `spec_is_dash_col`, each inside the canvas.
pub fn dash_columns(left: i64, right: i64, width: u32) -> (cols: Vec<u32>)
    ensures
        forall|j: int|
            0 <= j < cols@.len() ==> spec_is_dash_col(
                left as int,
                right as int,
                width as int,
                (#[trigger] cols@[j]) as int,
            ),
        forall|v: u32|
            spec_is_dash_col(left as int, right as int, width as int, v as int)
                ==> #[trigger] cols@.contains(v),
{
    let start: i64 = if left > 0 {
        left
    } else {
        0
    };
    let bound: i64 = if right < (width as i64) {
        right
    } else {
        width as i64
    };
    let mut cols: Vec<u32> = Vec::new();
    if start >= bound {
        return cols;
    }
    let mut x: i64 = start;
    proof {
        assert((x - start) % 10 == 0) by {
            lemma_small_mod(0nat, 10nat);
        }
    }
    while x < bound
        invariant
            start == spec_dash_start(left as int),
            bound == spec_dash_bound(right as int, width as int),
            bound <= width,
            0 <= start <= x <= bound + 10,
            (x - start) % 10 == 0,
            forall|j: int|
                0 <= j < cols@.len() ==> spec_is_dash_col(
                    left as int,
                    right as int,
                    width as int,
                    (#[trigger] cols@[j]) as int,
                ),
            forall|v: u32|
                spec_is_dash_col(left as int, right as int, width as int, v as int) && (v as int)
                    < x ==> #[trigger] cols@.contains(v),
        decreases bound + 10 - x,
    {
        let mut dx: i64 = 0;
        while dx < 3
            invariant
                start == spec_dash_start(left as int),
                bound == spec_dash_bound(right as int, width as int),
                bound <= width,
                0 <= start <= x < bound,
                x <= bound + 10,
                (x - start) % 10 == 0,
                0 <= dx <= 3,
                forall|j: int|
                    0 <= j < cols@.len() ==> spec_is_dash_col(
                        left as int,
                        right as int,
                        width as int,
                        (#[trigger] cols@[j]) as int,
                    ),
                forall|v: u32|
                    spec_is_dash_col(left as int, right as int, width as int, v as int) && (
                    v as int) < x + dx ==> #[trigger] cols@.contains(v),
            decreases 3 - dx,
        {
            let ghost old_cols = cols@;
            if x + dx < bound {
                proof {
                    lemma_dash_offset(start as int, x as int, x + dx);
                }
                cols.push((x + dx) as u32);
            }
            dx = dx + 1;
            proof {
                assert forall|v: u32|
                    spec_is_dash_col(left as int, right as int, width as int, v as int) && (
                    v as int) < x + dx implies #[trigger] cols@.contains(v) by {
                    if (v as int) < x + dx - 1 {
                        assert(old_cols.contains(v));
                        let i = choose|i: int| 0 <= i < old_cols.len() && old_cols[i] == v;
                        assert(cols@[i] == v);
                    } else {
                        assert(v as int == x + dx - 1);
                        assert((v as int) < bound);
                        assert(cols@[cols@.len() - 1] == v);
                    }
                }
            }
        }
        let ghost x_old = x as int;
        x = x + 10;
        proof {
            assert((x - start) % 10 == 0) by {
                let a = (x_old - start) / 10;
                lemma_fundamental_div_mod(x_old - start, 10);
                assert(x - start == 10 * (a + 1) + 0);
                lemma_mod_multiples_vanish(a + 1, 0, 10);
                lemma_small_mod(0nat, 10nat);
            }
            assert forall|v: u32|
                spec_is_dash_col(left as int, right as int, width as int, v as int) && (v as int)
                    < x implies #[trigger] cols@.contains(v) by {
                if (v as int) >= x_old + 3 {
                    lemma_dash_offset(start as int, x_old, v as int);
                    assert(((v as int) - start) % 10 >= 3);
                }
            }
        }
    }
    cols
}

/// Draws the dotted separator line on row `y`: exactly the columns of
/// `dash_columns` (dashes of three pixels every ten across the clamped
/// span), clipped to the canvas.
pub fn draw_dotted(c: &mut Canvas, y: i64, left: i64, right: i64)
    ensures
        final(c).spec_width() == old(c).spec_width(),
        final(c).spec_height() == old(c).spec_height(),
{
    if y < 0 || y >= (c.height() as i64) {
        return ;
    }
    let yy = y as u32;
    let cols = dash_columns(left, right, c.width());
    proof {
        assert forall|j: int| 0 <= j < cols@.len() implies (#[trigger] cols@[j]) < c.spec_width()
            by {
            assert(spec_is_dash_col(left as int, right as int, c.spec_width() as int, cols@[j] as int));
        }
    }
    let n = cols.len();
    let mut i: usize = 0;
    while i < n
        invariant
            n == cols@.len(),
            0 <= i <= n,
            c.spec_width() == old(c).spec_width(),
            c.spec_height() == old(c).spec_height(),
            yy < c.spec_height(),
            forall|j: int| 0 <= j < cols@.len() ==> (#[trigger] cols@[j]) < c.spec_width(),
        decreases n - i,
    {
        c.put_pixel_black(cols[i], yy);
        i = i + 1;
    }
}

} // verus!
