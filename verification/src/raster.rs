//! Binarization and raster packing: thresholds a grayscale canvas to one bit
//! per pixel, then packs the bitmap into the printer's wire formats — a full
//! raster block (one byte per 8 horizontal pixels, row-major, most
//! significant bit leftmost) or 24-row bands packed column-major (3 bytes
//! per column, most significant bit topmost). Both encodings are bit-exact
//! and invertible.

use vstd::prelude::*;

verus! {

/// A 1-bit image: `bits[y * width + x]` is true where the pixel prints black.
pub struct Bitmap {
    pub width: usize,
    pub height: usize,
    pub bits: Vec<bool>,
}

/// Row-major storage of exactly `width * height` bits.
pub open spec fn bitmap_wf(bm: Bitmap) -> bool {
    bm.bits@.len() == (bm.width as int) * (bm.height as int)
}

/// The pixel at column `x`, row `y`.
pub open spec fn bit_at(bm: Bitmap, x: int, y: int) -> bool {
    bm.bits@[y * (bm.width as int) + x]
}

/// The pixel at `(x, y)`, or white (false) outside the bitmap. Padding bits
/// of both wire formats encode this extended image.
pub open spec fn sample(bm: Bitmap, x: int, y: int) -> bool {
    if 0 <= x < bm.width && 0 <= y < bm.height {
        bit_at(bm, x, y)
    } else {
        false
    }
}

/// Bit `pos` of `byte`, counted from the least significant bit.
pub open spec fn bit_lsb(byte: u8, pos: u8) -> bool {
    (byte >> pos) & 1 == 1
}

proof fn lemma_bit_auto()
    by (bit_vector)
    ensures
        forall|q: u8| q < 8 ==> !bit_lsb(0u8, q),
        forall|b: u8, p: u8, q: u8|
            p < 8 && q < 8 ==> #[trigger] bit_lsb(b | (1u8 << p), q) == (q == p || bit_lsb(b, q)),
{
}

fn get_bit(byte: u8, pos: u8) -> (r: bool)
    requires
        pos < 8,
    ensures
        r == bit_lsb(byte, pos),
{
    (byte >> pos) & 1 == 1
}

fn set_bit(byte: u8, pos: u8) -> (r: u8)
    requires
        pos < 8,
    ensures
        forall|q: u8| q < 8 ==> bit_lsb(r, q) == (q == pos || bit_lsb(byte, q)),
{
    proof {
        lemma_bit_auto();
    }
    byte | (1u8 << pos)
}

/// Thresholds row-major grayscale pixels to a bitmap: luma at or below
/// `threshold` becomes black.
pub fn binarize(luma: &Vec<u8>, width: usize, height: usize, threshold: u8) -> (bm: Bitmap)
    requires
        luma@.len() == (width as int) * (height as int),
    ensures
        bitmap_wf(bm),
        bm.width == width,
        bm.height == height,
        forall|i: int| 0 <= i < luma@.len() ==> bm.bits@[i] == (luma@[i] <= threshold),
{
    let mut bits: Vec<bool> = Vec::new();
    let n = luma.len();
    let mut i: usize = 0;
    while i < n
        invariant
            n == luma@.len(),
            0 <= i <= n,
            bits@.len() == i,
            forall|j: int| 0 <= j < i ==> bits@[j] == (luma@[j] <= threshold),
        decreases n - i,
    {
        bits.push(luma[i] <= threshold);
        i = i + 1;
    }
    Bitmap { width, height, bits }
}

/// Number of bytes per row in the full raster format: the width rounded up
/// to whole bytes.
pub open spec fn spec_width_bytes(width: int) -> int {
    (width + 7) / 8
}

/// The full-raster encoding relation: `bytes` holds one byte per 8
/// horizontal pixels, row-major, most significant bit leftmost; bits past
/// the width are white padding.
pub open spec fn full_raster_encodes(bm: Bitmap, bytes: Seq<u8>) -> bool {
    let wb = spec_width_bytes(bm.width as int);
    &&& bytes.len() == wb * bm.height
    &&& forall|y: int, xb: int, q: u8|
        0 <= y < bm.height && 0 <= xb < wb && q < 8 ==> #[trigger] bit_lsb(
            bytes[y * wb + xb],
            q,
        ) == sample(bm, xb * 8 + 7 - q, y)
}

/// Packs the bitmap as one full raster block.
pub fn pack_full_raster(bm: &Bitmap) -> (bytes: Vec<u8>)
    requires
        bitmap_wf(*bm),
        bm.width as int + 8 <= usize::MAX,
    ensures
        full_raster_encodes(*bm, bytes@),
{
    let ghost gwb = spec_width_bytes(bm.width as int);
    let w = bm.width;
    let h = bm.height;
    let nbits = bm.bits.len();
    let wb: usize = w / 8 + (if w % 8 == 0 { 0usize } else { 1usize });
    proof {
        assert(wb == gwb);
    }
    let mut bytes: Vec<u8> = Vec::new();
    let mut y: usize = 0;
    while y < h
        invariant
            w == bm.width,
            h == bm.height,
            wb == gwb,
            gwb == spec_width_bytes(bm.width as int),
            nbits == bm.bits@.len(),
            w as int + 8 <= usize::MAX,
            bitmap_wf(*bm),
            0 <= y <= h,
            bytes@.len() == y * gwb,
            forall|yy: int, xb: int, q: u8|
                0 <= yy < y && 0 <= xb < gwb && q < 8 ==> #[trigger] bit_lsb(
                    bytes@[yy * gwb + xb],
                    q,
                ) == sample(*bm, xb * 8 + 7 - q, yy),
        decreases h - y,
    {
        let mut xb: usize = 0;
        while xb < wb
            invariant
                w == bm.width,
                h == bm.height,
                wb == gwb,
                gwb == spec_width_bytes(bm.width as int),
                nbits == bm.bits@.len(),
                w as int + 8 <= usize::MAX,
                bitmap_wf(*bm),
                0 <= y < h,
                0 <= xb <= wb,
                bytes@.len() == y * gwb + xb,
                forall|yy: int, xbb: int, q: u8|
                    0 <= yy < y && 0 <= xbb < gwb && q < 8 ==> #[trigger] bit_lsb(
                        bytes@[yy * gwb + xbb],
                        q,
                    ) == sample(*bm, xbb * 8 + 7 - q, yy),
                forall|xbb: int, q: u8|
                    0 <= xbb < xb && q < 8 ==> #[trigger] bit_lsb(
                        bytes@[y * gwb + xbb],
                        q,
                    ) == sample(*bm, xbb * 8 + 7 - q, y as int),
            decreases wb - xb,
        {
            let mut acc: u8 = 0;
            let mut b: usize = 0;
            proof {
                lemma_bit_auto();
            }
            while b < 8
                invariant
                    w == bm.width,
                    h == bm.height,
                    nbits == bm.bits@.len(),
                    w as int + 8 <= usize::MAX,
                    bitmap_wf(*bm),
                    0 <= y < h,
                    0 <= xb < wb,
                    wb == gwb,
                    gwb == spec_width_bytes(bm.width as int),
                    0 <= b <= 8,
                    forall|q: u8|
                        8 - b <= q < 8 ==> #[trigger] bit_lsb(acc, q) == sample(
                            *bm,
                            (xb as int) * 8 + 7 - q,
                            y as int,
                        ),
                    forall|q: u8| q < 8 - b ==> !(#[trigger] bit_lsb(acc, q)),
                decreases 8 - b,
            {
                proof {
                    assert((xb as int) < ((w as int) + 7) / 8);
                    assert((xb as int) * 8 <= (w as int)) by (nonlinear_arith)
                        requires
                            0 <= (xb as int),
                            (xb as int) < ((w as int) + 7) / 8,
                            0 <= (w as int),
                    ;
                }
                let x: usize = xb * 8 + b;
                let on: bool = if x < w {
                    proof {
                        lemma_row_index_in_range(*bm, x as int, y as int);
                        assert(y * (w as int) + x < nbits);
                    }
                    bm.bits[y * w + x]
                } else {
                    false
                };
                if on {
                    acc = set_bit(acc, (7 - b) as u8);
                }
                proof {
                    assert(sample(*bm, (xb as int) * 8 + (b as int), y as int) == on);
                }
                b = b + 1;
            }
            proof {
                lemma_push_keeps_row(bytes@, acc, y as int, xb as int, gwb, *bm);
            }
            bytes.push(acc);
            xb = xb + 1;
        }
        y = y + 1;
        proof {
            assert((y - 1) * gwb + gwb == y * gwb) by (nonlinear_arith);
        }
    }
    proof {
        assert(bytes@.len() == h * gwb);
        assert((h as int) * gwb == gwb * (h as int)) by (nonlinear_arith);
    }
    bytes
}

proof fn lemma_row_index_in_range(bm: Bitmap, x: int, y: int)
    requires
        bitmap_wf(bm),
        0 <= x < bm.width,
        0 <= y < bm.height,
    ensures
        0 <= y * (bm.width as int) + x < bm.bits@.len(),
{
    assert(0 <= y * (bm.width as int) && (y + 1) * (bm.width as int) <= (bm.height as int) * (
    bm.width as int)) by (nonlinear_arith)
        requires
            0 <= y < bm.height as int,
            0 <= bm.width as int,
    ;
    assert((y + 1) * (bm.width as int) == y * (bm.width as int) + (bm.width as int))
        by (nonlinear_arith);
    assert((bm.width as int) * (bm.height as int) == (bm.height as int) * (bm.width as int))
        by (nonlinear_arith);
}

proof fn lemma_push_keeps_row(bytes: Seq<u8>, acc: u8, y: int, xb: int, wb: int, bm: Bitmap)
    requires
        bytes.len() == y * wb + xb,
        0 <= y,
        0 <= xb < wb,
        forall|yy: int, xbb: int, q: u8|
            0 <= yy < y && 0 <= xbb < wb && q < 8 ==> #[trigger] bit_lsb(bytes[yy * wb + xbb], q)
                == sample(bm, xbb * 8 + 7 - q, yy),
        forall|xbb: int, q: u8|
            0 <= xbb < xb && q < 8 ==> #[trigger] bit_lsb(bytes[y * wb + xbb], q) == sample(
                bm,
                xbb * 8 + 7 - q,
                y,
            ),
        forall|q: u8| q < 8 ==> #[trigger] bit_lsb(acc, q) == sample(bm, xb * 8 + 7 - q, y),
    ensures
        forall|yy: int, xbb: int, q: u8|
            0 <= yy < y && 0 <= xbb < wb && q < 8 ==> #[trigger] bit_lsb(
                bytes.push(acc)[yy * wb + xbb],
                q,
            ) == sample(bm, xbb * 8 + 7 - q, yy),
        forall|xbb: int, q: u8|
            0 <= xbb < xb + 1 && q < 8 ==> #[trigger] bit_lsb(bytes.push(acc)[y * wb + xbb], q)
                == sample(bm, xbb * 8 + 7 - q, y),
{
    assert forall|yy: int, xbb: int, q: u8|
        0 <= yy < y && 0 <= xbb < wb && q < 8 implies #[trigger] bit_lsb(
        bytes.push(acc)[yy * wb + xbb],
        q,
    ) == sample(bm, xbb * 8 + 7 - q, yy) by {
        assert(yy * wb + wb <= y * wb) by (nonlinear_arith)
            requires
                yy < y,
                0 <= wb,
        ;
        assert(0 <= yy * wb) by (nonlinear_arith)
            requires
                0 <= yy,
                0 <= wb,
        ;
        assert(bytes.push(acc)[yy * wb + xbb] == bytes[yy * wb + xbb]);
    }
    assert forall|xbb: int, q: u8|
        0 <= xbb < xb + 1 && q < 8 implies #[trigger] bit_lsb(bytes.push(acc)[y * wb + xbb], q)
        == sample(bm, xbb * 8 + 7 - q, y) by {
        assert(0 <= y * wb) by (nonlinear_arith)
            requires
                0 <= y,
                0 <= wb,
        ;
        if xbb == xb {
            assert(bytes.push(acc)[y * wb + xb] == acc);
        } else {
            assert(bytes.push(acc)[y * wb + xbb] == bytes[y * wb + xbb]);
        }
    }
}

/// Unpacks a full raster block back into a bitmap of the given dimensions.
pub fn unpack_full_raster(bytes: &Vec<u8>, width: usize, height: usize) -> (bm: Bitmap)
    requires
        bytes@.len() == spec_width_bytes(width as int) * height,
        (width as int) * (height as int) <= usize::MAX,
    ensures
        bitmap_wf(bm),
        bm.width == width,
        bm.height == height,
        forall|x: int, y: int|
            0 <= x < width && 0 <= y < height ==> bit_at(bm, x, y) == bit_lsb(
                bytes@[y * spec_width_bytes(width as int) + x / 8],
                (7 - (x % 8)) as u8,
            ),
{
    let ghost gwb = spec_width_bytes(width as int);
    let wb: usize = width / 8 + (if width % 8 == 0 { 0usize } else { 1usize });
    proof {
        assert(wb == gwb);
    }
    let nb = bytes.len();
    let mut bits: Vec<bool> = Vec::new();
    let mut y: usize = 0;
    while y < height
        invariant
            bytes@.len() == gwb * height,
            nb == bytes@.len(),
            wb == gwb,
            gwb == spec_width_bytes(width as int),
            (width as int) * (height as int) <= usize::MAX,
            0 <= y <= height,
            bits@.len() == y * width,
            forall|x: int, yy: int|
                0 <= x < width && 0 <= yy < y ==> #[trigger] bits@[yy * width + x] == bit_lsb(
                    bytes@[yy * gwb + x / 8],
                    (7 - (x % 8)) as u8,
                ),
        decreases height - y,
    {
        let mut x: usize = 0;
        while x < width
            invariant
                bytes@.len() == gwb * height,
                nb == bytes@.len(),
                wb == gwb,
                gwb == spec_width_bytes(width as int),
                (width as int) * (height as int) <= usize::MAX,
                0 <= y < height,
                0 <= x <= width,
                bits@.len() == y * width + x,
                forall|xx: int, yy: int|
                    0 <= xx < width && 0 <= yy < y ==> #[trigger] bits@[yy * width + xx] == bit_lsb(
                        bytes@[yy * gwb + xx / 8],
                        (7 - (xx % 8)) as u8,
                    ),
                forall|xx: int|
                    0 <= xx < x ==> #[trigger] bits@[y * width + xx] == bit_lsb(
                        bytes@[y * gwb + xx / 8],
                        (7 - (xx % 8)) as u8,
                    ),
            decreases width - x,
        {
            proof {
                assert((x as int) / 8 < ((width as int) + 7) / 8) by (nonlinear_arith)
                    requires
                        0 <= (x as int),
                        (x as int) < (width as int),
                ;
                assert(x / 8 < gwb);
                assert(y * gwb + gwb <= height * gwb) by (nonlinear_arith)
                    requires
                        0 <= y < height as int,
                        0 <= gwb,
                ;
                assert(0 <= y * gwb) by (nonlinear_arith)
                    requires
                        0 <= y,
                        0 <= gwb,
                ;
                assert(gwb * height == height * gwb) by (nonlinear_arith);
                assert(y * gwb + x / 8 < nb);
                assert(y * width + x < usize::MAX) by (nonlinear_arith)
                    requires
                        0 <= y < height as int,
                        0 <= x < width as int,
                        (width as int) * (height as int) <= usize::MAX,
                ;
            }
            let byte: u8 = bytes[y * wb + x / 8];
            let bit = get_bit(byte, (7 - (x % 8)) as u8);
            let ghost old_bits = bits@;
            bits.push(bit);
            x = x + 1;
            proof {
                assert forall|xx: int| 0 <= xx < x implies #[trigger] bits@[y * width + xx] == bit_lsb(
                    bytes@[y * gwb + xx / 8],
                    (7 - (xx % 8)) as u8,
                ) by {
                    if xx < x - 1 {
                        assert(bits@[y * width + xx] == old_bits[y * width + xx]);
                    }
                }
                assert forall|xx: int, yy: int| 0 <= xx < width && 0 <= yy < y implies #[trigger] bits@[yy
                    * width + xx] == bit_lsb(bytes@[yy * gwb + xx / 8], (7 - (xx % 8)) as u8) by {
                    assert(yy * width + width <= y * width) by (nonlinear_arith)
                        requires
                            yy < y,
                            0 <= width as int,
                    ;
                    assert(0 <= yy * width) by (nonlinear_arith)
                        requires
                            0 <= yy,
                            0 <= width as int,
                    ;
                    assert(bits@[yy * width + xx] == old_bits[yy * width + xx]);
                }
            }
        }
        y = y + 1;
        proof {
            assert((y - 1) * width + width == y * width) by (nonlinear_arith);
        }
    }
    proof {
        assert(bits@.len() == height * width);
        assert((height as int) * (width as int) == (width as int) * (height as int))
            by (nonlinear_arith);
    }
    let bm = Bitmap { width, height, bits };
    proof {
        assert forall|x: int, y2: int| 0 <= x < width && 0 <= y2 < height implies bit_at(bm, x, y2)
            == bit_lsb(bytes@[y2 * gwb + x / 8], (7 - (x % 8)) as u8) by {
        }
    }
    bm
}

/// Packing then unpacking a full raster block reproduces the bitmap's bit
/// pattern exactly.
pub proof fn lemma_full_raster_round_trip(bm: Bitmap, bytes: Seq<u8>, out: Bitmap)
    requires
        bitmap_wf(bm),
        bitmap_wf(out),
        out.width == bm.width,
        out.height == bm.height,
        full_raster_encodes(bm, bytes),
        forall|x: int, y: int|
            0 <= x < bm.width && 0 <= y < bm.height ==> bit_at(out, x, y) == bit_lsb(
                bytes[y * spec_width_bytes(bm.width as int) + x / 8],
                (7 - (x % 8)) as u8,
            ),
    ensures
        forall|x: int, y: int|
            0 <= x < bm.width && 0 <= y < bm.height ==> bit_at(out, x, y) == bit_at(bm, x, y),
        out.bits@ == bm.bits@,
{
    let w = bm.width as int;
    let wb = spec_width_bytes(w);
    assert forall|x: int, y: int| 0 <= x < w && 0 <= y < bm.height implies bit_at(out, x, y)
        == bit_at(bm, x, y) by {
        let xb = x / 8;
        let q = (7 - (x % 8)) as u8;
        assert(0 <= x % 8 < 8);
        assert(xb * 8 + x % 8 == x) by (nonlinear_arith)
            requires
                xb == x / 8,
                0 <= x,
        ;
        assert(0 <= xb < wb);
        assert(bit_lsb(bytes[y * wb + xb], q) == sample(bm, xb * 8 + 7 - q, y));
        assert(xb * 8 + 7 - q == x);
    }
    assert forall|i: int| 0 <= i < bm.bits@.len() implies out.bits@[i] == bm.bits@[i] by {
        let y = i / w;
        let x = i % w;
        if w > 0 {
            assert(0 <= x < w);
            assert(y * w + x == i) by (nonlinear_arith)
                requires
                    y == i / w,
                    x == i % w,
                    w > 0,
        ;
            assert(0 <= y < bm.height) by (nonlinear_arith)
                requires
                    y == i / w,
                    0 <= i,
                    i < w * (bm.height as int),
                    w > 0,
            ;
            assert(w * (bm.height as int) == (bm.width as int) * (bm.height as int));
            assert(bit_at(out, x, y) == bit_at(bm, x, y));
        } else {
            assert(bm.bits@.len() == 0) by (nonlinear_arith)
                requires
                    bm.bits@.len() == (bm.width as int) * (bm.height as int),
                    bm.width as int == 0,
            ;
        }
    }
    assert(out.bits@ =~= bm.bits@);
}

/// Height in pixel rows of one band of the banded wire format.
pub const BAND_ROWS: usize = 24;

/// The banded encoding relation for the band of 24 rows starting at `y0`:
/// three bytes per column, column-major; byte `k`'s most significant bit is
/// the topmost of rows `y0 + 8k .. y0 + 8k + 8`, and rows past the bitmap's
/// height are white padding.
pub open spec fn band_encodes(bm: Bitmap, y0: int, bytes: Seq<u8>) -> bool {
    &&& bytes.len() == 3 * bm.width
    &&& forall|x: int, k: int, q: u8|
        0 <= x < bm.width && 0 <= k < 3 && q < 8 ==> #[trigger] bit_lsb(bytes[x * 3 + k], q)
            == sample(bm, x, y0 + k * 8 + 7 - q)
}

/// Packs the 24 rows starting at `y0` in the double-density band format:
/// for each of the `width` columns, 3 bytes, each byte covering 8 vertical
/// pixels, most significant bit topmost.
pub fn pack_band_24(bm: &Bitmap, y0: usize) -> (bytes: Vec<u8>)
    requires
        bitmap_wf(*bm),
        y0 + BAND_ROWS <= usize::MAX,
        3 * (bm.width as int) <= usize::MAX,
    ensures
        band_encodes(*bm, y0 as int, bytes@),
{
    let w = bm.width;
    let h = bm.height;
    let nbits = bm.bits.len();
    let mut bytes: Vec<u8> = Vec::new();
    let mut x: usize = 0;
    while x < w
        invariant
            w == bm.width,
            h == bm.height,
            nbits == bm.bits@.len(),
            bitmap_wf(*bm),
            y0 + BAND_ROWS <= usize::MAX,
            3 * (bm.width as int) <= usize::MAX,
            0 <= x <= w,
            bytes@.len() == 3 * x,
            forall|xx: int, k: int, q: u8|
                0 <= xx < x && 0 <= k < 3 && q < 8 ==> #[trigger] bit_lsb(bytes@[xx * 3 + k], q)
                    == sample(*bm, xx, y0 + k * 8 + 7 - q),
        decreases w - x,
    {
        let mut k: usize = 0;
        while k < 3
            invariant
                w == bm.width,
                h == bm.height,
                nbits == bm.bits@.len(),
                bitmap_wf(*bm),
                y0 + BAND_ROWS <= usize::MAX,
                3 * (bm.width as int) <= usize::MAX,
                0 <= x < w,
                0 <= k <= 3,
                bytes@.len() == 3 * x + k,
                forall|xx: int, kk: int, q: u8|
                    0 <= xx < x && 0 <= kk < 3 && q < 8 ==> #[trigger] bit_lsb(
                        bytes@[xx * 3 + kk],
                        q,
                    ) == sample(*bm, xx, y0 + kk * 8 + 7 - q),
                forall|kk: int, q: u8|
                    0 <= kk < k && q < 8 ==> #[trigger] bit_lsb(bytes@[x * 3 + kk], q) == sample(
                        *bm,
                        x as int,
                        y0 + kk * 8 + 7 - q,
                    ),
            decreases 3 - k,
        {
            let mut acc: u8 = 0;
            let mut b: usize = 0;
            proof {
                lemma_bit_auto();
            }
            while b < 8
                invariant
                    w == bm.width,
                    h == bm.height,
                    nbits == bm.bits@.len(),
                    bitmap_wf(*bm),
                    y0 + BAND_ROWS <= usize::MAX,
                    0 <= x < w,
                    0 <= k < 3,
                    0 <= b <= 8,
                    forall|q: u8|
                        8 - b <= q < 8 ==> #[trigger] bit_lsb(acc, q) == sample(
                            *bm,
                            x as int,
                            y0 + (k as int) * 8 + 7 - q,
                        ),
                    forall|q: u8| q < 8 - b ==> !(#[trigger] bit_lsb(acc, q)),
                decreases 8 - b,
            {
                let yy: usize = y0 + k * 8 + b;
                let on: bool = if yy < h {
                    proof {
                        lemma_row_index_in_range(*bm, x as int, yy as int);
                        assert((yy as int) * (w as int) + x < nbits);
                    }
                    bm.bits[yy * w + x]
                } else {
                    false
                };
                if on {
                    acc = set_bit(acc, (7 - b) as u8);
                }
                proof {
                    assert(sample(*bm, x as int, y0 + (k as int) * 8 + (b as int)) == on);
                }
                b = b + 1;
            }
            let ghost old_bytes = bytes@;
            bytes.push(acc);
            k = k + 1;
            proof {
                assert forall|xx: int, kk: int, q: u8|
                    0 <= xx < x && 0 <= kk < 3 && q < 8 implies #[trigger] bit_lsb(
                    bytes@[xx * 3 + kk],
                    q,
                ) == sample(*bm, xx, y0 + kk * 8 + 7 - q) by {
                    assert(xx * 3 + kk < 3 * x) by (nonlinear_arith)
                        requires
                            0 <= xx < x as int,
                            0 <= kk < 3,
                    ;
                    assert(0 <= xx * 3 + kk) by (nonlinear_arith)
                        requires
                            0 <= xx,
                            0 <= kk,
                    ;
                    assert(bytes@[xx * 3 + kk] == old_bytes[xx * 3 + kk]);
                }
                assert forall|kk: int, q: u8| 0 <= kk < k && q < 8 implies #[trigger] bit_lsb(
                    bytes@[(x as int) * 3 + kk],
                    q,
                ) == sample(*bm, x as int, y0 + kk * 8 + 7 - q) by {
                    if kk < k - 1 {
                        assert(bytes@[(x as int) * 3 + kk] == old_bytes[(x as int) * 3 + kk]);
                    } else {
                        assert(bytes@[(x as int) * 3 + kk] == acc);
                    }
                }
            }
        }
        x = x + 1;
        proof {
            assert(3 * (x - 1) + 3 == 3 * x) by (nonlinear_arith);
        }
    }
    bytes
}

/// Unpacks one 24-row band into a 24-row bitmap of the given width.
pub fn unpack_band_24(bytes: &Vec<u8>, width: usize) -> (bm: Bitmap)
    requires
        bytes@.len() == 3 * width,
        (width as int) * 24 <= usize::MAX,
    ensures
        bitmap_wf(bm),
        bm.width == width,
        bm.height == BAND_ROWS,
        forall|x: int, r: int|
            0 <= x < width && 0 <= r < 24 ==> bit_at(bm, x, r) == bit_lsb(
                bytes@[x * 3 + r / 8],
                (7 - (r % 8)) as u8,
            ),
{
    let mut bits: Vec<bool> = Vec::new();
    let mut r: usize = 0;
    while r < 24
        invariant
            bytes@.len() == 3 * width,
            (width as int) * 24 <= usize::MAX,
            0 <= r <= 24,
            bits@.len() == r * width,
            forall|x: int, rr: int|
                0 <= x < width && 0 <= rr < r ==> #[trigger] bits@[rr * width + x] == bit_lsb(
                    bytes@[x * 3 + rr / 8],
                    (7 - (rr % 8)) as u8,
                ),
        decreases 24 - r,
    {
        let mut x: usize = 0;
        while x < width
            invariant
                bytes@.len() == 3 * width,
                (width as int) * 24 <= usize::MAX,
                0 <= r < 24,
                0 <= x <= width,
                bits@.len() == r * width + x,
                forall|xx: int, rr: int|
                    0 <= xx < width && 0 <= rr < r ==> #[trigger] bits@[rr * width + xx] == bit_lsb(
                        bytes@[xx * 3 + rr / 8],
                        (7 - (rr % 8)) as u8,
                    ),
                forall|xx: int|
                    0 <= xx < x ==> #[trigger] bits@[r * width + xx] == bit_lsb(
                        bytes@[xx * 3 + r / 8],
                        (7 - (r % 8)) as u8,
                    ),
            decreases width - x,
        {
            proof {
                assert((x as int) * 3 + (r as int) / 8 < 3 * width) by (nonlinear_arith)
                    requires
                        0 <= x < width as int,
                        0 <= r < 24,
                ;
                assert(0 <= (x as int) * 3) by (nonlinear_arith)
                    requires
                        0 <= x,
                ;
                assert((r as int) * width + x < usize::MAX) by (nonlinear_arith)
                    requires
                        0 <= r < 24,
                        0 <= x < width as int,
                        (width as int) * 24 <= usize::MAX,
                ;
            }
            let byte: u8 = bytes[x * 3 + r / 8];
            let bit = get_bit(byte, (7 - (r % 8)) as u8);
            let ghost old_bits = bits@;
            bits.push(bit);
            x = x + 1;
            proof {
                assert forall|xx: int| 0 <= xx < x implies #[trigger] bits@[r * width + xx] == bit_lsb(
                    bytes@[xx * 3 + (r as int) / 8],
                    (7 - ((r as int) % 8)) as u8,
                ) by {
                    if xx < x - 1 {
                        assert(bits@[r * width + xx] == old_bits[r * width + xx]);
                    }
                }
                assert forall|xx: int, rr: int| 0 <= xx < width && 0 <= rr < r implies #[trigger] bits@[rr
                    * width + xx] == bit_lsb(bytes@[xx * 3 + rr / 8], (7 - (rr % 8)) as u8) by {
                    assert(rr * width + width <= r * width) by (nonlinear_arith)
                        requires
                            rr < r as int,
                            0 <= width as int,
                    ;
                    assert(0 <= rr * width) by (nonlinear_arith)
                        requires
                            0 <= rr,
                            0 <= width as int,
                    ;
                    assert(bits@[rr * width + xx] == old_bits[rr * width + xx]);
                }
            }
        }
        r = r + 1;
        proof {
            assert((r - 1) * width + width == r * width) by (nonlinear_arith);
        }
    }
    proof {
        assert(bits@.len() == 24 * (width as int));
        assert(24 * (width as int) == (width as int) * 24) by (nonlinear_arith);
    }
    Bitmap { width, height: BAND_ROWS, bits }
}

/// Packing a 24-row band then unpacking it reproduces exactly the bitmap's
/// rows `y0 .. y0+24`, with rows past the bitmap's height coming back white.
pub proof fn lemma_band_round_trip(bm: Bitmap, y0: int, bytes: Seq<u8>, out: Bitmap)
    requires
        bitmap_wf(bm),
        bitmap_wf(out),
        out.width == bm.width,
        out.height == BAND_ROWS,
        0 <= y0,
        band_encodes(bm, y0, bytes),
        forall|x: int, r: int|
            0 <= x < bm.width && 0 <= r < 24 ==> bit_at(out, x, r) == bit_lsb(
                bytes[x * 3 + r / 8],
                (7 - (r % 8)) as u8,
            ),
    ensures
        forall|x: int, r: int|
            0 <= x < bm.width && 0 <= r < 24 ==> bit_at(out, x, r) == sample(bm, x, y0 + r),
{
    assert forall|x: int, r: int| 0 <= x < bm.width && 0 <= r < 24 implies bit_at(out, x, r)
        == sample(bm, x, y0 + r) by {
        let k = r / 8;
        let q = (7 - (r % 8)) as u8;
        assert(0 <= r % 8 < 8);
        assert(k * 8 + r % 8 == r) by (nonlinear_arith)
            requires
                k == r / 8,
                0 <= r,
        ;
        assert(0 <= k < 3);
        assert(bit_lsb(bytes[x * 3 + k], q) == sample(bm, x, y0 + k * 8 + 7 - q));
        assert(y0 + k * 8 + 7 - q == y0 + r);
    }
}

} // verus!
