//! Binarization and both raster wire formats, including the bit-exact
//! round trips.

use receipt_raster::raster::{
    binarize, pack_band_24, pack_full_raster, unpack_band_24, unpack_full_raster, Bitmap,
};

fn checkerboard(width: usize, height: usize) -> Bitmap {
    let mut bits = Vec::new();
    for y in 0..height {
        for x in 0..width {
            bits.push((x + y) % 2 == 0);
        }
    }
    Bitmap { width, height, bits }
}

#[test]
fn binarize_thresholds_inclusively() {
    let luma = vec![0u8, 150, 151, 255];
    let bm = binarize(&luma, 4, 1, 150);
    assert_eq!(bm.bits, vec![true, true, false, false]);
    assert_eq!(bm.width, 4);
    assert_eq!(bm.height, 1);
}

#[test]
fn full_raster_packs_msb_leftmost() {
    // One row: on,off,on,off,... packs to 0xAA.
    let bm = Bitmap {
        width: 8,
        height: 1,
        bits: vec![true, false, true, false, true, false, true, false],
    };
    let bytes = pack_full_raster(&bm);
    assert_eq!(bytes, vec![0xAAu8]);
}

#[test]
fn full_raster_pads_ragged_width_with_white() {
    // Width 10: two bytes per row, the last 6 bits clear.
    let mut bits = vec![false; 10];
    bits[0] = true;
    bits[9] = true;
    let bm = Bitmap { width: 10, height: 1, bits };
    let bytes = pack_full_raster(&bm);
    assert_eq!(bytes, vec![0b1000_0000u8, 0b0100_0000u8]);
}

#[test]
fn full_raster_round_trip_checkerboard() {
    // A 16x24 checkerboard: packing then unpacking reproduces the bit
    // pattern exactly.
    let bm = checkerboard(16, 24);
    let bytes = pack_full_raster(&bm);
    assert_eq!(bytes.len(), 2 * 24);
    let back = unpack_full_raster(&bytes, 16, 24);
    assert_eq!(back.width, bm.width);
    assert_eq!(back.height, bm.height);
    assert_eq!(back.bits, bm.bits);
}

#[test]
fn band_round_trip_checkerboard() {
    // The same property for the 24-row banded encoder, band by band.
    let bm = checkerboard(16, 24);
    let band = pack_band_24(&bm, 0);
    assert_eq!(band.len(), 3 * 16);
    let back = unpack_band_24(&band, 16);
    assert_eq!(back.bits, bm.bits);
}

#[test]
fn band_round_trip_tall_image_band_by_band() {
    let bm = checkerboard(8, 50);
    let mut y0 = 0usize;
    while y0 < bm.height {
        let band = pack_band_24(&bm, y0);
        let back = unpack_band_24(&band, 8);
        for r in 0..24 {
            for x in 0..8 {
                let expect = if y0 + r < bm.height {
                    bm.bits[(y0 + r) * 8 + x]
                } else {
                    false // rows past the image come back white
                };
                assert_eq!(back.bits[r * 8 + x], expect);
            }
        }
        y0 += 24;
    }
}

#[test]
fn band_is_column_major_msb_topmost() {
    // A single black pixel at column 2, row 0 sets the most significant
    // bit of that column's first byte.
    let mut bits = vec![false; 4 * 24];
    bits[2] = true;
    let bm = Bitmap { width: 4, height: 24, bits };
    let band = pack_band_24(&bm, 0);
    assert_eq!(band[2 * 3], 0b1000_0000);
    assert_eq!(band[2 * 3 + 1], 0);
    assert_eq!(band[2 * 3 + 2], 0);
    assert_eq!(band[0], 0);
}
