//! Printer session framing: the exact byte stream of one print job —
//! initialization, optional code-page selection, the packed raster (one
//! full block, or 24-row bands each followed by a line feed), paper feed,
//! and the cut command. The stream is a pure function of the frame and the
//! session configuration; writing and flushing it belongs to the caller's
//! transport.

use vstd::prelude::*;
use crate::raster::{
    BAND_ROWS, Bitmap, band_encodes, bitmap_wf, full_raster_encodes, pack_band_24,
    pack_full_raster, spec_width_bytes,
};

verus! {

/// The two wire encodings of a packed receipt image.
pub enum RasterFrame {
    /// One full raster block: `bytes` holds `width_bytes` bytes per row,
    /// `height` rows.
    Full { width_bytes: usize, height: usize, bytes: Vec<u8> },
    /// A sequence of 24-row bands, each packed column-major, for printers
    /// with a bounded head buffer.
    Bands { width: usize, bands: Vec<Vec<u8>> },
}

/// Session choices: which raster encoding to send, and an optional code
/// page to select after initialization (a calibrated constant of the
/// target printer).
pub struct SessionConfig {
    pub use_bands: bool,
    pub codepage: Option<u8>,
}

/// Number of 24-row bands covering `height` rows.
pub open spec fn spec_band_count(height: int) -> int {
    (height + 23) / 24
}

/// Packs a bitmap into the chosen wire encoding. Both encodings are
/// bit-exact images of the bitmap.
pub fn pack_frame(bm: &Bitmap, use_bands: bool) -> (frame: RasterFrame)
    requires
        bitmap_wf(*bm),
        bm.width as int + 8 <= usize::MAX,
        3 * (bm.width as int) <= usize::MAX,
        bm.height as int + BAND_ROWS <= usize::MAX,
    ensures
        !use_bands ==> (frame matches RasterFrame::Full { width_bytes, height, bytes } && (
        width_bytes as int) == spec_width_bytes(bm.width as int) && height == bm.height
            && full_raster_encodes(*bm, bytes@)),
        use_bands ==> (frame matches RasterFrame::Bands { width, bands } && width == bm.width && (
        bands@.len() as int) == spec_band_count(bm.height as int) && (forall|i: int|
            0 <= i < bands@.len() ==> band_encodes(*bm, 24 * i, (#[trigger] bands@[i])@))),
{
    if !use_bands {
        let bytes = pack_full_raster(bm);
        let wb: usize = bm.width / 8 + (if bm.width % 8 == 0 {
            0usize
        } else {
            1usize
        });
        RasterFrame::Full { width_bytes: wb, height: bm.height, bytes }
    } else {
        let h = bm.height;
        let mut bands: Vec<Vec<u8>> = Vec::new();
        let mut y0: usize = 0;
        let mut i: usize = 0;
        while y0 < h
            invariant
                h == bm.height,
                bitmap_wf(*bm),
                bm.width as int + 8 <= usize::MAX,
                3 * (bm.width as int) <= usize::MAX,
                bm.height as int + BAND_ROWS <= usize::MAX,
                y0 == 24 * i,
                bands@.len() == i,
                0 <= y0 <= h + 23,
                forall|k: int|
                    0 <= k < bands@.len() ==> band_encodes(*bm, 24 * k, (#[trigger] bands@[k])@),
            decreases h + 24 - y0,
        {
            let band = pack_band_24(bm, y0);
            bands.push(band);
            y0 = y0 + 24;
            i = i + 1;
        }
        proof {
            if h > 0 {
                assert((i as int) == spec_band_count(h as int)) by (nonlinear_arith)
                    requires
                        24 * (i as int) >= h as int,
                        24 * ((i as int) - 1) < h as int,
                        0 < i,
                        0 < h as int,
                ;
            }
        }
        RasterFrame::Bands { width: bm.width, bands }
    }
}

/// The byte stream of the band section: for each band, the double-density
/// band command with the column count, the band's bytes, then a line feed
/// that advances to the next band.
pub open spec fn spec_band_stream(bands: Seq<Seq<u8>>, w_lo: u8, w_hi: u8) -> Seq<u8>
    decreases bands.len(),
{
    if bands.len() == 0 {
        Seq::empty()
    } else {
        seq![0x1Bu8, 0x2Au8, 33u8, w_lo, w_hi] + bands[0] + seq![0x0Au8] + spec_band_stream(
            bands.drop_first(),
            w_lo,
            w_hi,
        )
    }
}

/// The raster part of the stream: a single block command with its
/// dimensions and bytes, or the band stream.
pub open spec fn spec_frame_stream(frame: RasterFrame) -> Seq<u8> {
    match frame {
        RasterFrame::Full { width_bytes, height, bytes } => seq![
            0x1Du8,
            0x76u8,
            0x30u8,
            0x00u8,
            (width_bytes % 256) as u8,
            ((width_bytes / 256) % 256) as u8,
            (height % 256) as u8,
            ((height / 256) % 256) as u8,
        ] + bytes@,
        RasterFrame::Bands { width, bands } => spec_band_stream(
            bands@.map_values(|b: Vec<u8>| b@),
            (width % 256) as u8,
            ((width / 256) % 256) as u8,
        ),
    }
}

/// The whole session: initialization, optional code-page select, the
/// raster, one feed, and the cut command — strictly in this order, nothing
/// skipped.
pub open spec fn spec_session_stream(frame: RasterFrame, codepage: Option<u8>) -> Seq<u8> {
    let init = seq![0x1Bu8, 0x40u8];
    let cp: Seq<u8> = match codepage {
        Option::Some(n) => seq![0x1Bu8, 0x74u8, n],
        Option::None => Seq::empty(),
    };
    init + cp + spec_frame_stream(frame) + seq![0x0Au8] + seq![0x1Du8, 0x56u8, 0x41u8, 0x00u8]
}

/// Appends the bytes of `src` to `dst`.
fn append_bytes(dst: &mut Vec<u8>, src: &Vec<u8>)
    ensures
        final(dst)@ == old(dst)@ + src@,
{
    let n = src.len();
    let mut i: usize = 0;
    while i < n
        invariant
            n == src@.len(),
            0 <= i <= n,
            dst@ == old(dst)@ + src@.subrange(0, i as int),
        decreases n - i,
    {
        dst.push(src[i]);
        proof {
            assert(old(dst)@ + src@.subrange(0, i + 1) =~= (old(dst)@ + src@.subrange(
                0,
                i as int,
            )).push(src@[i as int]));
        }
        i = i + 1;
    }
    proof {
        assert(old(dst)@ + src@.subrange(0, n as int) =~= old(dst)@ + src@);
    }
}

/// Builds the session's byte stream for one frame: exactly
/// `spec_session_stream`, so the transport writes these bytes in this
/// order and nothing else.
pub fn session_bytes(frame: &RasterFrame, codepage: Option<u8>) -> (out: Vec<u8>)
    ensures
        out@ == spec_session_stream(*frame, codepage),
{
    let mut out: Vec<u8> = Vec::new();
    out.push(0x1B);
    out.push(0x40);
    match codepage {
        Option::Some(n) => {
            out.push(0x1B);
            out.push(0x74);
            out.push(n);
        },
        Option::None => {},
    }
    let ghost head = out@;
    match frame {
        RasterFrame::Full { width_bytes, height, bytes } => {
            out.push(0x1D);
            out.push(0x76);
            out.push(0x30);
            out.push(0x00);
            out.push((width_bytes % 256) as u8);
            out.push(((width_bytes / 256) % 256) as u8);
            out.push((height % 256) as u8);
            out.push(((height / 256) % 256) as u8);
            append_bytes(&mut out, bytes);
            proof {
                assert(out@ =~= head + spec_frame_stream(*frame));
            }
        },
        RasterFrame::Bands { width, bands } => {
            let w_lo: u8 = (width % 256) as u8;
            let w_hi: u8 = ((width / 256) % 256) as u8;
            let ghost bviews = bands@.map_values(|b: Vec<u8>| b@);
            let n = bands.len();
            let mut i: usize = 0;
            proof {
                assert(bviews.skip(0) =~= bviews);
                assert(out@ + Seq::<u8>::empty() =~= out@);
            }
            while i < n
                invariant
                    n == bands@.len(),
                    0 <= i <= n,
                    bviews == bands@.map_values(|b: Vec<u8>| b@),
                    w_lo == ((width % 256) as u8),
                    w_hi == (((width / 256) % 256) as u8),
                    out@ + spec_band_stream(bviews.skip(i as int), w_lo, w_hi) == head
                        + spec_band_stream(bviews, w_lo, w_hi),
                decreases n - i,
            {
                let ghost pre = out@;
                let ghost pre_skip = bviews.skip(i as int);
                out.push(0x1B);
                out.push(0x2A);
                out.push(33);
                out.push(w_lo);
                out.push(w_hi);
                append_bytes(&mut out, &bands[i]);
                out.push(0x0A);
                i = i + 1;
                proof {
                    assert(pre_skip[0] == bviews[i - 1]);
                    assert(pre_skip.drop_first() =~= bviews.skip(i as int));
                    assert(out@ =~= pre + (seq![0x1Bu8, 0x2Au8, 33u8, w_lo, w_hi] + bviews[i - 1]
                        + seq![0x0Au8]));
                    assert(pre + (seq![0x1Bu8, 0x2Au8, 33u8, w_lo, w_hi] + bviews[i - 1] + seq![
                        0x0Au8,
                    ]) + spec_band_stream(bviews.skip(i as int), w_lo, w_hi) =~= pre
                        + spec_band_stream(pre_skip, w_lo, w_hi));
                }
            }
            proof {
                assert(bviews.skip(n as int) =~= Seq::<Seq<u8>>::empty());
                assert(spec_band_stream(Seq::<Seq<u8>>::empty(), w_lo, w_hi) =~= Seq::<u8>::empty());
                assert(out@ + Seq::<u8>::empty() =~= out@);
                assert(out@ =~= head + spec_frame_stream(*frame));
            }
        },
    }
    out.push(0x0A);
    out.push(0x1D);
    out.push(0x56);
    out.push(0x41);
    out.push(0x00);
    proof {
        assert(out@ =~= spec_session_stream(*frame, codepage));
    }
    out
}

} // verus!
