//! End-to-end rendering with a real vector font: a tiny TrueType font is
//! built in memory (every glyph is a solid square), so glyph rasterization,
//! cropping, binarization and packing run exactly as in production.

use receipt_raster::canvas::Canvas;
use receipt_raster::compose::{compose_elements, ReceiptRequest, LABEL_DISCOUNT, LABEL_TOTAL};
use receipt_raster::config::{ColumnsPct, LayoutConfig};
use receipt_raster::money::{receipt_total_pico, Decimal, LineItem};
use receipt_raster::raster::binarize;
use receipt_raster::render::{bold_ops, draw_text_bold, render_receipt, RenderError};
use receipt_raster::session::{pack_frame, RasterFrame};

fn be16(out: &mut Vec<u8>, v: u16) {
    out.extend_from_slice(&v.to_be_bytes());
}

fn bi16(out: &mut Vec<u8>, v: i16) {
    out.extend_from_slice(&v.to_be_bytes());
}

fn be32(out: &mut Vec<u8>, v: u32) {
    out.extend_from_slice(&v.to_be_bytes());
}

/// One simple glyph: a filled square from (0,0) to (600,600).
fn square_glyph() -> Vec<u8> {
    let mut g = Vec::new();
    bi16(&mut g, 1); // one contour
    bi16(&mut g, 0); // xMin
    bi16(&mut g, 0); // yMin
    bi16(&mut g, 600); // xMax
    bi16(&mut g, 600); // yMax
    be16(&mut g, 3); // end point of contour 0
    be16(&mut g, 0); // no instructions
    for _ in 0..4 {
        g.push(0x01); // on-curve, long coordinates
    }
    for dx in [0i16, 600, 0, -600] {
        bi16(&mut g, dx);
    }
    for dy in [0i16, 0, 600, 0] {
        bi16(&mut g, dy);
    }
    g
}

/// A minimal TrueType font: two glyphs (both solid squares), 1000 units
/// per em, ascender 800. Characters without a mapping fall back to glyph
/// 0, so every character draws a square of advance 600 units.
fn build_test_font() -> Vec<u8> {
    let mut glyf = Vec::new();
    glyf.extend(square_glyph());
    glyf.extend(square_glyph());
    let glyph_len = square_glyph().len() as u16;

    let mut head = Vec::new();
    be32(&mut head, 0x00010000); // version
    be32(&mut head, 0); // fontRevision
    be32(&mut head, 0); // checkSumAdjustment
    be32(&mut head, 0x5F0F3CF5); // magicNumber
    be16(&mut head, 0); // flags
    be16(&mut head, 1000); // unitsPerEm
    head.extend_from_slice(&[0u8; 8]); // created
    head.extend_from_slice(&[0u8; 8]); // modified
    bi16(&mut head, 0); // xMin
    bi16(&mut head, 0); // yMin
    bi16(&mut head, 600); // xMax
    bi16(&mut head, 600); // yMax
    be16(&mut head, 0); // macStyle
    be16(&mut head, 8); // lowestRecPPEM
    bi16(&mut head, 2); // fontDirectionHint
    bi16(&mut head, 0); // indexToLocFormat: short
    bi16(&mut head, 0); // glyphDataFormat

    let mut hhea = Vec::new();
    be32(&mut hhea, 0x00010000);
    bi16(&mut hhea, 800); // ascender
    bi16(&mut hhea, -200); // descender
    bi16(&mut hhea, 0); // lineGap
    be16(&mut hhea, 600); // advanceWidthMax
    bi16(&mut hhea, 0); // minLeftSideBearing
    bi16(&mut hhea, 0); // minRightSideBearing
    bi16(&mut hhea, 600); // xMaxExtent
    bi16(&mut hhea, 1); // caretSlopeRise
    bi16(&mut hhea, 0); // caretSlopeRun
    bi16(&mut hhea, 0); // caretOffset
    for _ in 0..4 {
        bi16(&mut hhea, 0); // reserved
    }
    bi16(&mut hhea, 0); // metricDataFormat
    be16(&mut hhea, 2); // numberOfHMetrics

    let mut hmtx = Vec::new();
    for _ in 0..2 {
        be16(&mut hmtx, 600); // advance width
        bi16(&mut hmtx, 0); // left side bearing
    }

    // loca stores byte offsets divided by two in the short format:
    // offsets 0, glyph_len, 2*glyph_len.
    let mut loca = Vec::new();
    be16(&mut loca, 0);
    be16(&mut loca, glyph_len / 2);
    be16(&mut loca, glyph_len);

    let mut maxp = Vec::new();
    be32(&mut maxp, 0x00005000); // version 0.5
    be16(&mut maxp, 2); // numGlyphs

    // Table records must be sorted by tag.
    let tables: Vec<(&[u8; 4], &Vec<u8>)> = vec![
        (b"glyf", &glyf),
        (b"head", &head),
        (b"hhea", &hhea),
        (b"hmtx", &hmtx),
        (b"loca", &loca),
        (b"maxp", &maxp),
    ];
    let num_tables = tables.len() as u16;
    let mut font = Vec::new();
    be32(&mut font, 0x00010000); // sfnt version
    be16(&mut font, num_tables);
    be16(&mut font, 64); // searchRange
    be16(&mut font, 2); // entrySelector
    be16(&mut font, num_tables * 16 - 64); // rangeShift
    let mut offset = 12 + (num_tables as u32) * 16;
    let mut records = Vec::new();
    let mut body = Vec::new();
    for (tag, data) in &tables {
        records.extend_from_slice(*tag);
        be32(&mut records, 0); // checksum (not validated)
        be32(&mut records, offset);
        be32(&mut records, data.len() as u32);
        body.extend_from_slice(data);
        let padded = (data.len() + 3) / 4 * 4;
        for _ in data.len()..padded {
            body.push(0);
        }
        offset += padded as u32;
    }
    font.extend_from_slice(&records);
    font.extend_from_slice(&body);
    font
}

fn test_font() -> ab_glyph::FontArc {
    ab_glyph::FontArc::try_from_vec(build_test_font()).expect("test font parses")
}

fn sample_request() -> ReceiptRequest {
    ReceiptRequest {
        store_name: "Test Store".to_string(),
        date_time_line: "4/11 - 4:09".to_string(),
        invoice_no: "123456".to_string(),
        items: vec![LineItem {
            name: "Apple".to_string(),
            qty: Decimal::from_units(2, 0),
            price: Decimal::from_units(2, 50),
        }],
        discount: Decimal::from_micros(0),
        footer_address: "Street 1".to_string(),
        footer_delivery: "Delivery".to_string(),
        footer_phones: "01533333161".to_string(),
    }
}

#[test]
fn invalid_config_rejected_before_drawing() {
    let font = test_font();
    let mut cfg = LayoutConfig::default();
    cfg.cols = ColumnsPct { name: 60, qty: 30, price: 20, total: 10 }; // sums to 120
    let r = render_receipt(&sample_request(), &cfg, &font);
    assert_eq!(r.err(), Some(RenderError::InvalidConfig));
}

#[test]
fn unrepresentable_amounts_are_rejected() {
    // A quantity and price at the representation's ceiling overflow the
    // exact net total.
    let font = test_font();
    let mut req = sample_request();
    req.items = vec![LineItem {
        name: "x".to_string(),
        qty: Decimal::from_micros(u64::MAX),
        price: Decimal::from_micros(u64::MAX),
    }];
    let r = render_receipt(&req, &LayoutConfig::default(), &font);
    assert_eq!(r.err(), Some(RenderError::AmountOverflow));
}

#[test]
fn zero_width_joiner_is_tolerated() {
    // A joiner directly before a lam-alef pair; the joiner is stripped
    // before shaping and the receipt still renders.
    let font = test_font();
    let mut req = sample_request();
    req.items[0].name = "\u{200D}\u{0644}\u{0627}".to_string();
    req.store_name = "\u{200D}".to_string();
    let bm = render_receipt(&req, &LayoutConfig::default(), &font).expect("renders");
    assert!(bm.height > 0);
}

#[test]
fn end_to_end_render_binarize_pack() {
    let font = test_font();
    let cfg = LayoutConfig::default();
    let req = sample_request();
    let bm = render_receipt(&req, &cfg, &font).expect("renders");
    assert_eq!(bm.width, 576);
    assert!(bm.height > 0 && bm.height <= 1798);

    let frame = pack_frame(&bm, false);
    match frame {
        RasterFrame::Full { width_bytes, height, bytes } => {
            assert_eq!(width_bytes, 72); // 576 / 8
            assert_eq!(height, bm.height);
            // The packed length is exactly width-bytes x height.
            assert_eq!(bytes.len(), width_bytes * height);

            // Recompute the item row's position the way the renderer does,
            // and expect visible ink (the item's name and numbers) there.
            let total = receipt_total_pico(&req.items, req.discount).unwrap();
            let scale84 = ab_glyph::PxScale::from(84.0f32);
            let scale48 = ab_glyph::PxScale::from(48.0f32);
            let ascent = ab_glyph::ScaleFont::ascent(&ab_glyph::Font::as_scaled(&font, scale84))
                .ceil() as i32;
            let dlw = imageproc::drawing::text_size(
                scale48,
                &font,
                &ar_reshaper::reshape_line(LABEL_DISCOUNT),
            )
            .0;
            let tlw = imageproc::drawing::text_size(
                scale48,
                &font,
                &ar_reshaper::reshape_line(LABEL_TOTAL),
            )
            .0;
            let (els, _) = compose_elements(&req, &cfg, total, ascent, dlw, tlw);
            let apple: Vec<char> = "Apple".chars().collect();
            let row = els.iter().find(|e| e.chars == apple).expect("item row element");
            let y0 = row.y.max(0) as usize;
            let y1 = ((row.y + 44).max(0) as usize).min(height);
            let mut ink = false;
            for y in y0..y1 {
                for xb in 0..width_bytes {
                    if bytes[y * width_bytes + xb] != 0 {
                        ink = true;
                    }
                }
            }
            assert!(ink, "expected visible ink in the item row region");
        },
        _ => panic!("expected a full raster frame"),
    }
}

#[test]
fn missing_items_still_render_a_short_receipt() {
    let font = test_font();
    let cfg = LayoutConfig::default();
    let mut req = sample_request();
    req.items = Vec::new();
    let bm = render_receipt(&req, &cfg, &font).expect("renders");
    assert!(bm.height > 0);
    assert!(bm.bits.iter().any(|b| *b), "header and footer text leave ink");
}

#[test]
fn bold_overpaint_thickens_strokes() {
    let font = test_font();
    let chars: Vec<char> = "X".chars().collect();
    let mut c = Canvas::new(64, 64);
    draw_text_bold(&mut c, &font, 32, 4, 4, &chars);
    let luma = c.crop_to_luma(64);
    let bm = binarize(&luma, 64, 64, 150);
    assert!(bm.bits.iter().any(|b| *b), "bold text leaves ink");
}

#[test]
fn bold_ops_overpaint_at_four_offsets() {
    let chars: Vec<char> = "X".chars().collect();
    let ops = bold_ops(&chars, 10, 20);
    let got: Vec<(i64, i64)> = ops.iter().map(|o| (o.x, o.y)).collect();
    assert_eq!(got, vec![(10, 20), (11, 20), (10, 21), (11, 21)]);
    for o in &ops {
        assert_eq!(o.chars, chars);
    }
}
