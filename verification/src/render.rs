//! Rendering: turns composed elements into pixels. Mixed-direction text is
//! shaped, split into directional runs, measured, placed by the layout
//! engine and painted glyph by glyph; pure left-to-right text is measured
//! and painted in one piece. The finished canvas is cropped to the used
//! height, binarized, and returned as a bitmap ready for packing.

use vstd::prelude::*;
use crate::canvas::{Canvas, draw_dotted, MAX_DRAW_COORD};
use crate::compose::{
    CANVAS_HEIGHT, Element, LABEL_DISCOUNT, LABEL_TOTAL, MAX_ITEMS, ReceiptRequest, compose_elements,
    elem_view, elem_wf, elems_view, lemma_compose_all_wf, spec_compose,
};
use crate::config::{LayoutConfig, spec_config_valid, validate_config};
use crate::glyphs::{ascent_px, text_width_px};
use crate::layout_engine::{
    DrawOp, MAX_TOTAL_WIDTH, MeasuredRun, OpSpec, copy_chars, layout_center_anchored,
    layout_right_anchored, lemma_ops_view_push, mrun_wf, mruns_wf, op_center_anchored,
    op_right_anchored, ops_view, prefix_total, total_width,
};
use crate::money::{
    receipt_total_pico, spec_items_total_pico, spec_receipt_total_pico, lemma_items_total_nonneg,
};
use crate::raster::{Bitmap, bitmap_wf, binarize};
use crate::runs::{Run, segment_runs};
use crate::shaping::{shape_line, strip_zwj};
use crate::strutil::{chars_of, string_of};

verus! {

/// A terminal failure of one print operation. Rendering degradations (an
/// overlong line, a missing glyph) never surface here: they are absorbed
/// and a receipt is still produced.
#[derive(Clone, Copy, PartialEq, Eq, Structural, Debug)]
pub enum RenderError {
    /// The layout configuration was rejected before any drawing.
    InvalidConfig,
    /// The receipt's amounts cannot be represented exactly.
    AmountOverflow,
}

impl RenderError {
    /// A human-readable description of the failure.
    pub fn message(&self) -> (m: &'static str)
        ensures
            *self == RenderError::InvalidConfig ==> m@ == "invalid layout configuration"@,
            *self == RenderError::AmountOverflow ==> m@ == "receipt amounts overflow"@,
    {
        match self {
            RenderError::InvalidConfig => "invalid layout configuration",
            RenderError::AmountOverflow => "receipt amounts overflow",
        }
    }
}

/// Measures each run of one line: a left-to-right run as a whole, a
/// right-to-left run character by character (the widths its glyphs are
/// placed with). `None` if the summed widths leave the layout engine's
/// range — the caller then skips the line (degradation, not failure).
fn measure_runs(font: &ab_glyph::FontArc, size: u16, runs: &Vec<Run>) -> (out: Option<
    Vec<MeasuredRun>,
>)
    ensures
        out matches Option::Some(ms) ==> {
            &&& mruns_wf(ms@)
            &&& total_width(ms@) <= MAX_TOTAL_WIDTH
            &&& ms@.len() == runs@.len()
            &&& forall|i: int|
                0 <= i < ms@.len() ==> (#[trigger] ms@[i]).is_ltr == runs@[i].is_ltr && ms@[i].chars@
                    == runs@[i].chars@
        },
{
    let mut ms: Vec<MeasuredRun> = Vec::new();
    let mut total: u64 = 0;
    let n = runs.len();
    let mut i: usize = 0;
    while i < n
        invariant
            n == runs@.len(),
            0 <= i <= n,
            ms@.len() == i,
            total == total_width(ms@),
            total <= MAX_TOTAL_WIDTH,
            mruns_wf(ms@),
            forall|j: int|
                0 <= j < i ==> (#[trigger] ms@[j]).is_ltr == runs@[j].is_ltr && ms@[j].chars@
                    == runs@[j].chars@,
        decreases n - i,
    {
        let r = &runs[i];
        let mr: MeasuredRun;
        if r.is_ltr {
            let w = text_width_px(font, size, &r.chars);
            mr = MeasuredRun {
                is_ltr: true,
                chars: copy_chars(&r.chars),
                char_widths: Vec::new(),
                width: w as u64,
            };
        } else {
            let m = r.chars.len();
            let mut widths: Vec<u32> = Vec::new();
            let mut run_w: u64 = 0;
            let mut j: usize = 0;
            while j < m
                invariant
                    m == r.chars@.len(),
                    r == runs@[i as int],
                    0 <= i < runs@.len(),
                    0 <= j <= m,
                    widths@.len() == j,
                    run_w == crate::layout_engine::widths_sum(widths@, j as int),
                    run_w <= MAX_TOTAL_WIDTH,
                decreases m - j,
            {
                let mut one: Vec<char> = Vec::new();
                one.push(r.chars[j]);
                let w = text_width_px(font, size, &one);
                if run_w > MAX_TOTAL_WIDTH - (w as u64) {
                    return Option::None;
                }
                let ghost old_widths = widths@;
                run_w = run_w + (w as u64);
                widths.push(w);
                j = j + 1;
                proof {
                    lemma_widths_sum_push_agree(old_widths, w);
                    assert(widths@[j - 1] == w);
                    assert(crate::layout_engine::widths_sum(widths@, j as int)
                        == crate::layout_engine::widths_sum(widths@, j - 1) + w);
                }
            }
            proof {
                assert(widths@.len() == r.chars@.len());
            }
            mr = MeasuredRun {
                is_ltr: false,
                chars: copy_chars(&r.chars),
                char_widths: widths,
                width: run_w,
            };
        }
        if total > MAX_TOTAL_WIDTH - mr.width {
            return Option::None;
        }
        let ghost old_ms = ms@;
        let ghost mr_s = mr;
        total = total + mr.width;
        ms.push(mr);
        i = i + 1;
        proof {
            lemma_prefix_total_push_agree(old_ms, mr_s);
            assert(ms@ == old_ms.push(mr_s));
            assert(ms@[i - 1] == mr_s);
            assert(prefix_total(ms@, i as int) == prefix_total(ms@, i - 1) + mr_s.width);
            assert(prefix_total(ms@, i - 1) == prefix_total(old_ms, i - 1));
            assert(mruns_wf(ms@)) by {
                assert(forall|k: int| 0 <= k < i - 1 ==> ms@[k] == old_ms[k]);
                assert(mrun_wf(mr_s));
            }
        }
    }
    Option::Some(ms)
}

proof fn lemma_widths_sum_push_agree(ws: Seq<u32>, w: u32)
    ensures
        forall|k: int|
            0 <= k <= ws.len() ==> crate::layout_engine::widths_sum(#[trigger] ws.push(w), k)
                == crate::layout_engine::widths_sum(ws, k),
{
    assert forall|k: int|
        0 <= k <= ws.len() implies crate::layout_engine::widths_sum(#[trigger] ws.push(w), k)
        == crate::layout_engine::widths_sum(ws, k) by {
        lemma_widths_sum_push_agree_one(ws, w, k);
    }
}

proof fn lemma_widths_sum_push_agree_one(ws: Seq<u32>, w: u32, k: int)
    requires
        0 <= k <= ws.len(),
    ensures
        crate::layout_engine::widths_sum(ws.push(w), k) == crate::layout_engine::widths_sum(ws, k),
    decreases k,
{
    if k > 0 {
        lemma_widths_sum_push_agree_one(ws, w, k - 1);
        assert(ws.push(w)[k - 1] == ws[k - 1]);
    }
}

proof fn lemma_prefix_total_push_agree(rs: Seq<MeasuredRun>, r: MeasuredRun)
    ensures
        forall|k: int| 0 <= k <= rs.len() ==> prefix_total(#[trigger] rs.push(r), k) == prefix_total(
            rs,
            k,
        ),
{
    assert forall|k: int| 0 <= k <= rs.len() implies prefix_total(#[trigger] rs.push(r), k)
        == prefix_total(rs, k) by {
        lemma_prefix_total_push_agree_one(rs, r, k);
    }
}

proof fn lemma_prefix_total_push_agree_one(rs: Seq<MeasuredRun>, r: MeasuredRun, k: int)
    requires
        0 <= k <= rs.len(),
    ensures
        prefix_total(rs.push(r), k) == prefix_total(rs, k),
    decreases k,
{
    if k > 0 {
        lemma_prefix_total_push_agree_one(rs, r, k - 1);
        assert(rs.push(r)[k - 1] == rs[k - 1]);
    }
}

/// Paints placed draw operations onto the canvas; operations whose origin
/// leaves the 32-bit pixel range are clipped away.
fn paint_ops(c: &mut Canvas, font: &ab_glyph::FontArc, size: u16, ops: &Vec<DrawOp>)
    ensures
        final(c).spec_width() == old(c).spec_width(),
        final(c).spec_height() == old(c).spec_height(),
{
    let n = ops.len();
    let mut i: usize = 0;
    while i < n
        invariant
            n == ops@.len(),
            0 <= i <= n,
            c.spec_width() == old(c).spec_width(),
            c.spec_height() == old(c).spec_height(),
        decreases n - i,
    {
        let op = &ops[i];
        if op.x >= -(MAX_DRAW_COORD as i64) && op.x <= (MAX_DRAW_COORD as i64) && op.y >= -(
        MAX_DRAW_COORD as i64) && op.y <= (MAX_DRAW_COORD as i64) {
            c.draw_text(op.x as i32, op.y as i32, size, font, &op.chars);
        }
        i = i + 1;
    }
}

/// Renders one composed element: the dotted separator, a mixed-direction
/// line (shaped, segmented, measured, anchored placement), or a pure
/// left-to-right line drawn in one piece.
pub fn render_element(c: &mut Canvas, font: &ab_glyph::FontArc, el: &Element)
    requires
        elem_wf(*el),
    ensures
        final(c).spec_width() == old(c).spec_width(),
        final(c).spec_height() == old(c).spec_height(),
{
    if el.is_dotted {
        draw_dotted(c, el.y, el.left, el.right);
        return ;
    }
    let size16: u16 = el.size as u16;
    if el.mixed {
        // The shaper refuses zero-width joiners; they carry no glyph, so
        // stripping them first loses nothing.
        let stripped = strip_zwj(&el.chars);
        let logical = string_of(&stripped);
        let shaped = shape_line(&logical);
        let schars = chars_of(&shaped);
        let runs = segment_runs(&schars);
        let measured = measure_runs(font, size16, &runs);
        match measured {
            Option::None => {},
            Option::Some(ms) => {
                let ops: Vec<DrawOp>;
                if el.centered {
                    ops = layout_center_anchored(&ms, c.width() as i64, el.y);
                } else {
                    ops = layout_right_anchored(&ms, el.anchor_x, el.left, el.y);
                }
                paint_ops(c, font, size16, &ops);
            },
        }
    } else {
        // A pure left-to-right field is one contracted placement: its
        // origin is the anchor minus the measured width, or the centering
        // origin on the paper.
        let w = text_width_px(font, size16, &el.chars);
        let op: DrawOp;
        if el.centered {
            op = op_center_anchored(copy_chars(&el.chars), w, c.width() as i64, el.y);
        } else {
            op = op_right_anchored(copy_chars(&el.chars), w, el.anchor_x, el.y);
        }
        let mut ops: Vec<DrawOp> = Vec::new();
        ops.push(op);
        paint_ops(c, font, size16, &ops);
    }
}

/// The four operations of emulated bold: the same text overpainted at the
/// offsets (0,0), (1,0), (0,1) and (1,1) from the origin, thickening the
/// strokes without a second font weight.
pub open spec fn spec_bold_ops(chars: Seq<char>, x: int, y: int) -> Seq<OpSpec> {
    seq![
        OpSpec { chars, x, y },
        OpSpec { chars, x: x + 1, y },
        OpSpec { chars, x, y: y + 1 },
        OpSpec { chars, x: x + 1, y: y + 1 },
    ]
}

/// Builds the bold overpaint operations for one text.
pub fn bold_ops(chars: &Vec<char>, x: i64, y: i64) -> (ops: Vec<DrawOp>)
    requires
        -0x4000_0000_0000_0000 <= x < 0x4000_0000_0000_0000,
        -0x4000_0000_0000_0000 <= y < 0x4000_0000_0000_0000,
    ensures
        ops_view(ops@) == spec_bold_ops(chars@, x as int, y as int),
{
    let mut ops: Vec<DrawOp> = Vec::new();
    let o1 = DrawOp { chars: copy_chars(chars), x, y };
    let o2 = DrawOp { chars: copy_chars(chars), x: x + 1, y };
    let o3 = DrawOp { chars: copy_chars(chars), x, y: y + 1 };
    let o4 = DrawOp { chars: copy_chars(chars), x: x + 1, y: y + 1 };
    proof {
        lemma_ops_view_push(ops@, o1);
        lemma_ops_view_push(ops@.push(o1), o2);
        lemma_ops_view_push(ops@.push(o1).push(o2), o3);
        lemma_ops_view_push(ops@.push(o1).push(o2).push(o3), o4);
    }
    ops.push(o1);
    ops.push(o2);
    ops.push(o3);
    ops.push(o4);
    proof {
        assert(ops_view(ops@) =~~= spec_bold_ops(chars@, x as int, y as int));
    }
    ops
}

/// Draws one text in emulated bold: the four overpaint operations of
/// `bold_ops`, painted with the usual clipping.
pub fn draw_text_bold(c: &mut Canvas, font: &ab_glyph::FontArc, size: u16, x: i64, y: i64, chars: &Vec<char>)
    ensures
        final(c).spec_width() == old(c).spec_width(),
        final(c).spec_height() == old(c).spec_height(),
{
    if x < -0x4000_0000_0000_0000 || x >= 0x4000_0000_0000_0000 || y < -0x4000_0000_0000_0000
        || y >= 0x4000_0000_0000_0000 {
        return ;
    }
    let ops = bold_ops(chars, x, y);
    paint_ops(c, font, size, &ops);
}

/// The cropped height: the composed height clamped to the canvas (and to
/// the canvas's tallest croppable row), as the raster's row count.
pub open spec fn spec_used_height(y: int) -> int {
    if 0 <= y <= 1798 {
        y
    } else {
        1798
    }
}

/// Clamps the composed height to the croppable range.
fn used_height(y: i64) -> (h: u32)
    ensures
        h as int == spec_used_height(y as int),
        h <= 1798,
{
    if y < 0 {
        1798
    } else if y > 1798 {
        1798
    } else {
        y as u32
    }
}

/// Renders a receipt request to a binarized bitmap: validates the
/// configuration (fail fast, before any drawing), recomputes the total,
/// composes the sections, draws them onto the canvas, crops to the used
/// height and binarizes at the configured threshold.
///
/// Success is owed whenever the configuration is valid and the amounts are
/// representable; rendering degradations never fail the job.
pub fn render_receipt(req: &ReceiptRequest, cfg: &LayoutConfig, font: &ab_glyph::FontArc) -> (r:
    Result<Bitmap, RenderError>)
    requires
        req.items@.len() <= MAX_ITEMS,
    ensures
        r == Result::<Bitmap, RenderError>::Err(RenderError::InvalidConfig) <==> !spec_config_valid(
            *cfg,
        ),
        r == Result::<Bitmap, RenderError>::Err(RenderError::AmountOverflow) <==> (
        spec_config_valid(*cfg) && (spec_items_total_pico(req.items@, req.items@.len() as int)
            > u128::MAX || spec_receipt_total_pico(req.items@, req.discount) > i128::MAX)),
        r matches Result::Ok(bm) ==> {
            &&& bitmap_wf(bm)
            &&& bm.width == cfg.paper_width_px
            &&& bm.height <= 1798
        },
{
    if !validate_config(cfg) {
        return Result::Err(RenderError::InvalidConfig);
    }
    let total_opt = receipt_total_pico(&req.items, req.discount);
    let total_pico: i128;
    match total_opt {
        Option::None => {
            return Result::Err(RenderError::AmountOverflow);
        },
        Option::Some(t) => {
            proof {
                lemma_items_total_nonneg(req.items@);
                vstd::arithmetic::mul::lemma_mul_upper_bound(
                    req.discount.micros as int,
                    u64::MAX as int,
                    1_000_000,
                    1_000_000,
                );
            }
            total_pico = t;
        },
    }
    // Measure the shaped totals labels once; the composer anchors the
    // values beside them.
    let size_label: u16 = cfg.fonts.total_label as u16;
    let dl_stripped = strip_zwj(&chars_of(LABEL_DISCOUNT));
    let dl_shaped = shape_line(&string_of(&dl_stripped));
    let dlw = text_width_px(font, size_label, &chars_of(&dl_shaped));
    let tl_stripped = strip_zwj(&chars_of(LABEL_TOTAL));
    let tl_shaped = shape_line(&string_of(&tl_stripped));
    let tlw = text_width_px(font, size_label, &chars_of(&tl_shaped));
    let ascent = ascent_px(font, cfg.fonts.title as u16);
    let composed = compose_elements(req, cfg, total_pico, ascent, dlw, tlw);
    let els = composed.0;
    let used_y = composed.1;
    let mut canvas = Canvas::new(cfg.paper_width_px, CANVAS_HEIGHT);
    proof {
        lemma_compose_all_wf(
            *req,
            *cfg,
            total_pico as int,
            ascent as int,
            dlw as int,
            tlw as int,
        );
        let all = spec_compose(
            *req,
            *cfg,
            total_pico as int,
            ascent as int,
            dlw as int,
            tlw as int,
        );
        assert forall|j: int| 0 <= j < els@.len() implies elem_wf(#[trigger] els@[j]) by {
            assert(elems_view(els@)[j] == elem_view(els@[j]));
            assert(elems_view(els@)[j] == all[j]);
        }
    }
    let n = els.len();
    let mut i: usize = 0;
    while i < n
        invariant
            n == els@.len(),
            0 <= i <= n,
            canvas.spec_width() == cfg.paper_width_px,
            canvas.spec_height() == CANVAS_HEIGHT,
            forall|j: int| 0 <= j < els@.len() ==> elem_wf(#[trigger] els@[j]),
        decreases n - i,
    {
        render_element(&mut canvas, font, &els[i]);
        i = i + 1;
    }
    let used_h: u32 = used_height(used_y);
    let luma = canvas.crop_to_luma(used_h);
    let bm = binarize(&luma, cfg.paper_width_px as usize, used_h as usize, cfg.threshold);
    Result::Ok(bm)
}

} // verus!
