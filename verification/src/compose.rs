//! The receipt composer: walks the receipt's sections top to bottom — title,
//! date/time line, invoice number, column headers, item rows, optional
//! discount row, total, footer lines — and produces the ordered list of
//! drawing elements with their anchors, sizes and vertical positions, plus
//! the used height to crop to. The element list is a pure function of the
//! request, the configuration, the recomputed total and the measured label
//! widths, so the key layout laws are stated and proved over it.

use vstd::prelude::*;
use crate::config::{
    ColumnEdges, LayoutConfig, spec_column_edges, spec_config_valid, spec_right_edge, column_edges,
};
use crate::money::{
    Decimal, LineItem, spec_discount_visible, spec_format_2dp, spec_line_value_pico,
    spec_micros_to_hundredths, spec_pico_to_hundredths, spec_receipt_total_pico,
    discount_visible, format_micros_2dp, line_value_pico,
};
use crate::money;
use crate::strutil::{chars_of, sub_chars};

verus! {

/// The most items one receipt may carry; keeps every vertical position well
/// inside `i64`.
pub const MAX_ITEMS: usize = 1_000_000;

/// Gap in pixels between a totals label and its value.
pub const LABEL_VALUE_GAP: i64 = 12;

/// The canvas starts this tall and is cropped down after composition.
pub const CANVAS_HEIGHT: u32 = 1800;

/// The label of the item-name column.
pub const LABEL_COL_NAME: &'static str = "\u{0627}\u{0644}\u{0635}\u{0646}\u{0641}";

/// The label of the quantity column.
pub const LABEL_COL_QTY: &'static str = "\u{0627}\u{0644}\u{0643}\u{0645}\u{064A}\u{0629}";

/// The label of the unit-price column.
pub const LABEL_COL_PRICE: &'static str = "\u{0627}\u{0644}\u{0633}\u{0639}\u{0631}";

/// The label of the line-total column.
pub const LABEL_COL_TOTAL: &'static str = "\u{0627}\u{0644}\u{0642}\u{064A}\u{0645}\u{0629}";

/// The discount row's label.
pub const LABEL_DISCOUNT: &'static str = "\u{0627}\u{0644}\u{062E}\u{0635}\u{0645}";

/// The total row's label.
pub const LABEL_TOTAL: &'static str =
    "\u{0625}\u{062C}\u{0645}\u{0627}\u{0644}\u{064A} \u{0627}\u{0644}\u{0641}\u{0627}\u{062A}\u{0648}\u{0631}\u{0629}";

/// The receipt data to render: header, items, discount, footer. Totals are
/// always recomputed from the items; no caller-supplied sum is consulted.
pub struct ReceiptRequest {
    /// Store title; an embedded newline splits it into two title lines.
    pub store_name: String,
    pub date_time_line: String,
    pub invoice_no: String,
    pub items: Vec<LineItem>,
    pub discount: Decimal,
    pub footer_address: String,
    pub footer_delivery: String,
    pub footer_phones: String,
}

/// One composed drawing element: a line of text at an anchor, or the dotted
/// separator.
pub struct Element {
    /// True for the dotted separator; `chars` is then empty and `left` /
    /// `right` bound the dashes.
    pub is_dotted: bool,
    /// The element's logical text (shaped later, during rendering).
    pub chars: Vec<char>,
    /// True for mixed-direction text (shaped and split into runs); false
    /// for a pure left-to-right field drawn in one piece.
    pub mixed: bool,
    /// True for center-anchored text; otherwise `anchor_x` is the right
    /// edge the text is anchored to.
    pub centered: bool,
    pub anchor_x: i64,
    /// Left boundary for right-anchored placement (runs crossing it are
    /// truncated); also the dashes' start for the separator.
    pub left: i64,
    /// The dashes' end for the separator.
    pub right: i64,
    /// Font pixel size of the text.
    pub size: u32,
    pub y: i64,
}

/// Spec-level image of an `Element`.
#[verifier::ext_equal]
pub ghost struct ElemSpec {
    pub is_dotted: bool,
    pub chars: Seq<char>,
    pub mixed: bool,
    pub centered: bool,
    pub anchor_x: int,
    pub left: int,
    pub right: int,
    pub size: int,
    pub y: int,
}

pub open spec fn elem_view(e: Element) -> ElemSpec {
    ElemSpec {
        is_dotted: e.is_dotted,
        chars: e.chars@,
        mixed: e.mixed,
        centered: e.centered,
        anchor_x: e.anchor_x as int,
        left: e.left as int,
        right: e.right as int,
        size: e.size as int,
        y: e.y as int,
    }
}

pub open spec fn elems_view(v: Seq<Element>) -> Seq<ElemSpec> {
    v.map_values(|e: Element| elem_view(e))
}

/// A composed element the renderer can draw safely: a bounded font size and
/// coordinates inside the layout engine's range.
pub open spec fn elemspec_wf(e: ElemSpec) -> bool {
    &&& 1 <= e.size <= 8192
    &&& -0x2_0000_0000 <= e.anchor_x <= 0x2_0000_0000
    &&& -0x2_0000_0000 <= e.left <= 0x2_0000_0000
    &&& (e.mixed && !e.centered) ==> e.left <= e.anchor_x
}

/// A composed element the renderer can draw safely.
pub open spec fn elem_wf(e: Element) -> bool {
    elemspec_wf(elem_view(e))
}

/// A centered text element.
pub open spec fn ctext(chars: Seq<char>, mixed: bool, size: int, y: int) -> ElemSpec {
    ElemSpec {
        is_dotted: false,
        chars,
        mixed,
        centered: true,
        anchor_x: 0,
        left: 0,
        right: 0,
        size,
        y,
    }
}

/// A right-anchored text element, truncating at `left`.
pub open spec fn rtext(chars: Seq<char>, mixed: bool, anchor_x: int, left: int, size: int, y: int) -> ElemSpec {
    ElemSpec {
        is_dotted: false,
        chars,
        mixed,
        centered: false,
        anchor_x,
        left,
        right: 0,
        size,
        y,
    }
}

/// The dotted separator element.
pub open spec fn dotsep(y: int, left: int, right: int) -> ElemSpec {
    ElemSpec {
        is_dotted: true,
        chars: Seq::empty(),
        mixed: false,
        centered: false,
        anchor_x: 0,
        left,
        right,
        size: 1,
        y,
    }
}

/// Index of the first newline in `s` at or after `i`, or `s.len()`.
pub open spec fn spec_find_nl(s: Seq<char>, i: int) -> int
    decreases s.len() - i,
{
    if i < 0 || i >= s.len() {
        s.len() as int
    } else if s[i] == '\n' {
        i
    } else {
        spec_find_nl(s, i + 1)
    }
}

/// The title's lines: the whole string, or the parts before and after the
/// first newline.
pub open spec fn spec_title_lines(s: Seq<char>) -> Seq<Seq<char>> {
    let k = spec_find_nl(s, 0);
    if k == s.len() {
        seq![s]
    } else {
        seq![s.subrange(0, k), s.subrange(k + 1, s.len() as int)]
    }
}

/// The title section: one or two center-anchored lines, each advancing the
/// cursor by the title size less a fixed tightening of 8 pixels.
pub open spec fn spec_title_elems(s: Seq<char>, cfg: LayoutConfig, y_title: int) -> Seq<ElemSpec> {
    let lines = spec_title_lines(s);
    if lines.len() == 1 {
        seq![ctext(lines[0], true, cfg.fonts.title as int, y_title)]
    } else {
        seq![
            ctext(lines[0], true, cfg.fonts.title as int, y_title),
            ctext(lines[1], true, cfg.fonts.title as int, y_title + cfg.fonts.title - 8),
        ]
    }
}

/// Vertical position reached after the title section.
pub open spec fn spec_y_after_title(s: Seq<char>, cfg: LayoutConfig, y_title: int) -> int {
    y_title + (spec_title_lines(s).len() as int) * (cfg.fonts.title - 8)
}

/// The column-header row: the four labels, right-anchored at the shared
/// column edges.
pub open spec fn spec_header_elems(cfg: LayoutConfig, y: int) -> Seq<ElemSpec> {
    let e = spec_column_edges(cfg);
    let lb = cfg.margin_h as int;
    let size = cfg.fonts.header_cols as int;
    seq![
        rtext(LABEL_COL_NAME@, true, e.name as int, lb, size, y),
        rtext(LABEL_COL_QTY@, true, e.qty as int, lb, size, y),
        rtext(LABEL_COL_PRICE@, true, e.price as int, lb, size, y),
        rtext(LABEL_COL_TOTAL@, true, e.total as int, lb, size, y),
    ]
}

/// One item row: the name (mixed direction) and the three numeric fields,
/// each right-anchored at the same column edges the header uses, with the
/// line total recomputed as quantity times price.
pub open spec fn spec_row_elems(it: LineItem, cfg: LayoutConfig, y: int) -> Seq<ElemSpec> {
    let e = spec_column_edges(cfg);
    let lb = cfg.margin_h as int;
    let size = cfg.fonts.item as int;
    seq![
        rtext(it.name@, true, e.name as int, lb, size, y),
        rtext(
            spec_format_2dp(spec_micros_to_hundredths(it.qty.micros as int), false),
            false,
            e.qty as int,
            lb,
            size,
            y,
        ),
        rtext(
            spec_format_2dp(spec_micros_to_hundredths(it.price.micros as int), false),
            false,
            e.price as int,
            lb,
            size,
            y,
        ),
        rtext(
            spec_format_2dp(spec_pico_to_hundredths(spec_line_value_pico(it)), false),
            false,
            e.total as int,
            lb,
            size,
            y,
        ),
    ]
}

/// The item rows, top to bottom, advancing by the row gap.
pub open spec fn spec_items_elems(items: Seq<LineItem>, cfg: LayoutConfig, y: int) -> Seq<ElemSpec>
    decreases items.len(),
{
    if items.len() == 0 {
        Seq::empty()
    } else {
        spec_row_elems(items[0], cfg, y) + spec_items_elems(
            items.drop_first(),
            cfg,
            y + cfg.row_gap,
        )
    }
}

/// The discount row: present exactly when the discount exceeds the
/// configured threshold; the value sits left of the measured label.
pub open spec fn spec_discount_elems(
    discount: Decimal,
    cfg: LayoutConfig,
    dlw: int,
    y: int,
) -> Seq<ElemSpec> {
    if spec_discount_visible(discount, cfg.discount_epsilon_micros) {
        let re = spec_right_edge(cfg);
        seq![
            rtext(
                spec_format_2dp(spec_micros_to_hundredths(discount.micros as int), false),
                false,
                re - dlw - LABEL_VALUE_GAP,
                cfg.margin_h as int,
                cfg.fonts.total_label as int,
                y,
            ),
            rtext(LABEL_DISCOUNT@, true, re, cfg.margin_h as int, cfg.fonts.total_label as int, y),
        ]
    } else {
        Seq::empty()
    }
}

/// The formatted net total: the recomputed sum of line values minus the
/// discount, two decimal places, signed.
pub open spec fn spec_total_chars(total_pico: int) -> Seq<char> {
    if total_pico >= 0 {
        spec_format_2dp(spec_pico_to_hundredths(total_pico), false)
    } else {
        spec_format_2dp(spec_pico_to_hundredths(-total_pico), true)
    }
}

/// The total row: the recomputed net total left of the measured label, the
/// label at the right edge.
pub open spec fn spec_total_elems(total_pico: int, cfg: LayoutConfig, tlw: int, y: int) -> Seq<
    ElemSpec,
> {
    let re = spec_right_edge(cfg);
    seq![
        rtext(
            spec_total_chars(total_pico),
            false,
            re - tlw - LABEL_VALUE_GAP,
            cfg.margin_h as int,
            cfg.fonts.total_value as int,
            y - 10,
        ),
        rtext(LABEL_TOTAL@, true, re, cfg.margin_h as int, cfg.fonts.total_label as int, y),
    ]
}

/// The footer: address and delivery lines (mixed, centered) and the phone
/// line (pure left-to-right, centered).
pub open spec fn spec_footer_elems(req: ReceiptRequest, cfg: LayoutConfig, y: int) -> Seq<ElemSpec> {
    seq![
        ctext(req.footer_address@, true, cfg.fonts.footer as int, y),
        ctext(req.footer_delivery@, true, cfg.fonts.footer as int, y + cfg.fonts.footer + 2),
        ctext(
            req.footer_phones@,
            false,
            cfg.fonts.footer_phones as int,
            y + 2 * ((cfg.fonts.footer as int) + 2),
        ),
    ]
}

/// Vertical position of the item-table header row.
pub open spec fn spec_y_headers(req: ReceiptRequest, cfg: LayoutConfig, ascent: int) -> int {
    let y_title = (cfg.margin_top as int) - ascent;
    let y_dt = spec_y_after_title(req.store_name@, cfg, y_title);
    let y_inv = y_dt + cfg.fonts.header_dt + 2;
    y_inv + cfg.fonts.header_no + 2
}

/// Vertical position of the first item row.
pub open spec fn spec_y_items(req: ReceiptRequest, cfg: LayoutConfig, ascent: int) -> int {
    spec_y_headers(req, cfg, ascent) + cfg.row_gap - 6
}

/// Vertical position of the dotted separator.
pub open spec fn spec_y_dotted(req: ReceiptRequest, cfg: LayoutConfig, ascent: int) -> int {
    spec_y_items(req, cfg, ascent) + (req.items@.len() as int) * (cfg.row_gap as int) + 18
}

/// Vertical position of the discount row (when shown), below the separator.
pub open spec fn spec_y_discount(req: ReceiptRequest, cfg: LayoutConfig, ascent: int) -> int {
    spec_y_dotted(req, cfg, ascent) + 12
}

/// Vertical position of the total row.
pub open spec fn spec_y_total(req: ReceiptRequest, cfg: LayoutConfig, ascent: int) -> int {
    spec_y_discount(req, cfg, ascent) + (
    if spec_discount_visible(req.discount, cfg.discount_epsilon_micros) {
        (cfg.row_gap as int) - 6
    } else {
        0
    })
}

/// Vertical position of the first footer line.
pub open spec fn spec_y_footer(req: ReceiptRequest, cfg: LayoutConfig, ascent: int) -> int {
    spec_y_total(req, cfg, ascent) + cfg.row_gap
}

/// The height used by the composed receipt: the bottom of the last footer
/// line plus the bottom margin.
pub open spec fn spec_used_y(req: ReceiptRequest, cfg: LayoutConfig, ascent: int) -> int {
    spec_y_footer(req, cfg, ascent) + 2 * ((cfg.fonts.footer as int) + 2) + (
    cfg.fonts.footer_phones as int) + (cfg.margin_bottom as int)
}

/// The complete composed receipt: every section's elements in drawing
/// order. This is the layout state machine's whole output as one value.
pub open spec fn spec_compose(
    req: ReceiptRequest,
    cfg: LayoutConfig,
    total_pico: int,
    ascent: int,
    dlw: int,
    tlw: int,
) -> Seq<ElemSpec> {
    let y_title = (cfg.margin_top as int) - ascent;
    let y_dt = spec_y_after_title(req.store_name@, cfg, y_title);
    let y_inv = y_dt + cfg.fonts.header_dt + 2;
    let y_head = spec_y_headers(req, cfg, ascent);
    let y_items = spec_y_items(req, cfg, ascent);
    let y_dot = spec_y_dotted(req, cfg, ascent);
    let y_disc = spec_y_discount(req, cfg, ascent);
    let y_total = spec_y_total(req, cfg, ascent);
    let y_foot = spec_y_footer(req, cfg, ascent);
    spec_title_elems(req.store_name@, cfg, y_title) + seq![
        ctext(req.date_time_line@, true, cfg.fonts.header_dt as int, y_dt),
        ctext(req.invoice_no@, false, cfg.fonts.header_no as int, y_inv),
    ] + spec_header_elems(cfg, y_head) + spec_items_elems(req.items@, cfg, y_items) + seq![
        dotsep(y_dot, cfg.margin_h as int, (cfg.paper_width_px as int) - (cfg.margin_h as int)),
    ] + spec_discount_elems(req.discount, cfg, dlw, y_disc) + spec_total_elems(
        total_pico,
        cfg,
        tlw,
        y_total,
    ) + spec_footer_elems(req, cfg, y_foot)
}

/// Discount suppression, as a law over the composed output: the discount
/// section holds a row exactly when the discount exceeds the configured
/// threshold; a zero or below-threshold discount adds nothing.
pub proof fn lemma_discount_suppression(discount: Decimal, cfg: LayoutConfig, dlw: int, y: int)
    ensures
        spec_discount_visible(discount, cfg.discount_epsilon_micros) ==> spec_discount_elems(
            discount,
            cfg,
            dlw,
            y,
        ).len() == 2,
        !spec_discount_visible(discount, cfg.discount_epsilon_micros) ==> spec_discount_elems(
            discount,
            cfg,
            dlw,
            y,
        ).len() == 0,
        discount.micros <= cfg.discount_epsilon_micros ==> spec_discount_elems(
            discount,
            cfg,
            dlw,
            y,
        ).len() == 0,
{
}

/// Column geometry stability, as a law over the composed output: the header
/// labels and every item row's four fields are anchored at the same four
/// right edges, the ones `spec_column_edges` computes from the
/// configuration alone.
pub proof fn lemma_column_geometry_shared(it: LineItem, cfg: LayoutConfig, y_row: int, y_head: int)
    ensures
        spec_row_elems(it, cfg, y_row)[0].anchor_x == spec_header_elems(cfg, y_head)[0].anchor_x,
        spec_row_elems(it, cfg, y_row)[1].anchor_x == spec_header_elems(cfg, y_head)[1].anchor_x,
        spec_row_elems(it, cfg, y_row)[2].anchor_x == spec_header_elems(cfg, y_head)[2].anchor_x,
        spec_row_elems(it, cfg, y_row)[3].anchor_x == spec_header_elems(cfg, y_head)[3].anchor_x,
        spec_row_elems(it, cfg, y_row)[0].anchor_x == spec_column_edges(cfg).name as int,
        spec_row_elems(it, cfg, y_row)[1].anchor_x == spec_column_edges(cfg).qty as int,
        spec_row_elems(it, cfg, y_row)[2].anchor_x == spec_column_edges(cfg).price as int,
        spec_row_elems(it, cfg, y_row)[3].anchor_x == spec_column_edges(cfg).total as int,
{
}

/// Every item row of the composed receipt anchors its fields at the shared
/// column edges: the geometry is computed once from the configuration and
/// reused for the header and all rows.
pub proof fn lemma_rows_share_geometry(items: Seq<LineItem>, cfg: LayoutConfig, y: int)
    ensures
        forall|i: int|
            0 <= i < items.len() ==> {
                let row = #[trigger] spec_row_elems(items[i], cfg, 0);
                &&& row[0].anchor_x == spec_column_edges(cfg).name as int
                &&& row[1].anchor_x == spec_column_edges(cfg).qty as int
                &&& row[2].anchor_x == spec_column_edges(cfg).price as int
                &&& row[3].anchor_x == spec_column_edges(cfg).total as int
            },
{
}


proof fn lemma_items_elems_wf(items: Seq<LineItem>, cfg: LayoutConfig, y: int)
    requires
        spec_config_valid(cfg),
    ensures
        spec_items_elems(items, cfg, y).len() == 4 * items.len(),
        forall|j: int|
            0 <= j < spec_items_elems(items, cfg, y).len() ==> elemspec_wf(
                #[trigger] spec_items_elems(items, cfg, y)[j],
            ),
    decreases items.len(),
{
    if items.len() > 0 {
        crate::config::lemma_column_edges_bounds(cfg);
        lemma_items_elems_wf(items.drop_first(), cfg, y + cfg.row_gap);
        let row = spec_row_elems(items[0], cfg, y);
        let rest = spec_items_elems(items.drop_first(), cfg, y + cfg.row_gap);
        assert(row.len() == 4);
        assert forall|j: int|
            0 <= j < spec_items_elems(items, cfg, y).len() implies elemspec_wf(
            #[trigger] spec_items_elems(items, cfg, y)[j],
        ) by {
            if j < 4 {
                assert(spec_items_elems(items, cfg, y)[j] == row[j]);
            } else {
                assert(spec_items_elems(items, cfg, y)[j] == rest[j - 4]);
            }
        }
    }
}

/// Every element the composer produces is safe to render: bounded sizes and
/// anchors inside the layout engine's coordinate range.
pub proof fn lemma_compose_all_wf(
    req: ReceiptRequest,
    cfg: LayoutConfig,
    total_pico: int,
    ascent: int,
    dlw: int,
    tlw: int,
)
    requires
        spec_config_valid(cfg),
        0 <= dlw <= u32::MAX,
        0 <= tlw <= u32::MAX,
    ensures
        forall|j: int|
            0 <= j < spec_compose(req, cfg, total_pico, ascent, dlw, tlw).len() ==> elemspec_wf(
                #[trigger] spec_compose(req, cfg, total_pico, ascent, dlw, tlw)[j],
            ),
{
    crate::config::lemma_column_edges_bounds(cfg);
    let y_items = spec_y_items(req, cfg, ascent);
    lemma_items_elems_wf(req.items@, cfg, y_items);
    let all = spec_compose(req, cfg, total_pico, ascent, dlw, tlw);
    assert forall|j: int| 0 <= j < all.len() implies elemspec_wf(#[trigger] all[j]) by {
        let title = spec_title_elems(req.store_name@, cfg, (cfg.margin_top as int) - ascent);
        assert(title.len() == spec_title_lines(req.store_name@).len());
        let items = spec_items_elems(req.items@, cfg, y_items);
        let disc = spec_discount_elems(
            req.discount,
            cfg,
            dlw,
            spec_y_discount(req, cfg, ascent),
        );
        assert(forall|k: int| 0 <= k < title.len() ==> elemspec_wf(#[trigger] title[k]));
        assert(forall|k: int| 0 <= k < disc.len() ==> elemspec_wf(#[trigger] disc[k]));
    }
}

proof fn lemma_elems_push(v: Seq<Element>, e: Element)
    ensures
        elems_view(v.push(e)) =~= elems_view(v).push(elem_view(e)),
{
}

/// Finds the first newline in the title, if any.
fn find_nl(chars: &Vec<char>) -> (k: usize)
    ensures
        k == spec_find_nl(chars@, 0),
        0 <= k <= chars@.len(),
{
    let n = chars.len();
    let mut i: usize = 0;
    while i < n
        invariant
            n == chars@.len(),
            0 <= i <= n,
            spec_find_nl(chars@, 0) == spec_find_nl(chars@, i as int),
        decreases n - i,
    {
        if chars[i] == '\n' {
            return i;
        }
        i = i + 1;
    }
    n
}

/// Composes the receipt's drawing elements, top to bottom, and the height
/// used. The output is exactly `spec_compose`: the sections in order, the
/// discount row present only above the threshold, the totals recomputed,
/// and one shared column geometry for header and rows.
#[verifier::rlimit(50)]
pub fn compose_elements(
    req: &ReceiptRequest,
    cfg: &LayoutConfig,
    total_pico: i128,
    ascent: i32,
    dlw: u32,
    tlw: u32,
) -> (r: (Vec<Element>, i64))
    requires
        spec_config_valid(*cfg),
        req.items@.len() <= MAX_ITEMS,
        total_pico == spec_receipt_total_pico(req.items@, req.discount),
        total_pico > i128::MIN,
    ensures
        elems_view(r.0@) == spec_compose(
            *req,
            *cfg,
            total_pico as int,
            ascent as int,
            dlw as int,
            tlw as int,
        ),
        r.1 == spec_used_y(*req, *cfg, ascent as int),
{
    let paper: i64 = cfg.paper_width_px as i64;
    let margin: i64 = cfg.margin_h as i64;
    let re: i64 = paper - margin;
    proof {
        assert(re == spec_right_edge(*cfg));
    }
    let edges: ColumnEdges = column_edges(cfg);
    let mut els: Vec<Element> = Vec::new();
    let y_title: i64 = (cfg.margin_top as i64) - (ascent as i64);

    // === Title: one or two centered lines ===
    let store = chars_of(&req.store_name);
    let k = find_nl(&store);
    let title_size = cfg.fonts.title;
    let two_lines = k < store.len();
    if !two_lines {
        let el = Element {
            is_dotted: false,
            chars: store,
            mixed: true,
            centered: true,
            anchor_x: 0,
            left: 0,
            right: 0,
            size: title_size,
            y: y_title,
        };
        proof {
            lemma_elems_push(els@, el);
        }
        els.push(el);
    } else {
        let line1 = sub_chars(&store, 0, k);
        let line2 = sub_chars(&store, k + 1, store.len());
        let el1 = Element {
            is_dotted: false,
            chars: line1,
            mixed: true,
            centered: true,
            anchor_x: 0,
            left: 0,
            right: 0,
            size: title_size,
            y: y_title,
        };
        let el2 = Element {
            is_dotted: false,
            chars: line2,
            mixed: true,
            centered: true,
            anchor_x: 0,
            left: 0,
            right: 0,
            size: title_size,
            y: y_title + (title_size as i64) - 8,
        };
        proof {
            lemma_elems_push(els@, el1);
            lemma_elems_push(els@.push(el1), el2);
        }
        els.push(el1);
        els.push(el2);
    }
    let ghost p_title = spec_title_elems(req.store_name@, *cfg, y_title as int);
    let n_title: i64 = if two_lines {
        2
    } else {
        1
    };
    let y_dt: i64 = y_title + n_title * ((title_size as i64) - 8);
    proof {
        assert(spec_title_lines(req.store_name@).len() == (if two_lines {
            2int
        } else {
            1int
        }));
        assert(elems_view(els@) =~~= p_title);
        assert(y_dt == spec_y_after_title(req.store_name@, *cfg, y_title as int));
    }

    // === Date/time line and invoice number, centered ===
    let dt_el = Element {
        is_dotted: false,
        chars: chars_of(&req.date_time_line),
        mixed: true,
        centered: true,
        anchor_x: 0,
        left: 0,
        right: 0,
        size: cfg.fonts.header_dt,
        y: y_dt,
    };
    proof {
        lemma_elems_push(els@, dt_el);
    }
    els.push(dt_el);
    let y_inv: i64 = y_dt + (cfg.fonts.header_dt as i64) + 2;
    let inv_el = Element {
        is_dotted: false,
        chars: chars_of(&req.invoice_no),
        mixed: false,
        centered: true,
        anchor_x: 0,
        left: 0,
        right: 0,
        size: cfg.fonts.header_no,
        y: y_inv,
    };
    proof {
        lemma_elems_push(els@, inv_el);
    }
    els.push(inv_el);
    let y_head: i64 = y_inv + (cfg.fonts.header_no as i64) + 2;
    let ghost p_inv = p_title + seq![
        ctext(req.date_time_line@, true, cfg.fonts.header_dt as int, y_dt as int),
        ctext(req.invoice_no@, false, cfg.fonts.header_no as int, y_inv as int),
    ];
    proof {
        assert(elems_view(els@) =~~= p_inv);
        assert(y_head == spec_y_headers(*req, *cfg, ascent as int));
    }

    // === Column headers at the shared geometry ===
    let hs = cfg.fonts.header_cols;
    let h1 = Element {
        is_dotted: false,
        chars: chars_of(LABEL_COL_NAME),
        mixed: true,
        centered: false,
        anchor_x: edges.name,
        left: margin,
        right: 0,
        size: hs,
        y: y_head,
    };
    let h2 = Element {
        is_dotted: false,
        chars: chars_of(LABEL_COL_QTY),
        mixed: true,
        centered: false,
        anchor_x: edges.qty,
        left: margin,
        right: 0,
        size: hs,
        y: y_head,
    };
    let h3 = Element {
        is_dotted: false,
        chars: chars_of(LABEL_COL_PRICE),
        mixed: true,
        centered: false,
        anchor_x: edges.price,
        left: margin,
        right: 0,
        size: hs,
        y: y_head,
    };
    let h4 = Element {
        is_dotted: false,
        chars: chars_of(LABEL_COL_TOTAL),
        mixed: true,
        centered: false,
        anchor_x: edges.total,
        left: margin,
        right: 0,
        size: hs,
        y: y_head,
    };
    proof {
        lemma_elems_push(els@, h1);
        lemma_elems_push(els@.push(h1), h2);
        lemma_elems_push(els@.push(h1).push(h2), h3);
        lemma_elems_push(els@.push(h1).push(h2).push(h3), h4);
    }
    els.push(h1);
    els.push(h2);
    els.push(h3);
    els.push(h4);
    let ghost p_head = p_inv + spec_header_elems(*cfg, y_head as int);
    proof {
        assert(elems_view(els@) =~~= p_head);
    }

    // === Item rows ===
    let y_items: i64 = y_head + (cfg.row_gap as i64) - 6;
    proof {
        assert(y_items == spec_y_items(*req, *cfg, ascent as int));
    }
    let ghost p_rows_full = p_head + spec_items_elems(req.items@, *cfg, y_items as int);
    let mut y: i64 = y_items;
    let n_items = req.items.len();
    let mut i: usize = 0;
    proof {
        assert(req.items@.skip(0) =~= req.items@);
        assert(elems_view(els@) + spec_items_elems(req.items@.skip(0), *cfg, y as int)
            =~~= p_rows_full);
    }
    while i < n_items
        invariant
            n_items == req.items@.len(),
            n_items <= MAX_ITEMS,
            0 <= i <= n_items,
            spec_config_valid(*cfg),
            edges == spec_column_edges(*cfg),
            margin == cfg.margin_h as i64,
            y == y_items + (i as int) * (cfg.row_gap as int),
            -0x1_0000_0000_0000 <= y_items <= 0x1_0000_0000_0000,
            elems_view(els@) + spec_items_elems(req.items@.skip(i as int), *cfg, y as int)
                == p_rows_full,
        decreases n_items - i,
    {
        let ghost pre_skip = req.items@.skip(i as int);
        let ghost base = els@;
        let it = &req.items[i];
        let name_el = Element {
            is_dotted: false,
            chars: chars_of(&it.name),
            mixed: true,
            centered: false,
            anchor_x: edges.name,
            left: margin,
            right: 0,
            size: cfg.fonts.item,
            y,
        };
        let qty_el = Element {
            is_dotted: false,
            chars: format_micros_2dp(it.qty),
            mixed: false,
            centered: false,
            anchor_x: edges.qty,
            left: margin,
            right: 0,
            size: cfg.fonts.item,
            y,
        };
        let price_el = Element {
            is_dotted: false,
            chars: format_micros_2dp(it.price),
            mixed: false,
            centered: false,
            anchor_x: edges.price,
            left: margin,
            right: 0,
            size: cfg.fonts.item,
            y,
        };
        proof {
            vstd::arithmetic::mul::lemma_mul_upper_bound(
                it.qty.micros as int,
                u64::MAX as int,
                it.price.micros as int,
                u64::MAX as int,
            );
        }
        let lv = line_value_pico(it.qty, it.price);
        let value_el = Element {
            is_dotted: false,
            chars: money::format_line_value(lv),
            mixed: false,
            centered: false,
            anchor_x: edges.total,
            left: margin,
            right: 0,
            size: cfg.fonts.item,
            y,
        };
        proof {
            lemma_elems_push(els@, name_el);
            lemma_elems_push(els@.push(name_el), qty_el);
            lemma_elems_push(els@.push(name_el).push(qty_el), price_el);
            lemma_elems_push(els@.push(name_el).push(qty_el).push(price_el), value_el);
        }
        els.push(name_el);
        els.push(qty_el);
        els.push(price_el);
        els.push(value_el);
        proof {
            assert(pre_skip[0] == req.items@[i as int]);
            assert(elems_view(els@) =~~= elems_view(base) + spec_row_elems(
                req.items@[i as int],
                *cfg,
                y as int,
            ));
        }
        proof {
            assert(0 <= (i as int) * (cfg.row_gap as int) <= 1_000_000 * 8192)
                by (nonlinear_arith)
                requires
                    0 <= (i as int),
                    (i as int) <= 1_000_000,
                    0 <= (cfg.row_gap as int),
                    (cfg.row_gap as int) <= 8192,
            ;
        }
        y = y + (cfg.row_gap as i64);
        i = i + 1;
        proof {
            assert(pre_skip.drop_first() =~= req.items@.skip(i as int));
            assert(spec_items_elems(pre_skip, *cfg, (y as int) - (cfg.row_gap as int))
                == spec_row_elems(pre_skip[0], *cfg, (y as int) - (cfg.row_gap as int))
                + spec_items_elems(req.items@.skip(i as int), *cfg, y as int));
            assert((elems_view(base) + spec_row_elems(
                pre_skip[0],
                *cfg,
                (y as int) - (cfg.row_gap as int),
            )) + spec_items_elems(req.items@.skip(i as int), *cfg, y as int) =~~= elems_view(base)
                + spec_items_elems(pre_skip, *cfg, (y as int) - (cfg.row_gap as int)));
            assert((i as int) * (cfg.row_gap as int) == ((i - 1) as int) * (cfg.row_gap as int) + (
            cfg.row_gap as int)) by (nonlinear_arith);
        }
    }
    proof {
        assert(req.items@.skip(n_items as int) =~= Seq::<LineItem>::empty());
        assert(spec_items_elems(Seq::<LineItem>::empty(), *cfg, y as int) =~= Seq::<
            ElemSpec,
        >::empty());
        assert(elems_view(els@) + Seq::<ElemSpec>::empty() =~~= elems_view(els@));
        assert(elems_view(els@) =~~= p_rows_full);
    }

    // === Dotted separator ===
    proof {
        assert(0 <= (i as int) * (cfg.row_gap as int) <= 1_000_000 * 8192) by (nonlinear_arith)
            requires
                0 <= (i as int),
                (i as int) <= 1_000_000,
                0 <= (cfg.row_gap as int),
                (cfg.row_gap as int) <= 8192,
        ;
    }
    let y_dot: i64 = y + 18;
    proof {
        assert((n_items as int) * (cfg.row_gap as int) == (req.items@.len() as int) * (
        cfg.row_gap as int));
        assert(y_dot == spec_y_dotted(*req, *cfg, ascent as int));
    }
    let dot_el = Element {
        is_dotted: true,
        chars: Vec::new(),
        mixed: false,
        centered: false,
        anchor_x: 0,
        left: margin,
        right: paper - margin,
        size: 1,
        y: y_dot,
    };
    proof {
        lemma_elems_push(els@, dot_el);
    }
    els.push(dot_el);
    let ghost p_dot = p_rows_full + seq![
        dotsep(y_dot as int, cfg.margin_h as int, (cfg.paper_width_px as int) - (
        cfg.margin_h as int)),
    ];
    proof {
        assert(elems_view(els@) =~~= p_dot);
    }

    // === Discount row, only above the threshold ===
    let y_disc: i64 = y_dot + 12;
    let show_discount = discount_visible(req.discount, cfg.discount_epsilon_micros);
    let mut y_total: i64 = y_disc;
    if show_discount {
        let dv_el = Element {
            is_dotted: false,
            chars: format_micros_2dp(req.discount),
            mixed: false,
            centered: false,
            anchor_x: re - (dlw as i64) - LABEL_VALUE_GAP,
            left: margin,
            right: 0,
            size: cfg.fonts.total_label,
            y: y_disc,
        };
        let dl_el = Element {
            is_dotted: false,
            chars: chars_of(LABEL_DISCOUNT),
            mixed: true,
            centered: false,
            anchor_x: re,
            left: margin,
            right: 0,
            size: cfg.fonts.total_label,
            y: y_disc,
        };
        proof {
            lemma_elems_push(els@, dv_el);
            lemma_elems_push(els@.push(dv_el), dl_el);
        }
        els.push(dv_el);
        els.push(dl_el);
        y_total = y_disc + (cfg.row_gap as i64) - 6;
    }
    let ghost p_disc = p_dot + spec_discount_elems(req.discount, *cfg, dlw as int, y_disc as int);
    proof {
        assert(elems_view(els@) =~~= p_disc);
        assert(y_disc == spec_y_discount(*req, *cfg, ascent as int));
        assert(y_total == spec_y_total(*req, *cfg, ascent as int));
    }

    // === Total row: recomputed net total beside its label ===
    let tv_el = Element {
        is_dotted: false,
        chars: money::format_pico_2dp(total_pico),
        mixed: false,
        centered: false,
        anchor_x: re - (tlw as i64) - LABEL_VALUE_GAP,
        left: margin,
        right: 0,
        size: cfg.fonts.total_value,
        y: y_total - 10,
    };
    let tl_el = Element {
        is_dotted: false,
        chars: chars_of(LABEL_TOTAL),
        mixed: true,
        centered: false,
        anchor_x: re,
        left: margin,
        right: 0,
        size: cfg.fonts.total_label,
        y: y_total,
    };
    proof {
        lemma_elems_push(els@, tv_el);
        lemma_elems_push(els@.push(tv_el), tl_el);
    }
    els.push(tv_el);
    els.push(tl_el);
    let ghost p_total = p_disc + spec_total_elems(
        total_pico as int,
        *cfg,
        tlw as int,
        y_total as int,
    );
    proof {
        assert(tv_el.chars@ =~= spec_total_chars(total_pico as int));
        assert(elems_view(els@) =~~= p_total);
    }

    // === Footer ===
    let y_foot: i64 = y_total + (cfg.row_gap as i64);
    let f1 = Element {
        is_dotted: false,
        chars: chars_of(&req.footer_address),
        mixed: true,
        centered: true,
        anchor_x: 0,
        left: 0,
        right: 0,
        size: cfg.fonts.footer,
        y: y_foot,
    };
    let y_f2: i64 = y_foot + (cfg.fonts.footer as i64) + 2;
    let f2 = Element {
        is_dotted: false,
        chars: chars_of(&req.footer_delivery),
        mixed: true,
        centered: true,
        anchor_x: 0,
        left: 0,
        right: 0,
        size: cfg.fonts.footer,
        y: y_f2,
    };
    let y_f3: i64 = y_f2 + (cfg.fonts.footer as i64) + 2;
    let f3 = Element {
        is_dotted: false,
        chars: chars_of(&req.footer_phones),
        mixed: false,
        centered: true,
        anchor_x: 0,
        left: 0,
        right: 0,
        size: cfg.fonts.footer_phones,
        y: y_f3,
    };
    proof {
        lemma_elems_push(els@, f1);
        lemma_elems_push(els@.push(f1), f2);
        lemma_elems_push(els@.push(f1).push(f2), f3);
    }
    els.push(f1);
    els.push(f2);
    els.push(f3);
    let used_y: i64 = y_f3 + (cfg.fonts.footer_phones as i64) + (cfg.margin_bottom as i64);
    proof {
        assert(y_foot == spec_y_footer(*req, *cfg, ascent as int));
        assert(elems_view(els@) =~~= p_total + spec_footer_elems(*req, *cfg, y_foot as int));
        assert(elems_view(els@) =~~= spec_compose(
            *req,
            *cfg,
            total_pico as int,
            ascent as int,
            dlw as int,
            tlw as int,
        ));
        assert(used_y == spec_used_y(*req, *cfg, ascent as int));
    }
    (els, used_y)
}

} // verus!
