//! Layout configuration: paper geometry, binarization threshold, font-size
//! table, column fractions for the item table, and the discount visibility
//! threshold. Invalid configurations are rejected before any drawing starts.

use vstd::prelude::*;

verus! {

/// Named font pixel sizes for the receipt's sections.
#[derive(Clone, Copy, PartialEq, Eq, Structural, Debug)]
pub struct FontSizes {
    pub title: u32,
    pub header_dt: u32,
    pub header_no: u32,
    pub header_cols: u32,
    pub item: u32,
    pub total_label: u32,
    pub total_value: u32,
    pub footer: u32,
    pub footer_phones: u32,
}

/// Column width fractions of the item table as percentages of the inner
/// width, ordered right to left: name, quantity, price, line total.
#[derive(Clone, Copy, PartialEq, Eq, Structural, Debug)]
pub struct ColumnsPct {
    pub name: u32,
    pub qty: u32,
    pub price: u32,
    pub total: u32,
}

/// Per-print layout configuration. `default_config` gives the documented
/// defaults; `validate` must accept a configuration before it is rendered.
#[derive(Clone, Copy, PartialEq, Eq, Structural, Debug)]
pub struct LayoutConfig {
    /// Paper width in pixels.
    pub paper_width_px: u32,
    /// Binarization threshold: luma at or below it prints black.
    pub threshold: u8,
    /// Horizontal margin in pixels on each side.
    pub margin_h: i32,
    /// Vertical offset of the first baseline (may be negative to trim
    /// leading whitespace).
    pub margin_top: i32,
    /// Extra height kept below the last drawn row.
    pub margin_bottom: i32,
    /// Vertical advance between item rows.
    pub row_gap: i32,
    pub fonts: FontSizes,
    pub cols: ColumnsPct,
    /// A discount at or below this many micro-units is not shown.
    pub discount_epsilon_micros: u64,
}

/// Dimension fields of a valid configuration stay within this many pixels.
pub const MAX_DIM_PX: i64 = 8192;

/// A valid configuration: positive paper width bounded by `MAX_DIM_PX`,
/// margins that leave a non-negative inner width, bounded font sizes and
/// vertical spacing, and column percentages that sum to at most 100 (so the
/// columns never exceed the inner width).
pub open spec fn spec_config_valid(cfg: LayoutConfig) -> bool {
    &&& 1 <= cfg.paper_width_px <= MAX_DIM_PX
    &&& 0 <= cfg.margin_h && 2 * (cfg.margin_h as int) <= cfg.paper_width_px
    &&& -MAX_DIM_PX <= cfg.margin_top <= MAX_DIM_PX
    &&& 0 <= cfg.margin_bottom <= MAX_DIM_PX
    &&& 0 <= cfg.row_gap <= MAX_DIM_PX
    &&& spec_fonts_valid(cfg.fonts)
    &&& (cfg.cols.name as int) + (cfg.cols.qty as int) + (cfg.cols.price as int) + (
    cfg.cols.total as int) <= 100
}

pub open spec fn spec_fonts_valid(f: FontSizes) -> bool {
    &&& 1 <= f.title <= MAX_DIM_PX
    &&& 1 <= f.header_dt <= MAX_DIM_PX
    &&& 1 <= f.header_no <= MAX_DIM_PX
    &&& 1 <= f.header_cols <= MAX_DIM_PX
    &&& 1 <= f.item <= MAX_DIM_PX
    &&& 1 <= f.total_label <= MAX_DIM_PX
    &&& 1 <= f.total_value <= MAX_DIM_PX
    &&& 1 <= f.footer <= MAX_DIM_PX
    &&& 1 <= f.footer_phones <= MAX_DIM_PX
}

/// Checks a configuration before rendering (fail fast, not mid-raster).
pub fn validate_config(cfg: &LayoutConfig) -> (r: bool)
    ensures
        r == spec_config_valid(*cfg),
{
    let f = &cfg.fonts;
    1 <= cfg.paper_width_px && (cfg.paper_width_px as i64) <= MAX_DIM_PX && 0 <= cfg.margin_h
        && 2 * (cfg.margin_h as i64) <= (cfg.paper_width_px as i64) && -MAX_DIM_PX <= (
    cfg.margin_top as i64) && (cfg.margin_top as i64) <= MAX_DIM_PX && 0 <= cfg.margin_bottom && (
    cfg.margin_bottom as i64) <= MAX_DIM_PX && 0 <= cfg.row_gap && (cfg.row_gap as i64)
        <= MAX_DIM_PX && 1 <= f.title && (f.title as i64) <= MAX_DIM_PX && 1 <= f.header_dt && (
    f.header_dt as i64) <= MAX_DIM_PX && 1 <= f.header_no && (f.header_no as i64) <= MAX_DIM_PX && 1
        <= f.header_cols && (f.header_cols as i64) <= MAX_DIM_PX && 1 <= f.item && (f.item as i64)
        <= MAX_DIM_PX && 1 <= f.total_label && (f.total_label as i64) <= MAX_DIM_PX && 1
        <= f.total_value && (f.total_value as i64) <= MAX_DIM_PX && 1 <= f.footer && (
    f.footer as i64) <= MAX_DIM_PX && 1 <= f.footer_phones && (f.footer_phones as i64) <= MAX_DIM_PX
        && (cfg.cols.name as u64) + (cfg.cols.qty as u64) + (cfg.cols.price as u64) + (
    cfg.cols.total as u64) <= 100
}

impl Default for LayoutConfig {
    /// The documented default layout: 576-pixel paper, mid-range threshold
    /// 150, narrow margins, and columns of 60/16/14/10 percent.
    fn default() -> (cfg: LayoutConfig)
        ensures
            cfg == spec_default_config(),
            spec_config_valid(cfg),
    {
        LayoutConfig {
            paper_width_px: 576,
            threshold: 150,
            margin_h: 1,
            margin_top: -18i32,
            margin_bottom: 0,
            row_gap: 36,
            fonts: FontSizes {
                title: 84,
                header_dt: 40,
                header_no: 46,
                header_cols: 42,
                item: 44,
                total_label: 48,
                total_value: 66,
                footer: 44,
                footer_phones: 56,
            },
            cols: ColumnsPct { name: 60, qty: 16, price: 14, total: 10 },
            discount_epsilon_micros: 100,
        }
    }
}

/// The default configuration as a spec value.
pub open spec fn spec_default_config() -> LayoutConfig {
    LayoutConfig {
        paper_width_px: 576,
        threshold: 150,
        margin_h: 1,
        margin_top: -18i32,
        margin_bottom: 0,
        row_gap: 36,
        fonts: FontSizes {
            title: 84,
            header_dt: 40,
            header_no: 46,
            header_cols: 42,
            item: 44,
            total_label: 48,
            total_value: 66,
            footer: 44,
            footer_phones: 56,
        },
        cols: ColumnsPct { name: 60, qty: 16, price: 14, total: 10 },
        discount_epsilon_micros: 100,
    }
}

/// Width of the area between the margins.
pub open spec fn spec_inner_width(cfg: LayoutConfig) -> int {
    cfg.paper_width_px - 2 * (cfg.margin_h as int)
}

/// The right edge of the printable area.
pub open spec fn spec_right_edge(cfg: LayoutConfig) -> int {
    cfg.paper_width_px - (cfg.margin_h as int)
}

/// The four right edges of the item table's columns, computed once from the
/// configuration and shared by the header row and every item row.
#[derive(Clone, Copy, PartialEq, Eq, Structural, Debug)]
pub struct ColumnEdges {
    pub name: i64,
    pub qty: i64,
    pub price: i64,
    pub total: i64,
}

pub open spec fn spec_col_width(cfg: LayoutConfig, pct: u32) -> int {
    spec_inner_width(cfg) * pct / 100
}

/// The column geometry determined by a configuration: the name column ends
/// at the right edge, and each further column ends where the previous
/// column's width has been subtracted, moving leftward.
pub open spec fn spec_column_edges(cfg: LayoutConfig) -> ColumnEdges {
    ColumnEdges {
        name: spec_right_edge(cfg) as i64,
        qty: (spec_right_edge(cfg) - spec_col_width(cfg, cfg.cols.name)) as i64,
        price: (spec_right_edge(cfg) - spec_col_width(cfg, cfg.cols.name) - spec_col_width(
            cfg,
            cfg.cols.qty,
        )) as i64,
        total: (spec_right_edge(cfg) - spec_col_width(cfg, cfg.cols.name) - spec_col_width(
            cfg,
            cfg.cols.qty,
        ) - spec_col_width(cfg, cfg.cols.price)) as i64,
    }
}

/// Computes the column geometry. Rendering computes this once and uses the
/// same edges for the column headers and for every item row.
pub fn column_edges(cfg: &LayoutConfig) -> (e: ColumnEdges)
    requires
        spec_config_valid(*cfg),
    ensures
        e == spec_column_edges(*cfg),
        e.total <= e.price <= e.qty <= e.name <= cfg.paper_width_px,
        cfg.margin_h <= e.total,
{
    proof {
        lemma_col_widths_bounded(*cfg);
    }
    let paper = cfg.paper_width_px as i64;
    let margin = cfg.margin_h as i64;
    let inner: i64 = paper - 2 * margin;
    let right: i64 = paper - margin;
    let w_name: i64 = inner * (cfg.cols.name as i64) / 100;
    let w_qty: i64 = inner * (cfg.cols.qty as i64) / 100;
    let w_price: i64 = inner * (cfg.cols.price as i64) / 100;
    let r_name = right;
    let r_qty = r_name - w_name;
    let r_price = r_qty - w_qty;
    let r_total = r_price - w_price;
    ColumnEdges { name: r_name, qty: r_qty, price: r_price, total: r_total }
}

proof fn lemma_col_widths_bounded(cfg: LayoutConfig)
    requires
        spec_config_valid(cfg),
    ensures
        0 <= spec_col_width(cfg, cfg.cols.name),
        0 <= spec_col_width(cfg, cfg.cols.qty),
        0 <= spec_col_width(cfg, cfg.cols.price),
        spec_col_width(cfg, cfg.cols.name) + spec_col_width(cfg, cfg.cols.qty) + spec_col_width(
            cfg,
            cfg.cols.price,
        ) <= spec_inner_width(cfg),
        0 <= spec_inner_width(cfg) * (cfg.cols.name as int) <= 1_000_000,
        0 <= spec_inner_width(cfg) * (cfg.cols.qty as int) <= 1_000_000,
        0 <= spec_inner_width(cfg) * (cfg.cols.price as int) <= 1_000_000,
{
    let inner = spec_inner_width(cfg);
    let a = cfg.cols.name as int;
    let b = cfg.cols.qty as int;
    let c = cfg.cols.price as int;
    assert(inner >= 0);
    assert(inner * a >= 0) by (nonlinear_arith)
        requires
            inner >= 0,
            a >= 0,
    ;
    assert(inner * b >= 0) by (nonlinear_arith)
        requires
            inner >= 0,
            b >= 0,
    ;
    assert(inner * c >= 0) by (nonlinear_arith)
        requires
            inner >= 0,
            c >= 0,
    ;
    assert(inner * a / 100 + inner * b / 100 + inner * c / 100 <= inner) by (nonlinear_arith)
        requires
            inner >= 0,
            a >= 0,
            b >= 0,
            c >= 0,
            a + b + c <= 100,
    ;
    assert(inner * a <= 1_000_000 && inner * b <= 1_000_000 && inner * c <= 1_000_000)
        by (nonlinear_arith)
        requires
            0 <= inner <= 8192,
            0 <= a <= 100,
            0 <= b <= 100,
            0 <= c <= 100,
    ;
}

/// The column edges of a valid configuration lie between the margin and the
/// paper's right edge, ordered leftward.
pub proof fn lemma_column_edges_bounds(cfg: LayoutConfig)
    requires
        spec_config_valid(cfg),
    ensures
        (cfg.margin_h as int) <= spec_column_edges(cfg).total as int,
        (spec_column_edges(cfg).total as int) <= spec_column_edges(cfg).price as int,
        (spec_column_edges(cfg).price as int) <= spec_column_edges(cfg).qty as int,
        (spec_column_edges(cfg).qty as int) <= spec_column_edges(cfg).name as int,
        (spec_column_edges(cfg).name as int) <= cfg.paper_width_px as int,
{
    lemma_col_widths_bounded(cfg);
}

} // verus!
