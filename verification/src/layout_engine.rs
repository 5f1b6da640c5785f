//! Anchored run placement: given directional runs with measured pixel widths,
//! computes draw origins so that runs keep their logical reading order from
//! the anchor inward, right-to-left runs mirror their glyph order internally,
//! and left-to-right runs draw left-to-right.

use vstd::prelude::*;

verus! {

/// Coordinates handed to the layout engine stay within this bound, so all
/// cursor arithmetic fits comfortably in `i64`.
pub const MAX_LAYOUT_COORD: i64 = 0x0400_0000_0000_0000;

/// The summed pixel width of one line's runs must stay under this bound.
pub const MAX_TOTAL_WIDTH: u64 = 0x0200_0000_0000_0000;

/// A directional run together with its measured pixel widths: the whole run's
/// width, and (for right-to-left runs, which draw glyph by glyph) the width of
/// each character.
pub struct MeasuredRun {
    /// True if this run is left-to-right.
    pub is_ltr: bool,
    /// The run's characters in logical order.
    pub chars: Vec<char>,
    /// Per-character pixel widths; used (and non-empty) only for
    /// right-to-left runs.
    pub char_widths: Vec<u32>,
    /// The run's total pixel width.
    pub width: u64,
}

/// One drawing operation: draw `chars` as one contiguous string with its left
/// edge at pixel column `x` and its top at row `y`.
pub struct DrawOp {
    pub chars: Vec<char>,
    pub x: i64,
    pub y: i64,
}

/// Spec-level image of a `DrawOp`.
#[verifier::ext_equal]
pub ghost struct OpSpec {
    pub chars: Seq<char>,
    pub x: int,
    pub y: int,
}

pub open spec fn op_view(op: DrawOp) -> OpSpec {
    OpSpec { chars: op.chars@, x: op.x as int, y: op.y as int }
}

pub open spec fn ops_view(v: Seq<DrawOp>) -> Seq<OpSpec> {
    v.map_values(|op: DrawOp| op_view(op))
}

/// Sum of the first `k` per-character widths.
pub open spec fn widths_sum(ws: Seq<u32>, k: int) -> int
    decreases k,
{
    if k <= 0 {
        0
    } else {
        widths_sum(ws, k - 1) + ws[k - 1]
    }
}

/// Sum of the widths of the first `k` runs.
pub open spec fn prefix_total(rs: Seq<MeasuredRun>, k: int) -> int
    decreases k,
{
    if k <= 0 {
        0
    } else {
        prefix_total(rs, k - 1) + rs[k - 1].width
    }
}

/// Total pixel width of a line of runs.
pub open spec fn total_width(rs: Seq<MeasuredRun>) -> int {
    prefix_total(rs, rs.len() as int)
}

/// A well-formed measured run: a left-to-right run is measured as a whole
/// (one width that fits in `u32`); a right-to-left run carries one width per
/// character, and its total width is their sum.
pub open spec fn mrun_wf(r: MeasuredRun) -> bool {
    &&& r.is_ltr ==> r.char_widths@.len() == 0 && r.width <= u32::MAX
    &&& !r.is_ltr ==> r.char_widths@.len() == r.chars@.len() && r.width == widths_sum(
        r.char_widths@,
        r.chars@.len() as int,
    )
}

pub open spec fn mruns_wf(rs: Seq<MeasuredRun>) -> bool {
    forall|i: int| 0 <= i < rs.len() ==> mrun_wf(#[trigger] rs[i])
}

/// The draw operations of one right-to-left run placed with its right edge at
/// `cursor`: character `i` is drawn at `cursor` minus the summed widths of
/// characters `0..=i`, so logically earlier characters appear further to the
/// right (mirrored glyph order).
pub open spec fn rtl_run_ops(chars: Seq<char>, ws: Seq<u32>, cursor: int, y: int) -> Seq<OpSpec> {
    Seq::new(chars.len(), |i: int| OpSpec { chars: seq![chars[i]], x: cursor - widths_sum(ws, i + 1), y })
}

/// The draw operations of one run placed with its right edge at `cursor`.
pub open spec fn run_ops(r: MeasuredRun, cursor: int, y: int) -> Seq<OpSpec> {
    if r.is_ltr {
        seq![OpSpec { chars: r.chars@, x: cursor - r.width, y }]
    } else {
        rtl_run_ops(r.chars@, r.char_widths@, cursor, y)
    }
}

/// Right-anchored placement: runs are taken in logical order and placed from
/// the anchor leftward; a run that would cross `left_bound` stops placement
/// (silent truncation of it and all later runs).
pub open spec fn spec_layout_right(rs: Seq<MeasuredRun>, cursor: int, left_bound: int, y: int) -> Seq<
    OpSpec,
>
    decreases rs.len(),
{
    if rs.len() == 0 {
        Seq::empty()
    } else if cursor - rs[0].width < left_bound {
        Seq::empty()
    } else {
        run_ops(rs[0], cursor, y) + spec_layout_right(
            rs.drop_first(),
            cursor - rs[0].width,
            left_bound,
            y,
        )
    }
}

/// Center-anchored placement: a virtual right edge at
/// `(paper_width + total_width) / 2`, then right-anchored placement from
/// there; the left bound sits exactly `total_width` further left, so nothing
/// is truncated.
pub open spec fn spec_layout_center(rs: Seq<MeasuredRun>, paper_w: int, y: int) -> Seq<OpSpec> {
    let vr = (paper_w + total_width(rs)) / 2;
    spec_layout_right(rs, vr, vr - total_width(rs), y)
}

pub proof fn lemma_widths_sum_mono(ws: Seq<u32>, a: int, b: int)
    requires
        0 <= a <= b,
    ensures
        widths_sum(ws, a) <= widths_sum(ws, b),
    decreases b,
{
    if a < b {
        lemma_widths_sum_mono(ws, a, b - 1);
    }
}

pub proof fn lemma_prefix_total_mono(rs: Seq<MeasuredRun>, a: int, b: int)
    requires
        0 <= a <= b,
    ensures
        prefix_total(rs, a) <= prefix_total(rs, b),
    decreases b,
{
    if a < b {
        lemma_prefix_total_mono(rs, a, b - 1);
    }
}

pub proof fn lemma_prefix_total_skip(rs: Seq<MeasuredRun>, i: int, k: int)
    requires
        0 <= i,
        0 <= k,
        i + k <= rs.len(),
    ensures
        prefix_total(rs.skip(i), k) == prefix_total(rs, i + k) - prefix_total(rs, i),
    decreases k,
{
    if k > 0 {
        lemma_prefix_total_skip(rs, i, k - 1);
        assert(rs.skip(i)[k - 1] == rs[i + k - 1]);
    }
}

/// Number of draw operations one run produces: one for a left-to-right run,
/// one per character for a right-to-left run.
pub open spec fn op_count(r: MeasuredRun) -> int {
    if r.is_ltr {
        1
    } else {
        r.chars@.len() as int
    }
}

/// Number of draw operations produced by the first `k` runs.
pub open spec fn ops_before(rs: Seq<MeasuredRun>, k: int) -> int
    decreases k,
{
    if k <= 0 {
        0
    } else {
        ops_before(rs, k - 1) + op_count(rs[k - 1])
    }
}

/// The draw operation at offset `k` inside run `i`'s block of operations.
pub open spec fn placed_op(
    rs: Seq<MeasuredRun>,
    xr: int,
    lb: int,
    y: int,
    i: int,
    k: int,
) -> OpSpec {
    spec_layout_right(rs, xr, lb, y)[ops_before(rs, i) + k]
}

pub proof fn lemma_ops_before_skip(rs: Seq<MeasuredRun>, i: int, k: int)
    requires
        0 <= i,
        0 <= k,
        i + k <= rs.len(),
    ensures
        ops_before(rs.skip(i), k) == ops_before(rs, i + k) - ops_before(rs, i),
    decreases k,
{
    if k > 0 {
        lemma_ops_before_skip(rs, i, k - 1);
        assert(rs.skip(i)[k - 1] == rs[i + k - 1]);
    }
}

pub proof fn lemma_ops_before_mono(rs: Seq<MeasuredRun>, a: int, b: int)
    requires
        0 <= a <= b <= rs.len(),
        mruns_wf(rs),
    ensures
        ops_before(rs, a) <= ops_before(rs, b),
    decreases b,
{
    if a < b {
        lemma_ops_before_mono(rs, a, b - 1);
        assert(mrun_wf(rs[b - 1]));
    }
}

/// When every run fits (no truncation), right-anchored placement produces
/// exactly one block of operations per run, in logical order: run `i`'s
/// operations are those of `run_ops` with the cursor at
/// `x_right - prefix_total(rs, i)`.
pub proof fn lemma_layout_right_formula(rs: Seq<MeasuredRun>, xr: int, lb: int, y: int)
    requires
        mruns_wf(rs),
        total_width(rs) <= xr - lb,
    ensures
        spec_layout_right(rs, xr, lb, y).len() == ops_before(rs, rs.len() as int),
        forall|i: int, k: int|
            0 <= i < rs.len() && 0 <= k < op_count(rs[i]) ==> #[trigger] placed_op(rs, xr, lb, y, i, k)
                == run_ops(rs[i], xr - prefix_total(rs, i), y)[k],
    decreases rs.len(),
{
    if rs.len() == 0 {
    } else {
        let w0 = rs[0].width as int;
        let rest = rs.drop_first();
        assert(rest =~= rs.skip(1));
        lemma_prefix_total_mono(rs, 1, rs.len() as int);
        assert(prefix_total(rs, 0) == 0);
        assert(prefix_total(rs, 1) == w0);
        assert(xr - w0 >= lb);
        let head = run_ops(rs[0], xr, y);
        let flat = spec_layout_right(rs, xr, lb, y);
        let tail = spec_layout_right(rest, xr - w0, lb, y);
        assert(flat == head + tail);
        assert(mruns_wf(rest)) by {
            assert forall|i: int| 0 <= i < rest.len() implies mrun_wf(#[trigger] rest[i]) by {
                assert(rest[i] == rs[i + 1]);
            }
        }
        lemma_prefix_total_skip(rs, 1, rs.len() - 1);
        assert(total_width(rest) == total_width(rs) - w0);
        lemma_layout_right_formula(rest, xr - w0, lb, y);
        assert(head.len() == op_count(rs[0]));
        lemma_ops_before_skip(rs, 1, rs.len() - 1);
        assert(ops_before(rs, 0) == 0);
        assert(ops_before(rs, 1) == op_count(rs[0]));
        assert(flat.len() == ops_before(rs, rs.len() as int));
        assert forall|i: int, k: int|
            0 <= i < rs.len() && 0 <= k < op_count(rs[i]) implies #[trigger] placed_op(rs, xr, lb, y, i, k)
            == run_ops(rs[i], xr - prefix_total(rs, i), y)[k] by {
            if i == 0 {
                assert(ops_before(rs, 0) == 0);
                assert(placed_op(rs, xr, lb, y, 0, k) == flat[k]);
                assert(flat[k] == head[k]);
            } else {
                lemma_ops_before_skip(rs, 1, i - 1);
                lemma_prefix_total_skip(rs, 1, i - 1);
                assert(rest[i - 1] == rs[i]);
                lemma_ops_before_mono(rs, 1, i);
                assert(ops_before(rs, i + 1) == ops_before(rs, i) + op_count(rs[i]));
                lemma_ops_before_mono(rs, i + 1, rs.len() as int);
                assert(ops_before(rs, i) + k < flat.len());
                assert(ops_before(rs, i) + k - head.len() == ops_before(rest, i - 1) + k);
                assert(placed_op(rest, xr - w0, lb, y, i - 1, k) == run_ops(
                    rest[i - 1],
                    (xr - w0) - prefix_total(rest, i - 1),
                    y,
                )[k]);
                assert(flat[ops_before(rs, i) + k] == tail[ops_before(rest, i - 1) + k]);
                assert(tail[ops_before(rest, i - 1) + k] == run_ops(
                    rest[i - 1],
                    (xr - w0) - prefix_total(rest, i - 1),
                    y,
                )[k]);
                assert((xr - w0) - prefix_total(rest, i - 1) == xr - prefix_total(rs, i));
            }
        }
    }
}

/// The placements a plain right-aligned left-to-right layout would produce:
/// the runs tile the line contiguously, ending at `x_right`, in logical order.
pub open spec fn simple_right_aligned(rs: Seq<MeasuredRun>, x_right: int, y: int) -> Seq<OpSpec> {
    Seq::new(
        rs.len(),
        |i: int| OpSpec { chars: rs[i].chars@, x: x_right - prefix_total(rs, i + 1), y },
    )
}

proof fn lemma_ops_before_all_ltr(rs: Seq<MeasuredRun>, k: int)
    requires
        0 <= k <= rs.len(),
        forall|i: int| 0 <= i < rs.len() ==> (#[trigger] rs[i]).is_ltr,
    ensures
        ops_before(rs, k) == k,
    decreases k,
{
    if k > 0 {
        lemma_ops_before_all_ltr(rs, k - 1);
    }
}

/// Right-anchored placement of a line with no right-to-left runs is the same
/// as a simple right-aligned left-to-right layout: the same run texts at the
/// same pixel origins, tiling contiguously up to the right edge. The line
/// must fit above the left bound: an overflowing right-anchored line is
/// truncated there, where a plain right-aligned layout would still draw it.
pub proof fn lemma_right_anchored_all_ltr(rs: Seq<MeasuredRun>, xr: int, lb: int, y: int)
    requires
        mruns_wf(rs),
        total_width(rs) <= xr - lb,
        forall|i: int| 0 <= i < rs.len() ==> (#[trigger] rs[i]).is_ltr,
    ensures
        spec_layout_right(rs, xr, lb, y) =~= simple_right_aligned(rs, xr, y),
{
    lemma_layout_right_formula(rs, xr, lb, y);
    lemma_ops_before_all_ltr(rs, rs.len() as int);
    let flat = spec_layout_right(rs, xr, lb, y);
    assert forall|i: int| 0 <= i < rs.len() implies flat[i] == simple_right_aligned(rs, xr, y)[i] by {
        lemma_ops_before_all_ltr(rs, i);
        assert(placed_op(rs, xr, lb, y, i, 0) == run_ops(rs[i], xr - prefix_total(rs, i), y)[0]);
        assert(flat[i] == placed_op(rs, xr, lb, y, i, 0));
        assert(prefix_total(rs, i + 1) == prefix_total(rs, i) + rs[i].width);
    }
}

/// Mixed-run ordering: with no truncation, whole runs appear on the line in
/// logical order from the right anchor inward (run `i` occupies the segment
/// between `xr - prefix_total(rs, i+1)` and `xr - prefix_total(rs, i)`), while
/// the characters inside a right-to-left run appear in mirrored (reversed)
/// order relative to the logical string.
pub proof fn lemma_right_anchored_visual_order(rs: Seq<MeasuredRun>, xr: int, lb: int, y: int)
    requires
        mruns_wf(rs),
        total_width(rs) <= xr - lb,
    ensures
        // a left-to-right run is one operation spanning exactly its segment
        forall|i: int|
            0 <= i < rs.len() && (#[trigger] rs[i]).is_ltr ==> placed_op(rs, xr, lb, y, i, 0)
                == (OpSpec { chars: rs[i].chars@, x: xr - prefix_total(rs, i + 1), y }),
        // character `k` of a right-to-left run is one operation, placed so
        // that logically earlier characters sit further right
        forall|i: int, k: int|
            0 <= i < rs.len() && !rs[i].is_ltr && 0 <= k < rs[i].chars@.len()
                ==> #[trigger] placed_op(rs, xr, lb, y, i, k) == (OpSpec {
                chars: seq![rs[i].chars@[k]],
                x: xr - prefix_total(rs, i) - widths_sum(rs[i].char_widths@, k + 1),
                y,
            }),
        // glyph mirroring inside a right-to-left run
        forall|i: int, a: int, b: int|
            0 <= i < rs.len() && !rs[i].is_ltr && 0 <= a <= b < rs[i].chars@.len()
                ==> #[trigger] placed_op(rs, xr, lb, y, i, a).x
                >= #[trigger] placed_op(rs, xr, lb, y, i, b).x,
        // whole runs keep logical order: segments advance leftward
        forall|i: int, j: int|
            0 <= i < j <= rs.len() ==> #[trigger] prefix_total(rs, i) <= #[trigger] prefix_total(
                rs,
                j,
            ),
{
    lemma_layout_right_formula(rs, xr, lb, y);
    assert forall|i: int|
        0 <= i < rs.len() && (#[trigger] rs[i]).is_ltr implies placed_op(rs, xr, lb, y, i, 0)
        == (OpSpec {
        chars: rs[i].chars@,
        x: xr - prefix_total(rs, i + 1),
        y,
    }) by {
        assert(placed_op(rs, xr, lb, y, i, 0) == run_ops(rs[i], xr - prefix_total(rs, i), y)[0]);
        assert(prefix_total(rs, i + 1) == prefix_total(rs, i) + rs[i].width);
    }
    assert forall|i: int, k: int|
        0 <= i < rs.len() && !rs[i].is_ltr && 0 <= k < rs[i].chars@.len() implies #[trigger] placed_op(
        rs,
        xr,
        lb,
        y,
        i,
        k,
    ) == (OpSpec {
        chars: seq![rs[i].chars@[k]],
        x: xr - prefix_total(rs, i) - widths_sum(rs[i].char_widths@, k + 1),
        y,
    }) by {
        assert(mrun_wf(rs[i]));
        assert(placed_op(rs, xr, lb, y, i, k) == run_ops(rs[i], xr - prefix_total(rs, i), y)[k]);
    }
    assert forall|i: int, a: int, b: int|
        0 <= i < rs.len() && !rs[i].is_ltr && 0 <= a <= b < rs[i].chars@.len() implies #[trigger] placed_op(
        rs,
        xr,
        lb,
        y,
        i,
        a,
    ).x >= #[trigger] placed_op(rs, xr, lb, y, i, b).x by {
        assert(mrun_wf(rs[i]));
        assert(placed_op(rs, xr, lb, y, i, a) == run_ops(rs[i], xr - prefix_total(rs, i), y)[a]);
        assert(placed_op(rs, xr, lb, y, i, b) == run_ops(rs[i], xr - prefix_total(rs, i), y)[b]);
        lemma_widths_sum_mono(rs[i].char_widths@, a + 1, b + 1);
    }
    assert forall|i: int, j: int| 0 <= i < j <= rs.len() implies #[trigger] prefix_total(rs, i)
        <= #[trigger] prefix_total(rs, j) by {
        lemma_prefix_total_mono(rs, i, j);
    }
}

pub(crate) proof fn lemma_ops_view_push(v: Seq<DrawOp>, op: DrawOp)
    ensures
        ops_view(v.push(op)) =~= ops_view(v).push(op_view(op)),
{
}

pub(crate) fn copy_chars(v: &Vec<char>) -> (r: Vec<char>)
    ensures
        r@ == v@,
{
    let mut r: Vec<char> = Vec::new();
    let n = v.len();
    let mut i: usize = 0;
    while i < n
        invariant
            n == v@.len(),
            0 <= i <= n,
            r@ == v@.subrange(0, i as int),
        decreases n - i,
    {
        r.push(v[i]);
        proof {
            assert(v@.subrange(0, i + 1) =~= v@.subrange(0, i as int).push(v@[i as int]));
        }
        i = i + 1;
    }
    proof {
        assert(v@.subrange(0, n as int) =~= v@);
    }
    r
}

/// Places runs right-anchored at `x_right`, truncating at `left_bound`.
pub fn layout_right_anchored(runs: &Vec<MeasuredRun>, x_right: i64, left_bound: i64, y: i64) -> (ops:
    Vec<DrawOp>)
    requires
        mruns_wf(runs@),
        total_width(runs@) <= MAX_TOTAL_WIDTH,
        -MAX_LAYOUT_COORD <= left_bound <= x_right <= MAX_LAYOUT_COORD,
    ensures
        ops_view(ops@) == spec_layout_right(runs@, x_right as int, left_bound as int, y as int),
{
    let mut ops: Vec<DrawOp> = Vec::new();
    let mut cursor: i64 = x_right;
    let n = runs.len();
    let mut i: usize = 0;
    let mut more: usize = 1;
    proof {
        assert(runs@.skip(0) =~= runs@);
        assert(ops_view(ops@) =~= Seq::<OpSpec>::empty());
        assert(Seq::<OpSpec>::empty() + spec_layout_right(
            runs@,
            x_right as int,
            left_bound as int,
            y as int,
        ) =~= spec_layout_right(runs@, x_right as int, left_bound as int, y as int));
    }
    while i < n && more == 1
        invariant
            n == runs@.len(),
            0 <= i <= n,
            mruns_wf(runs@),
            -MAX_LAYOUT_COORD <= left_bound <= x_right <= MAX_LAYOUT_COORD,
            left_bound <= cursor <= x_right,
            more == 0 || more == 1,
            more == 1 ==> spec_layout_right(runs@, x_right as int, left_bound as int, y as int)
                == ops_view(ops@) + spec_layout_right(
                runs@.skip(i as int),
                cursor as int,
                left_bound as int,
                y as int,
            ),
            more == 0 ==> spec_layout_right(runs@, x_right as int, left_bound as int, y as int)
                == ops_view(ops@),
        decreases n - i + more,
    {
        let ghost pre_skip = runs@.skip(i as int);
        proof {
            assert(pre_skip[0] == runs@[i as int]);
        }
        let avail: u64 = (cursor - left_bound) as u64;
        let rw: u64 = runs[i].width;
        if rw > avail {
            proof {
                assert(cursor - runs@[i as int].width < left_bound);
                assert(spec_layout_right(pre_skip, cursor as int, left_bound as int, y as int)
                    =~= Seq::<OpSpec>::empty());
                assert(ops_view(ops@) + Seq::<OpSpec>::empty() =~= ops_view(ops@));
            }
            more = 0;
        } else {
            let ghost ops0 = ops@;
            let ghost r_spec = runs@[i as int];
            if runs[i].is_ltr {
                let text = copy_chars(&runs[i].chars);
                let op = DrawOp { chars: text, x: cursor - (rw as i64), y };
                proof {
                    lemma_ops_view_push(ops@, op);
                    assert(run_ops(r_spec, cursor as int, y as int)
                        =~= seq![op_view(op)]);
                    assert(ops_view(ops@.push(op)) =~= ops_view(ops0) + run_ops(
                        r_spec,
                        cursor as int,
                        y as int,
                    ));
                }
                ops.push(op);
            } else {
                let m = runs[i].chars.len();
                let mut j: usize = 0;
                let mut px: i64 = cursor;
                proof {
                    assert(ops_view(ops@) =~= ops_view(ops0) + rtl_run_ops(
                        r_spec.chars@,
                        r_spec.char_widths@,
                        cursor as int,
                        y as int,
                    ).subrange(0, 0));
                }
                while j < m
                    invariant
                        m == r_spec.chars@.len(),
                        0 <= j <= m,
                        mrun_wf(r_spec),
                        !r_spec.is_ltr,
                        r_spec == runs@[i as int],
                        0 <= i < runs@.len(),
                        runs@[i as int].width == rw,
                        rw <= avail,
                        avail == cursor - left_bound,
                        -MAX_LAYOUT_COORD <= left_bound <= cursor <= MAX_LAYOUT_COORD,
                        px == cursor - widths_sum(r_spec.char_widths@, j as int),
                        ops_view(ops@) == ops_view(ops0) + rtl_run_ops(
                            r_spec.chars@,
                            r_spec.char_widths@,
                            cursor as int,
                            y as int,
                        ).subrange(0, j as int),
                    decreases m - j,
                {
                    proof {
                        lemma_widths_sum_mono(r_spec.char_widths@, j as int, j + 1);
                        lemma_widths_sum_mono(r_spec.char_widths@, j + 1, m as int);
                        lemma_widths_sum_mono(r_spec.char_widths@, 0, j as int);
                    }
                    let w: u32 = runs[i].char_widths[j];
                    px = px - (w as i64);
                    let c: char = runs[i].chars[j];
                    let mut one: Vec<char> = Vec::new();
                    one.push(c);
                    let op = DrawOp { chars: one, x: px, y };
                    proof {
                        lemma_ops_view_push(ops@, op);
                        let full = rtl_run_ops(
                            r_spec.chars@,
                            r_spec.char_widths@,
                            cursor as int,
                            y as int,
                        );
                        assert(op_view(op) == full[j as int]);
                        assert(full.subrange(0, j + 1) =~= full.subrange(0, j as int).push(
                            full[j as int],
                        ));
                        assert(ops_view(ops@.push(op)) =~= ops_view(ops0) + full.subrange(
                            0,
                            j + 1,
                        ));
                    }
                    ops.push(op);
                    j = j + 1;
                }
                proof {
                    let full = rtl_run_ops(
                        r_spec.chars@,
                        r_spec.char_widths@,
                        cursor as int,
                        y as int,
                    );
                    assert(full.subrange(0, m as int) =~= full);
                    assert(ops_view(ops@) =~= ops_view(ops0) + run_ops(
                        r_spec,
                        cursor as int,
                        y as int,
                    ));
                }
            }
            let old_cursor = cursor;
            cursor = cursor - (rw as i64);
            i = i + 1;
            proof {
                assert(pre_skip.drop_first() =~= runs@.skip(i as int));
                assert(spec_layout_right(pre_skip, old_cursor as int, left_bound as int, y as int)
                    == run_ops(r_spec, old_cursor as int, y as int) + spec_layout_right(
                    runs@.skip(i as int),
                    cursor as int,
                    left_bound as int,
                    y as int,
                ));
                assert((ops_view(ops0) + run_ops(r_spec, old_cursor as int, y as int))
                    + spec_layout_right(
                    runs@.skip(i as int),
                    cursor as int,
                    left_bound as int,
                    y as int,
                ) =~= ops_view(ops0) + spec_layout_right(
                    pre_skip,
                    old_cursor as int,
                    left_bound as int,
                    y as int,
                ));
            }
        }
    }
    proof {
        if more == 1 {
            assert(runs@.skip(n as int) =~= Seq::<MeasuredRun>::empty());
            assert(spec_layout_right(
                runs@.skip(n as int),
                cursor as int,
                left_bound as int,
                y as int,
            ) =~= Seq::<OpSpec>::empty());
            assert(ops_view(ops@) + Seq::<OpSpec>::empty() =~= ops_view(ops@));
        }
    }
    ops
}

/// Left-anchored placement for a pure left-to-right field: the text is one
/// operation with its left edge at the anchor.
pub fn op_left_anchored(chars: Vec<char>, x_left: i64, y: i64) -> (op: DrawOp)
    ensures
        op_view(op) == (OpSpec { chars: chars@, x: x_left as int, y: y as int }),
{
    DrawOp { chars, x: x_left, y }
}

/// Right-anchored placement for a pure left-to-right field: one operation
/// whose right edge (origin plus measured width) lies at the anchor.
pub fn op_right_anchored(chars: Vec<char>, width: u32, x_right: i64, y: i64) -> (op: DrawOp)
    requires
        -MAX_LAYOUT_COORD <= x_right <= MAX_LAYOUT_COORD,
    ensures
        op_view(op) == (OpSpec { chars: chars@, x: x_right - width, y: y as int }),
{
    DrawOp { chars, x: x_right - (width as i64), y }
}

/// The origin that centers a text of the given width on the paper: half
/// the leftover space, negative (text overhanging both edges) when the
/// text is wider than the paper.
pub open spec fn spec_center_x(paper: int, w: int) -> int {
    if w <= paper {
        (paper - w) / 2
    } else {
        -((w - paper) / 2)
    }
}

/// Center-anchored placement for a pure left-to-right field: one operation
/// centered on the paper width.
pub fn op_center_anchored(chars: Vec<char>, width: u32, paper_w: i64, y: i64) -> (op: DrawOp)
    requires
        0 <= paper_w <= 0x1_0000_0000i64,
    ensures
        op_view(op) == (OpSpec {
            chars: chars@,
            x: spec_center_x(paper_w as int, width as int),
            y: y as int,
        }),
{
    let x: i64 = if (width as i64) <= paper_w {
        (paper_w - (width as i64)) / 2
    } else {
        -(((width as i64) - paper_w) / 2)
    };
    DrawOp { chars, x, y }
}

/// Computes the total width of a line of runs.
pub fn runs_total_width(runs: &Vec<MeasuredRun>) -> (total: u64)
    requires
        total_width(runs@) <= MAX_TOTAL_WIDTH,
    ensures
        total == total_width(runs@),
{
    let mut total: u64 = 0;
    let n = runs.len();
    let mut i: usize = 0;
    while i < n
        invariant
            n == runs@.len(),
            0 <= i <= n,
            total == prefix_total(runs@, i as int),
            total_width(runs@) <= MAX_TOTAL_WIDTH,
        decreases n - i,
    {
        proof {
            lemma_prefix_total_mono(runs@, i + 1, n as int);
        }
        total = total + runs[i].width;
        i = i + 1;
    }
    total
}

/// Places runs center-anchored on a paper of width `paper_w`.
pub fn layout_center_anchored(runs: &Vec<MeasuredRun>, paper_w: i64, y: i64) -> (ops: Vec<DrawOp>)
    requires
        mruns_wf(runs@),
        total_width(runs@) <= MAX_TOTAL_WIDTH,
        0 <= paper_w <= 0x1_0000_0000i64,
    ensures
        ops_view(ops@) == spec_layout_center(runs@, paper_w as int, y as int),
{
    let total = runs_total_width(runs);
    let vr: i64 = (paper_w + (total as i64)) / 2;
    layout_right_anchored(runs, vr, vr - (total as i64), y)
}

} // verus!
