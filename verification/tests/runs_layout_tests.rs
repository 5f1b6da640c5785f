//! Run segmentation and anchored placement, on concrete values.

use receipt_raster::layout_engine::{layout_center_anchored, layout_right_anchored, op_center_anchored, op_left_anchored, op_right_anchored, MeasuredRun};
use receipt_raster::runs::{is_ltr_char, segment_runs, Run};

fn measured(run: &Run, char_w: u32) -> MeasuredRun {
    if run.is_ltr {
        MeasuredRun {
            is_ltr: true,
            chars: run.chars.clone(),
            char_widths: Vec::new(),
            width: (char_w as u64) * (run.chars.len() as u64),
        }
    } else {
        let widths: Vec<u32> = run.chars.iter().map(|_| char_w).collect();
        MeasuredRun {
            is_ltr: false,
            chars: run.chars.clone(),
            char_widths: widths,
            width: (char_w as u64) * (run.chars.len() as u64),
        }
    }
}

#[test]
fn classifies_characters() {
    assert!(is_ltr_char('a'));
    assert!(is_ltr_char('7'));
    assert!(is_ltr_char(' '));
    assert!(is_ltr_char('\u{0660}')); // Arabic-Indic zero
    assert!(is_ltr_char('\u{06F5}')); // Eastern Arabic-Indic five
    assert!(is_ltr_char(':'));
    assert!(is_ltr_char('\u{2013}')); // en dash
    assert!(!is_ltr_char('\u{0627}')); // Arabic alef
    assert!(!is_ltr_char('\u{FE8E}')); // Arabic presentation form
}

#[test]
fn segmentation_reassembles_input() {
    // Mixed Arabic text with an embedded western number.
    let text: Vec<char> = "\u{062A}\u{0627}\u{0631}\u{064A}\u{062E} 4 \u{0646}\u{0648}\u{0641}"
        .chars()
        .collect();
    let runs = segment_runs(&text);
    let rebuilt: Vec<char> = runs.iter().flat_map(|r| r.chars.iter().copied()).collect();
    assert_eq!(rebuilt, text);
    // Maximal runs alternate direction classes.
    for w in runs.windows(2) {
        assert_ne!(w[0].is_ltr, w[1].is_ltr);
    }
}

#[test]
fn empty_input_yields_no_runs() {
    let text: Vec<char> = Vec::new();
    let runs = segment_runs(&text);
    assert_eq!(runs.len(), 0);
}

#[test]
fn pure_ltr_field_is_one_run() {
    let text: Vec<char> = "01533333161 - 01533333262".chars().collect();
    let runs = segment_runs(&text);
    assert_eq!(runs.len(), 1);
    assert!(runs[0].is_ltr);
    assert_eq!(runs[0].chars.len(), text.len());
}

#[test]
fn right_anchored_ltr_matches_simple_right_alignment() {
    // A line with no right-to-left characters: right-anchored placement is
    // one run drawn at the anchor minus its width, exactly a right-aligned
    // left-to-right layout.
    let text: Vec<char> = "123456".chars().collect();
    let runs = segment_runs(&text);
    let ms: Vec<MeasuredRun> = runs.iter().map(|r| measured(r, 10)).collect();
    let ops = layout_right_anchored(&ms, 500, 0, 7);
    assert_eq!(ops.len(), 1);
    assert_eq!(ops[0].x, 500 - 60);
    assert_eq!(ops[0].y, 7);
    let drawn: Vec<char> = ops[0].chars.clone();
    assert_eq!(drawn, text);
}

#[test]
fn mixed_runs_keep_logical_order_and_mirror_rtl_glyphs() {
    // Logical text "تاريخ 4 نوفمبر": three runs (Arabic, " 4 ", Arabic).
    let text: Vec<char> =
        "\u{062A}\u{0627}\u{0631}\u{064A}\u{062E} 4 \u{0646}\u{0648}\u{0641}\u{0645}\u{0628}\u{0631}"
            .chars()
            .collect();
    let runs = segment_runs(&text);
    assert_eq!(runs.len(), 3);
    assert!(!runs[0].is_ltr);
    assert!(runs[1].is_ltr);
    assert!(!runs[2].is_ltr);
    let n0 = runs[0].chars.len(); // 5 Arabic letters
    let n1 = runs[1].chars.len(); // " 4 "
    let n2 = runs[2].chars.len(); // 6 Arabic letters
    assert_eq!((n0, n1, n2), (5, 3, 6));

    let ms: Vec<MeasuredRun> = runs.iter().map(|r| measured(r, 10)).collect();
    let x_right = 400i64;
    let ops = layout_right_anchored(&ms, x_right, 0, 0);
    // One op per RTL glyph, one per LTR run.
    assert_eq!(ops.len(), n0 + 1 + n2);

    // Run 0 occupies the rightmost segment, run 1 the middle, run 2 the
    // leftmost: logical order matches visual right-to-left order.
    let run0_left = x_right - (10 * n0 as i64);
    let run1_left = run0_left - (10 * n1 as i64);
    let run2_left = run1_left - (10 * n2 as i64);
    for k in 0..n0 {
        assert!(ops[k].x >= run0_left && ops[k].x < x_right);
    }
    assert_eq!(ops[n0].x, run1_left);
    for k in 0..n2 {
        let op = &ops[n0 + 1 + k];
        assert!(op.x >= run2_left && op.x < run1_left);
    }

    // Inside each Arabic run the glyphs appear mirrored: the logically
    // first character sits furthest right.
    for k in 0..n0 {
        assert_eq!(ops[k].chars, vec![runs[0].chars[k]]);
        assert_eq!(ops[k].x, x_right - 10 * (k as i64 + 1));
    }
    for k in 0..n2 {
        let op = &ops[n0 + 1 + k];
        assert_eq!(op.chars, vec![runs[2].chars[k]]);
        assert_eq!(op.x, run1_left - 10 * (k as i64 + 1));
    }
}

#[test]
fn right_anchored_truncates_at_left_bound() {
    // Two runs of width 30 each; only the first fits before the bound.
    let a = Run { is_ltr: true, chars: "abc".chars().collect() };
    let b = Run { is_ltr: true, chars: "def".chars().collect() };
    let ms = vec![measured(&a, 10), measured(&b, 10)];
    let ops = layout_right_anchored(&ms, 100, 50, 0);
    assert_eq!(ops.len(), 1);
    assert_eq!(ops[0].x, 70);
}

#[test]
fn center_anchored_splits_margin_evenly() {
    let a = Run { is_ltr: true, chars: "abcd".chars().collect() };
    let ms = vec![measured(&a, 10)];
    // Total width 40 on paper 100: virtual right edge (100+40)/2 = 70.
    let ops = layout_center_anchored(&ms, 100, 3);
    assert_eq!(ops.len(), 1);
    assert_eq!(ops[0].x, 30);
    assert_eq!(ops[0].y, 3);
}

#[test]
fn left_anchored_places_at_the_anchor() {
    let chars: Vec<char> = "123456".chars().collect();
    let op = op_left_anchored(chars.clone(), 12, 5);
    assert_eq!(op.x, 12);
    assert_eq!(op.y, 5);
    assert_eq!(op.chars, chars);
}

#[test]
fn right_anchored_op_ends_at_the_anchor() {
    let chars: Vec<char> = "9.50".chars().collect();
    let op = op_right_anchored(chars.clone(), 40, 500, 6);
    assert_eq!(op.x, 460); // origin + width lands on the anchor
    assert_eq!(op.y, 6);
    assert_eq!(op.chars, chars);
}

#[test]
fn center_anchored_op_splits_the_margin() {
    let chars: Vec<char> = "123456".chars().collect();
    let op = op_center_anchored(chars.clone(), 60, 100, 2);
    assert_eq!(op.x, 20); // (100 - 60) / 2
    assert_eq!(op.y, 2);
    // Wider than the paper: the overhang splits evenly, origin negative.
    let wide = op_center_anchored(chars.clone(), 140, 100, 2);
    assert_eq!(wide.x, -20);
}
