//! The string/character conversions and the canvas surface.

use receipt_raster::canvas::{draw_dotted, Canvas};
use receipt_raster::raster::binarize;
use receipt_raster::strutil::{chars_of, string_of, sub_chars};

#[test]
fn chars_of_yields_the_characters() {
    let v = chars_of("ab\u{0627}");
    assert_eq!(v, vec!['a', 'b', '\u{0627}']);
    assert_eq!(chars_of("").len(), 0);
}

#[test]
fn string_of_round_trips() {
    let v: Vec<char> = "receipt 42".chars().collect();
    let s = string_of(&v);
    assert_eq!(s, "receipt 42");
    assert_eq!(chars_of(&s), v);
}

#[test]
fn sub_chars_copies_the_requested_range() {
    let v: Vec<char> = "abcdef".chars().collect();
    assert_eq!(sub_chars(&v, 1, 4), vec!['b', 'c', 'd']);
    assert_eq!(sub_chars(&v, 3, 3).len(), 0);
}

#[test]
fn canvas_reports_its_dimensions() {
    let c = Canvas::new(40, 30);
    assert_eq!(c.width(), 40);
    assert_eq!(c.height(), 30);
    // A fresh canvas is all white: no ink survives binarization.
    let luma = c.crop_to_luma(30);
    assert_eq!(luma.len(), 40 * 30);
    assert!(luma.iter().all(|p| *p == 255));
}

#[test]
fn dotted_separator_leaves_dashes() {
    let mut c = Canvas::new(32, 8);
    draw_dotted(&mut c, 4, 0, 32);
    let luma = c.crop_to_luma(8);
    let bm = binarize(&luma, 32, 8, 150);
    // Dashes of three pixels every ten columns on row 4.
    for x in 0..32 {
        let expect = x % 10 < 3;
        assert_eq!(bm.bits[4 * 32 + x], expect, "column {}", x);
    }
    // No ink on other rows.
    for y in [0usize, 3, 5, 7] {
        for x in 0..32 {
            assert!(!bm.bits[y * 32 + x]);
        }
    }
}
