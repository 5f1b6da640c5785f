//! The composer's output: shared column geometry, discount suppression,
//! recomputed totals and title splitting — all on concrete values, with
//! label widths and ascent supplied as plain numbers.

use receipt_raster::compose::{compose_elements, Element, ReceiptRequest, LABEL_DISCOUNT, LABEL_TOTAL};
use receipt_raster::config::{column_edges, LayoutConfig};
use receipt_raster::money::{receipt_total_pico, Decimal, LineItem};

fn item(name: &str, qty_micros: u64, price_micros: u64) -> LineItem {
    LineItem {
        name: name.to_string(),
        qty: Decimal::from_micros(qty_micros),
        price: Decimal::from_micros(price_micros),
    }
}

fn request(items: Vec<LineItem>, discount_micros: u64) -> ReceiptRequest {
    ReceiptRequest {
        store_name: "Test Store".to_string(),
        date_time_line: "4/11 - 4:09".to_string(),
        invoice_no: "123456".to_string(),
        items,
        discount: Decimal::from_micros(discount_micros),
        footer_address: "Somewhere".to_string(),
        footer_delivery: "Delivery".to_string(),
        footer_phones: "01533333161".to_string(),
    }
}

fn compose(req: &ReceiptRequest, cfg: &LayoutConfig) -> (Vec<Element>, i64) {
    let total = receipt_total_pico(&req.items, req.discount).expect("representable total");
    compose_elements(req, cfg, total, 68, 120, 260)
}

fn text_of(el: &Element) -> String {
    el.chars.iter().collect()
}

#[test]
fn header_and_rows_share_column_geometry() {
    let cfg = LayoutConfig::default();
    let req = request(
        vec![item("Apple", 2_000_000, 2_500_000), item("Pear", 3_000_000, 1_500_000)],
        0,
    );
    let (els, _) = compose(&req, &cfg);
    let e = column_edges(&cfg);
    // Elements: title, date/time, invoice, then the four column headers.
    let headers = &els[3..7];
    assert_eq!(headers[0].anchor_x, e.name);
    assert_eq!(headers[1].anchor_x, e.qty);
    assert_eq!(headers[2].anchor_x, e.price);
    assert_eq!(headers[3].anchor_x, e.total);
    // Each item row uses the identical edges.
    for i in 0..2 {
        let row = &els[7 + 4 * i..7 + 4 * i + 4];
        assert_eq!(row[0].anchor_x, e.name);
        assert_eq!(row[1].anchor_x, e.qty);
        assert_eq!(row[2].anchor_x, e.price);
        assert_eq!(row[3].anchor_x, e.total);
    }
    // Both rows sit at the same x positions as the header (structurally the
    // same geometry, not merely equal output).
    for k in 0..4 {
        assert_eq!(els[7 + k].anchor_x, headers[k].anchor_x);
        assert_eq!(els[11 + k].anchor_x, headers[k].anchor_x);
    }
}

#[test]
fn default_column_edges_values() {
    // Paper 576, margin 1: inner 574; widths 60/16/14/10 percent.
    let cfg = LayoutConfig::default();
    let e = column_edges(&cfg);
    assert_eq!(e.name, 575);
    assert_eq!(e.qty, 575 - 344);
    assert_eq!(e.price, 575 - 344 - 91);
    assert_eq!(e.total, 575 - 344 - 91 - 80);
}

#[test]
fn discount_row_only_above_epsilon() {
    let cfg = LayoutConfig::default();
    let label: Vec<char> = LABEL_DISCOUNT.chars().collect();
    // discount = 0.0: no discount row
    let (els0, _) = compose(&request(vec![item("a", 1_000_000, 1_000_000)], 0), &cfg);
    assert!(els0.iter().all(|e| e.chars != label));
    // discount = 0.00005, below the 0.0001 threshold: still none
    let (els1, _) = compose(&request(vec![item("a", 1_000_000, 1_000_000)], 50), &cfg);
    assert!(els1.iter().all(|e| e.chars != label));
    assert_eq!(els0.len(), els1.len());
    // discount = 0.01: exactly one discount row (label + value)
    let (els2, _) = compose(&request(vec![item("a", 1_000_000, 1_000_000)], 10_000), &cfg);
    assert_eq!(els2.iter().filter(|e| e.chars == label).count(), 1);
    assert_eq!(els2.len(), els0.len() + 2);
}

#[test]
fn total_element_shows_recomputed_sum() {
    let cfg = LayoutConfig::default();
    let req = request(
        vec![item("a", 2_000_000, 2_500_000), item("b", 3_000_000, 1_500_000)],
        0,
    );
    let (els, _) = compose(&req, &cfg);
    let label: Vec<char> = LABEL_TOTAL.chars().collect();
    let pos = els.iter().position(|e| e.chars == label).expect("total label");
    // The total value element sits just before its label.
    assert_eq!(text_of(&els[pos - 1]), "9.50");
    // The row fields show the recomputed line totals.
    assert_eq!(text_of(&els[10]), "5.00");
    assert_eq!(text_of(&els[14]), "4.50");
}

#[test]
fn title_newline_splits_into_two_lines() {
    let cfg = LayoutConfig::default();
    let mut req = request(vec![], 0);
    req.store_name = "One\nTwo".to_string();
    let (els, _) = compose(&req, &cfg);
    assert_eq!(text_of(&els[0]), "One");
    assert_eq!(text_of(&els[1]), "Two");
    assert_eq!(els[1].y, els[0].y + 84 - 8);
    // Without a newline the title is one element.
    let (els1, _) = compose(&request(vec![], 0), &cfg);
    assert_eq!(text_of(&els1[0]), "Test Store");
    assert!(text_of(&els1[1]).contains("4:09"));
}

#[test]
fn empty_items_still_compose_a_receipt() {
    let cfg = LayoutConfig::default();
    let (els, used_y) = compose(&request(vec![], 0), &cfg);
    // Title, date/time, invoice, 4 headers, separator, total pair, 3 footers.
    assert_eq!(els.len(), 1 + 2 + 4 + 1 + 2 + 3);
    assert!(used_y > 0);
}
