//! Decimal amounts, totals recomputation and two-decimal formatting.

use receipt_raster::money::{
    discount_visible, format_line_value, format_micros_2dp, format_pico_2dp, items_total_pico,
    line_value_pico, receipt_total_pico, Decimal, LineItem,
};

fn item(name: &str, qty_micros: u64, price_micros: u64) -> LineItem {
    LineItem {
        name: name.to_string(),
        qty: Decimal::from_micros(qty_micros),
        price: Decimal::from_micros(price_micros),
    }
}

fn chars_to_string(v: &[char]) -> String {
    v.iter().collect()
}

#[test]
fn from_units_builds_micros() {
    let d = Decimal::from_units(2, 50);
    assert_eq!(d.micros, 2_500_000);
    let z = Decimal::from_units(0, 0);
    assert_eq!(z.micros, 0);
}

#[test]
fn line_value_is_quantity_times_price() {
    // 2 x 2.50 = 5.00 (in pico-units)
    let v = line_value_pico(Decimal::from_units(2, 0), Decimal::from_units(2, 50));
    assert_eq!(v, 2_000_000u128 * 2_500_000u128);
    assert_eq!(chars_to_string(&format_line_value(v)), "5.00");
}

#[test]
fn total_is_recomputed_from_items() {
    // items [(qty=2, price=2.50), (qty=3, price=1.50)], discount = 0:
    // total = 2*2.50 + 3*1.50 = 9.50
    let items = vec![
        item("a", 2_000_000, 2_500_000),
        item("b", 3_000_000, 1_500_000),
    ];
    let sum = items_total_pico(&items).unwrap();
    assert_eq!(sum, 9_500_000_000_000u128);
    let net = receipt_total_pico(&items, Decimal::from_micros(0)).unwrap();
    assert_eq!(net, 9_500_000_000_000i128);
    assert_eq!(chars_to_string(&format_pico_2dp(net)), "9.50");
}

#[test]
fn total_subtracts_discount_and_may_go_negative() {
    let items = vec![item("a", 1_000_000, 1_000_000)]; // 1.00
    let net = receipt_total_pico(&items, Decimal::from_units(1, 50)).unwrap();
    assert_eq!(net, -500_000_000_000i128);
    assert_eq!(chars_to_string(&format_pico_2dp(net)), "-0.50");
}

#[test]
fn discount_visibility_threshold() {
    let eps = 100u64; // 0.0001 in micro-units
    assert!(!discount_visible(Decimal::from_micros(0), eps));
    assert!(!discount_visible(Decimal::from_micros(50), eps)); // 0.00005
    assert!(!discount_visible(Decimal::from_micros(100), eps)); // exactly epsilon
    assert!(discount_visible(Decimal::from_micros(10_000), eps)); // 0.01
}

#[test]
fn micros_format_two_decimals() {
    assert_eq!(chars_to_string(&format_micros_2dp(Decimal::from_micros(960_000))), "0.96");
    assert_eq!(chars_to_string(&format_micros_2dp(Decimal::from_micros(70_000_000))), "70.00");
    assert_eq!(chars_to_string(&format_micros_2dp(Decimal::from_micros(0))), "0.00");
    // Half-up rounding at the third decimal place: 1.005 -> 1.01.
    assert_eq!(chars_to_string(&format_micros_2dp(Decimal::from_micros(1_005_000))), "1.01");
    // 1.0049 -> 1.00.
    assert_eq!(chars_to_string(&format_micros_2dp(Decimal::from_micros(1_004_900))), "1.00");
}

#[test]
fn line_values_format_exactly() {
    // 0.96 x 70.00 = 67.20
    let v = line_value_pico(Decimal::from_micros(960_000), Decimal::from_units(70, 0));
    assert_eq!(chars_to_string(&format_line_value(v)), "67.20");
    // 0.25 x 220.00 = 55.00
    let v2 = line_value_pico(Decimal::from_micros(250_000), Decimal::from_units(220, 0));
    assert_eq!(chars_to_string(&format_line_value(v2)), "55.00");
    // 3.25 x 28.00 = 91.00
    let v3 = line_value_pico(Decimal::from_micros(3_250_000), Decimal::from_units(28, 0));
    assert_eq!(chars_to_string(&format_line_value(v3)), "91.00");
}

#[test]
fn empty_receipt_totals_zero() {
    let items: Vec<LineItem> = Vec::new();
    assert_eq!(items_total_pico(&items).unwrap(), 0);
    let net = receipt_total_pico(&items, Decimal::from_micros(0)).unwrap();
    assert_eq!(chars_to_string(&format_pico_2dp(net)), "0.00");
}
