//! Fixed-point decimal amounts and receipt totals.
//!
//! Quantities, unit prices and discounts are held in micro-units (one
//! millionth of a currency unit), so a discount threshold of one
//! ten-thousandth is exactly representable. A line total is the product of
//! two micro-unit amounts, held in pico-units (one trillionth); totals are
//! always recomputed from the items, never taken from caller input.

use vstd::prelude::*;
use vstd::arithmetic::mul::lemma_mul_upper_bound;

verus! {

/// Micro-units per whole currency unit.
pub const MICROS_PER_UNIT: u64 = 1_000_000;

/// A non-negative fixed-point decimal amount in micro-units.
#[derive(Clone, Copy, PartialEq, Eq, Structural, Debug)]
pub struct Decimal {
    pub micros: u64,
}

impl Decimal {
    /// The amount `units + hundredths/100`, e.g. `new(2, 50)` is 2.50.
    pub fn from_units(units: u32, hundredths: u32) -> (d: Decimal)
        requires
            hundredths < 100,
        ensures
            d.micros == units * 1_000_000 + hundredths * 10_000,
    {
        proof {
            lemma_mul_upper_bound(units as int, u32::MAX as int, 1_000_000, 1_000_000);
            lemma_mul_upper_bound(hundredths as int, 99, 10_000, 10_000);
        }
        Decimal { micros: (units as u64) * MICROS_PER_UNIT + (hundredths as u64) * 10_000 }
    }

    /// The amount holding exactly `micros` micro-units.
    pub fn from_micros(micros: u64) -> (d: Decimal)
        ensures
            d.micros == micros,
    {
        Decimal { micros }
    }
}

/// One receipt line item: a (possibly mixed-direction) name, a quantity and a
/// unit price.
pub struct LineItem {
    pub name: String,
    pub qty: Decimal,
    pub price: Decimal,
}

/// A line's total in pico-units: quantity times unit price, recomputed from
/// the item itself.
pub open spec fn spec_line_value_pico(it: LineItem) -> int {
    (it.qty.micros as int) * (it.price.micros as int)
}

/// Sum of the line values of the first `k` items, in pico-units.
pub open spec fn spec_items_total_pico(items: Seq<LineItem>, k: int) -> int
    decreases k,
{
    if k <= 0 {
        0
    } else {
        spec_items_total_pico(items, k - 1) + spec_line_value_pico(items[k - 1])
    }
}

/// The recomputed net total of a receipt in pico-units: the sum of all line
/// values minus the discount. May be negative if the discount exceeds the
/// items' sum.
pub open spec fn spec_receipt_total_pico(items: Seq<LineItem>, discount: Decimal) -> int {
    spec_items_total_pico(items, items.len() as int) - (discount.micros as int) * 1_000_000
}

/// The line total of one item, in pico-units. Always fits: the product of
/// two 64-bit micro-amounts is below `2^128`.
pub fn line_value_pico(qty: Decimal, price: Decimal) -> (v: u128)
    ensures
        v == (qty.micros as int) * (price.micros as int),
{
    proof {
        lemma_mul_upper_bound(qty.micros as int, u64::MAX as int, price.micros as int, u64::MAX as int);
    }
    (qty.micros as u128) * (price.micros as u128)
}

/// Sums the recomputed line values of all items, in pico-units; `None` only
/// if the sum exceeds `u128::MAX` (beyond any physical receipt).
pub fn items_total_pico(items: &Vec<LineItem>) -> (t: Option<u128>)
    ensures
        match t {
            Option::Some(v) => v == spec_items_total_pico(items@, items@.len() as int),
            Option::None => spec_items_total_pico(items@, items@.len() as int) > u128::MAX,
        },
{
    let mut acc: u128 = 0;
    let n = items.len();
    let mut i: usize = 0;
    while i < n
        invariant
            n == items@.len(),
            0 <= i <= n,
            acc == spec_items_total_pico(items@, i as int),
        decreases n - i,
    {
        let v = line_value_pico(items[i].qty, items[i].price);
        if acc > u128::MAX - v {
            proof {
                lemma_items_total_mono(items@, i + 1, n as int);
            }
            return Option::None;
        }
        acc = acc + v;
        i = i + 1;
    }
    Option::Some(acc)
}

proof fn lemma_items_total_mono(items: Seq<LineItem>, a: int, b: int)
    requires
        0 <= a <= b,
    ensures
        spec_items_total_pico(items, a) <= spec_items_total_pico(items, b),
    decreases b,
{
    if a < b {
        lemma_items_total_mono(items, a, b - 1);
        lemma_mul_upper_bound(
            items[b - 1].qty.micros as int,
            u64::MAX as int,
            items[b - 1].price.micros as int,
            u64::MAX as int,
        );
        assert(spec_line_value_pico(items[b - 1]) >= 0) by {
            lemma_mul_upper_bound(0, items[b - 1].qty.micros as int, 0, items[b - 1].price.micros as int);
        }
    }
}

/// The items' summed line values are never negative.
pub proof fn lemma_items_total_nonneg(items: Seq<LineItem>)
    ensures
        spec_items_total_pico(items, items.len() as int) >= 0,
{
    lemma_items_total_mono(items, 0, items.len() as int);
}

/// The recomputed net receipt total in pico-units: the items' sum minus the
/// discount. `None` only when the exact value cannot be represented (the
/// items' sum above `u128::MAX`, or the net total above `i128::MAX`).
pub fn receipt_total_pico(items: &Vec<LineItem>, discount: Decimal) -> (t: Option<i128>)
    ensures
        match t {
            Option::Some(v) => v == spec_receipt_total_pico(items@, discount),
            Option::None => spec_items_total_pico(items@, items@.len() as int) > u128::MAX
                || spec_receipt_total_pico(items@, discount) > i128::MAX,
        },
{
    let sum = items_total_pico(items);
    match sum {
        Option::None => Option::None,
        Option::Some(total) => {
            proof {
                lemma_mul_upper_bound(discount.micros as int, u64::MAX as int, 1_000_000, 1_000_000);
                lemma_mul_upper_bound(0, discount.micros as int, 0, 1_000_000);
            }
            let disc: u128 = (discount.micros as u128) * 1_000_000;
            if total >= disc {
                let net: u128 = total - disc;
                if net > i128::MAX as u128 {
                    Option::None
                } else {
                    Option::Some(net as i128)
                }
            } else {
                let net: u128 = disc - total;
                Option::Some(-(net as i128))
            }
        },
    }
}

/// True exactly when the discount exceeds the visibility threshold, so a
/// discount row is drawn; zero or below-threshold discounts are suppressed.
pub open spec fn spec_discount_visible(discount: Decimal, epsilon_micros: u64) -> bool {
    discount.micros > epsilon_micros
}

/// Decides whether the discount row appears on the receipt.
pub fn discount_visible(discount: Decimal, epsilon_micros: u64) -> (r: bool)
    ensures
        r == spec_discount_visible(discount, epsilon_micros),
{
    discount.micros > epsilon_micros
}

/// The decimal digit character for `d`.
pub open spec fn spec_digit_char(d: int) -> char {
    if d == 0 {
        '0'
    } else if d == 1 {
        '1'
    } else if d == 2 {
        '2'
    } else if d == 3 {
        '3'
    } else if d == 4 {
        '4'
    } else if d == 5 {
        '5'
    } else if d == 6 {
        '6'
    } else if d == 7 {
        '7'
    } else if d == 8 {
        '8'
    } else {
        '9'
    }
}

/// The decimal digit string of a non-negative integer, most significant
/// digit first (a single '0' for zero).
pub open spec fn spec_digits(n: int) -> Seq<char>
    decreases n,
{
    if n < 10 {
        seq![spec_digit_char(n)]
    } else {
        spec_digits(n / 10).push(spec_digit_char(n % 10))
    }
}

/// An amount of `h` hundredths formatted with exactly two decimal places,
/// preceded by a minus sign if `negative` (e.g. 950 hundredths is "9.50").
pub open spec fn spec_format_2dp(h: int, negative: bool) -> Seq<char> {
    let sign: Seq<char> = if negative { seq!['-'] } else { Seq::empty() };
    sign + spec_digits(h / 100) + seq!['.', spec_digit_char((h / 10) % 10), spec_digit_char(h % 10)]
}

/// Micro-units rounded half-up to hundredths.
pub open spec fn spec_micros_to_hundredths(micros: int) -> int {
    (micros + 5_000) / 10_000
}

/// Pico-units rounded half-up to hundredths.
pub open spec fn spec_pico_to_hundredths(pico: int) -> int {
    (pico + 5_000_000_000) / 10_000_000_000
}

fn digit_char(d: u128) -> (c: char)
    requires
        d < 10,
    ensures
        c == spec_digit_char(d as int),
{
    if d == 0 {
        '0'
    } else if d == 1 {
        '1'
    } else if d == 2 {
        '2'
    } else if d == 3 {
        '3'
    } else if d == 4 {
        '4'
    } else if d == 5 {
        '5'
    } else if d == 6 {
        '6'
    } else if d == 7 {
        '7'
    } else if d == 8 {
        '8'
    } else {
        '9'
    }
}

/// Appends the decimal digits of `n` to `out`.
fn push_digits(n: u128, out: &mut Vec<char>)
    ensures
        final(out)@ == old(out)@ + spec_digits(n as int),
    decreases n,
{
    if n < 10 {
        let c = digit_char(n);
        out.push(c);
        proof {
            assert(old(out)@ + spec_digits(n as int) =~= old(out)@.push(spec_digit_char(n as int)));
        }
    } else {
        push_digits(n / 10, out);
        let c = digit_char(n % 10);
        out.push(c);
        proof {
            assert(old(out)@ + spec_digits(n as int) =~= (old(out)@ + spec_digits(n as int / 10)).push(
                spec_digit_char(n as int % 10),
            ));
        }
    }
}

/// Formats `h` hundredths (with sign) as a two-decimal string.
fn format_hundredths(h: u128, negative: bool) -> (r: Vec<char>)
    ensures
        r@ == spec_format_2dp(h as int, negative),
{
    let mut out: Vec<char> = Vec::new();
    if negative {
        out.push('-');
    }
    let ghost sign_part = out@;
    push_digits(h / 100, &mut out);
    out.push('.');
    let c1 = digit_char((h / 10) % 10);
    out.push(c1);
    let c2 = digit_char(h % 10);
    out.push(c2);
    proof {
        assert(out@ =~= sign_part + spec_digits(h as int / 100) + seq![
            '.',
            spec_digit_char((h as int / 10) % 10),
            spec_digit_char(h as int % 10),
        ]);
        assert(spec_format_2dp(h as int, negative) =~= out@);
    }
    out
}

/// Formats a micro-unit amount (a quantity, price or discount) to two
/// decimal places, rounding half-up.
pub fn format_micros_2dp(d: Decimal) -> (r: Vec<char>)
    ensures
        r@ == spec_format_2dp(spec_micros_to_hundredths(d.micros as int), false),
{
    let h: u128 = ((d.micros as u128) + 5_000) / 10_000;
    format_hundredths(h, false)
}

/// Formats one line's total (quantity times price, in pico-units) to two
/// decimal places, rounding half-up.
pub fn format_line_value(v: u128) -> (r: Vec<char>)
    requires
        v <= (u64::MAX as int) * (u64::MAX as int),
    ensures
        r@ == spec_format_2dp(spec_pico_to_hundredths(v as int), false),
{
    proof {
        assert((u64::MAX as int) * (u64::MAX as int) + 5_000_000_000 <= u128::MAX)
            by (nonlinear_arith);
    }
    let h: u128 = (v + 5_000_000_000) / 10_000_000_000;
    format_hundredths(h, false)
}

/// Formats a pico-unit amount (a line value or the net total) to two decimal
/// places, rounding the magnitude half-up; negative amounts get a leading
/// minus sign.
pub fn format_pico_2dp(pico: i128) -> (r: Vec<char>)
    requires
        pico > i128::MIN,
    ensures
        pico >= 0 ==> r@ == spec_format_2dp(spec_pico_to_hundredths(pico as int), false),
        pico < 0 ==> r@ == spec_format_2dp(spec_pico_to_hundredths(-(pico as int)), true),
{
    if pico >= 0 {
        let h: u128 = ((pico as u128) + 5_000_000_000) / 10_000_000_000;
        format_hundredths(h, false)
    } else {
        let mag: i128 = -pico;
        let h: u128 = ((mag as u128) + 5_000_000_000) / 10_000_000_000;
        format_hundredths(h, true)
    }
}

} // verus!
