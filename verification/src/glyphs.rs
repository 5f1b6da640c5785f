//! Glyph metrics from the loaded vector font. Measurement and drawing (see
//! the canvas module) share the same metrics source, so layout never drifts
//! from what is painted.

use vstd::prelude::*;

verus! {

#[verifier::external_type_specification]
#[verifier::external_body]
pub struct ExFontArc(ab_glyph::FontArc);

/// Relies on `imageproc::drawing::text_size`: the pixel width of the text
/// rendered at the given uniform pixel scale with the given font. (That
/// function asserts a non-negative total width, which holds for any font
/// whose advances outweigh its kerning.)
#[verifier::external_body]
pub(crate) fn text_width_px(font: &ab_glyph::FontArc, size: u16, chars: &Vec<char>) -> (w: u32)
{
    let s: String = chars.iter().collect();
    let scale = ab_glyph::PxScale { x: size.into(), y: size.into() };
    imageproc::drawing::text_size(scale, font, &s).0
}

/// Relies on `ab_glyph`'s scaled vertical metrics: the font's ascent in
/// pixels at the given scale, rounded up.
#[verifier::external_body]
pub(crate) fn ascent_px(font: &ab_glyph::FontArc, size: u16) -> (a: i32)
{
    let scale = ab_glyph::PxScale { x: size.into(), y: size.into() };
    let scaled = ab_glyph::Font::as_scaled(font, scale);
    ab_glyph::ScaleFont::ascent(&scaled).ceil() as i32
}

} // verus!
