//! Contextual Arabic shaping: each Arabic letter is replaced by its joining
//! form (isolated / initial / medial / final) chosen from its neighbours in
//! the logical string; other characters pass through. The shaped result is a
//! function of the input characters alone.
//!
//! The zero-width joiner is excluded from the shaping engine's input: the
//! engine drops joiners from its letter list but indexes that list by
//! positions in the unstripped text during ligature matching, and would read
//! past its end. `strip_zwj` removes them beforehand; a joiner carries no
//! glyph, so stripping it never changes what is printed.

use vstd::prelude::*;

verus! {

/// The zero-width joiner.
pub const ZWJ: char = '\u{200D}';

/// True when the string holds no zero-width joiner.
pub open spec fn spec_no_zwj(s: Seq<char>) -> bool {
    forall|i: int| 0 <= i < s.len() ==> s[i] != ZWJ
}

/// The string with every zero-width joiner removed, other characters kept
/// in order.
pub open spec fn spec_strip_zwj(s: Seq<char>) -> Seq<char>
    decreases s.len(),
{
    if s.len() == 0 {
        Seq::empty()
    } else if s.last() == ZWJ {
        spec_strip_zwj(s.drop_last())
    } else {
        spec_strip_zwj(s.drop_last()).push(s.last())
    }
}

/// Removes every zero-width joiner, so the result is acceptable to the
/// shaping engine.
pub fn strip_zwj(v: &Vec<char>) -> (r: Vec<char>)
    ensures
        r@ == spec_strip_zwj(v@),
        spec_no_zwj(r@),
{
    let mut r: Vec<char> = Vec::new();
    let n = v.len();
    let mut i: usize = 0;
    while i < n
        invariant
            n == v@.len(),
            0 <= i <= n,
            r@ == spec_strip_zwj(v@.subrange(0, i as int)),
            spec_no_zwj(r@),
        decreases n - i,
    {
        let c = v[i];
        proof {
            assert(v@.subrange(0, i + 1).drop_last() =~= v@.subrange(0, i as int));
            assert(v@.subrange(0, i + 1).last() == v@[i as int]);
        }
        if c != '\u{200D}' {
            r.push(c);
        }
        i = i + 1;
    }
    proof {
        assert(v@.subrange(0, n as int) =~= v@);
    }
    r
}

/// The contextual presentation form of a logical string, as the shaping
/// engine produces it. The result depends only on the input characters.
pub uninterp spec fn shaped_of(s: Seq<char>) -> Seq<char>;

/// Relies on `ar_reshaper::reshape_line`: shapes Arabic letters into their
/// contextual forms, passing non-Arabic characters through; an empty string
/// stays empty. Malformed Arabic passes through rather than failing. The
/// requires excludes the zero-width joiner, on which the engine's ligature
/// pass indexes out of bounds (see `strip_zwj`).
#[verifier::external_body]
pub(crate) fn shape_line(s: &str) -> (r: String)
    requires
        spec_no_zwj(s@),
    ensures
        r@ == shaped_of(s@),
        s@.len() == 0 ==> r@.len() == 0,
{
    ar_reshaper::reshape_line(s)
}

} // verus!
