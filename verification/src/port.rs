//! Serial port name normalization: uppercases the name and, for Windows
//! COM ports numbered above 9, rewrites it to the device-path form
//! `\\.\COMnn` that the platform requires. Pure string logic; whether to
//! apply it is the host's platform decision.

use vstd::prelude::*;
use crate::strutil::{chars_of, string_of};

verus! {

/// The ASCII uppercase of one character; other characters are unchanged.
pub open spec fn spec_upper_char(c: char) -> char {
    if c == 'a' {
        'A'
    } else if c == 'b' {
        'B'
    } else if c == 'c' {
        'C'
    } else if c == 'd' {
        'D'
    } else if c == 'e' {
        'E'
    } else if c == 'f' {
        'F'
    } else if c == 'g' {
        'G'
    } else if c == 'h' {
        'H'
    } else if c == 'i' {
        'I'
    } else if c == 'j' {
        'J'
    } else if c == 'k' {
        'K'
    } else if c == 'l' {
        'L'
    } else if c == 'm' {
        'M'
    } else if c == 'n' {
        'N'
    } else if c == 'o' {
        'O'
    } else if c == 'p' {
        'P'
    } else if c == 'q' {
        'Q'
    } else if c == 'r' {
        'R'
    } else if c == 's' {
        'S'
    } else if c == 't' {
        'T'
    } else if c == 'u' {
        'U'
    } else if c == 'v' {
        'V'
    } else if c == 'w' {
        'W'
    } else if c == 'x' {
        'X'
    } else if c == 'y' {
        'Y'
    } else if c == 'z' {
        'Z'
    } else {
        c
    }
}

fn upper_char(c: char) -> (r: char)
    ensures
        r == spec_upper_char(c),
{
    if c == 'a' {
        'A'
    } else if c == 'b' {
        'B'
    } else if c == 'c' {
        'C'
    } else if c == 'd' {
        'D'
    } else if c == 'e' {
        'E'
    } else if c == 'f' {
        'F'
    } else if c == 'g' {
        'G'
    } else if c == 'h' {
        'H'
    } else if c == 'i' {
        'I'
    } else if c == 'j' {
        'J'
    } else if c == 'k' {
        'K'
    } else if c == 'l' {
        'L'
    } else if c == 'm' {
        'M'
    } else if c == 'n' {
        'N'
    } else if c == 'o' {
        'O'
    } else if c == 'p' {
        'P'
    } else if c == 'q' {
        'Q'
    } else if c == 'r' {
        'R'
    } else if c == 's' {
        'S'
    } else if c == 't' {
        'T'
    } else if c == 'u' {
        'U'
    } else if c == 'v' {
        'V'
    } else if c == 'w' {
        'W'
    } else if c == 'x' {
        'X'
    } else if c == 'y' {
        'Y'
    } else if c == 'z' {
        'Z'
    } else {
        c
    }
}

/// ASCII uppercase of a string, character by character.
pub open spec fn spec_upper(s: Seq<char>) -> Seq<char> {
    s.map_values(|c: char| spec_upper_char(c))
}

fn upper_chars(v: &Vec<char>) -> (r: Vec<char>)
    ensures
        r@ == spec_upper(v@),
{
    let mut r: Vec<char> = Vec::new();
    let n = v.len();
    let mut i: usize = 0;
    while i < n
        invariant
            n == v@.len(),
            0 <= i <= n,
            r@ =~= spec_upper(v@.subrange(0, i as int)),
        decreases n - i,
    {
        let u = upper_char(v[i]);
        r.push(u);
        proof {
            assert(v@.subrange(0, i + 1) =~= v@.subrange(0, i as int).push(v@[i as int]));
            assert(spec_upper(v@.subrange(0, i + 1)) =~= spec_upper(
                v@.subrange(0, i as int),
            ).push(spec_upper_char(v@[i as int])));
        }
        i = i + 1;
    }
    proof {
        assert(v@.subrange(0, n as int) =~= v@);
    }
    r
}

pub open spec fn spec_is_digit(c: char) -> bool {
    '0' <= c && c <= '9'
}

/// Numeric value of one decimal digit character.
pub open spec fn spec_digit_value(c: char) -> int {
    (c as int) - ('0' as int)
}

/// Value of the first `k` characters read as a decimal number.
pub open spec fn spec_number_value(s: Seq<char>, k: int) -> int
    decreases k,
{
    if k <= 0 {
        0
    } else {
        spec_number_value(s, k - 1) * 10 + spec_digit_value(s[k - 1])
    }
}

/// A parseable port number: non-empty, all decimal digits, within `u32`.
pub open spec fn spec_parses_u32(s: Seq<char>) -> bool {
    &&& s.len() > 0
    &&& forall|i: int| 0 <= i < s.len() ==> spec_is_digit(#[trigger] s[i])
    &&& spec_number_value(s, s.len() as int) <= u32::MAX
}

proof fn lemma_number_value_nonneg(s: Seq<char>, k: int)
    requires
        0 <= k <= s.len(),
        forall|i: int| 0 <= i < s.len() ==> spec_is_digit(#[trigger] s[i]),
    ensures
        spec_number_value(s, k) >= 0,
    decreases k,
{
    if k > 0 {
        lemma_number_value_nonneg(s, k - 1);
        assert(spec_is_digit(s[k - 1]));
        assert(spec_digit_value(s[k - 1]) >= 0);
        assert(spec_number_value(s, k - 1) * 10 >= 0) by (nonlinear_arith)
            requires
                spec_number_value(s, k - 1) >= 0,
        ;
    }
}

proof fn lemma_number_value_grows(s: Seq<char>, a: int, b: int)
    requires
        0 <= a <= b <= s.len(),
        forall|i: int| 0 <= i < s.len() ==> spec_is_digit(#[trigger] s[i]),
    ensures
        0 <= spec_number_value(s, a) <= spec_number_value(s, b),
    decreases b,
{
    lemma_number_value_nonneg(s, a);
    if a < b {
        lemma_number_value_grows(s, a, b - 1);
        assert(spec_is_digit(s[b - 1]));
        assert(0 <= spec_digit_value(s[b - 1]) <= 9);
        assert(spec_number_value(s, b - 1) * 10 >= spec_number_value(s, b - 1)) by (nonlinear_arith)
            requires
                spec_number_value(s, b - 1) >= 0,
        ;
        assert(spec_number_value(s, b) == spec_number_value(s, b - 1) * 10 + spec_digit_value(
            s[b - 1],
        ));
    }
}

/// Parses the characters from `from` on as a decimal `u32`, exactly when
/// they are one or more digits whose value fits.
fn parse_u32_from(v: &Vec<char>, from: usize) -> (r: Option<u32>)
    requires
        from <= v@.len(),
    ensures
        r matches Option::Some(n) ==> spec_parses_u32(v@.skip(from as int)) && n
            == spec_number_value(v@.skip(from as int), v@.len() - from),
        r is None ==> !spec_parses_u32(v@.skip(from as int)),
{
    let n = v.len();
    let ghost tail = v@.skip(from as int);
    if from == n {
        return Option::None;
    }
    let mut acc: u32 = 0;
    let mut i: usize = from;
    while i < n
        invariant
            from <= i <= n,
            n == v@.len(),
            from < n,
            tail == v@.skip(from as int),
            forall|j: int| 0 <= j < i - from ==> spec_is_digit(#[trigger] tail[j]),
            acc == spec_number_value(tail, i - from),
        decreases n - i,
    {
        let c = v[i];
        if !('0' <= c && c <= '9') {
            proof {
                assert(tail[i - from] == c);
                assert(!spec_is_digit(tail[i - from]));
            }
            return Option::None;
        }
        let d: u32 = (c as u32) - ('0' as u32);
        if acc > (u32::MAX - d) / 10 {
            proof {
                assert(tail[i - from] == c);
                assert(spec_number_value(tail, i - from + 1) == (acc as int) * 10 + d);
                assert((acc as int) * 10 + d > u32::MAX) by (nonlinear_arith)
                    requires
                        acc as int > ((u32::MAX as int) - d) / 10,
                        0 <= d <= 9,
                ;
                if spec_parses_u32(tail) {
                    lemma_number_value_grows(tail, i - from + 1, tail.len() as int);
                }
            }
            return Option::None;
        }
        proof {
            assert(tail[i - from] == c);
            assert((acc as int) * 10 + d <= u32::MAX) by (nonlinear_arith)
                requires
                    acc as int <= ((u32::MAX as int) - d) / 10,
                    0 <= d <= 9,
            ;
        }
        acc = acc * 10 + d;
        i = i + 1;
    }
    Option::Some(acc)
}

/// The normalized port name: if the uppercased name is `COM` followed by a
/// number above 9, the Windows device-path form `\\.\COMnn` of the
/// uppercased name; otherwise the name unchanged.
///
/// Deliberately stricter than a general integer parse: the suffix must be
/// plain decimal digits (a signed suffix such as `COM+10` would make an
/// invalid device path, so it is left unchanged), and the uppercasing is
/// ASCII, which covers every real port name.
pub open spec fn spec_normalize_port(s: Seq<char>) -> Seq<char> {
    let up = spec_upper(s);
    if up.len() >= 3 && up[0] == 'C' && up[1] == 'O' && up[2] == 'M' && spec_parses_u32(up.skip(3))
        && spec_number_value(up.skip(3), up.len() - 3) > 9 {
        seq!['\\', '\\', '.', '\\'] + up
    } else {
        s
    }
}

/// Normalizes a serial port name for hosts that need the Windows
/// device-path form for COM ports numbered above 9.
pub fn normalize_com_port(port: &String) -> (r: String)
    ensures
        r@ == spec_normalize_port(port@),
{
    let chars = chars_of(port.as_str());
    let up = upper_chars(&chars);
    let n = up.len();
    let mut needs_prefix = false;
    if n >= 3 {
        if up[0] == 'C' && up[1] == 'O' && up[2] == 'M' {
            let parsed = parse_u32_from(&up, 3);
            match parsed {
                Option::Some(num) => {
                    if num > 9 {
                        needs_prefix = true;
                    }
                },
                Option::None => {},
            }
        }
    }
    if needs_prefix {
        let mut out: Vec<char> = Vec::new();
        out.push('\\');
        out.push('\\');
        out.push('.');
        out.push('\\');
        let m = up.len();
        let mut i: usize = 0;
        while i < m
            invariant
                m == up@.len(),
                0 <= i <= m,
                out@ == seq!['\\', '\\', '.', '\\'] + up@.subrange(0, i as int),
            decreases m - i,
        {
            out.push(up[i]);
            proof {
                assert(seq!['\\', '\\', '.', '\\'] + up@.subrange(0, i + 1) =~= (seq![
                    '\\',
                    '\\',
                    '.',
                    '\\',
                ] + up@.subrange(0, i as int)).push(up@[i as int]));
            }
            i = i + 1;
        }
        proof {
            assert(up@.subrange(0, m as int) =~= up@);
        }
        string_of(&out)
    } else {
        let copy = crate::layout_engine::copy_chars(&chars);
        string_of(&copy)
    }
}

} // verus!
