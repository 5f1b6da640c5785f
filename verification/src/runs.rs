//! Directional-run segmentation: splits a line of text into maximal runs of
//! two classes (right-to-left Arabic script, or left-to-right ASCII / digits /
//! number punctuation), preserving logical order.

use vstd::prelude::*;

verus! {

/// Character classification for directional-run segmentation: ASCII,
/// Arabic-Indic digits, Eastern Arabic-Indic digits, and a small set of
/// separators that attach to numbers all form left-to-right runs; everything
/// else (in particular Arabic letters) forms right-to-left runs.
pub open spec fn spec_is_ltr_char(c: char) -> bool {
    c <= '\u{007F}'
        || ('\u{0660}' <= c && c <= '\u{0669}')
        || ('\u{06F0}' <= c && c <= '\u{06F9}')
        || c == ':' || c == '.' || c == '/' || c == '-'
        || c == '\u{2013}' || c == '\u{2014}' || c == ','
}

/// True for characters that should be laid out left-to-right inside a
/// mixed-direction line.
pub fn is_ltr_char(c: char) -> (r: bool)
    ensures
        r == spec_is_ltr_char(c),
{
    c <= '\u{007F}'
        || ('\u{0660}' <= c && c <= '\u{0669}')
        || ('\u{06F0}' <= c && c <= '\u{06F9}')
        || c == ':' || c == '.' || c == '/' || c == '-'
        || c == '\u{2013}' || c == '\u{2014}' || c == ','
}

/// A maximal substring of one direction class, in logical order.
pub struct Run {
    /// True if this run is left-to-right, false if right-to-left.
    pub is_ltr: bool,
    /// The run's characters, in logical order.
    pub chars: Vec<char>,
}

/// A well-formed run is non-empty and all its characters are of the run's class.
pub open spec fn run_wf(r: Run) -> bool {
    &&& r.chars@.len() > 0
    &&& forall|i: int| 0 <= i < r.chars@.len() ==> spec_is_ltr_char(#[trigger] r.chars@[i]) == r.is_ltr
}

/// The concatenation of the runs' characters, in order.
pub open spec fn runs_text(rs: Seq<Run>) -> Seq<char>
    decreases rs.len(),
{
    if rs.len() == 0 {
        Seq::empty()
    } else {
        runs_text(rs.drop_last()) + rs.last().chars@
    }
}

/// Runs alternate direction classes, so each is maximal.
pub open spec fn runs_alternate(rs: Seq<Run>) -> bool {
    forall|i: int| 0 <= i < rs.len() - 1 ==> (#[trigger] rs[i].is_ltr) != rs[i + 1].is_ltr
}

/// All runs in the sequence are well-formed.
pub open spec fn runs_wf(rs: Seq<Run>) -> bool {
    forall|i: int| 0 <= i < rs.len() ==> run_wf(#[trigger] rs[i])
}

proof fn lemma_runs_text_push(rs: Seq<Run>, r: Run)
    ensures
        runs_text(rs.push(r)) == runs_text(rs) + r.chars@,
{
    assert(rs.push(r).drop_last() =~= rs);
    assert(rs.push(r).last() == r);
}

/// Splits a line into maximal directional runs, preserving logical order.
///
/// Concatenating the runs in order reproduces the input exactly: no character
/// is dropped or duplicated. An empty input yields zero runs.
pub fn segment_runs(chars: &Vec<char>) -> (runs: Vec<Run>)
    ensures
        runs_text(runs@) == chars@,
        runs_wf(runs@),
        runs_alternate(runs@),
        chars@.len() == 0 ==> runs@.len() == 0,
{
    let mut runs: Vec<Run> = Vec::new();
    let mut cur: Vec<char> = Vec::new();
    let mut cur_is_ltr: bool = false;
    let n = chars.len();
    let mut i: usize = 0;
    while i < n
        invariant
            n == chars@.len(),
            0 <= i <= n,
            runs_text(runs@) + cur@ == chars@.subrange(0, i as int),
            runs_wf(runs@),
            runs_alternate(runs@),
            forall|k: int| 0 <= k < cur@.len() ==> spec_is_ltr_char(#[trigger] cur@[k]) == cur_is_ltr,
            cur@.len() == 0 ==> (runs@.len() == 0 && i == 0),
            runs@.len() > 0 ==> (cur@.len() > 0 && runs@.last().is_ltr != cur_is_ltr),
        decreases n - i,
    {
        let c = chars[i];
        let ltr = is_ltr_char(c);
        if cur.len() == 0 {
            cur_is_ltr = ltr;
            cur.push(c);
        } else if ltr == cur_is_ltr {
            cur.push(c);
        } else {
            let done = Run { is_ltr: cur_is_ltr, chars: cur };
            proof {
                lemma_runs_text_push(runs@, done);
            }
            runs.push(done);
            cur = Vec::new();
            cur.push(c);
            cur_is_ltr = ltr;
        }
        i = i + 1;
        proof {
            assert(chars@.subrange(0, i as int) =~= chars@.subrange(0, i - 1) + seq![chars@[i - 1]]);
        }
    }
    proof {
        assert(chars@.subrange(0, n as int) =~= chars@);
    }
    if cur.len() > 0 {
        let done = Run { is_ltr: cur_is_ltr, chars: cur };
        proof {
            lemma_runs_text_push(runs@, done);
        }
        runs.push(done);
    }
    runs
}

} // verus!
