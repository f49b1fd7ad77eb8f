use crate::options::TextMeasure;
use vstd::prelude::*;
use vstd::string::StrSliceExecFns;

verus! {

/// The displayed width in terminal cells of a piece of Unicode text.
pub uninterp spec fn display_width(s: Seq<char>) -> nat;

/// Relies on `unicode_width::UnicodeWidthStr::width` for `str`: the displayed
/// width of the text in columns, which depends on its characters alone.
#[verifier::external_body]
fn unicode_display_width(s: &str) -> (r: usize)
    ensures
        r == display_width(s@),
{
    unicode_width::UnicodeWidthStr::width(s)
}

/// The columns that the text `s` takes under the measure `m`.
pub open spec fn text_width(m: TextMeasure, s: Seq<char>) -> nat {
    match m {
        TextMeasure::Chars => s.len(),
        TextMeasure::UnicodeWidth => display_width(s),
    }
}

/// Measures the columns that `text` takes.
pub fn measure_text_width(m: TextMeasure, text: &str) -> (r: usize)
    ensures
        r == text_width(m, text@),
{
    match m {
        TextMeasure::Chars => text.unicode_len(),
        TextMeasure::UnicodeWidth => unicode_display_width(text),
    }
}

} // verus!
