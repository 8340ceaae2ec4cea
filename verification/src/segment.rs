use vstd::prelude::*;
use vstd::string::*;
use unicode_segmentation::UnicodeSegmentation;
use unicode_width::UnicodeWidthStr;

verus! {

/// The sequence of extended grapheme clusters of a text, in order, as
/// unicode_segmentation's `graphemes(true)` splits it.
pub uninterp spec fn grapheme_split(s: Seq<char>) -> Seq<Seq<char>>;

/// The display width in terminal columns of a piece of text, as
/// unicode_width's `UnicodeWidthStr::width` measures it.
pub uninterp spec fn width_of(s: Seq<char>) -> nat;

/// A character of the Unicode vertical-whitespace set, or CR, or LF: one
/// that ends a line wherever it stands.
pub open spec fn is_breaking_char(c: char) -> bool {
    c == '\n' || c == '\u{000B}' || c == '\u{000C}' || c == '\r' || c == '\u{0085}'
        || c == '\u{2028}' || c == '\u{2029}'
}

/// Whether a piece of text holds a line-ending character anywhere.
pub open spec fn has_breaking_char(s: Seq<char>) -> bool {
    exists|k: int| 0 <= k < s.len() && #[trigger] is_breaking_char(s[k])
}

/// Splits a text into its extended grapheme clusters.
///
/// Relies on unicode_segmentation's `UnicodeSegmentation::graphemes` with
/// `is_extended = true`: the clusters are consecutive, nonempty substrings
/// of the input whose concatenation is the input itself; and since UAX #29
/// breaks on both sides of CR, LF and Control characters (pairing CR LF),
/// a cluster holding a line-ending character is CR LF or that single
/// character — a line terminator stands as a cluster of its own.
#[verifier::external_body]
pub(crate) fn split_graphemes(s: &str) -> (r: Vec<String>)
    ensures
        r.deep_view() == grapheme_split(s@),
        r.deep_view().flatten() == s@,
        forall|i: int| 0 <= i < r.deep_view().len() ==> (#[trigger] r.deep_view()[i]).len() > 0,
        forall|i: int|
            0 <= i < r.deep_view().len() && has_breaking_char(#[trigger] r.deep_view()[i])
                ==> is_linebreak_spec(r.deep_view()[i]),
{
    s.graphemes(true).map(|g| g.to_string()).collect()
}

/// Measures the display width of a piece of text.
///
/// Relies on unicode_width's `UnicodeWidthStr::width`: the width is a
/// function of the characters alone.
#[verifier::external_body]
pub(crate) fn measure_width(s: &str) -> (r: usize)
    ensures
        r == width_of(s@),
{
    s.width()
}

/// A grapheme cluster is a line terminator exactly when it is CR LF, or a
/// single line-ending character.
pub open spec fn is_linebreak_spec(s: Seq<char>) -> bool {
    ||| (s.len() == 1 && is_breaking_char(s[0]))
    ||| (s.len() == 2 && s[0] == '\r' && s[1] == '\n')
}

/// Decides whether a grapheme cluster closes the current line.
pub fn is_linebreak(s: &str) -> (r: bool)
    ensures
        r == is_linebreak_spec(s@),
{
    let n = s.unicode_len();
    if n == 1 {
        let c = s.get_char(0);
        c == '\n' || c == '\u{000B}' || c == '\u{000C}' || c == '\r' || c == '\u{0085}'
            || c == '\u{2028}' || c == '\u{2029}'
    } else if n == 2 {
        s.get_char(0) == '\r' && s.get_char(1) == '\n'
    } else {
        false
    }
}

} // verus!
