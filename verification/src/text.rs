//! The mathematical model of text: lines, substring containment and
//! lower-casing, together with the standard-library calls that compute them.

use vstd::prelude::*;

verus! {

/// Number of characters in front of the first line feed of `s`; the length
/// of `s` when it holds no line feed.
pub open spec fn first_newline(s: Seq<char>) -> nat
    decreases s.len(),
{
    if s.len() == 0 || s[0] == '\n' {
        0
    } else {
        1 + first_newline(s.drop_first())
    }
}

/// A line without the carriage return that stood directly before its line feed.
pub open spec fn strip_cr(line: Seq<char>) -> Seq<char> {
    if line.len() > 0 && line.last() == '\r' {
        line.drop_last()
    } else {
        line
    }
}

/// The lines of a text. A line ends at a line feed, or at a carriage return
/// directly followed by a line feed; the terminator is not part of the line.
/// The last line needs no terminator, and a carriage return at its end, with
/// no line feed behind it, stays. The empty text has no lines.
pub open spec fn lines_of(s: Seq<char>) -> Seq<Seq<char>>
    decreases s.len(),
{
    let k = first_newline(s) as int;
    if s.len() == 0 {
        Seq::empty()
    } else if k < s.len() {
        seq![strip_cr(s.take(k))] + lines_of(s.skip(k + 1))
    } else {
        seq![s]
    }
}

/// `needle` stands in `hay` at position `at`.
pub open spec fn occurs_at(hay: Seq<char>, needle: Seq<char>, at: int) -> bool {
    &&& 0 <= at
    &&& at + needle.len() <= hay.len()
    &&& hay.subrange(at, at + needle.len()) == needle
}

/// `hay` holds `needle` as a contiguous run of characters. The empty needle
/// is held by every text.
pub open spec fn contains_text(hay: Seq<char>, needle: Seq<char>) -> bool {
    exists|at: int| occurs_at(hay, needle, at)
}

/// The Unicode lower-casing of a text, as `str::to_lowercase` computes it.
pub uninterp spec fn lowercase_of(s: Seq<char>) -> Seq<char>;

/// The text that case-insensitive comparison looks at: the lower-casing of
/// `s`, which for the empty text is the empty text.
pub open spec fn folded(s: Seq<char>) -> Seq<char> {
    if s.len() == 0 {
        s
    } else {
        lowercase_of(s)
    }
}

/// Calls `str::lines` and gathers what it yields.
///
/// Trusted: the slices handed back are, in order, exactly the lines that
/// `lines_of` describes for the text.
#[verifier::external_body]
pub(crate) fn split_lines<'a>(text: &'a str) -> (lines: Vec<&'a str>)
    ensures
        lines@.len() == lines_of(text@).len(),
        forall|i: int| 0 <= i < lines@.len() ==> (#[trigger] lines@[i])@ == lines_of(text@)[i],
{
    text.lines().collect()
}

/// Calls `str::contains` with a string pattern.
///
/// Trusted: the answer is `true` exactly when the needle's characters stand
/// somewhere in the haystack as a contiguous run.
#[verifier::external_body]
pub(crate) fn has_substring(hay: &str, needle: &str) -> (found: bool)
    ensures
        found == contains_text(hay@, needle@),
{
    hay.contains(needle)
}

/// Calls `str::to_lowercase`.
///
/// Trusted: the result depends on the characters of the argument alone, and
/// the lower-casing of the empty text is empty. Nothing else is claimed of
/// the Unicode mapping.
#[verifier::external_body]
pub(crate) fn lowercase(s: &str) -> (lower: String)
    ensures
        lower@ == lowercase_of(s@),
        s@.len() == 0 ==> lower@.len() == 0,
{
    s.to_lowercase()
}

/// Lower-cases a text for case-insensitive comparison.
pub fn fold_case(s: &str) -> (lower: String)
    ensures
        lower@ == folded(s@),
{
    let lower = lowercase(s);
    assert(s@.len() == 0 ==> lower@ =~= s@);
    lower
}

} // verus!
