//! How a match is written: `Line`, the line number in decimal with at least
//! two digits, a colon, a space, and the line.

use vstd::prelude::*;
use vstd::string::StringExecFns;
use crate::config::Config;
use crate::search::{
    matches_view, search, search_case_insensitive, search_case_insensitive_spec, search_spec,
    MatchModel,
};

verus! {

/// The character of a decimal digit.
pub open spec fn digit_char(d: nat) -> char {
    if d == 0 {
        '0'
    } else if d == 1 {
        '1'
    } else if d == 2 {
        '2'
    } else if d == 3 {
        '3'
    } else if d == 4 {
        '4'
    } else if d == 5 {
        '5'
    } else if d == 6 {
        '6'
    } else if d == 7 {
        '7'
    } else if d == 8 {
        '8'
    } else {
        '9'
    }
}

/// A number in decimal, without leading zeros.
pub open spec fn decimal(n: nat) -> Seq<char>
    decreases n,
{
    if n < 10 {
        seq![digit_char(n)]
    } else {
        decimal(n / 10).push(digit_char(n % 10))
    }
}

/// A number in decimal, with a zero in front of a single digit.
pub open spec fn padded_decimal(n: nat) -> Seq<char> {
    if n < 10 {
        seq!['0', digit_char(n)]
    } else {
        decimal(n)
    }
}

/// The output line for the match `(number, line)`.
pub open spec fn match_line(number: nat, line: Seq<char>) -> Seq<char> {
    "Line "@ + padded_decimal(number) + ": "@ + line
}

/// The output lines for a list of matches, in its order.
pub open spec fn report(found: Seq<MatchModel>) -> Seq<Seq<char>> {
    Seq::new(found.len(), |i: int| match_line(found[i].0, found[i].1))
}

/// What a run prints for a text: the report of the search that the
/// configuration selects.
pub open spec fn run_spec(query: Seq<char>, ignore_case: bool, text: Seq<char>) -> Seq<
    Seq<char>,
> {
    if ignore_case {
        report(search_case_insensitive_spec(text, query))
    } else {
        report(search_spec(text, query))
    }
}

/// The characters of each string.
pub open spec fn strings_view(lines: Seq<String>) -> Seq<Seq<char>> {
    Seq::new(lines.len(), |i: int| lines[i]@)
}

/// The one-character text of a decimal digit.
fn digit_str(d: usize) -> (s: &'static str)
    requires
        d < 10,
    ensures
        s@ == seq![digit_char(d as nat)],
{
    proof {
        reveal_strlit("0");
        reveal_strlit("1");
        reveal_strlit("2");
        reveal_strlit("3");
        reveal_strlit("4");
        reveal_strlit("5");
        reveal_strlit("6");
        reveal_strlit("7");
        reveal_strlit("8");
        reveal_strlit("9");
    }
    let s = if d == 0 {
        "0"
    } else if d == 1 {
        "1"
    } else if d == 2 {
        "2"
    } else if d == 3 {
        "3"
    } else if d == 4 {
        "4"
    } else if d == 5 {
        "5"
    } else if d == 6 {
        "6"
    } else if d == 7 {
        "7"
    } else if d == 8 {
        "8"
    } else {
        "9"
    };
    assert(s@ =~= seq![digit_char(d as nat)]);
    s
}

/// Appends the decimal digits of `n` to `out`.
pub fn push_decimal(out: &mut String, n: usize)
    ensures
        final(out)@ == old(out)@ + decimal(n as nat),
    decreases n,
{
    if n >= 10 {
        push_decimal(out, n / 10);
    }
    out.append(digit_str(n % 10));
    assert(out@ =~= old(out)@ + decimal(n as nat));
}

/// Writes one match as an output line: the line number takes at least two
/// digits, and as many as it needs.
pub fn format_match(number: usize, line: &str) -> (out: String)
    ensures
        out@ == match_line(number as nat, line@),
{
    let mut out = String::from_str("Line ");
    if number < 10 {
        out.append("0");
        proof {
            reveal_strlit("0");
        }
    }
    push_decimal(&mut out, number);
    out.append(": ");
    out.append(line);
    assert(out@ =~= match_line(number as nat, line@));
    out
}

/// Searches `text` as `config` says, case-insensitively or not, and returns
/// the output lines of the matches in the order of the text.
pub fn run(config: &Config, text: &str) -> (lines: Vec<String>)
    ensures
        strings_view(lines@) == run_spec(config.query@, config.ignore_case, text@),
{
    let found = if config.ignore_case {
        search_case_insensitive(text, config.query.as_str())
    } else {
        search(text, config.query.as_str())
    };
    let mut lines: Vec<String> = Vec::new();
    let mut i: usize = 0;
    while i < found.len()
        invariant
            i <= found.len(),
            lines@.len() == i,
            forall|j: int|
                0 <= j < i ==> (#[trigger] lines@[j])@ == match_line(
                    found@[j].0 as nat,
                    found@[j].1@,
                ),
        decreases found.len() - i,
    {
        let (number, line) = found[i];
        lines.push(format_match(number, line));
        i += 1;
    }
    assert(strings_view(lines@) =~= report(matches_view(found@)));
    lines
}

} // verus!
