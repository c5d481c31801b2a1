//! What holds of the searches for every text and every query.

use vstd::prelude::*;
use crate::text::{contains_text, first_newline, folded, lines_of, occurs_at, strip_cr};
use crate::search::{
    holds_exactly, holds_folded, matches_view, numbered, search_case_insensitive_spec,
    search_spec, MatchModel,
};

verus! {

/// Every entry of a filtered numbering is one of the numbered lines and
/// passes the filter's test.
pub proof fn lemma_kept_entry(lines: Seq<Seq<char>>, keep: spec_fn(MatchModel) -> bool, j: int)
    requires
        0 <= j < numbered(lines).filter(keep).len(),
    ensures
        ({
            let m = numbered(lines).filter(keep)[j];
            &&& 1 <= m.0 <= lines.len()
            &&& m.1 == lines[m.0 - 1]
            &&& keep(m)
        }),
{
    let all = numbered(lines);
    let m = all.filter(keep)[j];
    all.lemma_filter_pred(keep, j);
    assert(all.filter(keep).contains(m));
    all.lemma_filter_contains_rev(keep, m);
    let k = choose|k: int| 0 <= k < all.len() && all[k] == m;
    assert(m.0 == k + 1);
}

/// Every numbered line that passes the filter's test is an entry of the
/// filtered numbering.
pub proof fn lemma_passing_line_kept(
    lines: Seq<Seq<char>>,
    keep: spec_fn(MatchModel) -> bool,
    k: int,
)
    requires
        0 <= k < lines.len(),
        keep(((k + 1) as nat, lines[k])),
    ensures
        numbered(lines).filter(keep).contains(((k + 1) as nat, lines[k])),
{
    let all = numbered(lines);
    assert(all[k] == ((k + 1) as nat, lines[k]));
    all.lemma_filter_contains(keep, k);
}

/// The entries that a filter keeps of the first `n` numbered lines carry
/// numbers up to `n`, each greater than the one before.
pub proof fn lemma_kept_ascending(
    lines: Seq<Seq<char>>,
    keep: spec_fn(MatchModel) -> bool,
    n: int,
)
    requires
        0 <= n <= lines.len(),
    ensures
        forall|i: int|
            0 <= i < numbered(lines).take(n).filter(keep).len() ==> (#[trigger] numbered(
                lines,
            ).take(n).filter(keep)[i]).0 <= n,
        forall|i: int, j: int|
            0 <= i < j < numbered(lines).take(n).filter(keep).len() ==> (#[trigger] numbered(
                lines,
            ).take(n).filter(keep)[i]).0 < (#[trigger] numbered(lines).take(n).filter(keep)[j]).0,
    decreases n,
{
    reveal(Seq::filter);
    let now = numbered(lines).take(n);
    if n > 0 {
        let before = numbered(lines).take(n - 1);
        lemma_kept_ascending(lines, keep, n - 1);
        assert(now.drop_last() =~= before);
        assert(now.last().0 == n);
        let kept = before.filter(keep);
        assert(now.filter(keep) == if keep(now.last()) {
            kept.push(now.last())
        } else {
            kept
        });
        assert forall|i: int| 0 <= i < now.filter(keep).len() implies (#[trigger] now.filter(
            keep,
        )[i]).0 <= n by {
            if i < kept.len() {
                assert(kept[i].0 <= n - 1);
            }
        }
        assert forall|i: int, j: int| 0 <= i < j < now.filter(keep).len() implies (
        #[trigger] now.filter(keep)[i]).0 < (#[trigger] now.filter(keep)[j]).0 by {
            assert(kept[i].0 <= n - 1);
            if j < kept.len() {
                assert(kept[i].0 < kept[j].0);
            }
        }
    } else {
        assert(now.filter(keep).len() == 0);
    }
}

/// A filter whose test every entry passes keeps the sequence as it is.
pub proof fn lemma_filter_keeps_all(all: Seq<MatchModel>, keep: spec_fn(MatchModel) -> bool)
    requires
        forall|i: int| 0 <= i < all.len() ==> keep(#[trigger] all[i]),
    ensures
        all.filter(keep) == all,
    decreases all.len(),
{
    reveal(Seq::filter);
    if all.len() > 0 {
        lemma_filter_keeps_all(all.drop_last(), keep);
        assert(all.drop_last().push(all.last()) =~= all);
    } else {
        assert(all.filter(keep) =~= all);
    }
}

/// Each match of the case-sensitive search carries a line number that lies
/// in the text, the line that stands there, and that line holds the query
/// character for character.
pub proof fn law_search_sound(text: Seq<char>, query: Seq<char>, j: int)
    requires
        0 <= j < search_spec(text, query).len(),
    ensures
        ({
            let m = search_spec(text, query)[j];
            &&& 1 <= m.0 <= lines_of(text).len()
            &&& m.1 == lines_of(text)[m.0 - 1]
            &&& contains_text(m.1, query)
        }),
{
    lemma_kept_entry(lines_of(text), holds_exactly(query), j);
}

/// Each match of the case-insensitive search carries a line number that lies
/// in the text, the line that stands there, and the lower-casing of that
/// line holds the lower-casing of the query.
pub proof fn law_search_case_insensitive_sound(text: Seq<char>, query: Seq<char>, j: int)
    requires
        0 <= j < search_case_insensitive_spec(text, query).len(),
    ensures
        ({
            let m = search_case_insensitive_spec(text, query)[j];
            &&& 1 <= m.0 <= lines_of(text).len()
            &&& m.1 == lines_of(text)[m.0 - 1]
            &&& contains_text(folded(m.1), folded(query))
        }),
{
    lemma_kept_entry(lines_of(text), holds_folded(query), j);
}

/// No line that holds the query is left out, by either search.
pub proof fn law_search_complete(text: Seq<char>, query: Seq<char>, k: int)
    requires
        0 <= k < lines_of(text).len(),
    ensures
        contains_text(lines_of(text)[k], query) ==> search_spec(text, query).contains(
            ((k + 1) as nat, lines_of(text)[k]),
        ),
        contains_text(folded(lines_of(text)[k]), folded(query))
            ==> search_case_insensitive_spec(text, query).contains(
            ((k + 1) as nat, lines_of(text)[k]),
        ),
{
    let lines = lines_of(text);
    if contains_text(lines[k], query) {
        lemma_passing_line_kept(lines, holds_exactly(query), k);
    }
    if contains_text(folded(lines[k]), folded(query)) {
        lemma_passing_line_kept(lines, holds_folded(query), k);
    }
}

/// Both searches return their matches in the order of the text: the line
/// numbers ascend, and no line is returned twice.
pub proof fn law_matches_ascend(text: Seq<char>, query: Seq<char>, i: int, j: int)
    requires
        0 <= i < j,
    ensures
        j < search_spec(text, query).len() ==> search_spec(text, query)[i].0 < search_spec(
            text,
            query,
        )[j].0,
        j < search_case_insensitive_spec(text, query).len() ==> search_case_insensitive_spec(
            text,
            query,
        )[i].0 < search_case_insensitive_spec(text, query)[j].0,
{
    let lines = lines_of(text);
    assert(numbered(lines).take(lines.len() as int) =~= numbered(lines));
    lemma_kept_ascending(lines, holds_exactly(query), lines.len() as int);
    lemma_kept_ascending(lines, holds_folded(query), lines.len() as int);
}

/// Lower-casing loses no occurrence of `query` in the lines of `text`: each
/// line that holds the query still holds it after both are lower-cased.
/// Unicode lower-casing depends on the neighbouring characters (a capital
/// sigma at the end of a word becomes the final form), so this is a property
/// of a text and a query, not of all of them.
pub open spec fn folding_keeps_occurrences(text: Seq<char>, query: Seq<char>) -> bool {
    forall|k: int|
        0 <= k < lines_of(text).len() && contains_text(#[trigger] lines_of(text)[k], query)
            ==> contains_text(folded(lines_of(text)[k]), folded(query))
}

/// Where lower-casing loses no occurrence of the query, every match of the
/// case-sensitive search is a match of the case-insensitive search too.
pub proof fn law_case_insensitive_finds_more(text: Seq<char>, query: Seq<char>, j: int)
    requires
        folding_keeps_occurrences(text, query),
        0 <= j < search_spec(text, query).len(),
    ensures
        search_case_insensitive_spec(text, query).contains(search_spec(text, query)[j]),
{
    let lines = lines_of(text);
    let m = search_spec(text, query)[j];
    law_search_sound(text, query, j);
    let k = m.0 - 1;
    assert(contains_text(lines[k], query));
    lemma_passing_line_kept(lines, holds_folded(query), k);
}

/// Two outcomes of one search on the same text and query are the same list
/// of matches: equally long, with the same numbers and the same lines at
/// every position.
pub proof fn law_search_repeatable(
    first: Seq<(usize, &str)>,
    second: Seq<(usize, &str)>,
    expected: Seq<MatchModel>,
)
    requires
        matches_view(first) == expected,
        matches_view(second) == expected,
    ensures
        first.len() == second.len(),
        forall|i: int|
            0 <= i < first.len() ==> (#[trigger] first[i]).0 == second[i].0 && first[i].1@
                == second[i].1@,
{
    assert(matches_view(first).len() == first.len());
    assert(matches_view(second).len() == second.len());
    assert forall|i: int| 0 <= i < first.len() implies (#[trigger] first[i]).0 == second[i].0
        && first[i].1@ == second[i].1@ by {
        assert(matches_view(first)[i] == matches_view(second)[i]);
    }
}

/// The empty query is found in every line: both searches return each line of
/// the text once, in order, under its number.
pub proof fn law_empty_query_matches_every_line(text: Seq<char>, query: Seq<char>)
    requires
        query.len() == 0,
    ensures
        search_spec(text, query) == numbered(lines_of(text)),
        search_case_insensitive_spec(text, query) == numbered(lines_of(text)),
{
    let all = numbered(lines_of(text));
    assert forall|i: int| 0 <= i < all.len() implies holds_exactly(query)(#[trigger] all[i]) by {
        assert(all[i].1.subrange(0, 0) =~= query);
        assert(occurs_at(all[i].1, query, 0));
    }
    assert forall|i: int| 0 <= i < all.len() implies holds_folded(query)(#[trigger] all[i]) by {
        let line = folded(all[i].1);
        assert(line.subrange(0, 0) =~= folded(query));
        assert(occurs_at(line, folded(query), 0));
    }
    lemma_filter_keeps_all(all, holds_exactly(query));
    lemma_filter_keeps_all(all, holds_folded(query));
}

/// The first line feed lies inside the text or at its end; nothing in front
/// of it is a line feed.
pub proof fn lemma_first_newline(s: Seq<char>)
    ensures
        first_newline(s) <= s.len(),
        first_newline(s) < s.len() ==> s[first_newline(s) as int] == '\n',
        forall|i: int| 0 <= i < first_newline(s) ==> s[i] != '\n',
    decreases s.len(),
{
    if s.len() == 0 || s[0] == '\n' {
    } else {
        let rest = s.drop_first();
        lemma_first_newline(rest);
        assert forall|i: int| 0 <= i < first_newline(s) implies s[i] != '\n' by {
            if i > 0 {
                assert(s[i] == rest[i - 1]);
            }
        }
    }
}

/// A character added at the end does not move a line feed that is already
/// there.
pub proof fn lemma_first_newline_push(s: Seq<char>, c: char)
    ensures
        first_newline(s) < s.len() ==> first_newline(s.push(c)) == first_newline(s),
        first_newline(s) >= s.len() && c == '\n' ==> first_newline(s.push(c)) == s.len(),
    decreases s.len(),
{
    if s.len() == 0 {
        assert(s.push(c).drop_first().len() == 0);
    } else if s[0] == '\n' {
    } else {
        lemma_first_newline_push(s.drop_first(), c);
        assert(s.push(c).drop_first() =~= s.drop_first().push(c));
    }
}

/// No line of a text holds a line feed.
pub proof fn law_lines_hold_no_line_feed(text: Seq<char>, i: int, j: int)
    requires
        0 <= i < lines_of(text).len(),
        0 <= j < lines_of(text)[i].len(),
    ensures
        lines_of(text)[i][j] != '\n',
    decreases text.len(),
{
    let k = first_newline(text) as int;
    lemma_first_newline(text);
    if k < text.len() {
        let rest = text.skip(k + 1);
        if i == 0 {
            assert(lines_of(text)[0] == strip_cr(text.take(k)));
            assert(strip_cr(text.take(k))[j] == text[j]);
        } else {
            assert(lines_of(text)[i] == lines_of(rest)[i - 1]);
            law_lines_hold_no_line_feed(rest, i - 1, j);
        }
    } else {
        assert(lines_of(text) =~= seq![text]);
    }
}

/// A line feed added to a text that is not empty and does not end in one
/// adds no line: the number of lines stays. Unless the text ends in a
/// carriage return, which the new line feed then takes with it, the lines
/// themselves stay, and with them what both searches find.
pub proof fn law_trailing_newline(text: Seq<char>)
    requires
        text.len() > 0,
        text.last() != '\n',
    ensures
        lines_of(text.push('\n')).len() == lines_of(text).len(),
        text.last() != '\r' ==> lines_of(text.push('\n')) == lines_of(text),
        text.last() != '\r' ==> forall|query: Seq<char>|
            #![trigger search_spec(text.push('\n'), query)]
            #![trigger search_case_insensitive_spec(text.push('\n'), query)]
            search_spec(text.push('\n'), query) == search_spec(text, query)
                && search_case_insensitive_spec(text.push('\n'), query)
                == search_case_insensitive_spec(text, query),
    decreases text.len(),
{
    let longer = text.push('\n');
    let k = first_newline(text) as int;
    lemma_first_newline(text);
    lemma_first_newline_push(text, '\n');
    if k < text.len() {
        let rest = text.skip(k + 1);
        assert(k != text.len() - 1);
        assert(rest.last() == text.last());
        law_trailing_newline(rest);
        assert(longer.take(k) =~= text.take(k));
        assert(longer.skip(k + 1) =~= rest.push('\n'));
        assert(lines_of(longer) == seq![strip_cr(text.take(k))] + lines_of(rest.push('\n')));
        assert(lines_of(text) == seq![strip_cr(text.take(k))] + lines_of(rest));
    } else {
        assert(longer.take(k) =~= text);
        assert(longer.skip(k + 1).len() == 0);
        assert(lines_of(longer.skip(k + 1)) =~= Seq::<Seq<char>>::empty());
        assert(lines_of(longer) =~= seq![strip_cr(text)]);
        assert(lines_of(text) =~= seq![text]);
    }
}

} // verus!
