//! The two searches: every line of a text that contains a query, with its
//! one-based line number, in the order of the text.

use vstd::prelude::*;
use crate::laws::{law_search_case_insensitive_sound, law_search_sound};
use crate::text::{contains_text, fold_case, folded, has_substring, lines_of, split_lines};

verus! {

/// A match as the contracts see it: the one-based line number and the
/// characters of the line.
pub type MatchModel = (nat, Seq<char>);

/// Each line paired with its one-based number.
pub open spec fn numbered(lines: Seq<Seq<char>>) -> Seq<MatchModel> {
    Seq::new(lines.len(), |i: int| ((i + 1) as nat, lines[i]))
}

/// The test of the case-sensitive search: the line holds the query as it is.
pub open spec fn holds_exactly(query: Seq<char>) -> spec_fn(MatchModel) -> bool {
    |m: MatchModel| contains_text(m.1, query)
}

/// The test of the case-insensitive search: the lower-cased line holds the
/// lower-cased query.
pub open spec fn holds_folded(query: Seq<char>) -> spec_fn(MatchModel) -> bool {
    |m: MatchModel| contains_text(folded(m.1), folded(query))
}

/// What the case-sensitive search finds in a text.
pub open spec fn search_spec(text: Seq<char>, query: Seq<char>) -> Seq<MatchModel> {
    numbered(lines_of(text)).filter(holds_exactly(query))
}

/// What the case-insensitive search finds in a text.
pub open spec fn search_case_insensitive_spec(text: Seq<char>, query: Seq<char>) -> Seq<
    MatchModel,
> {
    numbered(lines_of(text)).filter(holds_folded(query))
}

/// The model of a list of matches.
pub open spec fn matches_view(found: Seq<(usize, &str)>) -> Seq<MatchModel> {
    Seq::new(found.len(), |i: int| (found[i].0 as nat, found[i].1@))
}

/// Appends the match `(number, line)` to `found` when `key` holds `query`,
/// and leaves `found` as it is otherwise. `key` is the text that is compared
/// in place of the line: the line itself, or its lower-casing.
pub fn record_if_match<'a>(
    found: &mut Vec<(usize, &'a str)>,
    number: usize,
    line: &'a str,
    key: &str,
    query: &str,
)
    ensures
        final(found)@ == if contains_text(key@, query@) {
            old(found)@.push((number, line))
        } else {
            old(found)@
        },
{
    if has_substring(key, query) {
        found.push((number, line));
    }
}

/// Filtering the first `i + 1` numbered lines extends the filtering of the
/// first `i` by the line at `i`, if that line passes the test.
proof fn lemma_filter_step(all: Seq<MatchModel>, keep: spec_fn(MatchModel) -> bool, i: int)
    requires
        0 <= i < all.len(),
    ensures
        all.take(i + 1).filter(keep) == if keep(all[i]) {
            all.take(i).filter(keep).push(all[i])
        } else {
            all.take(i).filter(keep)
        },
{
    reveal(Seq::filter);
    assert(all.take(i + 1).drop_last() =~= all.take(i));
}

/// Every line of `text` that contains `query`, character for character, with
/// its one-based line number, in the order of the text.
pub fn search<'a>(text: &'a str, query: &str) -> (found: Vec<(usize, &'a str)>)
    ensures
        matches_view(found@) == search_spec(text@, query@),
        forall|j: int|
            0 <= j < found@.len() ==> {
                &&& 1 <= (#[trigger] found@[j]).0 <= lines_of(text@).len()
                &&& found@[j].1@ == lines_of(text@)[found@[j].0 - 1]
                &&& contains_text(found@[j].1@, query@)
            },
{
    let lines = split_lines(text);
    let mut found: Vec<(usize, &'a str)> = Vec::new();
    let ghost all = numbered(lines_of(text@));
    let ghost keep = holds_exactly(query@);
    proof {
        reveal(Seq::filter);
        assert(all.take(0).filter(keep) =~= matches_view(found@));
    }
    let mut i: usize = 0;
    while i < lines.len()
        invariant
            i <= lines.len(),
            lines@.len() == lines_of(text@).len(),
            forall|j: int| 0 <= j < lines@.len() ==> (#[trigger] lines@[j])@ == lines_of(text@)[j],
            all == numbered(lines_of(text@)),
            keep == holds_exactly(query@),
            matches_view(found@) == all.take(i as int).filter(keep),
        decreases lines.len() - i,
    {
        let line = lines[i];
        let ghost before = found@;
        record_if_match(&mut found, i + 1, line, line, query);
        proof {
            lemma_filter_step(all, keep, i as int);
            assert(matches_view(before.push(((i + 1) as usize, line)))
                =~= matches_view(before).push(all[i as int]));
            assert(matches_view(found@) =~= all.take(i + 1).filter(keep));
        }
        i += 1;
    }
    proof {
        assert(all.take(i as int) =~= all);
        assert forall|j: int| 0 <= j < found@.len() implies {
            &&& 1 <= (#[trigger] found@[j]).0 <= lines_of(text@).len()
            &&& found@[j].1@ == lines_of(text@)[found@[j].0 - 1]
            &&& contains_text(found@[j].1@, query@)
        } by {
            law_search_sound(text@, query@, j);
            assert(matches_view(found@)[j] == (found@[j].0 as nat, found@[j].1@));
        }
    }
    found
}

/// Every line of `text` whose lower-casing contains the lower-casing of
/// `query`, with its one-based line number, in the order of the text. The
/// lines come back as they stand in the text, not lower-cased.
pub fn search_case_insensitive<'a>(text: &'a str, query: &str) -> (found: Vec<(usize, &'a str)>)
    ensures
        matches_view(found@) == search_case_insensitive_spec(text@, query@),
        forall|j: int|
            0 <= j < found@.len() ==> {
                &&& 1 <= (#[trigger] found@[j]).0 <= lines_of(text@).len()
                &&& found@[j].1@ == lines_of(text@)[found@[j].0 - 1]
                &&& contains_text(folded(found@[j].1@), folded(query@))
            },
{
    let needle = fold_case(query);
    let lines = split_lines(text);
    let mut found: Vec<(usize, &'a str)> = Vec::new();
    let ghost all = numbered(lines_of(text@));
    let ghost keep = holds_folded(query@);
    proof {
        reveal(Seq::filter);
        assert(all.take(0).filter(keep) =~= matches_view(found@));
    }
    let mut i: usize = 0;
    while i < lines.len()
        invariant
            i <= lines.len(),
            lines@.len() == lines_of(text@).len(),
            forall|j: int| 0 <= j < lines@.len() ==> (#[trigger] lines@[j])@ == lines_of(text@)[j],
            all == numbered(lines_of(text@)),
            keep == holds_folded(query@),
            needle@ == folded(query@),
            matches_view(found@) == all.take(i as int).filter(keep),
        decreases lines.len() - i,
    {
        let line = lines[i];
        let key = fold_case(line);
        let ghost before = found@;
        record_if_match(&mut found, i + 1, line, key.as_str(), needle.as_str());
        proof {
            lemma_filter_step(all, keep, i as int);
            assert(matches_view(before.push(((i + 1) as usize, line)))
                =~= matches_view(before).push(all[i as int]));
            assert(matches_view(found@) =~= all.take(i + 1).filter(keep));
        }
        i += 1;
    }
    proof {
        assert(all.take(i as int) =~= all);
        assert forall|j: int| 0 <= j < found@.len() implies {
            &&& 1 <= (#[trigger] found@[j]).0 <= lines_of(text@).len()
            &&& found@[j].1@ == lines_of(text@)[found@[j].0 - 1]
            &&& contains_text(folded(found@[j].1@), folded(query@))
        } by {
            law_search_case_insensitive_sound(text@, query@, j);
            assert(matches_view(found@)[j] == (found@[j].0 as nat, found@[j].1@));
        }
    }
    found
}

} // verus!
