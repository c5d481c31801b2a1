use custom_grep::search::record_if_match;
use custom_grep::text::fold_case;
use custom_grep::{search, search_case_insensitive};

const POEM: &str = "\
I'm nobody! Who are you?
Are you nobody, too?
Then there's a pair of us - don't tell!
They'd banish us, you know.

How dreary to be somebody!
How public, like a frog
To tell your name the livelong day
To an admiring bog!";

#[test]
fn case_sensitive() {
    let query = "to";
    let text = "\
I'm nobody! Who are you?
Are you nobody, too?
Then there's a pair of us - don't tell!
They'd banish us, you know.

How dreary to be somebody!
How public, like a frog
To tell your name the livelong day
To an admiring bog!";

    assert_eq!(
        vec![
            (2, "Are you nobody, too?"),
            (6, "How dreary to be somebody!"),
        ],
        search(text, query),
    );
}

#[test]
fn case_insensitive() {
    let query = "To";
    let text = "\
I'm nobody! Who are you?
Are you nobody, too?
Then there's a pair of us - don't tell!
They'd banish us, you know.

How dreary to be somebody!
How public, like a frog
To tell your name the livelong day
To an admiring bog!";

    assert_eq!(
        vec![
            (2, "Are you nobody, too?"),
            (6, "How dreary to be somebody!"),
            (8, "To tell your name the livelong day"),
            (9, "To an admiring bog!"),
        ],
        search_case_insensitive(text, query),
    );
}

#[test]
fn empty_text_has_no_matches() {
    assert_eq!(search("", "to"), Vec::<(usize, &str)>::new());
    assert_eq!(search_case_insensitive("", "to"), Vec::<(usize, &str)>::new());
    assert_eq!(search("", ""), Vec::<(usize, &str)>::new());
    assert_eq!(search_case_insensitive("", ""), Vec::<(usize, &str)>::new());
}

#[test]
fn absent_query_has_no_matches() {
    assert_eq!(search(POEM, "zebra"), Vec::<(usize, &str)>::new());
    assert_eq!(search_case_insensitive(POEM, "ZEBRA"), Vec::<(usize, &str)>::new());
}

#[test]
fn exact_search_respects_case() {
    assert_eq!(
        search(POEM, "To"),
        vec![(8, "To tell your name the livelong day"), (9, "To an admiring bog!")],
    );
}

#[test]
fn matches_hold_the_query_at_their_line() {
    let lines: Vec<&str> = POEM.split('\n').collect();
    let found = search(POEM, "you");
    assert_eq!(found.len(), 4);
    for (number, line) in found {
        assert!(number >= 1 && number <= lines.len());
        assert_eq!(lines[number - 1], line);
        assert!(line.contains("you"));
    }
}

#[test]
fn matches_come_in_ascending_order() {
    let found = search_case_insensitive(POEM, "o");
    assert_eq!(found.len(), 8);
    for pair in found.windows(2) {
        assert!(pair[0].0 < pair[1].0);
    }
}

#[test]
fn case_insensitive_finds_what_exact_search_finds() {
    for query in ["to", "To", "you", "How", "!", "", "nobody"] {
        let exact = search(POEM, query);
        let folded = search_case_insensitive(POEM, query);
        for found in exact {
            assert!(folded.contains(&found));
        }
    }
}

#[test]
fn final_sigma_is_lost_by_lower_casing() {
    let text = "\u{0391}\u{03a3}";
    let query = "\u{03a3}";
    assert_eq!(search(text, query), vec![(1, text)]);
    assert_eq!(search_case_insensitive(text, query), Vec::<(usize, &str)>::new());
}

#[test]
fn searching_twice_gives_the_same_matches() {
    assert_eq!(search(POEM, "to"), search(POEM, "to"));
    assert_eq!(search_case_insensitive(POEM, "To"), search_case_insensitive(POEM, "To"));
}

#[test]
fn empty_query_matches_every_line() {
    let text = "one\n\nthree\n";
    let expected = vec![(1, "one"), (2, ""), (3, "three")];
    assert_eq!(search(text, ""), expected);
    assert_eq!(search_case_insensitive(text, ""), expected);
}

#[test]
fn trailing_newline_adds_no_line() {
    let without = "alpha\nbeta";
    let with = "alpha\nbeta\n";
    assert_eq!(search(without, ""), vec![(1, "alpha"), (2, "beta")]);
    assert_eq!(search(with, ""), vec![(1, "alpha"), (2, "beta")]);
    assert_eq!(search(without, "a"), search(with, "a"));
    assert_eq!(search_case_insensitive(without, "A"), search_case_insensitive(with, "A"));
}

#[test]
fn second_trailing_newline_is_an_empty_line() {
    assert_eq!(search("alpha\n\n", ""), vec![(1, "alpha"), (2, "")]);
    assert_eq!(search("\n", ""), vec![(1, "")]);
}

#[test]
fn carriage_return_before_line_feed_belongs_to_the_terminator() {
    assert_eq!(search("one\r\ntwo\r\n", ""), vec![(1, "one"), (2, "two")]);
    assert_eq!(search("one\r\ntwo", "o"), vec![(1, "one"), (2, "two")]);
    assert_eq!(search("one\r\n", "\r"), Vec::<(usize, &str)>::new());
}

#[test]
fn bare_carriage_return_stays_in_the_line() {
    assert_eq!(search("one\rtwo\nthree\r", ""), vec![(1, "one\rtwo"), (2, "three\r")]);
    assert_eq!(search("one\r\r\n", ""), vec![(1, "one\r")]);
}

#[test]
fn lines_come_back_as_written_when_case_is_ignored() {
    assert_eq!(
        search_case_insensitive("Rust\nTRUST me\ndust", "rUsT"),
        vec![(1, "Rust"), (2, "TRUST me")],
    );
}

#[test]
fn query_longer_than_line_is_not_found() {
    assert_eq!(search("ab\nabc", "abc"), vec![(2, "abc")]);
    assert_eq!(search("ab", "abc"), Vec::<(usize, &str)>::new());
}

#[test]
fn fold_case_lowers_letters() {
    assert_eq!(fold_case("To Be"), "to be");
    assert_eq!(fold_case(""), "");
    assert_eq!(fold_case("\u{00c4}b"), "\u{00e4}b");
}

#[test]
fn record_if_match_appends_only_on_a_match() {
    let mut found: Vec<(usize, &str)> = vec![(1, "first")];
    record_if_match(&mut found, 4, "Second", "second", "seco");
    assert_eq!(found, vec![(1, "first"), (4, "Second")]);
    record_if_match(&mut found, 5, "Third", "third", "Thi");
    assert_eq!(found, vec![(1, "first"), (4, "Second")]);
    record_if_match(&mut found, 6, "", "", "");
    assert_eq!(found, vec![(1, "first"), (4, "Second"), (6, "")]);
}
