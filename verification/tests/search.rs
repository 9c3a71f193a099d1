use minigrep::search;
use minigrep::search_case_insensitive;
use minigrep::search_with_policy;
use minigrep::split_lines;
use minigrep::CasePolicy;

#[test]
fn case_sensitive() {
    // arrange
    let query = "duct";
    let contents = "Rust:\nsafe, fast, productive.\nPick tree.\nDuct tape.";

    // act
    let result = search(query, contents);

    // assert
    assert_eq!(vec!["safe, fast, productive."], result);
}

#[test]
fn case_insensitive() {
    // arrange
    let query = "rUsT";
    let contents = "Rust:\nsafe, fast, productive.\nPick tree.\nTrust me.";

    // act
    let result = search_case_insensitive(&query, &contents);

    // assert
    assert_eq!(vec!["Rust:", "Trust me."], result)
}

#[test]
fn sensitive_scenario_skips_wrong_case() {
    let contents = "Rust:\nsafe, fast, productive.\nPick three.\nDuct tape.";
    assert_eq!(vec!["safe, fast, productive."], search("duct", contents));
}

#[test]
fn insensitive_scenario_keeps_original_casing() {
    let contents = "Rust:\nsafe, fast, productive.\nPick three.\nTrust me.";
    assert_eq!(vec!["Rust:", "Trust me."], search_case_insensitive("rUsT", contents));
}

#[test]
fn no_match_returns_empty() {
    let contents = "Rust:\nsafe, fast, productive.\nPick three.\nDuct tape.";
    assert_eq!(Vec::<&str>::new(), search("xyz123", contents));
    assert_eq!(Vec::<&str>::new(), search_case_insensitive("xyz123", contents));
}

#[test]
fn empty_document_returns_empty() {
    assert_eq!(Vec::<&str>::new(), search("anything", ""));
    assert_eq!(Vec::<&str>::new(), search_case_insensitive("anything", ""));
}

#[test]
fn empty_query_matches_every_line() {
    let contents = "first\nsecond\nthird";
    assert_eq!(vec!["first", "second", "third"], search("", contents));
    assert_eq!(vec!["first", "second", "third"], search_case_insensitive("", contents));
}

#[test]
fn empty_query_on_empty_document() {
    assert_eq!(Vec::<&str>::new(), search("", ""));
}

#[test]
fn query_case_permutation_is_irrelevant() {
    let contents = "Rust:\nsafe, fast, productive.\nPick three.\nTrust me.";
    let mixed = search_case_insensitive("rUsT", contents);
    let lowered = search_case_insensitive("rust", contents);
    let uppered = search_case_insensitive("RUST", contents);
    assert_eq!(mixed, lowered);
    assert_eq!(mixed, uppered);
}

#[test]
fn search_is_idempotent() {
    let contents = "Rust:\nsafe, fast, productive.\nPick three.\nTrust me.";
    assert_eq!(search("t", contents), search("t", contents));
    assert_eq!(search_case_insensitive("T", contents), search_case_insensitive("T", contents));
}

#[test]
fn trailing_newline_adds_no_line() {
    let without = "safe\nDuct tape.";
    let with = "safe\nDuct tape.\n";
    assert_eq!(split_lines(without), split_lines(with));
    assert_eq!(search("", without), search("", with));
    assert_eq!(search("a", without), search("a", with));
}

#[test]
fn carriage_returns_are_stripped() {
    assert_eq!(vec!["one", "two"], split_lines("one\r\ntwo\r\n"));
    assert_eq!(vec!["one", "two"], search("o", "one\r\ntwo\r\n"));
}

#[test]
fn split_lines_keeps_empty_lines_between_content() {
    assert_eq!(vec!["a", "", "b"], split_lines("a\n\nb"));
    assert_eq!(Vec::<&str>::new(), split_lines(""));
    assert_eq!(vec![""], split_lines("\n"));
}

#[test]
fn repeated_lines_are_all_returned() {
    let contents = "echo\nother\necho";
    assert_eq!(vec!["echo", "echo"], search("echo", contents));
}

#[test]
fn non_ascii_text_is_searched_exactly() {
    let contents = "h\u{e9}llo\nworld";
    assert_eq!(vec!["h\u{e9}llo"], search("\u{e9}", contents));
}

#[test]
fn non_ascii_letters_are_not_case_folded() {
    // The insensitive policy lowercases ASCII letters only.
    assert_eq!(Vec::<&str>::new(), search_case_insensitive("\u{c9}", "\u{e9}"));
}

#[test]
fn policy_selects_the_matching_search() {
    let contents = "Rust:\nsafe, fast, productive.\nPick three.\nTrust me.";
    assert_eq!(
        search("rUsT", contents),
        search_with_policy("rUsT", contents, CasePolicy::Sensitive)
    );
    assert_eq!(
        search_case_insensitive("rUsT", contents),
        search_with_policy("rUsT", contents, CasePolicy::Insensitive)
    );
}
