use smista_router::estimator::estimate_tokens;
use smista_router::fuzzy::{fuzzy_cap, match_keyword, token_match, token_matches, tokenize, MatchKind};
use smista_router::text::{ascii_lowercase, lines, split};

fn tokens(text: &str) -> Vec<String> {
    tokenize(text)
}

#[test]
fn should_estimate_empty_text_as_zero_tokens() {
    assert_eq!(estimate_tokens(""), 0);
}

#[test]
fn should_round_up_short_text_to_at_least_one_token() {
    assert_eq!(estimate_tokens("a"), 1);
    assert_eq!(estimate_tokens("abcd"), 1);
    assert_eq!(estimate_tokens("abcde"), 2);
}

#[test]
fn should_estimate_by_character_count_not_bytes() {
    // A multi-byte char counts as one character, not its UTF-8 byte length.
    assert_eq!(estimate_tokens("é"), 1);
    assert_eq!(estimate_tokens("🦀🦀🦀🦀"), 1);
}

#[test]
fn estimator_should_be_deterministic_across_calls() {
    let text = "the quick brown fox jumps over the lazy dog";
    assert_eq!(estimate_tokens(text), estimate_tokens(text));
}

#[test]
fn should_split_on_non_alphanumeric_and_lowercase() {
    assert_eq!(tokenize("Run a Security-Review!"), ["run", "a", "security", "review"]);
}

#[test]
fn should_prefer_exact_keyword_over_fuzzy() {
    let hit = match_keyword(&vec!["review".to_string()], &tokens("please review")).unwrap();
    assert_eq!(hit.keyword, "review");
    assert!(!hit.fuzzy);
}

#[test]
fn should_match_keyword_through_a_transposition() {
    let hit = match_keyword(&vec!["implement".to_string()], &tokens("impelment it")).unwrap();
    assert!(hit.fuzzy);
}

#[test]
fn should_not_match_when_a_word_merely_contains_the_keyword() {
    assert!(match_keyword(&vec!["review".to_string()], &tokens("preview the page")).is_none());
}

#[test]
fn should_keep_short_keywords_exact_only() {
    assert!(match_keyword(&vec!["edit".to_string()], &tokens("audit it")).is_none());
    assert!(match_keyword(&vec!["edit".to_string()], &tokens("edit it")).is_some());
}

#[test]
fn should_respect_the_length_buckets() {
    assert_eq!(fuzzy_cap(4), 0);
    assert_eq!(fuzzy_cap(5), 1);
    assert_eq!(fuzzy_cap(8), 1);
    assert_eq!(fuzzy_cap(9), 2);
}

#[test]
fn estimate_counts_a_quarter_token_per_character() {
    assert_eq!(estimate_tokens("abcdefgh"), 2);
    assert_eq!(estimate_tokens("abcdefghi"), 3);
}

#[test]
fn tokenize_drops_empty_pieces_and_lowercases_unicode() {
    assert_eq!(tokenize("  --ÉCOLE__x  "), ["école", "x"]);
    assert!(tokenize("").is_empty());
    assert!(tokenize("!!!").is_empty());
}

#[test]
fn token_match_reports_exact_fuzzy_and_none() {
    let prompt = tokens("please revew the implementation");
    assert_eq!(token_match("Implementation", &prompt), Some(MatchKind::Exact));
    assert_eq!(token_match("review", &prompt), Some(MatchKind::Fuzzy));
    assert_eq!(token_match("deploy", &prompt), None);
    assert!(token_matches("review", &prompt));
    assert!(!token_matches("deploy", &prompt));
}

#[test]
fn medium_keywords_tolerate_one_edit_but_not_two() {
    // "refactor" has eight characters: one edit is tolerated, two are not.
    assert!(token_matches("refactor", &tokens("refactr")));
    assert!(!token_matches("refactor", &tokens("rfactr")));
    // Nine or more characters tolerate two edits.
    assert!(token_matches("implement", &tokens("impelmnt")));
}

#[test]
fn match_keyword_prefers_any_exact_keyword_over_an_earlier_fuzzy_one() {
    let hit = match_keyword(&vec!["refactor".to_string(), "fix".to_string()], &tokens("refactr and fix")).unwrap();
    assert_eq!(hit.keyword, "fix");
    assert!(!hit.fuzzy);
}

#[test]
fn ascii_lowercase_leaves_non_ascii_alone() {
    assert_eq!(ascii_lowercase("ApiKEY-É"), "apikey-É");
}

#[test]
fn split_keeps_empty_pieces() {
    assert_eq!(split("a&&b&", '&'), ["a", "", "b", ""]);
    assert_eq!(split("", '&'), [""]);
}

#[test]
fn lines_drop_a_final_line_ending_and_carriage_returns() {
    assert_eq!(lines("one\r\ntwo\n\nthree\n"), ["one", "two", "", "three"]);
    assert!(lines("").is_empty());
}
