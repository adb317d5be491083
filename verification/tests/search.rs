use generation::search::{evaluate, tokenize, Symbol};

const TAGS: [&str; 3] = ["parser", "fast", "unicode"];

#[test]
fn single_term_matches_substring_of_a_tag() {
    assert!(evaluate(&TAGS, "pars"));
    assert!(evaluate(&TAGS, "code"));
    assert!(!evaluate(&TAGS, "slow"));
}

#[test]
fn negation_inverts() {
    assert!(!evaluate(&TAGS, "!fast"));
    assert!(evaluate(&TAGS, "!slow"));
    assert!(evaluate(&TAGS, "!!fast"));
}

#[test]
fn conjunction_and_disjunction() {
    assert!(evaluate(&TAGS, "fast.parser"));
    assert!(!evaluate(&TAGS, "fast.slow"));
    assert!(evaluate(&TAGS, "fast,slow"));
    assert!(!evaluate(&TAGS, "slow,cold"));
    assert!(evaluate(&TAGS, "slow,fast.uni"));
    assert!(!evaluate(&TAGS, "(slow,fast).cold"));
}

#[test]
fn grouping_and_blanks() {
    assert!(evaluate(&TAGS, "(fast)"));
    assert!(evaluate(&TAGS, "  fast  "));
    assert!(evaluate(&TAGS, "   "));
    assert!(evaluate(&TAGS, ""));
    assert!(evaluate(&[], ""));
    assert!(!evaluate(&[], "x"));
}

#[test]
fn tokenize_splits_terms_and_operators() {
    let symbols = tokenize("!a.b , (c)");
    assert_eq!(symbols.len(), 8);
    assert!(matches!(symbols[0], Symbol::Not));
    assert!(matches!(&symbols[1], Symbol::Term(t) if t == "a"));
    assert!(matches!(symbols[2], Symbol::And));
    assert!(matches!(&symbols[3], Symbol::Term(t) if t == "b"));
    assert!(matches!(symbols[4], Symbol::Or));
    assert!(matches!(symbols[5], Symbol::Open));
    assert!(matches!(&symbols[6], Symbol::Term(t) if t == "c"));
    assert!(matches!(symbols[7], Symbol::Close));
}

use generation::search::{filter, split_words};

#[test]
fn split_words_like_split_whitespace() {
    for text in ["  a  bc\td\n", "", "   ", "one", "x\u{3000}y"] {
        let expected: Vec<String> = text.split_whitespace().map(str::to_string).collect();
        assert_eq!(split_words(text), expected);
    }
}

#[test]
fn filter_folds_case_of_tags_and_query() {
    let cards = vec!["ÄRGER Zone".to_string()];
    assert_eq!(filter("ärger", &cards).shown, vec![true]);
    assert_eq!(filter("ZONE", &cards).shown, vec![true]);
}

#[test]
fn filter_counts_visible_cards() {
    let cards = vec!["Parser Fast".to_string(), "slow io".to_string(), "".to_string()];
    let result = filter("FAST", &cards);
    assert_eq!(result.shown, vec![true, false, false]);
    assert_eq!(result.counter, Some("1 / 3".to_string()));
    assert!(!result.empty);
    let none = filter("cold", &cards);
    assert_eq!(none.shown, vec![false, false, false]);
    assert_eq!(none.counter, Some("0 / 3".to_string()));
    assert!(none.empty);
    let all = filter("", &cards);
    assert_eq!(all.shown, vec![true, true, true]);
    assert_eq!(all.counter, None);
    assert!(!all.empty);
    let blank = filter("   ", &cards);
    assert_eq!(blank.shown, vec![true, true, true]);
    assert_eq!(blank.counter, Some("3 / 3".to_string()));
}

#[test]
fn a_term_keeps_inner_white_space() {
    assert!(evaluate(&["a\nbc"], "a\nb"));
    assert!(!evaluate(&["a bc"], "a\nb"));
    assert!(evaluate(&["perf"], "\nperf\n"));
}
