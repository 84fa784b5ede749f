use sentence_segmenter::segmenter::is_kept_sentence;
use sentence_segmenter::{is_sentence_boundary, is_valid_sentence, split_into_sentences};

fn strings(items: &[&str]) -> Vec<String> {
    items.iter().map(|s| s.to_string()).collect()
}

#[test]
fn two_plain_sentences_are_split() {
    assert_eq!(
        split_into_sentences("The cat sat. The dog ran."),
        strings(&["The cat sat.", "The dog ran."])
    );
}

#[test]
fn decimal_point_does_not_split() {
    assert_eq!(
        split_into_sentences("Pi is about 3.14159 today."),
        strings(&["Pi is about 3.14159 today."])
    );
}

#[test]
fn short_text_gives_no_sentence() {
    assert_eq!(split_into_sentences("ok."), Vec::<String>::new());
}

#[test]
fn empty_text_gives_no_sentence() {
    assert_eq!(split_into_sentences(""), Vec::<String>::new());
}

#[test]
fn invalid_fragment_joins_the_last_sentence() {
    assert_eq!(
        split_into_sentences("The cat sat down. Ok"),
        strings(&["The cat sat down. Ok"])
    );
}

#[test]
fn fragment_without_sentence_before_it_is_dropped() {
    assert_eq!(split_into_sentences("Too short"), Vec::<String>::new());
}

#[test]
fn nothing_is_joined_when_nothing_is_left() {
    assert_eq!(
        split_into_sentences("Hello there my friend!"),
        strings(&["Hello there my friend!"])
    );
}

#[test]
fn whitespace_leftover_is_not_joined() {
    assert_eq!(
        split_into_sentences("Hello there my friend!   "),
        strings(&["Hello there my friend!"])
    );
}

#[test]
fn exclamation_before_whitespace_splits() {
    assert_eq!(
        split_into_sentences("Stop right there! he said quietly"),
        strings(&["Stop right there!", "he said quietly"])
    );
}

#[test]
fn question_mark_before_capital_splits() {
    assert_eq!(
        split_into_sentences("Is it really so?Yes it is so."),
        strings(&["Is it really so?", "Yes it is so."])
    );
}

#[test]
fn question_mark_before_lowercase_does_not_split() {
    assert_eq!(
        split_into_sentences("Is it really so?yes it is."),
        strings(&["Is it really so?yes it is."])
    );
}

#[test]
fn invalid_text_at_a_boundary_keeps_growing() {
    assert_eq!(
        split_into_sentences("Hi. The big dog ran home."),
        strings(&["Hi. The big dog ran home."])
    );
}

#[test]
fn inner_point_between_letters_does_not_split() {
    assert_eq!(
        split_into_sentences("We saw cats etc.and dogs."),
        strings(&["We saw cats etc.and dogs."])
    );
}

#[test]
fn three_sentences_come_out_in_order() {
    assert_eq!(
        split_into_sentences("The cat sat. The dog ran. The bird flew away!"),
        strings(&["The cat sat.", "The dog ran.", "The bird flew away!"])
    );
}

#[test]
fn every_emitted_sentence_is_valid() {
    let text = "One two three four. A b. Five six seven eight! Nine? 10 11 12 13 14. end";
    let found = split_into_sentences(text);
    assert!(!found.is_empty());
    for s in &found {
        assert!(is_valid_sentence(s));
        assert!(is_kept_sentence(s));
        assert_eq!(s.trim(), s.as_str());
        assert!(s.split_whitespace().count() >= 3);
        assert!(s.chars().count() >= 10);
        assert!(s.parse::<f64>().is_err());
    }
}

#[test]
fn boundary_after_point_then_space_then_capital() {
    assert!(is_sentence_boundary("The cat sat. The dog ran.", 11));
}

#[test]
fn boundary_after_point_then_space_then_digit() {
    assert!(is_sentence_boundary("v1. 2nd", 2));
}

#[test]
fn boundary_counts_characters_not_bytes() {
    assert!(is_sentence_boundary("a\u{a0}b. C", 3));
    assert!(is_sentence_boundary("ab.\u{a0}\u{2003}C", 2));
}

#[test]
fn no_boundary_at_first_or_last_character() {
    assert!(!is_sentence_boundary("The cat sat. The dog ran.", 0));
    assert!(!is_sentence_boundary("The cat sat. The dog ran.", 24));
    assert!(!is_sentence_boundary(". A", 0));
}

#[test]
fn no_boundary_outside_the_text() {
    assert!(!is_sentence_boundary("", 0));
    assert!(!is_sentence_boundary("", 5));
    assert!(!is_sentence_boundary("a. B", 4));
    assert!(!is_sentence_boundary("a. B", 400));
}

#[test]
fn no_boundary_between_digits() {
    assert!(!is_sentence_boundary("3.14159", 1));
}

#[test]
fn no_boundary_between_letters() {
    assert!(!is_sentence_boundary("etc.and", 3));
}

#[test]
fn no_boundary_inside_an_ellipsis() {
    assert!(!is_sentence_boundary("Wait.. Then", 4));
    assert!(is_sentence_boundary("Wait.. Then", 5));
}

#[test]
fn no_boundary_before_lowercase() {
    assert!(!is_sentence_boundary("end. next", 3));
}

#[test]
fn no_boundary_without_whitespace_after_the_point() {
    assert!(!is_sentence_boundary("1.B", 1));
    assert!(!is_sentence_boundary("a.1", 1));
}

#[test]
fn no_boundary_when_only_whitespace_follows() {
    assert!(!is_sentence_boundary("end.   ", 3));
}

#[test]
fn valid_sentence_needs_three_tokens() {
    assert!(is_valid_sentence("one two three"));
    assert!(!is_valid_sentence("onetwothree four"));
    assert!(!is_valid_sentence("onetwothreefour"));
}

#[test]
fn valid_sentence_needs_ten_characters() {
    assert!(!is_valid_sentence("a b c"));
    assert!(!is_valid_sentence("ab cd efg"));
    assert!(is_valid_sentence("ab cd efgh"));
}

#[test]
fn valid_sentence_is_judged_after_trimming() {
    assert!(is_valid_sentence("  The cat sat.  "));
    assert!(!is_valid_sentence("   a b c      "));
    assert!(!is_valid_sentence(""));
    assert!(!is_valid_sentence("     "));
}

#[test]
fn a_bare_number_is_no_sentence() {
    assert!(!is_valid_sentence("3.14159"));
    assert!(!is_valid_sentence("12345678901234"));
    assert!(!is_valid_sentence("-1.5e10000000"));
    assert!(!is_valid_sentence("infinity"));
}

#[test]
fn several_numbers_are_a_sentence() {
    assert!(is_valid_sentence("1 2 3 4 5 6"));
    assert!("1 2 3 4 5 6".parse::<f64>().is_err());
}

#[test]
fn a_kept_sentence_is_trimmed_and_valid() {
    assert!(is_kept_sentence("The cat sat."));
    assert!(!is_kept_sentence(" The cat sat."));
    assert!(!is_kept_sentence("The cat sat. "));
    assert!(!is_kept_sentence("The cat."));
}
