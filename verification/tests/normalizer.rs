use sentence_segmenter::{normalize, split_into_sentences};

#[test]
fn disallowed_characters_are_deleted() {
    assert_eq!(normalize("Hello, world! (test) #1"), "Hello world! test 1");
}

#[test]
fn deleted_characters_leave_no_gap() {
    assert_eq!(normalize("a-b"), "ab");
}

#[test]
fn result_is_trimmed() {
    assert_eq!(normalize("  \tThe cat sat.  "), "The cat sat.");
    assert_eq!(normalize("## The cat sat. ##"), "The cat sat.");
}

#[test]
fn allowed_text_is_unchanged() {
    let s = "Is 3.14 about Pi? Yes! It is.";
    assert_eq!(normalize(s), s);
}

#[test]
fn only_disallowed_characters_give_the_empty_string() {
    let clean = normalize("@@@###");
    assert_eq!(clean, "");
    assert_eq!(split_into_sentences(&clean), Vec::<String>::new());
}

#[test]
fn empty_line_gives_the_empty_string() {
    assert_eq!(normalize(""), "");
}

#[test]
fn letters_outside_ascii_are_deleted() {
    assert_eq!(normalize("caf\u{e9} na\u{ef}ve"), "caf nave");
}

#[test]
fn unicode_whitespace_is_kept_inside_and_trimmed_outside() {
    assert_eq!(normalize("\u{a0}a\u{a0}b\u{2003}"), "a\u{a0}b");
}

#[test]
fn normalizing_twice_changes_nothing() {
    for s in ["Hello, world! (test) #1", "  a-b  ", "@@@###", "", " . ", "x\u{3000}\u{e9} y,"] {
        let once = normalize(s);
        assert_eq!(normalize(&once), once);
    }
}

#[test]
fn normalizing_only_deletes() {
    let s = "He said: \"go-home\" [now]; 50% off!";
    let clean = normalize(s);
    assert_eq!(clean, "He said gohome now 50 off!");
    let mut rest = s.chars();
    for c in clean.chars() {
        assert!(c.is_ascii_alphanumeric() || c.is_whitespace() || c == '.' || c == '!' || c == '?');
        assert!(rest.any(|d| d == c));
    }
}
