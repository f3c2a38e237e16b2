use flowmark::typography::ellipses::ellipses;
use flowmark::typography::quotes::{apply_smart_quotes_to_text, process_word_apostrophe, smart_quotes};

#[test]
fn test_basic_ellipsis() {
    assert_eq!(ellipses("Hello... world"), "Hello \u{2026} world");
}

#[test]
fn test_ellipsis_with_space() {
    assert_eq!(ellipses("Hello ... world"), "Hello \u{2026} world");
}

#[test]
fn test_ellipsis_at_end() {
    assert_eq!(ellipses("Hello..."), "Hello \u{2026}");
}

#[test]
fn test_ellipsis_with_punct() {
    assert_eq!(ellipses("Hello...!"), "Hello \u{2026}!");
}

#[test]
fn ellipsis_before_non_word_is_kept() {
    // The dots are followed by a character that is not a word character.
    assert_eq!(ellipses("Hello...*"), "Hello...*");
}

#[test]
fn ellipsis_before_word_gets_space() {
    assert_eq!(ellipses("Wait...what"), "Wait \u{2026} what");
}

#[test]
fn text_without_dots_is_unchanged() {
    assert_eq!(ellipses("No dots here."), "No dots here.");
}

#[test]
fn test_double_quotes() {
    assert_eq!(smart_quotes(r#"He said "hello" there"#), "He said \u{201c}hello\u{201d} there");
}

#[test]
fn test_apostrophe() {
    assert_eq!(smart_quotes("I'm here"), "I\u{2019}m here");
}

#[test]
fn test_possessive_s() {
    assert_eq!(smart_quotes("James' book"), "James\u{2019} book");
}

#[test]
fn test_template_tag_preserved() {
    let input = r#"{% field kind="string" %}"#;
    assert_eq!(smart_quotes(input), input);
}

#[test]
fn test_code_like_unchanged() {
    let input = r#"x="foo""#;
    assert_eq!(smart_quotes(input), input);
}

#[test]
fn test_smart_quotes_basic() {
    assert_eq!(
        smart_quotes(r#"I'm there with "George""#),
        "I\u{2019}m there with \u{201c}George\u{201d}"
    );
}

#[test]
fn test_smart_quotes_single() {
    assert_eq!(
        smart_quotes("Words in 'single quotes' work too"),
        "Words in \u{2018}single quotes\u{2019} work too"
    );
}

#[test]
fn test_smart_quotes_apostrophes() {
    assert_eq!(smart_quotes("I'm there"), "I\u{2019}m there");
    assert_eq!(smart_quotes("don't worry"), "don\u{2019}t worry");
}

#[test]
fn test_smart_quotes_possessive() {
    assert_eq!(smart_quotes("Jill's"), "Jill\u{2019}s");
    assert_eq!(smart_quotes("James'"), "James\u{2019}");
}

#[test]
fn test_smart_quotes_unchanged() {
    assert_eq!(smart_quotes(r#"x="foo""#), r#"x="foo""#);
    assert_eq!(smart_quotes("x='foo'"), "x='foo'");
}

#[test]
fn test_smart_quotes_template_tags() {
    assert_eq!(smart_quotes(r#"{% field kind="string" %}"#), r#"{% field kind="string" %}"#);
    assert_eq!(smart_quotes("{{ variable }}"), "{{ variable }}");
}

#[test]
fn quotes_spanning_paragraphs_are_kept() {
    let input = "\"first\n\nsecond\"";
    assert_eq!(smart_quotes(input), input);
}

#[test]
fn word_with_two_quotes_is_kept() {
    assert_eq!(process_word_apostrophe("rock'n'roll "), "rock'n'roll ");
    assert_eq!(process_word_apostrophe("it's  "), "it\u{2019}s  ");
}

#[test]
fn empty_text_has_no_quotes() {
    assert_eq!(apply_smart_quotes_to_text(""), "");
    assert_eq!(smart_quotes(""), "");
}
