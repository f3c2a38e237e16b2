use flowmark::escape_placeholders::{
    ESCAPE_PLACEHOLDER_BASE, ESCAPE_PLACEHOLDER_FILLER, PERIOD_ESCAPE_PLACEHOLDER,
    is_escape_placeholder, placeholder_pair_width, rendered_width,
};

#[test]
fn plain_text_measures_by_scalar_count() {
    assert_eq!(rendered_width("hello"), 5);
    assert_eq!(rendered_width(""), 0);
}

#[test]
fn period_pair_measures_as_the_bare_period() {
    let protected = format!("5{PERIOD_ESCAPE_PLACEHOLDER}{ESCAPE_PLACEHOLDER_FILLER}");
    assert_eq!(protected.chars().count(), 3);
    assert_eq!(rendered_width(&protected), 2);
}

#[test]
fn other_escape_pairs_keep_their_backslash_width() {
    let star = char::from_u32(ESCAPE_PLACEHOLDER_BASE + u32::from(b'*')).expect("valid PUA");
    let protected = format!("a{star}{ESCAPE_PLACEHOLDER_FILLER}");
    assert_eq!(rendered_width(&protected), 3);
}

#[test]
fn placeholder_without_filler_is_left_alone() {
    let protected = format!("a{PERIOD_ESCAPE_PLACEHOLDER}b");
    assert_eq!(rendered_width(&protected), 3);
}

#[test]
fn period_placeholder_matches_the_documented_encoding() {
    assert_eq!(
        char::from_u32(ESCAPE_PLACEHOLDER_BASE + u32::from(b'.')),
        Some(PERIOD_ESCAPE_PLACEHOLDER)
    );
}

#[test]
fn placeholder_range_and_widths() {
    assert!(is_escape_placeholder('\u{E000}'));
    assert!(is_escape_placeholder('\u{E0FF}'));
    assert!(!is_escape_placeholder('\u{E100}'));
    assert!(!is_escape_placeholder('a'));
    assert_eq!(placeholder_pair_width(PERIOD_ESCAPE_PLACEHOLDER), 1);
    assert_eq!(placeholder_pair_width('\u{E02A}'), 2);
}

#[test]
fn rendered_width_counts_pairs_in_longer_text() {
    let dot = PERIOD_ESCAPE_PLACEHOLDER;
    let f = ESCAPE_PLACEHOLDER_FILLER;
    let text = format!("1{dot}{f} and 2{dot}{f}");
    assert_eq!(rendered_width(&text), 9);
}
