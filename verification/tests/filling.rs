use flowmark::config::ListSpacing;
use flowmark::formatter::markdown::fill_markdown;
use flowmark::formatter::protect::protect_autolinks;
use flowmark::formatter::filling::{
    badge_alt_lowercase, collapse_blank_lines_outside_code, decode_hex_label, encode_hex_label,
    extract_footnote_defs, extract_link_ref_defs, lowercase_refdef_label, FNDEF_MARKER_START,
    REFDEF_MARKER_PREFIX,
};

#[test]
fn extract_ref_defs_basic() {
    let input = "Hello\n\n[foo]: https://example.com\n\nWorld\n";
    let (defs, output) = extract_link_ref_defs(input);
    assert_eq!(defs.get("foo").as_deref(), Some("https://example.com"));
    assert!(output.contains(REFDEF_MARKER_PREFIX));
    assert!(output.contains("https://example.com"));
    assert!(output.contains("World"));
}

#[test]
fn extract_ref_defs_case_insensitive() {
    let input = "[Foo]: https://example.com\n";
    let (defs, _) = extract_link_ref_defs(input);
    assert!(defs.contains_key("foo"));
    assert!(!defs.contains_key("Foo"));
}

#[test]
fn extract_ref_defs_inside_code_fence_ignored() {
    let input = "```\n[foo]: https://example.com\n```\n";
    let (defs, output) = extract_link_ref_defs(input);
    assert!(defs.is_empty());
    assert!(output.contains("[foo]:"));
    assert!(!output.contains(REFDEF_MARKER_PREFIX));
}

#[test]
fn extract_ref_defs_with_title() {
    let input = "[bar]: https://example.com \"A title\"\n";
    let (defs, output) = extract_link_ref_defs(input);
    assert_eq!(defs.get("bar").as_deref(), Some("https://example.com \"A title\""));
    assert!(output.contains(REFDEF_MARKER_PREFIX));
}

#[test]
fn extract_ref_defs_multiple() {
    let input = "[a]: https://a.com\n[b]: https://b.com\n";
    let (defs, _) = extract_link_ref_defs(input);
    assert_eq!(defs.len(), 2);
    assert!(defs.contains_key("a"));
    assert!(defs.contains_key("b"));
}

#[test]
fn extract_ref_defs_skips_footnote_definitions() {
    let input = "[normal]: https://example.com\n[^note]: https://another.com\n";
    let (defs, output) = extract_link_ref_defs(input);
    assert!(defs.contains_key("normal"), "Normal ref def should be extracted");
    assert!(
        !defs.contains_key("^note") && !defs.contains_key("note"),
        "Footnote label should NOT be in ref def map"
    );
    assert!(output.contains(REFDEF_MARKER_PREFIX));
    assert!(
        output.contains("[^note]: https://another.com"),
        "Footnote def should pass through unchanged, got:\n{output}"
    );
}

#[test]
fn extract_footnote_basic() {
    let input = "Text.\n\n[^note]: Footnote content.\n\nMore text.\n";
    let output = extract_footnote_defs(input);
    assert!(output.contains(FNDEF_MARKER_START));
    assert!(output.contains("Footnote content."));
    assert!(output.contains("More text."));
    assert!(output.contains("-->"));
}

#[test]
fn extract_footnote_multiline() {
    let input = "[^long]: First line.\n    Continuation line.\n\nAfter.\n";
    let output = extract_footnote_defs(input);
    assert!(output.contains(FNDEF_MARKER_START));
    assert!(output.contains("First line."));
    assert!(output.contains("Continuation line."));
}

#[test]
fn extract_footnote_consecutive_blank_line_preserved() {
    let input = "[^1]: First.\n\n[^2]: Second.\n";
    let output = extract_footnote_defs(input);
    let marker_count = output.matches(FNDEF_MARKER_START).count();
    assert_eq!(marker_count, 2, "Should have two FNDEF markers, got:\n{output}");
    assert!(
        output.contains("-->\n\n"),
        "Blank line between defs should be preserved, got:\n{output}"
    );
}

#[test]
fn extract_footnote_inside_code_fence_ignored() {
    let input = "```\n[^note]: Not a footnote.\n```\n";
    let output = extract_footnote_defs(input);
    assert!(!output.contains(FNDEF_MARKER_START));
    assert!(output.contains("[^note]:"));
}

#[test]
fn extract_footnote_exact_block() {
    let input = "[^a]: One.\n  two\n\nAfter.";
    let output = extract_footnote_defs(input);
    assert_eq!(
        output,
        format!("{FNDEF_MARKER_START}\n[^a]: One.\n  two\n-->\n\nAfter.")
    );
}

#[test]
fn hex_label_round_trip_handles_spaces_and_punctuation() {
    for label in ["foo", "st. john's school", "an example", "café"] {
        let hex = encode_hex_label(label);
        assert!(
            hex.bytes().all(|b| matches!(b, b'0'..=b'9' | b'a'..=b'f')),
            "hex payload must be URL-safe: {hex:?}"
        );
        assert_eq!(decode_hex_label(&hex).as_deref(), Some(label));
    }
}

#[test]
fn decode_hex_label_rejects_invalid() {
    assert!(decode_hex_label("").is_none());
    assert!(decode_hex_label("abc").is_none());
    assert!(decode_hex_label("xy").is_none());
}

#[test]
fn hex_label_exact_encoding() {
    assert_eq!(encode_hex_label("foo"), "666f6f");
    assert_eq!(decode_hex_label("666F6F").as_deref(), Some("foo"));
    // Valid hex that is not UTF-8.
    assert!(decode_hex_label("ff").is_none());
}

#[test]
fn lowercase_refdef_label_basic() {
    assert_eq!(lowercase_refdef_label("[Foo]: https://example.com"), "[foo]: https://example.com");
}

#[test]
fn lowercase_refdef_label_preserves_title() {
    assert_eq!(
        lowercase_refdef_label("[Foo Bar]: https://example.com \"A Title\""),
        "[foo bar]: https://example.com \"A Title\""
    );
}

#[test]
fn lowercase_refdef_label_passthrough_when_no_match() {
    assert_eq!(lowercase_refdef_label("not a refdef"), "not a refdef");
}

#[test]
fn markers_contain_pua_char() {
    assert!(REFDEF_MARKER_PREFIX.contains('\u{F002}'));
    assert!(FNDEF_MARKER_START.contains('\u{F002}'));
}

#[test]
fn user_html_comment_not_treated_as_marker() {
    let user_comment = "<!-- REFDEF:see below -->";
    assert!(!user_comment.starts_with(REFDEF_MARKER_PREFIX));
}

#[test]
fn badge_alt_is_lowercased() {
    assert_eq!(badge_alt_lowercase("![Build Status](https://x/y.svg)").as_deref(), Some("build status"));
    assert_eq!(badge_alt_lowercase("[no image]"), None);
    assert_eq!(badge_alt_lowercase("![unterminated"), None);
}

#[test]
fn blank_lines_collapse_outside_code_only() {
    let input = "a\n\n\n\nb\n```\n\n\n```\nc\n";
    assert_eq!(collapse_blank_lines_outside_code(input), "a\n\nb\n```\n\n\n```\nc\n");
}

#[test]
fn later_definition_replaces_earlier() {
    let (defs, _) = extract_link_ref_defs("[x]: https://one\n[X]: https://two\n");
    assert_eq!(defs.len(), 1);
    assert_eq!(defs.get("x").as_deref(), Some("https://two"));
}

#[test]
fn extract_footnote_with_autolink_blank_line_preserved() {
    let input = "[^2]: <https://example.com/path>\n\n[^3]: <https://example.com/other>\n";
    let extracted = extract_footnote_defs(input);
    let marker_count = extracted.matches(FNDEF_MARKER_START).count();
    assert_eq!(marker_count, 2, "Should have two FNDEF markers, got:\n{extracted}");
    assert!(
        extracted.contains("-->\n\n"),
        "Blank line between defs should be preserved after extraction, got:\n{extracted}"
    );
    // Also check that protect_autolinks doesn't destroy the blank line
    let protected = protect_autolinks(&extracted);
    assert!(
        protected.contains("-->\n\n"),
        "Blank line between defs should be preserved after autolink protection, got:\n{protected}"
    );

    // Check the full pipeline output
    let result =
        fill_markdown(input, true, 88, false, false, false, false, None, ListSpacing::Preserve);
    assert!(
        result.contains("\n\n[^3]:"),
        "Full pipeline should preserve blank line between footnote defs with autolinks, got:\n{result}"
    );
}
