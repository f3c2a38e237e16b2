use flowmark::formatter::escapes::{
    protect_escapes_outside_code, replace_escapes_in_line, restore_pua_escape_placeholders, ESCAPE_CHARS,
};
use flowmark::formatter::filling::{extract_footnote_defs, FNDEF_MARKER_START};
use flowmark::formatter::protect::{
    protect_autolinks, protect_html_entities, restore_autolinks, restore_html_entities,
};
use flowmark::typography::ellipses::ellipses;
use flowmark::formatter::text_passes::{
    apply_typography_to_fndef_bodies, min_fence_length, normalize_blank_lines, normalize_code_fences,
    normalize_comrak_output, normalize_numbered_lists, postprocess_period_escapes,
    remove_period_escapes_preserving_code,
};

#[test]
fn escape_becomes_two_char_placeholder() {
    let replaced = replace_escapes_in_line("a \\* b", &ESCAPE_CHARS);
    assert_eq!(replaced, "a \u{E02A}\u{E100} b");
    assert_eq!(replaced.chars().count(), "a \\* b".chars().count());
}

#[test]
fn escape_of_char_outside_set_is_kept() {
    assert_eq!(replace_escapes_in_line("\\q and \\\\", &ESCAPE_CHARS), "\\q and \u{E05C}\u{E100}");
}

#[test]
fn placeholders_restore_to_escapes() {
    for line in ["a \\* b", "\\\\\\[x\\]", "no escapes", "trailing \\", "\\q\\.\\~"] {
        let replaced = replace_escapes_in_line(line, &ESCAPE_CHARS);
        assert_eq!(restore_pua_escape_placeholders(&replaced), line);
    }
}

#[test]
fn lone_placeholder_scalar_passes_through() {
    assert_eq!(restore_pua_escape_placeholders("\u{E02A}x"), "\u{E02A}x");
}

#[test]
fn escapes_in_fenced_code_are_left_alone() {
    let text = "\\*x\n```\n\\*y\n```\n";
    assert_eq!(
        protect_escapes_outside_code(text, &ESCAPE_CHARS),
        "\u{E02A}\u{E100}x\n```\n\\*y\n```\n"
    );
}

#[test]
fn autolinks_round_trip() {
    let text = "see <https://example.com/a> and <me@example.org>\n";
    let protected = protect_autolinks(text);
    assert_eq!(
        protected,
        "see \u{F003}https://example.com/a\u{F004} and \u{F003}me@example.org\u{F004}\n"
    );
    assert_eq!(restore_autolinks(&protected), text);
}

#[test]
fn autolinks_in_code_and_markers_are_kept() {
    let text = "```\n<https://a.com>\n```\n<https://b.com>\n";
    assert_eq!(protect_autolinks(text), "```\n<https://a.com>\n```\n\u{F003}https://b.com\u{F004}\n");
    let extracted = extract_footnote_defs("[^2]: <https://example.com/path>\n\n[^3]: <https://example.com/other>\n");
    assert_eq!(extracted.matches(FNDEF_MARKER_START).count(), 2);
    assert!(extracted.contains("-->\n\n"));
    let protected = protect_autolinks(&extracted);
    assert!(protected.contains("-->\n\n"));
    assert!(protected.contains("<https://example.com/path>"));
}

#[test]
fn unclosed_autolink_marker_restores_to_end() {
    assert_eq!(restore_autolinks("a\u{F003}b"), "a<b>");
}

#[test]
fn html_entities_round_trip() {
    let text = "a &amp; b &#169; c &#x1F600; d & e\n";
    let protected = protect_html_entities(text);
    assert_eq!(protected, "a \u{F005}amp; b \u{F005}#169; c \u{F005}#x1F600; d & e\n");
    assert_eq!(restore_html_entities(&protected), text);
}

#[test]
fn period_escapes_are_dropped_where_not_needed() {
    let text = "1\\. item\nfoo\\. bar `a\\.b`\n# Head\\.\n> - [x] 2\\. kept\n";
    assert_eq!(
        postprocess_period_escapes(text),
        "1\\. item\nfoo. bar `a\\.b`\n# Head.\n> - [x] 2\\. kept\n"
    );
}

#[test]
fn period_escapes_inside_code_spans_are_kept() {
    assert_eq!(remove_period_escapes_preserving_code("x\\.y `\\.` z\\. ``a`\\.``"), "x.y `\\.` z. ``a`\\.``");
}

#[test]
fn text_without_period_escape_is_unchanged() {
    assert_eq!(postprocess_period_escapes("a\r\nb"), "a\r\nb");
}

#[test]
fn numbered_items_get_one_space() {
    assert_eq!(normalize_numbered_lists("1.  one\n2.  two\nx.  y"), "1. one\n2. two\nx.  y");
    assert_eq!(normalize_numbered_lists("1. one\r\n"), "1. one\r\n");
}

#[test]
fn fence_info_string_loses_its_space() {
    assert_eq!(normalize_code_fences("```  rust\ncode\n```\n"), "```rust\ncode\n```\n");
    assert_eq!(normalize_code_fences("no fence  here"), "no fence  here");
}

#[test]
fn blank_lines_lose_their_spaces() {
    assert_eq!(normalize_blank_lines("a\n   \n\t\nb"), "a\n\n\nb");
}

#[test]
fn rendered_output_is_cleaned_up() {
    assert_eq!(normalize_comrak_output("a\n  \n\n\n1.  b\n```  py\nx\n```\n"), "a\n\n1. b\n```py\nx\n```\n");
}

#[test]
fn fence_length_exceeds_longest_inner_fence() {
    assert_eq!(min_fence_length("````\ncode\n", '`'), 5);
    assert_eq!(min_fence_length("plain", '`'), 3);
    assert_eq!(min_fence_length("~~~~~~\n", '~'), 7);
    assert_eq!(min_fence_length("````", '*'), 3);
}

#[test]
fn footnote_bodies_are_typeset() {
    let text = format!("x...\n{FNDEF_MARKER_START}\n[^1]: Wait...\n-->\ny...\n");
    let out = apply_typography_to_fndef_bodies(&text, false, true);
    let body = ellipses("[^1]: Wait...\n");
    assert_ne!(body, "[^1]: Wait...\n");
    assert_eq!(out, format!("x...\n{FNDEF_MARKER_START}\n{body}-->\ny...\n"));
    assert_eq!(apply_typography_to_fndef_bodies(&text, false, false), text);
}

#[test]
fn protected_escapes_restore_to_the_text() {
    let text = "a \\* b\n```\n\\*\n```\nc\\_d and \\q\n";
    let protected = protect_escapes_outside_code(text, &ESCAPE_CHARS);
    assert_ne!(protected, text);
    assert_eq!(restore_pua_escape_placeholders(&protected), text);
}
