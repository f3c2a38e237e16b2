use flowmark::config::{FormatOptions, ListSpacing};
use flowmark::formatter::markdown::fill_markdown;

fn fill(text: &str, width: usize) -> String {
    fill_markdown(text, true, width, false, false, false, false, None, ListSpacing::Preserve)
}

#[test]
fn heading_and_paragraph_round_trip() {
    let opts = FormatOptions::default();
    assert_eq!(opts.reformat_text("# Hello\n\nSome text."), "# Hello\n\nSome text.\n");
}

#[test]
fn paragraph_is_wrapped_to_width() {
    let out = fill("one two three four five six seven eight nine ten", 20);
    for line in out.lines() {
        assert!(line.chars().count() <= 20, "line too long: {line:?}");
    }
    assert_eq!(out.split_whitespace().count(), 10);
}

#[test]
fn lists_and_emphasis_render() {
    let out = fill("- one\n- **two**\n- _three_\n", 88);
    assert_eq!(out, "- one\n- **two**\n- *three*\n");
}

#[test]
fn code_block_is_kept() {
    let out = fill("Text:\n\n```rust\nfn main() {}\n```\n", 88);
    assert_eq!(out, "Text:\n\n```rust\nfn main() {}\n```\n");
}

#[test]
fn thematic_break_and_quote() {
    let out = fill("Para\n\n---\n\n> quoted\n", 88);
    assert_eq!(out, "Para\n\n* * *\n\n> quoted\n");
}

#[test]
fn smart_quotes_apply_in_markdown() {
    let opts = FormatOptions { semantic: true, smartquotes: true, ..FormatOptions::default() };
    let result = opts.reformat_text("He said \"hello.\" She said \"goodbye.\"");
    assert!(result.contains('\u{201c}'));
}

#[test]
fn reference_links_keep_their_form() {
    let out = fill("See [the site][site].\n\n[site]: https://example.com\n", 88);
    assert!(out.contains("[the site][site]"), "got {out:?}");
    assert!(out.contains("[site]: https://example.com"), "got {out:?}");
}

#[test]
fn frontmatter_is_kept_exactly() {
    let out = fill("---\ntitle:  x\n---\n# T\n", 88);
    assert!(out.starts_with("---\ntitle:  x\n---\n"), "got {out:?}");
}

#[test]
fn footnote_definitions_are_re_emitted() {
    let out = fill("Text.[^a]\n\n[^a]: The note.\n", 88);
    assert_eq!(out, "Text.[^a]\n\n[^a]: The note.\n\n");
}

#[test]
fn ellipses_and_cleanups_apply() {
    let out = fill_markdown("# **Title**\n\nWait...\n", true, 88, false, true, false, true, None, ListSpacing::Preserve);
    assert_eq!(out, "# Title\n\nWait \u{2026}\n");
}

#[test]
fn tables_render_with_delimiters() {
    let out = fill("| a | b |\n|:--|--:|\n| 1 | 2 |\n", 88);
    assert_eq!(out, "| a | b |\n| :--- | ---: |\n| 1 | 2 |\n");
}

#[test]
fn crate_level_reformat_text_matches_options() {
    let text = "Some  text\nhere.";
    let via_fn = flowmark::formatter::markdown::reformat_text(text, 88, false, false, false, false, false, ListSpacing::Preserve);
    assert_eq!(via_fn, FormatOptions::default().reformat_text(text));
    assert_eq!(via_fn, "Some text here.\n");
}

#[test]
fn reference_definition_comes_back_with_lowercase_label() {
    let out = fill("See [it][Foo].\n\n[Foo]: https://x.com \"T\"\n", 88);
    assert!(out.contains("[foo]: https://x.com \"T\""), "got {out:?}");
}

#[test]
fn multi_paragraph_footnote_keeps_paragraphs() {
    let out = fill("Text.[^n]\n\n[^n]: First para.\n\n    Second para.\n", 88);
    assert!(out.contains("[^n]: First para.\n\n    Second para."), "got {out:?}");
}

#[test]
fn footnote_with_list_keeps_items() {
    let out = fill("Text.[^n]\n\n[^n]: Intro:\n    - a\n    - b\n", 88);
    assert!(out.contains("[^n]: Intro:\n    - a\n    - b"), "got {out:?}");
}

#[test]
fn nested_list_and_task_items() {
    let out = fill("- [ ] todo\n- [x] done\n", 88);
    assert_eq!(out, "- [ ] todo\n- [x] done\n");
    let out = fill("1. one\n2. two\n   - sub\n", 88);
    assert_eq!(out, "1. one\n2. two\n   - sub\n");
}
