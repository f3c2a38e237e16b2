use flowmark::wrapping::block_heuristics::{
    line_is_block_content, line_is_list_item, line_is_table_row,
};
use flowmark::wrapping::sentence::{
    first_sentence, heuristic_end_of_sentence, split_sentences_regex, SENTENCE_MIN_LENGTH,
};
use flowmark::wrapping::tag_handling::{
    denormalize_adjacent_tags, fix_closing_tag_spacing, normalize_adjacent_tags,
};
use flowmark::wrapping::text_filling::split_paragraphs;
use flowmark::wrapping::text_wrapping::{
    html_md_word_split, html_md_word_splitter, markdown_escape_word, simple_word_split,
    wrap_paragraph, wrap_paragraph_lines, WordSplitter,
};

const LONG_TEXT: &str = "End of sentence must be two letters or more, with the last letter lowercase, followed by a period, exclamation point, question mark. A final or preceding parenthesis or quote is allowed. Does not break on colon or semicolon as that seems to have false positives too often with code or other syntax.";

const FIRST_SENTENCE: &str = "End of sentence must be two letters or more, with the last letter lowercase, followed by a period, exclamation point, question mark.";

#[test]
fn sentence_split_regex_test_split_sentences() {
    assert_eq!(split_sentences_regex("test!", SENTENCE_MIN_LENGTH), vec!["test!"]);
    assert_eq!(
        split_sentences_regex("test! random words", SENTENCE_MIN_LENGTH),
        vec!["test! random words"]
    );

    let split = split_sentences_regex(LONG_TEXT, SENTENCE_MIN_LENGTH);
    assert_eq!(split.len(), 3);
    assert_eq!(split[0], FIRST_SENTENCE);
}

#[test]
fn sentence_split_regex_test_first_sentence() {
    assert_eq!(first_sentence(LONG_TEXT, SENTENCE_MIN_LENGTH), FIRST_SENTENCE);
    assert_eq!(first_sentence("", SENTENCE_MIN_LENGTH), "");
    assert_eq!(first_sentence(" ", SENTENCE_MIN_LENGTH), "");
    assert_eq!(first_sentence("hello", SENTENCE_MIN_LENGTH), "hello");
    assert_eq!(first_sentence(" hello\n", SENTENCE_MIN_LENGTH), "hello");
}

#[test]
fn test_heuristic_end_of_sentence() {
    assert!(heuristic_end_of_sentence("word."));
    assert!(heuristic_end_of_sentence("word?"));
    assert!(heuristic_end_of_sentence("word!"));
    assert!(!heuristic_end_of_sentence("word"));
    assert!(!heuristic_end_of_sentence("A."));
    assert!(!heuristic_end_of_sentence("1."));
}

#[test]
fn sentence_test_split_sentences() {
    let text = "Hello world. This is a test. And another sentence.";
    let sentences = split_sentences_regex(text, 15);
    assert_eq!(sentences.len(), 2);
    assert_eq!(sentences[0], "Hello world. This is a test.");
    assert_eq!(sentences[1], "And another sentence.");
}

#[test]
fn test_split_sentences_no_min() {
    let text = "Hello world. This is a test. And another sentence.";
    let sentences = split_sentences_regex(text, 0);
    assert_eq!(sentences.len(), 3);
}

#[test]
fn sentence_test_first_sentence() {
    let text = "Hello world. This is a test.";
    let s = first_sentence(text, 15);
    assert_eq!(s, "Hello world. This is a test.");
}

#[test]
fn test_fix_closing_tag_spacing() {
    assert_eq!(
        fix_closing_tag_spacing("Regular text.\n{% /tag %}"),
        "Regular text.\n{% /tag %}"
    );
    assert_eq!(
        fix_closing_tag_spacing("- List item\n{% /tag %}"),
        "- List item\n\n{% /tag %}"
    );
    assert_eq!(
        fix_closing_tag_spacing("| A | B |\n{% /tag %}"),
        "| A | B |\n\n{% /tag %}"
    );
    assert_eq!(
        fix_closing_tag_spacing("- Item\n\n{% /tag %}"),
        "- Item\n\n{% /tag %}"
    );
}

#[test]
fn test_line_is_table_row() {
    assert!(line_is_table_row("| A | B |"));
    assert!(line_is_table_row("|---|---|"));
    assert!(line_is_table_row("| Cell |"));
    assert!(line_is_table_row("  | Indented |"));
    assert!(line_is_table_row("\t| Tab indented |"));

    assert!(!line_is_table_row("Not a table"));
    assert!(!line_is_table_row("A | B"));
    assert!(!line_is_table_row(""));
    assert!(!line_is_table_row("   "));
}

#[test]
fn test_line_is_list_item_unordered() {
    assert!(line_is_list_item("- Item"));
    assert!(line_is_list_item("* Item"));
    assert!(line_is_list_item("+ Item"));
    assert!(line_is_list_item("-\tTab after marker"));
    assert!(line_is_list_item("  - Indented item"));
    assert!(line_is_list_item("- "));

    assert!(!line_is_list_item("-"));
    assert!(!line_is_list_item("-Item"));
    assert!(!line_is_list_item("---"));
    assert!(!line_is_list_item("***"));

    assert!(line_is_list_item("- -"));
}

#[test]
fn test_line_is_list_item_ordered() {
    assert!(line_is_list_item("1. Item"));
    assert!(line_is_list_item("1) Item"));
    assert!(line_is_list_item("10. Item"));
    assert!(line_is_list_item("999. Item"));
    assert!(line_is_list_item("1.\tTab after marker"));
    assert!(line_is_list_item("  1. Indented"));
    assert!(line_is_list_item("1. "));

    assert!(!line_is_list_item("1.0 version"));
    assert!(!line_is_list_item("1.0.0"));
    assert!(!line_is_list_item("1.Item"));
    assert!(!line_is_list_item("1."));
    assert!(!line_is_list_item("1"));
    assert!(!line_is_list_item("12345678901. Item"));
}

#[test]
fn test_line_is_block_content() {
    assert!(line_is_block_content("| A | B |"));
    assert!(line_is_block_content("|---|---|"));
    assert!(line_is_block_content("- Item"));
    assert!(line_is_block_content("1. Item"));
    assert!(!line_is_block_content("Regular text"));
    assert!(!line_is_block_content("1.0.0 version"));
    assert!(!line_is_block_content(""));
}

#[test]
fn test_split_paragraphs() {
    let text = "Para one.\n\nPara two.\n\nPara three.";
    let paras = split_paragraphs(text);
    assert_eq!(paras.len(), 3);
    assert_eq!(paras[0], "Para one.");
    assert_eq!(paras[1], "Para two.");
    assert_eq!(paras[2], "Para three.");
}

#[test]
fn test_markdown_escape_word() {
    assert_eq!(markdown_escape_word("1."), "1\\.");
    assert_eq!(markdown_escape_word("10."), "10\\.");
    assert_eq!(markdown_escape_word("1)"), "1\\)");
    assert_eq!(markdown_escape_word("-"), "\\-");
    assert_eq!(markdown_escape_word("*"), "\\*");
    assert_eq!(markdown_escape_word("+"), "\\+");
    assert_eq!(markdown_escape_word(">"), "\\>");
    assert_eq!(markdown_escape_word("#"), "\\#");
    assert_eq!(markdown_escape_word("##"), "\\##");
    assert_eq!(markdown_escape_word("hello"), "hello");
}

#[test]
fn test_simple_wrapping() {
    let lines = wrap_paragraph_lines(
        "Hello world this is a test",
        10,
        0,
        0,
        true,
        true,
        Some(WordSplitter::Simple),
        false,
    );
    assert!(!lines.is_empty());
    for line in &lines {
        assert!(line.chars().count() <= 10 || line.split_whitespace().count() == 1);
    }
}

#[test]
fn test_no_wrap() {
    let lines = wrap_paragraph_lines("Hello world this is a test", 0, 0, 0, true, true, None, false);
    assert_eq!(lines.len(), 1);
    assert_eq!(lines[0], "Hello world this is a test");
}

#[test]
fn test_html_md_word_split() {
    let words = html_md_word_split("Hello `code` world");
    assert_eq!(words, vec!["Hello", "`code`", "world"]);
}

#[test]
fn test_html_md_word_split_links() {
    let words = html_md_word_split("See [link](url) here");
    assert_eq!(words, vec!["See", "[link](url)", "here"]);
}

#[test]
fn test_markdown_escape_word_function() {
    assert_eq!(markdown_escape_word("-"), "\\-");
    assert_eq!(markdown_escape_word("+"), "\\+");
    assert_eq!(markdown_escape_word("*"), "\\*");
    assert_eq!(markdown_escape_word(">"), "\\>");
    assert_eq!(markdown_escape_word("#"), "\\#");
    assert_eq!(markdown_escape_word("##"), "\\##");
    assert_eq!(markdown_escape_word("1."), "1\\.");
    assert_eq!(markdown_escape_word("10."), "10\\.");
    assert_eq!(markdown_escape_word("1)"), "1\\)");
    assert_eq!(markdown_escape_word("99)"), "99\\)");

    assert_eq!(markdown_escape_word("word"), "word");
    assert_eq!(markdown_escape_word("-word"), "-word");
    assert_eq!(markdown_escape_word("word-"), "word-");
    assert_eq!(markdown_escape_word("#word"), "#word");
    assert_eq!(markdown_escape_word("word#"), "word#");
    assert_eq!(markdown_escape_word("1.word"), "1.word");
    assert_eq!(markdown_escape_word("word1."), "word1.");
    assert_eq!(markdown_escape_word("1)word"), "1)word");
    assert_eq!(markdown_escape_word("word1)"), "word1)");
    assert_eq!(markdown_escape_word("<tag>"), "<tag>");
    assert_eq!(markdown_escape_word("[link]"), "[link]");
    assert_eq!(markdown_escape_word("1"), "1");
    assert_eq!(markdown_escape_word("."), ".");
}

#[test]
fn test_wrap_paragraph_lines_markdown_escaping() {
    let result = wrap_paragraph_lines("- word", 10, 0, 0, true, true, None, true);
    assert_eq!(result, vec!["- word"]);

    let text = "word - word * word + word > word # word ## word 1. word 2) word";
    let result = wrap_paragraph_lines(text, 5, 0, 0, true, true, None, true);
    assert_eq!(
        result,
        vec![
            "word", "\\-", "word", "\\*", "word", "\\+", "word", "\\>", "word", "\\#", "word",
            "\\##", "word", "1\\.", "word", "2\\)", "word",
        ]
    );

    let result = wrap_paragraph_lines(text, 10, 0, 0, true, true, None, true);
    assert_eq!(
        result,
        vec![
            "word -", "word *", "word +", "word >", "word #", "word ##", "word 1.", "word 2)",
            "word",
        ]
    );

    let result = wrap_paragraph_lines(text, 15, 0, 0, true, true, None, true);
    assert_eq!(
        result,
        vec!["word - word *", "word + word >", "word # word ##", "word 1. word 2)", "word",]
    );

    let result = wrap_paragraph_lines(text, 20, 0, 0, true, true, None, true);
    assert_eq!(
        result,
        vec!["word - word * word +", "word > word # word", "\\## word 1. word 2)", "word",]
    );

    let result = wrap_paragraph_lines(text, 20, 0, 0, true, true, None, false);
    assert_eq!(
        result,
        vec!["word - word * word +", "word > word # word", "## word 1. word 2)", "word",]
    );
}

#[test]
fn test_smart_splitter() {
    let html_text =
        "This is <span class='test'>some text</span> and <a href='#'>this is a link</a>.";
    let result = html_md_word_splitter(html_text);
    assert_eq!(
        result,
        vec![
            "This",
            "is",
            "<span class='test'>some",
            "text</span>",
            "and",
            "<a href='#'>this",
            "is",
            "a",
            "link</a>.",
        ]
    );

    let md_text =
        "Here's a [Markdown link](https://example.com) and [another one](https://test.com).";
    let result = html_md_word_splitter(md_text);
    assert_eq!(
        result,
        vec![
            "Here's",
            "a",
            "[Markdown link](https://example.com)",
            "and",
            "[another one](https://test.com).",
        ]
    );
}

#[test]
fn test_wrap_text() {
    let sample_text = "This is a sample text with a [Markdown link](https://example.com) \
        and an <a href='#'>tag</a>. It should demonstrate the functionality of \
        our enhanced text wrapping implementation.";

    let filled = wrap_paragraph(
        sample_text,
        40,
        ">",
        ">>",
        0,
        true,
        true,
        Some(WordSplitter::Simple),
        false,
    );
    let expected = ">This is a sample text with a [Markdown\n\
        >>link](https://example.com) and an <a\n\
        >>href='#'>tag</a>. It should\n\
        >>demonstrate the functionality of our\n\
        >>enhanced text wrapping implementation.";
    assert_eq!(filled, expected);

    let filled_smart = wrap_paragraph(
        sample_text,
        40,
        ">",
        ">>",
        0,
        true,
        true,
        Some(WordSplitter::HtmlMarkdown),
        false,
    );
    let expected_smart = ">This is a sample text with a\n\
        >>[Markdown link](https://example.com)\n\
        >>and an <a href='#'>tag</a>. It should\n\
        >>demonstrate the functionality of our\n\
        >>enhanced text wrapping implementation.";
    assert_eq!(filled_smart, expected_smart);

    let filled_offset = wrap_paragraph(
        sample_text,
        40,
        ">",
        ">>",
        35,
        true,
        true,
        Some(WordSplitter::HtmlMarkdown),
        false,
    );
    let expected_offset = "This\n\
        >>is a sample text with a\n\
        >>[Markdown link](https://example.com)\n\
        >>and an <a href='#'>tag</a>. It should\n\
        >>demonstrate the functionality of our\n\
        >>enhanced text wrapping implementation.";
    assert_eq!(filled_offset, expected_offset);
}

#[test]
fn test_inline_code_with_spaces() {
    let code = "`code with spaces`";
    let text = format!("Some {code} here.");
    let result = html_md_word_splitter(&text);
    assert!(result.contains(&code.to_string()));
}

#[test]
fn test_html_comments_kept_together() {
    let comment = "<!-- a comment -->";
    let text = format!("Text with {comment} inline.");
    let result = html_md_word_splitter(&text);
    assert!(result.contains(&comment.to_string()));
}

#[test]
fn test_template_tag_splitter() {
    let text = "Text with {% if $condition %} template tags {% endif %} here.";
    let result = html_md_word_splitter(text);
    assert!(result.contains(&"{% if $condition %}".to_string()));
    assert!(result.contains(&"{% endif %}".to_string()));
}

#[test]
fn simple_word_split_splits_on_any_white_space() {
    assert_eq!(simple_word_split("  a\tb\n c  "), vec!["a", "b", "c"]);
}

#[test]
fn test_normalize_denormalize_adjacent_tags() {
    let original = "{% field kind='string' %}{% /field %}";
    let normalized = normalize_adjacent_tags(original);
    assert_eq!(normalized, "{% field kind='string' %} {% /field %}");
    let denormalized = denormalize_adjacent_tags(&normalized);
    assert_eq!(denormalized, original);
}

#[test]
fn test_normalize_html_comment_tags() {
    let original = r#"<!-- f:field kind="string" id="name" --><!-- /f:field -->"#;
    let normalized = normalize_adjacent_tags(original);
    assert!(normalized.contains(" <!-- /f:field -->"));
    let denormalized = denormalize_adjacent_tags(&normalized);
    assert_eq!(denormalized, original);
}

#[test]
fn sentence_minimum_length_counts_characters() {
    let sentences = flowmark::wrapping::sentence::split_sentences_regex("añoñoñ. Bye now.", 8);
    assert_eq!(sentences, vec!["añoñoñ. Bye now.".to_string()]);
    let sentences = flowmark::wrapping::sentence::split_sentences_regex("añoñoñ. Bye now.", 7);
    assert_eq!(sentences, vec!["añoñoñ.".to_string(), "Bye now.".to_string()]);
}

#[test]
fn default_len_counts_characters() {
    assert_eq!(flowmark::wrapping::text_wrapping::default_len("é"), 1);
    assert_eq!(flowmark::wrapping::text_wrapping::default_len("ab"), 2);
}
