use flowmark::wrapping::atomic_sentences::split_sentences_atomic;
use flowmark::wrapping::line_wrappers::{
    add_tag_newline_handling, line_wrap_by_sentence, line_wrap_by_sentence_default,
    line_wrap_to_width, line_wrap_to_width_default, LineBreaking,
};
use flowmark::wrapping::text_filling::{fill_text, fill_text_default, Wrap, DEFAULT_WRAP_WIDTH};
use flowmark::wrapping::text_wrapping::{default_len, get_html_md_word_splitter, WordSplitter};

#[test]
fn atomic_sentences_keep_links_whole() {
    let text = "See [the docs. Really.](http://x.y/a.b) for more. Then stop.";
    let s = split_sentences_atomic(text, 0);
    assert_eq!(s, vec!["See [the docs. Really.](http://x.y/a.b) for more.", "Then stop."]);
}

#[test]
fn atomic_sentences_are_verbatim_slices() {
    let text = "  One  two.   Three four.  ";
    let s = split_sentences_atomic(text, 0);
    assert_eq!(s, vec!["One  two.", "Three four."]);
}

#[test]
fn atomic_sentences_respect_min_length() {
    let text = "Hi there. This is longer text here.";
    let s = split_sentences_atomic(text, 15);
    assert_eq!(s, vec!["Hi there. This is longer text here."]);
    assert!(split_sentences_atomic("", 0).is_empty());
}

#[test]
fn wrap_to_width_plain() {
    let w = line_wrap_to_width(10, false);
    assert_eq!(w.wrap("aaa bbb ccc ddd", "", ""), "aaa bbb\nccc ddd");
    assert_eq!(w.wrap("aaa bbb ccc ddd", "> ", "> "), "> aaa bbb\n> ccc ddd");
}

#[test]
fn wrap_to_width_markdown_hard_break() {
    let w = line_wrap_to_width(80, true);
    assert_eq!(w.wrap("first line\\\nsecond line", "", ""), "first line\\\nsecond line");
    assert_eq!(w.wrap("first  \nsecond", "", "  "), "first\\\n  second");
}

#[test]
fn wrap_by_sentence_puts_sentences_on_lines() {
    let w = line_wrap_by_sentence(80, 0, false);
    assert_eq!(
        w.wrap("This is the first sentence. This is the second one.", "", ""),
        "This is the first sentence.\nThis is the second one."
    );
}

#[test]
fn wrap_by_sentence_joins_short_lines() {
    let w = line_wrap_by_sentence(80, 20, false);
    assert_eq!(w.wrap("Short one. And then a longer sentence here.", "", ""), "Short one. And then a longer sentence here.");
}

#[test]
fn wrap_by_sentence_zero_width() {
    let w = line_wrap_by_sentence(0, 20, false);
    assert_eq!(w.wrap(" a\nb ", "> ", ""), "> a b");
}

#[test]
fn tag_lines_are_wrapped_separately() {
    let base = line_wrap_to_width(80, true);
    let out = add_tag_newline_handling(&base, "{% tag %}\nsome text\n{% /tag %}", "", "");
    assert_eq!(out, "{% tag %}\nsome text\n{% /tag %}");
    let plain = add_tag_newline_handling(&base, "one\ntwo", "", "");
    assert_eq!(plain, "one two");
}

#[test]
fn default_wrappers() {
    let a = line_wrap_to_width_default(true);
    assert_eq!(a.width, DEFAULT_WRAP_WIDTH);
    assert_eq!(a.breaking, LineBreaking::ToWidth);
    let b = line_wrap_by_sentence_default(false);
    assert_eq!(b.breaking, LineBreaking::BySentence { min_line_len: 20 });
    assert!(!b.is_markdown);
}

#[test]
fn fill_text_wraps_paragraphs() {
    let out = fill_text("aaa bbb ccc\n\nddd eee", Wrap::Wrap, 7, "", "", 0, None);
    assert_eq!(out, "aaa bbb\nccc\n\nddd eee");
}

#[test]
fn fill_text_hanging_indent() {
    let out = fill_text("aaa bbb ccc ddd", Wrap::HangingIndent, 12, "", "", 0, None);
    assert_eq!(out, "aaa bbb\n    ccc\n    ddd");
}

#[test]
fn fill_text_no_wrap_indents_lines() {
    let out = fill_text("a\r\nb\n", Wrap::IndentOnly, 80, "> ", "  ", 0, None);
    assert_eq!(out, ">     a\n>     b");
    assert_eq!(fill_text("", Wrap::NoWrap, 80, "", "  x  ", 0, None), "x");
}

#[test]
fn fill_text_default_is_plain_wrap() {
    assert_eq!(fill_text_default("one two"), "one two");
}

#[test]
fn wrap_style_properties() {
    assert_eq!(Wrap::WrapIndent.initial_indent(), "    ");
    assert_eq!(Wrap::MarkdownItem.subsequent_indent(), "  ");
    assert!(!Wrap::IndentOnly.should_wrap());
    assert!(Wrap::MarkdownItem.initial_indent_first_para_only());
    assert!(Wrap::WrapFull.replace_whitespace());
    assert!(!Wrap::Wrap.replace_whitespace());
}

#[test]
fn splitter_helpers() {
    assert_eq!(get_html_md_word_splitter(), WordSplitter::HtmlMarkdown);
    assert_eq!(default_len("café"), 4);
}
