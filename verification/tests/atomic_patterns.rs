use flowmark::wrapping::atomic_patterns::{atomic_pattern, make_paired_pattern, AtomicKind};

#[test]
fn paired_tag_pattern_is_built_from_its_delimiters() {
    assert_eq!(make_paired_pattern(r"\{%", r"%\}", "%"), r"\{%(?!\s*/)[^%]*%\}\s*\{%\s*/[^%]*%\}");
    assert_eq!(make_paired_pattern(r"\{\{", r"\}\}", "}"), r"\{\{(?!\s*/)[^}]*\}\}\s*\{\{\s*/[^}]*\}\}");
}

#[test]
fn tag_patterns_carry_their_delimiters() {
    let tag = atomic_pattern(AtomicKind::SingleJinjaTag);
    assert_eq!(tag.name, "single_jinja_tag");
    assert_eq!((tag.open_delim, tag.close_delim), ("{%", "%}"));
    assert_eq!(atomic_pattern(AtomicKind::HtmlCloseTag).pattern, r"</[a-zA-Z][^>]*>");
    assert_eq!(atomic_pattern(AtomicKind::InlineCodeSpan).open_re, "");
}
