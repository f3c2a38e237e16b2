use flowmark::wrapping::protected_wrapping::{
    wrap_paragraph_lines_protected, wrap_paragraph_protected,
};
use flowmark::preservation::bridge::{
    code_span_rewrite_context, protect_source, restore_source, InlineRewriteSegment,
    ProtectedSource,
};
use flowmark::preservation::model::{
    validate_regions, Candidate, ContainerContext, ProtectedRegion, RegionKind,
};
use flowmark::preservation::model::RegionForm;
use flowmark::preservation::scanner::scan_protected_regions;
use flowmark::preservation::normalization::{
    canonical_terminal_lf, finalize_output, normalize_line_endings, normalize_source,
};
use flowmark::preservation::tokens::{
    encode_token, escape_authored_markers, parse_rendered_stream, parse_token, ESCAPE_MARKER,
    TOKEN_END, TOKEN_LENGTH, TOKEN_START,
};

#[test]
fn fixed_width_token_round_trips_u64_indexes() {
    for index in [0, 1, 255, 256, usize::MAX] {
        let token = encode_token(index);
        assert_eq!(token.chars().count(), TOKEN_LENGTH);
        assert_eq!(parse_token(&token), Ok(index));
    }
}

#[test]
fn marker_free_text_uses_bulk_fast_paths() {
    let escaped = escape_authored_markers("ordinary text");
    assert_eq!(escaped, "ordinary text");

    let (gaps, indexes) =
        parse_rendered_stream("ordinary rendered text").expect("marker-free rendered text is valid");
    assert_eq!(gaps, ["ordinary rendered text"]);
    assert!(indexes.is_empty());
}

#[test]
fn authored_markers_are_escaped_and_read_back() {
    let text = format!("a{ESCAPE_MARKER}{TOKEN_START}{TOKEN_END}b");
    let escaped = escape_authored_markers(&text);
    assert_eq!(escaped.chars().count(), 8);
    let (gaps, indexes) = parse_rendered_stream(&escaped).expect("valid escapes");
    assert_eq!(gaps, [text]);
    assert!(indexes.is_empty());
}

#[test]
fn malformed_tokens_are_refused() {
    assert!(parse_token("abc").is_err());
    let mut token = encode_token(7);
    token.pop();
    assert_eq!(parse_token(&token).unwrap_err().0, "malformed preservation token");
    let stray = format!("x{TOKEN_END}");
    assert!(parse_rendered_stream(&stray).is_err());
}

#[test]
fn inline_region_round_trip() {
    let source = normalize_source("a $x$ b");
    assert_eq!(source.text, "a $x$ b\n");
    let region = ProtectedRegion::from_candidate(
        &source,
        Candidate::inline(RegionKind::MathDollarInline, 2, 5),
        0,
    )
    .expect("valid candidate");
    assert_eq!(region.source, "$x$");
    assert_eq!(region.logical_widths, vec![3]);
    let protected = protect_source(&source, vec![region]).expect("valid protection");
    assert!(!protected.text.contains('$'));
    assert_eq!(restore_source(&protected.text, &protected).expect("valid restoration"), source.text);
    let segments = protected.inline_rewrite_segments(&protected.text).expect("valid segments");
    assert_eq!(segments.len(), 3);
    assert_eq!(segments[0], InlineRewriteSegment::Mutable("a ".to_string()));
}

#[test]
fn missing_token_is_refused_on_restore() {
    let source = normalize_source("a $x$ b");
    let region = ProtectedRegion::from_candidate(
        &source,
        Candidate::inline(RegionKind::MathDollarInline, 2, 5),
        0,
    )
    .unwrap();
    let protected = protect_source(&source, vec![region]).unwrap();
    assert_eq!(
        restore_source("a  b\n", &protected).unwrap_err().0,
        "preservation tokens are missing, duplicated, reordered, or malformed"
    );
}

#[test]
fn block_region_round_trip() {
    let source = normalize_source("Before\n$$\nbody\n$$\nAfter");
    let region = ProtectedRegion::from_candidate(
        &source,
        Candidate::block(RegionKind::MathDollarBlock, 7, 18, ContainerContext::new(), String::new()),
        0,
    )
    .expect("valid block");
    assert_eq!(region.source, "$$\nbody\n$$\n");
    let protected = protect_source(&source, vec![region]).expect("valid protection");
    assert_eq!(
        restore_source(&protected.text, &protected).expect("valid restoration"),
        "Before\n$$\nbody\n$$\nAfter\n"
    );
}

#[test]
fn candidates_are_checked_against_the_source() {
    let source = normalize_source("abc");
    let bad = ProtectedRegion::from_candidate(&source, Candidate::inline(RegionKind::CodeSpan, 2, 9), 0);
    assert_eq!(bad.unwrap_err().0, "preserved region is outside normalized source");
    let block = ProtectedRegion::from_candidate(
        &source,
        Candidate::block(RegionKind::RawHtmlBlock, 0, 2, ContainerContext::new(), String::new()),
        0,
    );
    assert_eq!(block.unwrap_err().0, "protected block must end with LF");
    let mut region =
        ProtectedRegion::from_candidate(&source, Candidate::inline(RegionKind::CodeSpan, 0, 1), 0).unwrap();
    region.index = 3;
    assert_eq!(
        validate_regions(&source, &vec![region]).unwrap_err().0,
        "protected regions are not canonical source order"
    );
}

#[test]
fn normalization_of_line_endings_and_bom() {
    assert_eq!(normalize_line_endings("a\r\nb\rc\n"), "a\nb\nc\n");
    assert_eq!(canonical_terminal_lf("x\n\n\n".to_string()), "x\n");
    assert_eq!(canonical_terminal_lf(String::new()), "\n");
    let source = normalize_source("\u{feff}a\r\n\r\n");
    assert!(source.had_bom);
    assert_eq!(source.text, "a\n");
    assert_eq!(finalize_output(&source, "b"), "\u{feff}b\n");
    assert_eq!(finalize_output(&source, &source.text), "\u{feff}a\n");
}

#[test]
fn code_span_context_strips_one_space() {
    assert_eq!(code_span_rewrite_context("`` a\nb ``").unwrap(), "a b");
    assert_eq!(code_span_rewrite_context("`  `").unwrap(), "  ");
    assert!(code_span_rewrite_context("``x`").is_err());
    assert!(code_span_rewrite_context("x").is_err());
}

#[test]
fn authored_marker_escapes_retain_one_column_each() {
    let escaped = escape_authored_markers(&format!("a{ESCAPE_MARKER}{TOKEN_START}{TOKEN_END}b"));
    let protected = ProtectedSource {
        text: escaped.clone(),
        regions: vec![],
        tokens: vec![],
        synthetic_block_prefixes: vec![],
        synthetic_block_suffixes: vec![],
        synthetic_blank_lines: vec![],
    };
    let metrics = protected.measure_inline_text(&escaped).expect("valid authored escapes");
    assert_eq!(metrics.first_width, 5);
    assert_eq!(metrics.final_width, 5);
    assert!(!metrics.has_authored_break);
}

#[test]
fn measuring_counts_inline_region_line_widths() {
    let text = "one `two\nthree` four\n";
    let normalized = normalize_source(text);
    let candidate = Candidate::inline(RegionKind::CodeSpan, 4, 15);
    let region = ProtectedRegion::from_candidate(&normalized, candidate, 0).expect("valid region");
    let protected = protect_source(&normalized, vec![region]).expect("valid protection");
    let line = protected.text.trim_end_matches('\n').to_string();
    let metrics = protected.measure_inline_text(&line).expect("valid tokens");
    // "one " + first line "`two" = 8; the last line "three`" = 6, then " four".
    assert_eq!(metrics.first_width, 8);
    assert_eq!(metrics.final_width, 11);
    assert!(metrics.has_authored_break);
}

#[test]
fn measuring_rejects_malformed_escapes_and_tokens() {
    let protected = ProtectedSource {
        text: String::new(),
        regions: vec![],
        tokens: vec![],
        synthetic_block_prefixes: vec![],
        synthetic_block_suffixes: vec![],
        synthetic_blank_lines: vec![],
    };
    let bad_escape = format!("a{ESCAPE_MARKER}x");
    assert_eq!(
        protected.measure_inline_text(&bad_escape).unwrap_err().0,
        "malformed preservation marker escape"
    );
    let short_token = format!("a{TOKEN_START}b");
    assert_eq!(
        protected.measure_inline_text(&short_token).unwrap_err().0,
        "malformed preservation token during wrapping"
    );
    let unknown = format!("a{}", encode_token(0));
    assert_eq!(
        protected.measure_inline_text(&unknown).unwrap_err().0,
        "unknown preservation token during wrapping"
    );
    let period = "1\u{E02E}\u{E100}2";
    let m = protected.measure_inline_text(period).expect("plain text");
    assert_eq!(m.first_width, 3);
}

#[test]
fn protected_wrapping_measures_tokens_by_their_source() {
    let normalized = normalize_source("alpha `code span` beta\n");
    let region = ProtectedRegion::from_candidate(
        &normalized,
        Candidate::inline(RegionKind::CodeSpan, 6, 17),
        0,
    )
    .expect("valid region");
    let protected = protect_source(&normalized, vec![region]).expect("valid protection");
    let token = encode_token(0);
    let text = protected.text.trim_end_matches('\n').to_string();
    assert_eq!(text, format!("alpha {token} beta"));

    // The token is 10 scalars but stands for 11 columns of source.
    let lines = wrap_paragraph_lines_protected(&text, 16, 0, 0, true, false, &protected);
    assert_eq!(lines, vec!["alpha".to_string(), format!("{token} beta")]);
    let wide = wrap_paragraph_lines_protected(&text, 40, 0, 0, true, false, &protected);
    assert_eq!(wide, vec![text.clone()]);
    let unwrapped = wrap_paragraph_lines_protected("  a   b ", 0, 0, 0, true, false, &protected);
    assert_eq!(unwrapped, vec!["a b".to_string()]);

    let para = wrap_paragraph_protected(&text, 18, "> ", "> ", &protected, true);
    assert_eq!(para, format!("> alpha\n> {token} beta"));
    let restored = restore_source(&format!("{para}\n"), &protected).expect("restores");
    assert_eq!(restored, "> alpha\n> `code span` beta\n");
}

#[test]
fn code_wins_and_complete_math_survives() {
    let source = normalize_source("Code `$not$`, math $a * b$, then $c$.\n");
    let regions = scan_protected_regions(&source).expect("valid scan");
    let slices: Vec<&str> = regions.iter().map(|region| region.source.as_str()).collect();
    assert_eq!(slices, ["`$not$`", "$a * b$", "$c$"]);
}

#[test]
fn block_math_owns_nested_markdown() {
    let source = normalize_source("> $$\n> a * b\n> $$ (eq)\n");
    let regions = scan_protected_regions(&source).expect("valid scan");
    assert_eq!(regions.len(), 1);
    assert_eq!(regions[0].form, RegionForm::Block);
    assert_eq!(regions[0].source, source.text);
}

#[test]
fn restoration_removes_only_a_parser_synthesized_block_prefix_blank() {
    let source = normalize_source("Before\n$$\nbody\n$$\nAfter");
    let regions = scan_protected_regions(&source).expect("valid scan");
    let protected = protect_source(&source, regions).expect("valid protection");

    assert_eq!(
        restore_source(&protected.text, &protected).expect("valid restoration"),
        "Before\n$$\nbody\n$$\nAfter\n"
    );
}

#[test]
fn scan_skips_fenced_code_and_reads_table_cells() {
    let source = normalize_source("```\n$x$\n```\n| `a|b` | $y$ |\n");
    let regions = scan_protected_regions(&source).expect("valid scan");
    let slices: Vec<&str> = regions.iter().map(|region| region.source.as_str()).collect();
    assert_eq!(slices, ["`a|b`", "$y$"]);
}

#[test]
fn scan_finds_bracket_math_blocks_and_headings() {
    let source = normalize_source("# Title $t$\n\n\\[\nx\n\\]\n");
    let regions = scan_protected_regions(&source).expect("valid scan");
    assert_eq!(regions.len(), 2);
    assert_eq!(regions[0].source, "$t$");
    assert_eq!(regions[1].form, RegionForm::Block);
    assert_eq!(regions[1].source, "\\[\nx\n\\]\n");
}

#[test]
fn inline_and_block_regions_restore_exactly() {
    let source = normalize_source("Text $x$ and `c`.\n\n> $$\n> a\n> $$\nAfter $y$\n");
    let regions = scan_protected_regions(&source).expect("valid scan");
    assert_eq!(regions.len(), 4);
    let protected = protect_source(&source, regions).expect("valid protection");
    assert_eq!(restore_source(&protected.text, &protected).expect("valid restoration"), source.text);
}
