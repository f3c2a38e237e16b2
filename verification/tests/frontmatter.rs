use flowmark::frontmatter::{has_frontmatter, split_frontmatter};

#[test]
fn test_split_frontmatter_with_frontmatter() {
    let text = "---\ntitle: Test\n---\nContent here";
    let (fm, content) = split_frontmatter(text);
    assert_eq!(fm, "---\ntitle: Test\n---\n");
    assert_eq!(content, "Content here");
}

#[test]
fn test_split_frontmatter_without_frontmatter() {
    let text = "No frontmatter here";
    let (fm, content) = split_frontmatter(text);
    assert_eq!(fm, "");
    assert_eq!(content, "No frontmatter here");
}

#[test]
fn test_split_frontmatter_empty() {
    let text = "";
    let (fm, content) = split_frontmatter(text);
    assert_eq!(fm, "");
    assert_eq!(content, "");
}

#[test]
fn test_has_frontmatter() {
    assert!(has_frontmatter("---\ntitle: Test\n---\nContent"));
    assert!(!has_frontmatter("No frontmatter"));
}

#[test]
fn test_split_frontmatter_no_closing() {
    let text = "---\ntitle: Test\nno closing";
    let (fm, content) = split_frontmatter(text);
    assert_eq!(fm, text);
    assert_eq!(content, "");
}

#[test]
fn frontmatter_after_leading_blank_lines_drops_them() {
    let (fm, content) = split_frontmatter("\n  \n---\na: 1\n---\nbody\nmore");
    assert_eq!(fm, "---\na: 1\n---\n");
    assert_eq!(content, "body\nmore");
}

#[test]
fn frontmatter_split_is_lossless_without_leading_blank() {
    let text = "---\nx: y\n---\nline one\nline two\n";
    let (fm, content) = split_frontmatter(text);
    assert_eq!(format!("{fm}{content}"), text);
}
