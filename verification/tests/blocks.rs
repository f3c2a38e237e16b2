use flowmark::config::ListSpacing;
use flowmark::formatter::blocks::{
    effective_list_tightness, get_tasklist_marker, is_autolink, is_block_element, is_html_comment_only, is_refdef_marker,
    item_needs_child_spacing, join_block_children, join_quoted_children, last_content_line,
    MdNode, NodeKind,
};
use flowmark::formatter::filling::REFDEF_MARKER_PREFIX;

fn node(kind: NodeKind, start: usize, end: usize) -> MdNode {
    MdNode {
        kind,
        start_line: start,
        end_line: end,
        level: 0,
        ordered: false,
        start: 0,
        bullet: '-',
        tight: true,
        checked: false,
        fenced: false,
        fence_char: '`',
        fence_length: 0,
        info: String::new(),
        literal: String::new(),
        url: String::new(),
        title: String::new(),
        display: false,
        alignments: Vec::new(),
        children: Vec::new(),
    }
}

fn text_node(s: &str) -> MdNode {
    let mut n = node(NodeKind::Text, 0, 0);
    n.literal = s.to_string();
    n
}

fn link(children: Vec<MdNode>, url: &str) -> MdNode {
    let mut n = node(NodeKind::Link, 0, 0);
    n.url = url.to_string();
    n.children = children;
    n
}

fn html(start: usize, literal: &str) -> MdNode {
    let mut n = node(NodeKind::HtmlBlock, start, start);
    n.literal = literal.to_string();
    n
}

#[test]
fn block_kinds_take_part_in_separation() {
    assert!(is_block_element(&node(NodeKind::Paragraph, 1, 1)));
    assert!(is_block_element(&node(NodeKind::ThematicBreak, 1, 1)));
    assert!(!is_block_element(&node(NodeKind::Item, 1, 1)));
    assert!(!is_block_element(&node(NodeKind::Other, 1, 1)));
}

#[test]
fn html_comment_and_refdef_detection() {
    assert!(is_html_comment_only(&html(1, "  <!-- note -->\n")));
    assert!(!is_html_comment_only(&html(1, "<!-- two\nlines -->")));
    assert!(!is_html_comment_only(&html(1, "<div>x</div>")));
    let marker = format!("{REFDEF_MARKER_PREFIX}[a]: http://x -->");
    assert!(is_refdef_marker(&html(1, &marker)));
    assert!(!is_html_comment_only(&html(1, &marker)));
    assert!(!is_refdef_marker(&node(NodeKind::Paragraph, 1, 1)));
}

#[test]
fn list_content_end_reaches_into_last_item() {
    let mut item = node(NodeKind::Item, 1, 3);
    item.children.push(node(NodeKind::Paragraph, 1, 1));
    let mut list = node(NodeKind::List, 1, 3);
    list.children.push(item);
    assert_eq!(last_content_line(&list), 1);
    assert_eq!(last_content_line(&node(NodeKind::HtmlBlock, 5, 4)), 5);
}

#[test]
fn paragraph_then_list_written_tight_stays_tight() {
    let children = vec![node(NodeKind::Paragraph, 1, 1), node(NodeKind::List, 2, 3)];
    let rendered = vec!["Label:\n".to_string(), "- a\n- b\n".to_string()];
    assert_eq!(join_block_children(&children, &rendered), "Label:\n- a\n- b\n");
}

#[test]
fn paragraphs_get_blank_line_between() {
    let children = vec![node(NodeKind::Paragraph, 1, 1), node(NodeKind::Paragraph, 2, 2)];
    let rendered = vec!["One.\n".to_string(), "Two.\n".to_string()];
    assert_eq!(join_block_children(&children, &rendered), "One.\n\nTwo.\n");
}

#[test]
fn consecutive_refdefs_are_grouped() {
    let a = format!("{REFDEF_MARKER_PREFIX}[a]: http://a -->");
    let b = format!("{REFDEF_MARKER_PREFIX}[b]: http://b -->");
    let children = vec![html(1, &a), html(3, &b)];
    let rendered = vec!["[a]: http://a\n".to_string(), "[b]: http://b\n".to_string()];
    assert_eq!(join_block_children(&children, &rendered), "[a]: http://a\n[b]: http://b\n");
}

#[test]
fn hard_break_heading_gets_no_separator() {
    let mut h = node(NodeKind::Heading, 1, 1);
    h.children.push(text_node("Title\\"));
    let children = vec![h, node(NodeKind::Paragraph, 3, 3)];
    let rendered = vec!["# Title\\\n".to_string(), "Text.\n".to_string()];
    assert_eq!(join_block_children(&children, &rendered), "# Title\\\nText.\n");
}

#[test]
fn quoted_children_use_quote_prefix_on_blank_line() {
    let children = vec![node(NodeKind::Paragraph, 1, 1), node(NodeKind::Paragraph, 3, 3)];
    let rendered = vec!["> One.\n".to_string(), "> Two.\n".to_string()];
    assert_eq!(join_quoted_children(&children, &rendered, ">"), "> One.\n> \n> Two.\n");
    let nested = vec![node(NodeKind::Paragraph, 1, 1), node(NodeKind::BlockQuote, 2, 2)];
    let rendered = vec!["> One.\n".to_string(), "> > Two.\n".to_string()];
    assert_eq!(join_quoted_children(&nested, &rendered, ">"), "> One.\n> > Two.\n");
}

#[test]
fn item_child_spacing_by_mode() {
    let mut item = node(NodeKind::Item, 1, 3);
    item.children.push(node(NodeKind::Paragraph, 1, 1));
    item.children.push(node(NodeKind::CodeBlock, 2, 3));
    assert!(item_needs_child_spacing(&item, true, ListSpacing::Loose));
    assert!(!item_needs_child_spacing(&item, true, ListSpacing::Preserve));
    assert!(item_needs_child_spacing(&item, false, ListSpacing::Preserve));
    assert!(item_needs_child_spacing(&item, true, ListSpacing::Tight));
    let mut spaced = node(NodeKind::Item, 1, 3);
    spaced.children.push(node(NodeKind::Paragraph, 1, 1));
    spaced.children.push(node(NodeKind::Paragraph, 3, 3));
    assert!(item_needs_child_spacing(&spaced, true, ListSpacing::Preserve));
    let single = node(NodeKind::Item, 1, 1);
    assert!(!item_needs_child_spacing(&single, false, ListSpacing::Loose));
}

#[test]
fn list_tightness_by_mode() {
    let mut simple = node(NodeKind::Item, 1, 1);
    simple.children.push(node(NodeKind::Paragraph, 1, 1));
    let mut complex = node(NodeKind::Item, 2, 3);
    complex.children.push(node(NodeKind::Paragraph, 2, 2));
    complex.children.push(node(NodeKind::Paragraph, 3, 3));
    let mut list = node(NodeKind::List, 1, 3);
    list.tight = false;
    list.children.push(simple);
    assert!(!effective_list_tightness(&list, ListSpacing::Preserve));
    assert!(effective_list_tightness(&list, ListSpacing::Tight));
    assert!(!effective_list_tightness(&list, ListSpacing::Loose));
    list.children.push(complex);
    assert!(!effective_list_tightness(&list, ListSpacing::Tight));
}

#[test]
fn tasklist_marker_only_on_first_child_of_task_item() {
    let mut task = node(NodeKind::TaskItem, 1, 2);
    task.checked = true;
    task.children.push(node(NodeKind::Paragraph, 1, 1));
    task.children.push(node(NodeKind::Paragraph, 2, 2));
    assert_eq!(get_tasklist_marker(&task, 0), Some("[x] ".to_string()));
    assert_eq!(get_tasklist_marker(&task, 1), None);
    task.checked = false;
    assert_eq!(get_tasklist_marker(&task, 0), Some("[ ] ".to_string()));
    let mut item = node(NodeKind::Item, 1, 1);
    item.children.push(node(NodeKind::Paragraph, 1, 1));
    assert_eq!(get_tasklist_marker(&item, 0), None);
}

#[test]
fn autolink_detection() {
    assert!(is_autolink(&link(vec![text_node("https://example.com")], "https://example.com")));
    assert!(is_autolink(&link(vec![text_node("a@b.org")], "mailto:a@b.org")));
    assert!(is_autolink(&link(vec![text_node("a@b.org")], "a@b.org")));
    assert!(!is_autolink(&link(vec![text_node("foo.md")], "foo.md")));
    assert!(!is_autolink(&link(vec![text_node("site")], "https://example.com")));
    assert!(!is_autolink(&link(vec![node(NodeKind::Other, 0, 0)], "https://example.com")));
}
