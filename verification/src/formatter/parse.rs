//! Parsing Markdown into the library's document tree, through comrak.

use vstd::prelude::*;

use crate::formatter::blocks::{Align, MdNode, NodeKind};
use comrak::nodes::{ListType, NodeValue, TableAlignment};

verus! {

#[verifier::external_type_specification]
#[verifier::external_body]
#[verifier::reject_recursive_types(T)]
pub struct ExArenaNode<'a, T: 'a>(comrak::arena_tree::Node<'a, T>);

#[verifier::external_type_specification]
#[verifier::external_body]
#[verifier::reject_recursive_types(T)]
pub struct ExRefCell<T: ?Sized>(core::cell::RefCell<T>);

#[verifier::external_type_specification]
#[verifier::external_body]
pub struct ExAst(comrak::nodes::Ast);

/// The Markdown extensions the parser recognizes.
#[derive(Clone, Copy, Debug, PartialEq, Eq, Structural)]
pub struct ParseOptions {
    pub strikethrough: bool,
    pub table: bool,
    pub autolink: bool,
    pub tasklist: bool,
    pub footnotes: bool,
    pub math_dollars: bool,
    pub alerts: bool,
}

/// The extensions Flowmark parses with: GitHub-flavored Markdown (tables,
/// strikethrough, autolinks, task lists, footnotes, alerts) and dollar math.
pub open spec fn flowmark_parse_options() -> ParseOptions {
    ParseOptions {
        strikethrough: true,
        table: true,
        autolink: true,
        tasklist: true,
        footnotes: true,
        math_dollars: true,
        alerts: true,
    }
}

/// The parse options of [`flowmark_parse_options`].
pub fn flowmark_comrak_options() -> (r: ParseOptions)
    ensures
        r == flowmark_parse_options(),
{
    ParseOptions {
        strikethrough: true,
        table: true,
        autolink: true,
        tasklist: true,
        footnotes: true,
        math_dollars: true,
        alerts: true,
    }
}

/// The document tree comrak parses from a text with these extensions.
pub uninterp spec fn markdown_tree_of(text: Seq<char>, options: ParseOptions) -> MdNode;

#[verifier::external_type_specification]
#[verifier::external_body]
pub struct ExNodeValue(comrak::nodes::NodeValue);

#[verifier::external_type_specification]
#[verifier::external_body]
pub struct ExTableAlignment(comrak::nodes::TableAlignment);

/// A node of the given kind and source lines, every other value empty.
fn blank_node(kind: NodeKind, start_line: usize, end_line: usize) -> (r: MdNode)
    ensures
        r.kind == kind,
        r.start_line == start_line,
        r.end_line == end_line,
        r.children.len() == 0,
{
    MdNode {
        kind,
        start_line,
        end_line,
        level: 0,
        ordered: false,
        start: 0,
        bullet: '-',
        tight: false,
        checked: false,
        fenced: false,
        fence_char: '`',
        fence_length: 0,
        info: String::new(),
        literal: String::new(),
        url: String::new(),
        title: String::new(),
        display: false,
        alignments: Vec::new(),
        children: Vec::new(),
    }
}

/// Sets the kind of a block value that carries no data of its own.
#[verifier::external_body]
fn take_block_kind(v: &NodeValue, n: &mut MdNode) {
    match v {
        NodeValue::Document => n.kind = NodeKind::Document,
        NodeValue::Paragraph => n.kind = NodeKind::Paragraph,
        NodeValue::BlockQuote => n.kind = NodeKind::BlockQuote,
        NodeValue::ThematicBreak => n.kind = NodeKind::ThematicBreak,
        NodeValue::Item(_) => n.kind = NodeKind::Item,
        NodeValue::TableRow(_) => n.kind = NodeKind::TableRow,
        NodeValue::TableCell => n.kind = NodeKind::TableCell,
        _ => {},
    }
}

/// Sets the kind of an inline value that carries no data of its own.
#[verifier::external_body]
fn take_inline_kind(v: &NodeValue, n: &mut MdNode) {
    match v {
        NodeValue::Emph => n.kind = NodeKind::Emph,
        NodeValue::Strong => n.kind = NodeKind::Strong,
        NodeValue::Strikethrough => n.kind = NodeKind::Strikethrough,
        NodeValue::SoftBreak => n.kind = NodeKind::SoftBreak,
        NodeValue::LineBreak => n.kind = NodeKind::LineBreak,
        NodeValue::Escaped => n.kind = NodeKind::Escaped,
        _ => {},
    }
}

/// Moves the data of a heading, task item, HTML, text or code value into
/// the node.
#[verifier::external_body]
fn take_text_fields(v: &NodeValue, n: &mut MdNode) {
    match v {
        NodeValue::Heading(h) => { n.kind = NodeKind::Heading; n.level = h.level; },
        NodeValue::TaskItem(t) => { n.kind = NodeKind::TaskItem; n.checked = t.symbol.is_some(); },
        NodeValue::HtmlBlock(h) => { n.kind = NodeKind::HtmlBlock; n.literal = h.literal.clone(); },
        NodeValue::HtmlInline(h) => { n.kind = NodeKind::HtmlInline; n.literal = h.clone(); },
        NodeValue::Text(t) => { n.kind = NodeKind::Text; n.literal = t.to_string(); },
        NodeValue::Code(c) => { n.kind = NodeKind::Code; n.literal = c.literal.clone(); },
        _ => {},
    }
}

/// Moves the data of a list or code block value into the node.
#[verifier::external_body]
fn take_list_code_fields(v: &NodeValue, n: &mut MdNode) {
    match v {
        NodeValue::List(l) => {
            n.kind = NodeKind::List; n.ordered = l.list_type == ListType::Ordered;
            n.start = l.start; n.bullet = l.bullet_char as char; n.tight = l.tight;
        },
        NodeValue::CodeBlock(c) => {
            n.kind = NodeKind::CodeBlock; n.fenced = c.fenced; n.fence_char = c.fence_char as char;
            n.fence_length = c.fence_length; n.info = c.info.clone(); n.literal = c.literal.clone();
        },
        _ => {},
    }
}

/// Moves the data of a table, footnote or alert value into the node.
#[verifier::external_body]
fn take_table_note_fields(v: &NodeValue, n: &mut MdNode) {
    match v {
        NodeValue::Table(t) => { n.kind = NodeKind::Table; n.alignments = t.alignments.iter().map(align_of).collect(); },
        NodeValue::FootnoteDefinition(f) => { n.kind = NodeKind::FootnoteDefinition; n.title = f.name.clone(); },
        NodeValue::FootnoteReference(f) => { n.kind = NodeKind::FootnoteReference; n.title = f.name.clone(); },
        NodeValue::Alert(a) => { n.kind = NodeKind::Alert; n.title = format!("{:?}", a.alert_type); },
        _ => {},
    }
}

/// Moves the data of a link, image, math or wiki link value into the node.
#[verifier::external_body]
fn take_link_fields(v: &NodeValue, n: &mut MdNode) {
    match v {
        NodeValue::Link(l) => { n.kind = NodeKind::Link; n.url = l.url.clone(); n.title = l.title.clone(); },
        NodeValue::Image(l) => { n.kind = NodeKind::Image; n.url = l.url.clone(); n.title = l.title.clone(); },
        NodeValue::Math(m) => { n.kind = NodeKind::Math; n.display = m.display_math; n.literal = m.literal.clone(); },
        NodeValue::WikiLink(w) => { n.kind = NodeKind::WikiLink; n.url = w.url.clone(); },
        _ => {},
    }
}

/// A comrak table alignment as the library's.
#[verifier::external_body]
fn align_of(a: &TableAlignment) -> (r: Align) {
    match a {
        TableAlignment::None => Align::Unaligned,
        TableAlignment::Left => Align::Left,
        TableAlignment::Center => Align::Center,
        TableAlignment::Right => Align::Right,
    }
}

/// Converts one comrak node and its subtree into an [`MdNode`], value by
/// value.
#[verifier::external_body]
fn md_node_of<'a>(node: &'a comrak::nodes::AstNode<'a>) -> (r: MdNode) {
    let ast = node.data.borrow();
    let mut n = blank_node(NodeKind::Other, ast.sourcepos.start.line, ast.sourcepos.end.line);
    take_block_kind(&ast.value, &mut n);
    take_inline_kind(&ast.value, &mut n);
    take_text_fields(&ast.value, &mut n);
    take_list_code_fields(&ast.value, &mut n);
    take_table_note_fields(&ast.value, &mut n);
    take_link_fields(&ast.value, &mut n);
    n.children = node.children().map(md_node_of).collect();
    n
}

/// `comrak::parse_document` with the given extensions enabled and every
/// other option at its default.
///
/// Claimed of comrak: the tree is a function of the text and the options
/// alone (named `markdown_tree_of`); its shape is not stated here. The parse
/// is never cancelled, so it does not panic.
#[verifier::external_body]
pub fn parse_markdown(text: &str, options: ParseOptions) -> (r: MdNode)
    ensures
        r == markdown_tree_of(text@, options),
{
    let arena = comrak::Arena::new();
    let mut o = comrak::Options::default();
    o.extension.strikethrough = options.strikethrough;
    o.extension.table = options.table;
    o.extension.autolink = options.autolink;
    o.extension.tasklist = options.tasklist;
    o.extension.footnotes = options.footnotes;
    o.extension.math_dollars = options.math_dollars;
    o.extension.alerts = options.alerts;
    md_node_of(comrak::parse_document(&arena, text, &o))
}

} // verus!
