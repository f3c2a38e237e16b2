//! Block layout decisions of the Markdown renderer.
//!
//! The renderer walks the parsed document tree and decides, for each pair of
//! neighbouring blocks, whether a blank line separates them, and for each
//! list item whether its children are spaced. Those decisions read only a
//! little of each node: its kind, its source lines, a few flags and the text
//! of HTML blocks. `MdNode` holds exactly that, so the rules are stated and
//! proved here over plain values.

use vstd::prelude::*;

use crate::config::ListSpacing;
use crate::formatter::filling::{FNDEF_MARKER_START, REFDEF_MARKER_PREFIX};
use crate::text::{
    chars_of, contains_seq, contains_str, ends_with, ends_with_str, starts_with, starts_with_str,
    trim, trim_chars, contains_char,
};

verus! {

/// The kind of a node of the parsed document tree.
#[derive(Clone, Copy, Debug, PartialEq, Eq, Structural)]
pub enum NodeKind {
    Document,
    Paragraph,
    Heading,
    List,
    Item,
    TaskItem,
    BlockQuote,
    CodeBlock,
    ThematicBreak,
    HtmlBlock,
    Table,
    TableRow,
    TableCell,
    FootnoteDefinition,
    Alert,
    Text,
    Code,
    Emph,
    Strong,
    Strikethrough,
    Link,
    Image,
    HtmlInline,
    SoftBreak,
    LineBreak,
    Escaped,
    FootnoteReference,
    Math,
    WikiLink,
    Other,
}

/// Alignment of a table column.
#[derive(Clone, Copy, Debug, PartialEq, Eq, Structural)]
pub enum Align {
    Unaligned,
    Left,
    Center,
    Right,
}

/// A node of the parsed Markdown document: its kind, source lines, the
/// values its kind carries (unused fields are left empty) and its children.
#[derive(Debug)]
pub struct MdNode {
    pub kind: NodeKind,
    /// First source line of the node (1-based; 0 where the parser gave none).
    pub start_line: usize,
    /// Last source line as the parser reports it.
    pub end_line: usize,
    /// Heading level.
    pub level: u8,
    /// For a list: numbered or bulleted.
    pub ordered: bool,
    /// For a numbered list: its first number.
    pub start: usize,
    /// For a bulleted list: its bullet.
    pub bullet: char,
    /// For a list: whether the parser found it tight.
    pub tight: bool,
    /// For a task item: whether its box is checked.
    pub checked: bool,
    /// For a code block: whether it was fenced, the fence and its length.
    pub fenced: bool,
    pub fence_char: char,
    pub fence_length: usize,
    /// For a code block: its info string.
    pub info: String,
    /// The literal text of a text, code span, code block, HTML or math node.
    pub literal: String,
    /// The target of a link, image or wiki link.
    pub url: String,
    /// The title of a link or image, the name of a footnote, the type of an
    /// alert.
    pub title: String,
    /// For math: display math.
    pub display: bool,
    /// For a table: the column alignments.
    pub alignments: Vec<Align>,
    /// The node's children, block or inline.
    pub children: Vec<MdNode>,
}

/// Kinds that are separated from their neighbours by a blank line.
pub open spec fn is_block_kind(k: NodeKind) -> bool {
    ||| k is Paragraph
    ||| k is Heading
    ||| k is List
    ||| k is BlockQuote
    ||| k is CodeBlock
    ||| k is ThematicBreak
    ||| k is HtmlBlock
    ||| k is Table
    ||| k is FootnoteDefinition
    ||| k is Alert
}

/// Whether the node is a block that takes part in blank-line separation.
pub fn is_block_element(node: &MdNode) -> (r: bool)
    ensures
        r == is_block_kind(node.kind),
{
    match node.kind {
        NodeKind::Paragraph | NodeKind::Heading | NodeKind::List | NodeKind::BlockQuote
        | NodeKind::CodeBlock | NodeKind::ThematicBreak | NodeKind::HtmlBlock | NodeKind::Table
        | NodeKind::FootnoteDefinition | NodeKind::Alert => true,
        _ => false,
    }
}

/// The inline content ends in a hard break: an explicit line break, or text
/// ending in a backslash.
pub open spec fn ends_with_hard_break(children: Seq<MdNode>) -> bool {
    children.len() > 0 && (children.last().kind is LineBreak || (children.last().kind is Text
        && children.last().literal@.len() > 0 && children.last().literal@.last() == '\\'))
}

/// Whether the node's inline content ends in a hard break.
pub fn inline_ends_with_hard_break(node: &MdNode) -> (r: bool)
    ensures
        r == ends_with_hard_break(node.children@),
{
    let n = node.children.len();
    if n == 0 {
        return false;
    }
    let last = &node.children[n - 1];
    if last.kind == NodeKind::LineBreak {
        return true;
    }
    if last.kind != NodeKind::Text {
        return false;
    }
    let v = chars_of(last.literal.as_str());
    v.len() > 0 && v[v.len() - 1] == '\\'
}

/// A one-line HTML comment that is not one of the formatter's own markers.
pub open spec fn is_comment_literal(literal: Seq<char>) -> bool {
    let t = trim(literal);
    &&& starts_with(t, "<!--"@)
    &&& ends_with(t, "-->"@)
    &&& !t.contains('\n')
    &&& !contains_seq(t, FNDEF_MARKER_START@)
    &&& !contains_seq(t, REFDEF_MARKER_PREFIX@)
}

pub open spec fn html_comment_only(node: MdNode) -> bool {
    node.kind is HtmlBlock && is_comment_literal(node.literal@)
}

/// Whether the node is an HTML block holding only a standalone comment.
pub fn is_html_comment_only(node: &MdNode) -> (r: bool)
    ensures
        r == html_comment_only(*node),
{
    if node.kind != NodeKind::HtmlBlock {
        return false;
    }
    let t = trim_chars(&chars_of(node.literal.as_str()));
    starts_with_str(&t, "<!--") && ends_with_str(&t, "-->") && !contains_char(&t, '\n')
        && !contains_str(&t, FNDEF_MARKER_START) && !contains_str(&t, REFDEF_MARKER_PREFIX)
}

pub open spec fn refdef_marker(node: MdNode) -> bool {
    node.kind is HtmlBlock && starts_with(trim(node.literal@), REFDEF_MARKER_PREFIX@)
}

/// Whether the node is an HTML block holding a link reference definition
/// marker.
pub fn is_refdef_marker(node: &MdNode) -> (r: bool)
    ensures
        r == refdef_marker(*node),
{
    if node.kind != NodeKind::HtmlBlock {
        return false;
    }
    let t = trim_chars(&chars_of(node.literal.as_str()));
    starts_with_str(&t, REFDEF_MARKER_PREFIX)
}

/// The node's own last source line, never before its first.
pub open spec fn source_end(node: MdNode) -> int {
    if node.end_line >= node.start_line {
        node.end_line as int
    } else {
        node.start_line as int
    }
}

/// The last source line that holds content: lists and items reach into their
/// last child, since the parser counts trailing blank lines into them.
pub open spec fn content_end(node: MdNode) -> int
    decreases node,
{
    if (node.kind is List || node.kind is Item || node.kind is TaskItem) && node.children.len()
        > 0 {
        content_end(node.children@.last())
    } else {
        source_end(node)
    }
}

/// The last source line of the node that holds content.
pub fn last_content_line(node: &MdNode) -> (r: usize)
    ensures
        r == content_end(*node),
    decreases node,
{
    match node.kind {
        NodeKind::List | NodeKind::Item | NodeKind::TaskItem => {
            let n = node.children.len();
            if n > 0 {
                return last_content_line(&node.children[n - 1]);
            }
        },
        _ => {},
    }
    if node.end_line >= node.start_line {
        node.end_line
    } else {
        node.start_line
    }
}

/// Children `i - 1` and `i` were separated by a blank line in the source.
pub open spec fn blank_before(ch: Seq<MdNode>, i: int) -> bool {
    content_end(ch[i - 1]) > 0 && ch[i].start_line > content_end(ch[i - 1]) + 1
}

/// Some two neighbouring children were separated by a blank line.
pub open spec fn has_blank_between(ch: Seq<MdNode>) -> bool {
    exists|i: int| 1 <= i < ch.len() && #[trigger] blank_before(ch, i)
}

/// Whether some two neighbouring children were separated by a blank line in
/// the source.
pub fn blank_separated(children: &Vec<MdNode>) -> (r: bool)
    ensures
        r == has_blank_between(children@),
{
    let mut prev_end: usize = 0;
    let mut i: usize = 0;
    while i < children.len()
        invariant
            i <= children.len(),
            prev_end == (if i == 0 { 0 } else { content_end(children@[i - 1]) }),
            forall|j: int| 1 <= j < i ==> !#[trigger] blank_before(children@, j),
        decreases children.len() - i,
    {
        let start = children[i].start_line;
        if prev_end > 0 && start > prev_end && start - prev_end > 1 {
            assert(blank_before(children@, i as int));
            return true;
        }
        prev_end = last_content_line(&children[i]);
        i += 1;
    }
    false
}

pub open spec fn has_kind(ch: Seq<MdNode>, k: NodeKind) -> bool {
    exists|i: int| 0 <= i < ch.len() && (#[trigger] ch[i]).kind == k
}

/// Whether some child has kind `k`.
pub fn any_of_kind(children: &Vec<MdNode>, k: NodeKind) -> (r: bool)
    ensures
        r == has_kind(children@, k),
{
    let mut i: usize = 0;
    while i < children.len()
        invariant
            i <= children.len(),
            forall|j: int| 0 <= j < i ==> (#[trigger] children@[j]).kind != k,
        decreases children.len() - i,
    {
        if children[i].kind == k {
            return true;
        }
        i += 1;
    }
    false
}

pub open spec fn has_two_paragraphs(ch: Seq<MdNode>) -> bool {
    exists|i: int, j: int|
        0 <= i < j < ch.len() && (#[trigger] ch[i]).kind is Paragraph && (#[trigger] ch[j]).kind is Paragraph
}

/// Whether at least two children are paragraphs.
pub fn several_paragraphs(children: &Vec<MdNode>) -> (r: bool)
    ensures
        r == has_two_paragraphs(children@),
{
    let mut first: Option<usize> = None;
    let mut i: usize = 0;
    while i < children.len()
        invariant
            i <= children.len(),
            match first {
                Some(f) => f < i && children@[f as int].kind is Paragraph,
                None => forall|j: int| 0 <= j < i ==> !((#[trigger] children@[j]).kind is Paragraph),
            },
            forall|a: int, b: int|
                0 <= a < b < i ==> !((#[trigger] children@[a]).kind is Paragraph && (#[trigger] children@[b]).kind is Paragraph),
        decreases children.len() - i,
    {
        if children[i].kind == NodeKind::Paragraph {
            match first {
                Some(f) => {
                    assert(children@[f as int].kind is Paragraph && children@[i as int].kind is Paragraph);
                    return true;
                },
                None => {
                    first = Some(i);
                },
            }
        }
        i += 1;
    }
    false
}

/// An item with a sublist, a code block or more than one paragraph.
pub open spec fn complex_item(item: MdNode) -> bool {
    has_kind(item.children@, NodeKind::List) || has_kind(item.children@, NodeKind::CodeBlock)
        || has_two_paragraphs(item.children@)
}

/// Whether the item has a sublist, a code block or several paragraphs.
pub fn item_is_complex(item: &MdNode) -> (r: bool)
    ensures
        r == complex_item(*item),
{
    any_of_kind(&item.children, NodeKind::List) || any_of_kind(&item.children, NodeKind::CodeBlock)
        || several_paragraphs(&item.children)
}

pub open spec fn has_complex_item(items: Seq<MdNode>) -> bool {
    exists|i: int| 0 <= i < items.len() && complex_item(#[trigger] items[i])
}

/// Whether some item of the list is complex.
pub fn any_item_complex(items: &Vec<MdNode>) -> (r: bool)
    ensures
        r == has_complex_item(items@),
{
    let mut i: usize = 0;
    while i < items.len()
        invariant
            i <= items.len(),
            forall|j: int| 0 <= j < i ==> !complex_item(#[trigger] items@[j]),
        decreases items.len() - i,
    {
        if item_is_complex(&items[i]) {
            return true;
        }
        i += 1;
    }
    false
}

/// A list that renders loose inside a tight item: marked loose by the
/// parser, or holding a complex item.
pub open spec fn loose_sublist(c: MdNode) -> bool {
    c.kind is List && (!c.tight || has_complex_item(c.children@))
}

pub open spec fn has_loose_sublist(ch: Seq<MdNode>) -> bool {
    exists|i: int| 0 <= i < ch.len() && loose_sublist(#[trigger] ch[i])
}

fn any_loose_sublist(children: &Vec<MdNode>) -> (r: bool)
    ensures
        r == has_loose_sublist(children@),
{
    let mut i: usize = 0;
    while i < children.len()
        invariant
            i <= children.len(),
            forall|j: int| 0 <= j < i ==> !loose_sublist(#[trigger] children@[j]),
        decreases children.len() - i,
    {
        let c = &children[i];
        if c.kind == NodeKind::List && (!c.tight || any_item_complex(&c.children)) {
            return true;
        }
        i += 1;
    }
    false
}

/// Whether a list item puts blank lines between its children.
pub open spec fn child_spacing_needed(node: MdNode, parent_is_tight: bool, spacing: ListSpacing) -> bool {
    let ch = node.children@;
    if ch.len() <= 1 {
        false
    } else {
        match spacing {
            ListSpacing::Loose => true,
            ListSpacing::Preserve => !parent_is_tight || has_blank_between(ch),
            ListSpacing::Tight => has_kind(ch, NodeKind::CodeBlock) || has_loose_sublist(ch)
                || has_blank_between(ch),
        }
    }
}

/// Whether the list item `node` separates its children by blank lines: always
/// in loose mode and in loose lists; in a tight list kept as authored, only
/// where the source had a blank line; in tight mode, also for code blocks and
/// loose sublists.
pub fn item_needs_child_spacing(node: &MdNode, parent_is_tight: bool, list_spacing: ListSpacing) -> (r: bool)
    ensures
        r == child_spacing_needed(*node, parent_is_tight, list_spacing),
{
    if node.children.len() <= 1 {
        return false;
    }
    match list_spacing {
        ListSpacing::Loose => true,
        ListSpacing::Preserve => {
            if !parent_is_tight {
                return true;
            }
            blank_separated(&node.children)
        },
        ListSpacing::Tight => {
            if any_of_kind(&node.children, NodeKind::CodeBlock) {
                return true;
            }
            if any_loose_sublist(&node.children) {
                return true;
            }
            blank_separated(&node.children)
        },
    }
}

/// Whether a list renders tight: as the parser found it when kept as
/// authored, when no item is complex in tight mode, never in loose mode.
pub open spec fn list_tight(list: MdNode, spacing: ListSpacing) -> bool {
    match spacing {
        ListSpacing::Preserve => list.tight,
        ListSpacing::Tight => !has_complex_item(list.children@),
        ListSpacing::Loose => false,
    }
}

/// Whether the list `list` renders without blank lines between its items.
pub fn effective_list_tightness(list: &MdNode, list_spacing: ListSpacing) -> (r: bool)
    ensures
        r == list_tight(*list, list_spacing),
{
    match list_spacing {
        ListSpacing::Preserve => list.tight,
        ListSpacing::Tight => !any_item_complex(&list.children),
        ListSpacing::Loose => false,
    }
}

/// The previous block's content ended at most one line before this one began.
pub open spec fn originally_tight(prev: MdNode, child: MdNode) -> bool {
    content_end(prev) > 0 && child.start_line <= content_end(prev) + 1
}

/// Pairs that stay without a blank line when the source had none: after an
/// HTML comment; before an HTML comment unless after a list or table; a
/// paragraph followed by a list, code block, table or block quote; and any
/// pair with a thematic break.
pub open spec fn tight_pair_kept(prev: MdNode, child: MdNode) -> bool {
    if html_comment_only(prev) {
        true
    } else if html_comment_only(child) {
        !(prev.kind is List || prev.kind is Table)
    } else if prev.kind is Paragraph && (child.kind is List || child.kind is CodeBlock
        || child.kind is Table || child.kind is BlockQuote) {
        true
    } else {
        prev.kind is ThematicBreak || child.kind is ThematicBreak
    }
}

pub open spec fn hard_break_heading(n: MdNode) -> bool {
    n.kind is Heading && ends_with_hard_break(n.children@)
}

pub open spec fn blank_line() -> Seq<char> {
    seq!['\n', '\n']
}

/// Whether a blank line goes between two neighbouring children of the
/// document, the first of which rendered as `prev_out`.
pub open spec fn separator_before(prev: MdNode, prev_out: Seq<char>, child: MdNode) -> bool {
    &&& is_block_kind(prev.kind)
    &&& is_block_kind(child.kind)
    &&& !ends_with(prev_out, blank_line())
    &&& !hard_break_heading(prev)
    &&& !hard_break_heading(child)
    &&& !(refdef_marker(prev) && refdef_marker(child))
    &&& !(originally_tight(prev, child) && tight_pair_kept(prev, child))
}

/// Whether a quoted blank line goes between two neighbouring children of a
/// block quote or alert.
pub open spec fn quoted_separator_before(prev: MdNode, prev_out: Seq<char>, child: MdNode) -> bool {
    &&& is_block_kind(prev.kind)
    &&& is_block_kind(child.kind)
    &&& !ends_with(prev_out, blank_line())
    &&& !(child.kind is BlockQuote && originally_tight(prev, child))
}

/// The rendered children `out` joined, with `sep(prev, prev_out, child)`
/// before each child but the first.
pub open spec fn joined(
    ch: Seq<MdNode>,
    out: Seq<Seq<char>>,
    sep: spec_fn(MdNode, Seq<char>, MdNode) -> Seq<char>,
) -> Seq<char>
    decreases ch.len(),
{
    if ch.len() == 0 {
        Seq::empty()
    } else {
        let n = ch.len() - 1;
        let before = if n > 0 {
            sep(ch[n - 1], out[n - 1], ch[n])
        } else {
            Seq::empty()
        };
        joined(ch.take(n), out.take(n), sep) + before + out[n]
    }
}

pub open spec fn document_sep() -> spec_fn(MdNode, Seq<char>, MdNode) -> Seq<char> {
    |prev: MdNode, prev_out: Seq<char>, child: MdNode|
        if separator_before(prev, prev_out, child) {
            seq!['\n']
        } else {
            Seq::empty()
        }
}

pub open spec fn quoted_sep(blank_prefix: Seq<char>) -> spec_fn(MdNode, Seq<char>, MdNode) -> Seq<char> {
    |prev: MdNode, prev_out: Seq<char>, child: MdNode|
        if quoted_separator_before(prev, prev_out, child) {
            blank_prefix + seq![' ', '\n']
        } else {
            Seq::empty()
        }
}

fn ends_blank(v: &Vec<char>) -> (r: bool)
    ensures
        r == ends_with(v@, blank_line()),
{
    let n = v.len();
    if n < 2 {
        return false;
    }
    let r = v[n - 2] == '\n' && v[n - 1] == '\n';
    assert(r == (v@.subrange(n - 2, n as int) =~= blank_line()));
    r
}

/// Whether a blank line goes before `child` in the document, after `prev`
/// rendered as `prev_out`.
pub fn needs_separator(prev: &MdNode, prev_out: &Vec<char>, child: &MdNode) -> (r: bool)
    ensures
        r == separator_before(*prev, prev_out@, *child),
{
    if !is_block_element(prev) || !is_block_element(child) || ends_blank(prev_out) {
        return false;
    }
    if (prev.kind == NodeKind::Heading && inline_ends_with_hard_break(prev)) || (child.kind
        == NodeKind::Heading && inline_ends_with_hard_break(child)) {
        return false;
    }
    if is_refdef_marker(prev) && is_refdef_marker(child) {
        return false;
    }
    let prev_end = last_content_line(prev);
    let tight = prev_end > 0 && (child.start_line <= prev_end || child.start_line - prev_end == 1);
    if !tight {
        return true;
    }
    let kept = if is_html_comment_only(prev) {
        true
    } else if is_html_comment_only(child) {
        !(prev.kind == NodeKind::List || prev.kind == NodeKind::Table)
    } else if prev.kind == NodeKind::Paragraph && (child.kind == NodeKind::List || child.kind
        == NodeKind::CodeBlock || child.kind == NodeKind::Table || child.kind
        == NodeKind::BlockQuote) {
        true
    } else {
        prev.kind == NodeKind::ThematicBreak || child.kind == NodeKind::ThematicBreak
    };
    !kept
}

/// Whether a quoted blank line goes before `child` inside a block quote.
pub fn needs_quoted_separator(prev: &MdNode, prev_out: &Vec<char>, child: &MdNode) -> (r: bool)
    ensures
        r == quoted_separator_before(*prev, prev_out@, *child),
{
    if !is_block_element(prev) || !is_block_element(child) || ends_blank(prev_out) {
        return false;
    }
    if child.kind != NodeKind::BlockQuote {
        return true;
    }
    let prev_end = last_content_line(prev);
    let tight = prev_end > 0 && (child.start_line <= prev_end || child.start_line - prev_end == 1);
    !tight
}

proof fn lemma_joined_step(
    ch: Seq<MdNode>,
    out: Seq<Seq<char>>,
    sep: spec_fn(MdNode, Seq<char>, MdNode) -> Seq<char>,
    i: int,
)
    requires
        0 <= i < ch.len(),
        ch.len() == out.len(),
    ensures
        joined(ch.take(i + 1), out.take(i + 1), sep) == joined(ch.take(i), out.take(i), sep) + (
        if i > 0 {
            sep(ch[i - 1], out[i - 1], ch[i])
        } else {
            Seq::empty()
        }) + out[i],
{
    assert(ch.take(i + 1).take(i) =~= ch.take(i));
    assert(out.take(i + 1).take(i) =~= out.take(i));
}

/// The rendered children of the document joined, with a blank line between
/// two blocks wherever `separator_before` asks for one.
pub fn join_block_children(children: &Vec<MdNode>, rendered: &Vec<String>) -> (out: String)
    requires
        children.len() == rendered.len(),
    ensures
        out@ == joined(children@, crate::text::views(rendered@), document_sep()),
{
    let ghost outs = crate::text::views(rendered@);
    let mut buf: Vec<char> = Vec::new();
    let mut prev_out: Vec<char> = Vec::new();
    let mut i: usize = 0;
    while i < children.len()
        invariant
            i <= children.len(),
            children.len() == rendered.len(),
            outs == crate::text::views(rendered@),
            buf@ == joined(children@.take(i as int), outs.take(i as int), document_sep()),
            i > 0 ==> prev_out@ == outs[i - 1],
        decreases children.len() - i,
    {
        proof {
            lemma_joined_step(children@, outs, document_sep(), i as int);
        }
        if i > 0 && needs_separator(&children[i - 1], &prev_out, &children[i]) {
            buf.push('\n');
        }
        let cur = chars_of(rendered[i].as_str());
        crate::text::append_chars(&mut buf, &cur);
        prev_out = cur;
        i += 1;
    }
    assert(children@.take(children.len() as int) =~= children@);
    assert(outs.take(children.len() as int) =~= outs);
    crate::text::string_of(&buf)
}

/// The rendered children of a block quote joined, with `blank_prefix` and a
/// space on the blank line between two blocks wherever
/// `quoted_separator_before` asks for one.
pub fn join_quoted_children(children: &Vec<MdNode>, rendered: &Vec<String>, blank_prefix: &str) -> (out: String)
    requires
        children.len() == rendered.len(),
    ensures
        out@ == joined(children@, crate::text::views(rendered@), quoted_sep(blank_prefix@)),
{
    let ghost outs = crate::text::views(rendered@);
    let ghost sep = quoted_sep(blank_prefix@);
    let mut buf: Vec<char> = Vec::new();
    let mut prev_out: Vec<char> = Vec::new();
    let mut i: usize = 0;
    while i < children.len()
        invariant
            i <= children.len(),
            children.len() == rendered.len(),
            outs == crate::text::views(rendered@),
            sep == quoted_sep(blank_prefix@),
            buf@ == joined(children@.take(i as int), outs.take(i as int), sep),
            i > 0 ==> prev_out@ == outs[i - 1],
        decreases children.len() - i,
    {
        proof {
            lemma_joined_step(children@, outs, sep, i as int);
        }
        if i > 0 && needs_quoted_separator(&children[i - 1], &prev_out, &children[i]) {
            crate::text::append_str(&mut buf, blank_prefix);
            buf.push(' ');
            buf.push('\n');
        }
        let cur = chars_of(rendered[i].as_str());
        crate::text::append_chars(&mut buf, &cur);
        prev_out = cur;
        i += 1;
    }
    assert(children@.take(children.len() as int) =~= children@);
    assert(outs.take(children.len() as int) =~= outs);
    crate::text::string_of(&buf)
}

/// The marker a paragraph of a task item starts with: the item's box, on its
/// first child only.
pub open spec fn task_marker(parent: MdNode, child_index: int) -> Option<Seq<char>> {
    if parent.kind is TaskItem && child_index == 0 {
        Some(if parent.checked { "[x] "@ } else { "[ ] "@ })
    } else {
        None
    }
}

/// The task-list box to put before the paragraph that is child `child_index`
/// of `parent`, if any.
pub fn get_tasklist_marker(parent: &MdNode, child_index: usize) -> (r: Option<String>)
    requires
        child_index < parent.children.len(),
    ensures
        r is Some == task_marker(*parent, child_index as int) is Some,
        r matches Some(m) ==> Some(m@) == task_marker(*parent, child_index as int),
{
    if parent.kind == NodeKind::TaskItem && child_index == 0 {
        let m = if parent.checked {
            crate::text::string_of(&chars_of("[x] "))
        } else {
            crate::text::string_of(&chars_of("[ ] "))
        };
        Some(m)
    } else {
        None
    }
}

/// A link whose only child is text equal to its URL (or to its URL without
/// `mailto:`), where the URL has a scheme or is an e-mail address.
pub open spec fn autolink(link: MdNode) -> bool {
    let url = link.url@;
    let has_scheme = contains_seq(url, "://"@) || starts_with(url, "mailto:"@);
    let is_email = !contains_seq(url, "://"@) && url.contains('@');
    &&& link.children.len() == 1
    &&& link.children@[0].kind is Text
    &&& has_scheme || is_email
    &&& link.children@[0].literal@ == url || (starts_with(url, "mailto:"@) && link.children@[0].literal@
        == url.skip("mailto:"@.len() as int))
}

/// Whether the link `link` is an autolink.
pub fn is_autolink(link: &MdNode) -> (r: bool)
    ensures
        r == autolink(*link),
{
    if link.children.len() != 1 || link.children[0].kind != NodeKind::Text {
        return false;
    }
    let u = chars_of(link.url.as_str());
    let scheme = contains_str(&u, "://");
    let mailto = starts_with_str(&u, "mailto:");
    let has_scheme = scheme || mailto;
    let is_email = !scheme && contains_char(&u, '@');
    if !has_scheme && !is_email {
        return false;
    }
    let tv = chars_of(link.children[0].literal.as_str());
    if crate::text::chars_eq(&tv, &u) {
        return true;
    }
    if mailto {
        let k = chars_of("mailto:").len();
        let rest = crate::text::slice_of(&u, k, u.len());
        assert(rest@ =~= u@.skip("mailto:"@.len() as int));
        return crate::text::chars_eq(&tv, &rest);
    }
    false
}

} // verus!
