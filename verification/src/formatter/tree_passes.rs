//! Passes over the parsed document tree before rendering: ellipses in text
//! nodes, and removal of redundant bold from headings.

use vstd::prelude::*;

use crate::formatter::blocks::{Align, MdNode, NodeKind};
use crate::typography::ellipses::{ellipses, ellipsized};
use crate::typography::quotes::{smart_quoted, smart_quotes};

verus! {

/// Every value of the two nodes but their literal text and children agree.
pub open spec fn same_fields(a: MdNode, b: MdNode) -> bool {
    &&& a.kind == b.kind
    &&& a.start_line == b.start_line
    &&& a.end_line == b.end_line
    &&& a.level == b.level
    &&& a.ordered == b.ordered
    &&& a.start == b.start
    &&& a.bullet == b.bullet
    &&& a.tight == b.tight
    &&& a.checked == b.checked
    &&& a.fenced == b.fenced
    &&& a.fence_char == b.fence_char
    &&& a.fence_length == b.fence_length
    &&& a.info@ == b.info@
    &&& a.url@ == b.url@
    &&& a.title@ == b.title@
    &&& a.display == b.display
    &&& a.alignments@ == b.alignments@
}

/// `b` is `a` with the text of each text node passed through `ellipsized`.
pub open spec fn ellipses_applied(a: MdNode, b: MdNode) -> bool
    decreases a,
{
    &&& same_fields(a, b)
    &&& b.literal@ == if a.kind is Text {
        ellipsized(a.literal@)
    } else {
        a.literal@
    }
    &&& b.children.len() == a.children.len()
    &&& forall|i: int| 0 <= i < a.children.len() ==> ellipses_applied(a.children@[i], #[trigger] b.children@[i])
}

/// `b` is `a` with redundant bold removed from every heading: `# **T**`
/// becomes `# T` and `# ***T***` becomes `# *T*`; everything else is copied.
pub open spec fn headings_unbolded(a: MdNode, b: MdNode) -> bool
    decreases a,
{
    &&& same_fields(a, b)
    &&& a.literal@ == b.literal@
    &&& if a.kind is Heading && a.children.len() == 1 && a.children@[0].kind is Strong {
        let s = a.children@[0];
        &&& b.children.len() == s.children.len()
        &&& forall|i: int| 0 <= i < s.children.len() ==> headings_unbolded(s.children@[i], #[trigger] b.children@[i])
    } else if a.kind is Heading && a.children.len() == 1 && a.children@[0].kind is Emph
        && a.children@[0].children.len() == 1 && a.children@[0].children@[0].kind is Strong {
        let e = a.children@[0];
        let s = e.children@[0];
        &&& b.children.len() == 1
        &&& same_fields(e, b.children@[0])
        &&& e.literal@ == b.children@[0].literal@
        &&& b.children@[0].children.len() == s.children.len()
        &&& forall|i: int| 0 <= i < s.children.len() ==> headings_unbolded(s.children@[i], #[trigger] b.children@[0].children@[i])
    } else {
        &&& b.children.len() == a.children.len()
        &&& forall|i: int| 0 <= i < a.children.len() ==> headings_unbolded(a.children@[i], #[trigger] b.children@[i])
    }
}

fn copy_alignments(v: &Vec<Align>) -> (r: Vec<Align>)
    ensures
        r@ == v@,
{
    let mut r: Vec<Align> = Vec::new();
    let mut i: usize = 0;
    while i < v.len()
        invariant
            i <= v.len(),
            r@ == v@.take(i as int),
        decreases v.len() - i,
    {
        r.push(v[i]);
        assert(r@ =~= v@.take(i + 1));
        i += 1;
    }
    assert(v@.take(v.len() as int) =~= v@);
    r
}

/// A node with `a`'s values but the given literal and children.
fn rebuilt(a: &MdNode, literal: String, children: Vec<MdNode>) -> (r: MdNode)
    ensures
        same_fields(*a, r),
        r.literal == literal,
        r.children == children,
{
    MdNode {
        kind: a.kind,
        start_line: a.start_line,
        end_line: a.end_line,
        level: a.level,
        ordered: a.ordered,
        start: a.start,
        bullet: a.bullet,
        tight: a.tight,
        checked: a.checked,
        fenced: a.fenced,
        fence_char: a.fence_char,
        fence_length: a.fence_length,
        info: a.info.clone(),
        literal,
        url: a.url.clone(),
        title: a.title.clone(),
        display: a.display,
        alignments: copy_alignments(&a.alignments),
        children,
    }
}

/// The tree with ellipses applied to the text of every text node.
pub fn apply_ellipses_to_tree(node: &MdNode) -> (r: MdNode)
    ensures
        ellipses_applied(*node, r),
    decreases node,
{
    let mut kids: Vec<MdNode> = Vec::new();
    let mut i: usize = 0;
    while i < node.children.len()
        invariant
            i <= node.children.len(),
            kids.len() == i,
            forall|j: int| 0 <= j < i ==> ellipses_applied(node.children@[j], #[trigger] kids@[j]),
        decreases node.children.len() - i,
    {
        let k = apply_ellipses_to_tree(&node.children[i]);
        kids.push(k);
        i += 1;
    }
    let lit = if node.kind == NodeKind::Text {
        ellipses(node.literal.as_str())
    } else {
        node.literal.clone()
    };
    rebuilt(node, lit, kids)
}

fn unbold_children(ch: &Vec<MdNode>) -> (r: Vec<MdNode>)
    ensures
        r.len() == ch.len(),
        forall|i: int| 0 <= i < ch.len() ==> headings_unbolded(ch@[i], #[trigger] r@[i]),
    decreases ch,
{
    let mut kids: Vec<MdNode> = Vec::new();
    let mut i: usize = 0;
    while i < ch.len()
        invariant
            i <= ch.len(),
            kids.len() == i,
            forall|j: int| 0 <= j < i ==> headings_unbolded(ch@[j], #[trigger] kids@[j]),
        decreases ch.len() - i,
    {
        let k = unbold_headings(&ch[i]);
        kids.push(k);
        i += 1;
    }
    kids
}

/// The tree with redundant bold removed from headings.
pub fn unbold_headings(node: &MdNode) -> (r: MdNode)
    ensures
        headings_unbolded(*node, r),
    decreases node,
{
    let ch = &node.children;
    if node.kind == NodeKind::Heading && ch.len() == 1 && ch[0].kind == NodeKind::Strong {
        let kids = unbold_children(&ch[0].children);
        rebuilt(node, node.literal.clone(), kids)
    } else if node.kind == NodeKind::Heading && ch.len() == 1 && ch[0].kind == NodeKind::Emph
        && ch[0].children.len() == 1 && ch[0].children[0].kind == NodeKind::Strong {
        let e = &ch[0];
        let inner = unbold_children(&e.children[0].children);
        let new_e = rebuilt(e, e.literal.clone(), inner);
        let mut kids: Vec<MdNode> = Vec::new();
        kids.push(new_e);
        rebuilt(node, node.literal.clone(), kids)
    } else {
        let kids = unbold_children(ch);
        rebuilt(node, node.literal.clone(), kids)
    }
}

/// Apply all document cleanups to the tree.
pub fn doc_cleanups(root: &MdNode) -> (r: MdNode)
    ensures
        headings_unbolded(*root, r),
{
    unbold_headings(root)
}

// ---------------------------------------------------------------------------
// Smart quotes across inline nodes
// ---------------------------------------------------------------------------

/// Whether `c` is alphanumeric in Unicode's sense (`char::is_alphanumeric`).
pub uninterp spec fn alphanumeric(c: char) -> bool;

/// `char::is_alphanumeric`.
///
/// Claimed of std: the answer depends on the character alone (named
/// `alphanumeric`); the tables are not stated here.
#[verifier::external_body]
fn is_alphanumeric(c: char) -> (r: bool)
    ensures
        r == alphanumeric(c),
{
    c.is_alphanumeric()
}

/// What a code span adds to the text smart quotes see: its last character
/// when that is a word character, a space otherwise.
pub open spec fn code_stand_in(code: Seq<char>) -> char {
    let last = if code.len() > 0 {
        code.last()
    } else {
        ' '
    };
    if alphanumeric(last) || last == '_' {
        last
    } else {
        ' '
    }
}

/// The text smart quotes see for inline nodes: text as it is, a stand-in
/// for code, a space for inline HTML, a newline for a soft break, and the
/// children of anything else.
pub open spec fn quote_source(ch: Seq<MdNode>) -> Seq<char>
    decreases ch,
{
    if ch.len() == 0 {
        Seq::empty()
    } else {
        let n = ch.last();
        quote_source(ch.drop_last()) + match n.kind {
            NodeKind::Text => n.literal@,
            NodeKind::Code => seq![code_stand_in(n.literal@)],
            NodeKind::HtmlInline => seq![' '],
            NodeKind::SoftBreak => seq!['\n'],
            _ => quote_source(n.children@),
        }
    }
}

/// `b` are the inline nodes `a` with each text node's text taken from
/// `conv` at its place (`off` plus the length of what precedes it), when
/// `conv` reaches that far.
pub open spec fn requoted(a: Seq<MdNode>, b: Seq<MdNode>, conv: Seq<char>, off: int) -> bool
    decreases a,
{
    &&& a.len() == b.len()
    &&& forall|i: int| 0 <= i < a.len() ==> {
        let x = a[i];
        let y = #[trigger] b[i];
        let at = off + quote_source(a.take(i)).len();
        &&& same_fields(x, y)
        &&& y.literal@ == if x.kind is Text && at + x.literal@.len() <= conv.len() {
            conv.subrange(at, at + x.literal@.len())
        } else {
            x.literal@
        }
        &&& if x.kind is Text || x.kind is Code || x.kind is HtmlInline || x.kind is SoftBreak {
            &&& y.children.len() == x.children.len()
            &&& forall|k: int| 0 <= k < x.children.len() ==> same_tree(x.children@[k], #[trigger] y.children@[k])
        } else {
            requoted(x.children@, y.children@, conv, at)
        }
    }
}

/// Paragraphs, headings and table cells: the blocks whose inline text gets
/// smart quotes as a whole.
pub open spec fn quote_unit(k: NodeKind) -> bool {
    k is Paragraph || k is Heading || k is TableCell
}

/// `b` is `a` with smart quotes applied to the inline text of every
/// paragraph, heading and table cell.
pub open spec fn quotes_applied(a: MdNode, b: MdNode) -> bool
    decreases a,
{
    &&& same_fields(a, b)
    &&& a.literal@ == b.literal@
    &&& if quote_unit(a.kind) {
        requoted(a.children@, b.children@, smart_quoted(quote_source(a.children@)), 0)
    } else {
        &&& b.children.len() == a.children.len()
        &&& forall|i: int| 0 <= i < a.children.len() ==> quotes_applied(a.children@[i], #[trigger] b.children@[i])
    }
}

fn quote_source_exec(ch: &Vec<MdNode>) -> (r: Vec<char>)
    ensures
        r@ == quote_source(ch@),
    decreases ch,
{
    let mut r: Vec<char> = Vec::new();
    let mut i: usize = 0;
    while i < ch.len()
        invariant
            i <= ch.len(),
            r@ == quote_source(ch@.take(i as int)),
        decreases ch.len() - i,
    {
        assert(ch@.take(i + 1).drop_last() =~= ch@.take(i as int));
        let n = &ch[i];
        match n.kind {
            NodeKind::Text => crate::text::append_str(&mut r, n.literal.as_str()),
            NodeKind::Code => {
                let v = crate::text::chars_of(n.literal.as_str());
                let last = if v.len() > 0 {
                    v[v.len() - 1]
                } else {
                    ' '
                };
                r.push(if is_alphanumeric(last) || last == '_' {
                    last
                } else {
                    ' '
                });
            },
            NodeKind::HtmlInline => r.push(' '),
            NodeKind::SoftBreak => r.push('\n'),
            _ => {
                let inner = quote_source_exec(&n.children);
                crate::text::append_chars(&mut r, &inner);
            },
        }
        i += 1;
    }
    assert(ch@.take(ch.len() as int) =~= ch@);
    r
}

/// `b` is a copy of `a`, text for text.
pub open spec fn same_tree(a: MdNode, b: MdNode) -> bool
    decreases a,
{
    &&& same_fields(a, b)
    &&& a.literal@ == b.literal@
    &&& b.children.len() == a.children.len()
    &&& forall|i: int| 0 <= i < a.children.len() ==> same_tree(a.children@[i], #[trigger] b.children@[i])
}

fn copy_tree(a: &MdNode) -> (r: MdNode)
    ensures
        same_tree(*a, r),
    decreases a,
{
    let mut kids: Vec<MdNode> = Vec::new();
    let mut i: usize = 0;
    while i < a.children.len()
        invariant
            i <= a.children.len(),
            kids.len() == i,
            forall|j: int| 0 <= j < i ==> same_tree(a.children@[j], #[trigger] kids@[j]),
        decreases a.children.len() - i,
    {
        let k = copy_tree(&a.children[i]);
        kids.push(k);
        i += 1;
    }
    rebuilt(a, a.literal.clone(), kids)
}

/// Inline nodes with text taken from `conv` from offset `off` on (see
/// `requoted`), and the offset after them.
fn requote(ch: &Vec<MdNode>, conv: &Vec<char>, off: usize) -> (r: (Vec<MdNode>, usize))
    requires
        off + quote_source(ch@).len() <= usize::MAX,
    ensures
        requoted(ch@, r.0@, conv@, off as int),
        r.1 == off + quote_source(ch@).len(),
    decreases ch,
{
    let mut out: Vec<MdNode> = Vec::new();
    let mut at: usize = off;
    let mut i: usize = 0;
    while i < ch.len()
        invariant
            i <= ch.len(),
            off + quote_source(ch@).len() <= usize::MAX,
            out.len() == i,
            at == off + quote_source(ch@.take(i as int)).len(),
            forall|j: int| 0 <= j < i ==> {
                let x = ch@[j];
                let y = #[trigger] out@[j];
                let pos = off + quote_source(ch@.take(j)).len();
                &&& same_fields(x, y)
                &&& y.literal@ == if x.kind is Text && pos + x.literal@.len() <= conv@.len() {
                    conv@.subrange(pos, pos + x.literal@.len())
                } else {
                    x.literal@
                }
                &&& if x.kind is Text || x.kind is Code || x.kind is HtmlInline || x.kind is SoftBreak {
                    &&& y.children.len() == x.children.len()
                    &&& forall|k: int| 0 <= k < x.children.len() ==> same_tree(x.children@[k], #[trigger] y.children@[k])
                } else {
                    requoted(x.children@, y.children@, conv@, pos)
                }
            },
        decreases ch.len() - i,
    {
        proof {
            assert(ch@.take(i + 1).drop_last() =~= ch@.take(i as int));
            lemma_source_prefix(ch@, i as int + 1);
        }
        let x = &ch[i];
        let y = if x.kind == NodeKind::Text {
            let v = crate::text::chars_of(x.literal.as_str());
            let lit = if v.len() <= conv.len() && at <= conv.len() - v.len() {
                let piece = crate::text::slice_of(conv, at, at + v.len());
                crate::text::string_of(&piece)
            } else {
                x.literal.clone()
            };
            let kids = copy_children(&x.children);
            rebuilt(x, lit, kids)
        } else if x.kind == NodeKind::Code || x.kind == NodeKind::HtmlInline || x.kind == NodeKind::SoftBreak {
            let kids = copy_children(&x.children);
            rebuilt(x, x.literal.clone(), kids)
        } else {
            let (kids, _end) = requote(&x.children, conv, at);
            rebuilt(x, x.literal.clone(), kids)
        };
        out.push(y);
        at = at + match x.kind {
            NodeKind::Text => crate::text::chars_of(x.literal.as_str()).len(),
            NodeKind::Code | NodeKind::HtmlInline | NodeKind::SoftBreak => 1,
            _ => quote_source_exec(&x.children).len(),
        };
        i += 1;
    }
    assert(ch@.take(ch.len() as int) =~= ch@);
    (out, at)
}

proof fn lemma_source_prefix(ch: Seq<MdNode>, k: int)
    requires
        0 <= k <= ch.len(),
    ensures
        quote_source(ch.take(k)).len() <= quote_source(ch).len(),
    decreases ch.len(),
{
    if k < ch.len() {
        assert(ch.drop_last().take(k) =~= ch.take(k));
        lemma_source_prefix(ch.drop_last(), k);
    } else {
        assert(ch.take(k) =~= ch);
    }
}

fn copy_children(ch: &Vec<MdNode>) -> (r: Vec<MdNode>)
    ensures
        r.len() == ch.len(),
        forall|k: int| 0 <= k < ch.len() ==> same_tree(ch@[k], #[trigger] r@[k]),
{
    let mut kids: Vec<MdNode> = Vec::new();
    let mut i: usize = 0;
    while i < ch.len()
        invariant
            i <= ch.len(),
            kids.len() == i,
            forall|j: int| 0 <= j < i ==> same_tree(ch@[j], #[trigger] kids@[j]),
        decreases ch.len() - i,
    {
        let k = copy_tree(&ch[i]);
        kids.push(k);
        i += 1;
    }
    kids
}

/// The tree with smart quotes applied to the inline text of each paragraph,
/// heading and table cell: its text across inline nodes is converted as one
/// and each text node takes back its own span.
pub fn apply_smart_quotes_to_tree(node: &MdNode) -> (r: MdNode)
    ensures
        quotes_applied(*node, r),
    decreases node,
{
    if node.kind == NodeKind::Paragraph || node.kind == NodeKind::Heading || node.kind
        == NodeKind::TableCell {
        let src = quote_source_exec(&node.children);
        let n = src.len();
        assert(quote_source(node.children@).len() == n);
        let ss = crate::text::string_of(&src);
        let conv = smart_quotes(ss.as_str());
        let cv = crate::text::chars_of(conv.as_str());
        let (kids, _end) = requote(&node.children, &cv, 0);
        rebuilt(node, node.literal.clone(), kids)
    } else {
        let mut kids: Vec<MdNode> = Vec::new();
        let mut i: usize = 0;
        while i < node.children.len()
            invariant
                i <= node.children.len(),
                kids.len() == i,
                forall|j: int| 0 <= j < i ==> quotes_applied(node.children@[j], #[trigger] kids@[j]),
            decreases node.children.len() - i,
        {
            let k = apply_smart_quotes_to_tree(&node.children[i]);
            kids.push(k);
            i += 1;
        }
        rebuilt(node, node.literal.clone(), kids)
    }
}

} // verus!
