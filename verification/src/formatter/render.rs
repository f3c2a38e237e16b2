//! Rendering of a parsed Markdown document back to normalized Markdown.
//!
//! Inline nodes render to their canonical Markdown spelling; blocks render
//! with the line wrapper and the separation rules of
//! [`crate::formatter::blocks`].

use vstd::prelude::*;

use crate::config::ListSpacing;
use crate::formatter::blocks::{
    autolink, child_spacing_needed, document_sep, ends_with_hard_break, is_autolink, joined,
    list_tight, quoted_sep, Align, MdNode, NodeKind,
};
use crate::formatter::filling::{refdef_label_lowered, FNDEF_MARKER_START, REFDEF_MARKER_PREFIX};
use crate::formatter::fndef::{fndef_rendered, render_fndef};
use crate::formatter::text_passes::fence_length_needed;
use crate::text::{all_ws, concat, ends_with, is_ws, join, split_on, starts_with, trim, trim_end};
use crate::wrapping::line_wrappers::{line_wrapped, LineWrapper};
use crate::formatter::filling::{decode_hex_label, decoded_label, first_index_exec, first_index_of};
use crate::formatter::ref_links::{REF_LABEL_SEP, REF_LABEL_START};
use crate::text::{append_chars, append_str, chars_of, slice_of, string_of};

verus! {

/// A title with each `"` escaped by a backslash.
pub open spec fn quote_escaped(t: Seq<char>) -> Seq<char>
    decreases t.len(),
{
    if t.len() == 0 {
        Seq::empty()
    } else {
        quote_escaped(t.drop_last()) + if t.last() == '"' {
            seq!['\\', '"']
        } else {
            seq![t.last()]
        }
    }
}

/// ` "title"` after a link target, or nothing for an empty title.
pub open spec fn title_suffix(t: Seq<char>) -> Seq<char> {
    if t.len() == 0 {
        Seq::empty()
    } else {
        seq![' ', '"'] + quote_escaped(t) + seq!['"']
    }
}

fn title_suffix_exec(t: &str) -> (r: Vec<char>)
    ensures
        r@ == title_suffix(t@),
{
    let v = chars_of(t);
    let mut r: Vec<char> = Vec::new();
    if v.len() == 0 {
        return r;
    }
    r.push(' ');
    r.push('"');
    let ghost head = r@;
    let mut i: usize = 0;
    while i < v.len()
        invariant
            i <= v.len(),
            v@ == t@,
            head == seq![' ', '"'],
            r@ == head + quote_escaped(v@.take(i as int)),
        decreases v.len() - i,
    {
        assert(v@.take(i + 1).drop_last() =~= v@.take(i as int));
        if v[i] == '"' {
            r.push('\\');
            r.push('"');
        } else {
            r.push(v[i]);
        }
        assert(r@ =~= head + quote_escaped(v@.take(i + 1)));
        i += 1;
    }
    assert(v@.take(v.len() as int) =~= v@);
    r.push('"');
    r
}

/// A code span: single backticks, or double backticks with padding when the
/// code starts or ends with a backtick.
pub open spec fn code_span(t: Seq<char>) -> Seq<char> {
    if t.len() > 0 && (t[0] == '`' || t.last() == '`') {
        seq!['`', '`', ' '] + t + seq![' ', '`', '`']
    } else {
        seq!['`'] + t + seq!['`']
    }
}

/// The label of an encoded reference link target (`START hex SEP`): the
/// decoded label, or the hex itself when it does not decode.
pub open spec fn ref_label(url: Seq<char>) -> Seq<char> {
    let hex = url.subrange(1, first_index_of(url, REF_LABEL_SEP));
    match decoded_label(hex) {
        Some(l) => l,
        None => hex,
    }
}

/// A link, given its rendered text `inner`.
pub open spec fn link_rendered(node: MdNode, inner: Seq<char>) -> Seq<char> {
    let url = node.url@;
    if url.len() > 0 && url[0] == REF_LABEL_START {
        if first_index_of(url, REF_LABEL_SEP) < url.len() {
            let label = ref_label(url);
            if inner == label {
                seq!['['] + inner + seq![']', '[', ']']
            } else {
                seq!['['] + inner + seq![']', '['] + label + seq![']']
            }
        } else {
            seq!['['] + inner + seq![']', '('] + url.drop_first() + title_suffix(node.title@) + seq![')']
        }
    } else if node.title@.len() == 0 && autolink(node) {
        inner
    } else {
        seq!['['] + inner + seq![']', '('] + url + title_suffix(node.title@) + seq![')']
    }
}

/// One inline node, given the rendering `inner` of its children.
pub open spec fn inline_one(node: MdNode, inner: Seq<char>) -> Seq<char> {
    match node.kind {
        NodeKind::Text => node.literal@,
        NodeKind::Code => code_span(node.literal@),
        NodeKind::Emph => seq!['*'] + inner + seq!['*'],
        NodeKind::Strong => seq!['*', '*'] + inner + seq!['*', '*'],
        NodeKind::Strikethrough => seq!['~', '~'] + inner + seq!['~', '~'],
        NodeKind::Link => link_rendered(node, inner),
        NodeKind::Image => seq!['!', '['] + inner + seq![']', '('] + node.url@ + title_suffix(node.title@)
            + seq![')'],
        NodeKind::HtmlInline => node.literal@,
        NodeKind::SoftBreak => seq!['\n'],
        NodeKind::LineBreak => seq!['\\', '\n'],
        NodeKind::Escaped => seq!['\\'] + inner,
        NodeKind::FootnoteReference => seq!['[', '^'] + node.title@ + seq![']'],
        NodeKind::Math => if node.display {
            seq!['$', '$'] + node.literal@ + seq!['$', '$']
        } else {
            seq!['$'] + node.literal@ + seq!['$']
        },
        NodeKind::WikiLink => seq!['[', '['] + node.url@ + seq![']', ']'],
        _ => inner,
    }
}

/// The inline nodes `ch` rendered one after another.
pub open spec fn inlines_rendered(ch: Seq<MdNode>) -> Seq<char>
    decreases ch,
{
    if ch.len() == 0 {
        Seq::empty()
    } else {
        inlines_rendered(ch.drop_last()) + inline_one(ch.last(), inlines_rendered(ch.last().children@))
    }
}

/// An inline node rendered as Markdown.
pub open spec fn inline_rendered(node: MdNode) -> Seq<char> {
    inline_one(node, inlines_rendered(node.children@))
}

proof fn lemma_first_index_nonneg(s: Seq<char>, c: char)
    ensures
        first_index_of(s, c) >= 0,
    decreases s.len(),
{
    if s.len() > 0 && s[0] != c {
        lemma_first_index_nonneg(s.drop_first(), c);
    }
}

fn link_exec(node: &MdNode, inner: &Vec<char>) -> (r: Vec<char>)
    requires
        node.kind is Link,
    ensures
        r@ == link_rendered(*node, inner@),
{
    let url = chars_of(node.url.as_str());
    let mut r: Vec<char> = Vec::new();
    r.push('[');
    append_chars(&mut r, inner);
    if url.len() > 0 && url[0] == REF_LABEL_START {
        let sep = first_index_exec(&url, REF_LABEL_SEP);
        proof {
            lemma_first_index_nonneg(url@.drop_first(), REF_LABEL_SEP);
        }
        if sep < url.len() {
            let hex = slice_of(&url, 1, sep);
            let hs = string_of(&hex);
            let label = match decode_hex_label(hs.as_str()) {
                Some(l) => chars_of(l.as_str()),
                None => hex,
            };
            if crate::text::chars_eq(inner, &label) {
                r.push(']');
                r.push('[');
                r.push(']');
            } else {
                r.push(']');
                r.push('[');
                append_chars(&mut r, &label);
                r.push(']');
            }
        } else {
            r.push(']');
            r.push('(');
            let rest = slice_of(&url, 1, url.len());
            assert(rest@ =~= url@.drop_first());
            append_chars(&mut r, &rest);
            let t = title_suffix_exec(node.title.as_str());
            append_chars(&mut r, &t);
            r.push(')');
        }
    } else if chars_of(node.title.as_str()).len() == 0 && is_autolink(node) {
        let r = slice_of(inner, 0, inner.len());
        assert(r@ =~= inner@);
        return r;
    } else {
        r.push(']');
        r.push('(');
        append_chars(&mut r, &url);
        let t = title_suffix_exec(node.title.as_str());
        append_chars(&mut r, &t);
        r.push(')');
    }
    r
}

fn wrap_with(open: &str, inner: &Vec<char>, close: &str) -> (r: Vec<char>)
    ensures
        r@ == open@ + inner@ + close@,
{
    let mut r = chars_of(open);
    append_chars(&mut r, inner);
    append_str(&mut r, close);
    r
}

fn inline_one_exec(node: &MdNode, inner: &Vec<char>) -> (r: Vec<char>)
    ensures
        r@ == inline_one(*node, inner@),
{
    proof {
        reveal_strlit("*");
        reveal_strlit("**");
        reveal_strlit("~~");
        reveal_strlit("![");
        reveal_strlit("\\");
        reveal_strlit("");
    }
    match node.kind {
        NodeKind::Text | NodeKind::HtmlInline => chars_of(node.literal.as_str()),
        NodeKind::Code => {
            let t = chars_of(node.literal.as_str());
            if t.len() > 0 && (t[0] == '`' || t[t.len() - 1] == '`') {
                let mut r: Vec<char> = Vec::new();
                r.push('`');
                r.push('`');
                r.push(' ');
                append_chars(&mut r, &t);
                r.push(' ');
                r.push('`');
                r.push('`');
                r
            } else {
                let mut r: Vec<char> = Vec::new();
                r.push('`');
                append_chars(&mut r, &t);
                r.push('`');
                r
            }
        },
        NodeKind::Emph => wrap_with("*", inner, "*"),
        NodeKind::Strong => wrap_with("**", inner, "**"),
        NodeKind::Strikethrough => wrap_with("~~", inner, "~~"),
        NodeKind::Link => link_exec(node, inner),
        NodeKind::Image => {
            let mut r = wrap_with("![", inner, "");
            r.push(']');
            r.push('(');
            append_str(&mut r, node.url.as_str());
            let t = title_suffix_exec(node.title.as_str());
            append_chars(&mut r, &t);
            r.push(')');
            r
        },
        NodeKind::SoftBreak => {
            let mut r: Vec<char> = Vec::new();
            r.push('\n');
            r
        },
        NodeKind::LineBreak => {
            let mut r: Vec<char> = Vec::new();
            r.push('\\');
            r.push('\n');
            r
        },
        NodeKind::Escaped => wrap_with("\\", inner, ""),
        NodeKind::FootnoteReference => {
            let mut r: Vec<char> = Vec::new();
            r.push('[');
            r.push('^');
            append_str(&mut r, node.title.as_str());
            r.push(']');
            r
        },
        NodeKind::Math => {
            let mut r: Vec<char> = Vec::new();
            r.push('$');
            if node.display {
                r.push('$');
            }
            append_str(&mut r, node.literal.as_str());
            r.push('$');
            if node.display {
                r.push('$');
            }
            r
        },
        NodeKind::WikiLink => {
            let mut r: Vec<char> = Vec::new();
            r.push('[');
            r.push('[');
            append_str(&mut r, node.url.as_str());
            r.push(']');
            r.push(']');
            r
        },
        _ => slice_of(inner, 0, inner.len()),
    }
}

fn inline_buf(node: &MdNode) -> (r: Vec<char>)
    ensures
        r@ == inline_rendered(*node),
    decreases node,
{
    let inner = inline_children_buf(&node.children);
    inline_one_exec(node, &inner)
}

fn inline_children_buf(ch: &Vec<MdNode>) -> (r: Vec<char>)
    ensures
        r@ == inlines_rendered(ch@),
    decreases ch,
{
    let mut r: Vec<char> = Vec::new();
    let mut i: usize = 0;
    while i < ch.len()
        invariant
            i <= ch.len(),
            r@ == inlines_rendered(ch@.take(i as int)),
        decreases ch.len() - i,
    {
        assert(ch@.take(i + 1).drop_last() =~= ch@.take(i as int));
        let one = inline_buf(&ch[i]);
        append_chars(&mut r, &one);
        i += 1;
    }
    assert(ch@.take(ch.len() as int) =~= ch@);
    r
}

/// Render one inline node as Markdown. (`in_heading` is handed down the
/// tree; no inline form depends on it.)
pub fn render_inline(node: &MdNode, in_heading: bool) -> (r: String)
    ensures
        r@ == inline_rendered(*node),
{
    let v = inline_buf(node);
    string_of(&v)
}

/// Render the inline children of a node, one after another.
pub fn render_inline_children(node: &MdNode, in_heading: bool) -> (r: String)
    ensures
        r@ == inlines_rendered(node.children@),
{
    let v = inline_children_buf(&node.children);
    string_of(&v)
}

// ---------------------------------------------------------------------------
// Blocks
// ---------------------------------------------------------------------------

/// Whether `c` has the Unicode `Alphabetic` property (`char::is_alphabetic`).
pub uninterp spec fn alphabetic(c: char) -> bool;

/// `char::is_alphabetic`.
///
/// Claimed of std: the answer depends on the character alone (named
/// `alphabetic`); the property's table is not stated here.
#[verifier::external_body]
fn is_alphabetic(c: char) -> (r: bool)
    ensures
        r == alphabetic(c),
{
    c.is_alphabetic()
}

/// `n` copies of `c`.
pub open spec fn repeated(c: char, n: nat) -> Seq<char> {
    Seq::new(n, |i: int| c)
}

/// The text with trailing newlines removed (`trim_end_matches('\n')`).
pub open spec fn without_trailing_newlines(s: Seq<char>) -> Seq<char>
    decreases s.len(),
{
    if s.len() > 0 && s.last() == '\n' {
        without_trailing_newlines(s.drop_last())
    } else {
        s
    }
}

/// Decimal digits of a number.
pub open spec fn decimal(n: nat) -> Seq<char> {
    crate::cli::decimal(n)
}

/// A heading: its hashes, its text, and a blank line unless it ends in a
/// hard break.
pub open spec fn heading_rendered(node: MdNode, p: Seq<char>) -> Seq<char> {
    let inline = inlines_rendered(node.children@);
    let hard = ends_with_hard_break(node.children@) || (inline.len() > 0 && inline.last() == '\\');
    p + repeated('#', node.level as nat) + seq![' '] + inline + seq!['\n'] + if hard {
        Seq::empty()
    } else {
        seq!['\n']
    }
}

/// A paragraph wrapped after `lead` (a task-list box or nothing).
pub open spec fn paragraph_rendered(node: MdNode, w: LineWrapper, p: Seq<char>, sub: Seq<char>, lead: Seq<char>) -> Seq<char> {
    line_wrapped(w, lead + inlines_rendered(node.children@), p, sub) + seq!['\n']
}

/// The fence character of a code block: `~` only for a tilde-fenced block.
pub open spec fn fence_char_of(node: MdNode) -> char {
    if node.fenced && node.fence_char == '~' {
        '~'
    } else {
        '`'
    }
}

/// Lines of code after the subsequent prefix; an empty line gets the prefix
/// without its trailing white space.
pub open spec fn code_lines(lines: Seq<Seq<char>>, sub: Seq<char>) -> Seq<char>
    decreases lines.len(),
{
    if lines.len() == 0 {
        Seq::empty()
    } else {
        code_lines(lines.drop_last(), sub) + if lines.last().len() == 0 {
            trim_end(sub) + seq!['\n']
        } else {
            sub + lines.last() + seq!['\n']
        }
    }
}

/// A code block: fences long enough for the code, the code lines, and the
/// closing fence.
pub open spec fn code_block_rendered(node: MdNode, p: Seq<char>, sub: Seq<char>) -> Seq<char> {
    let code = without_trailing_newlines(node.literal@);
    let fc = fence_char_of(node);
    let needed = fence_length_needed(code, fc);
    let least: int = if node.fenced {
        node.fence_length as int
    } else {
        3
    };
    let len: int = if needed >= least {
        needed
    } else {
        least
    };
    let fence = repeated(fc, len as nat);
    p + fence + node.info@ + seq!['\n'] + (if code.len() == 0 {
        Seq::empty()
    } else {
        code_lines(split_on(code, '\n'), sub)
    }) + sub + fence + seq!['\n']
}

/// The text with each `|` escaped by a backslash.
pub open spec fn pipes_escaped(t: Seq<char>) -> Seq<char>
    decreases t.len(),
{
    if t.len() == 0 {
        Seq::empty()
    } else {
        pipes_escaped(t.drop_last()) + if t.last() == '|' {
            seq!['\\', '|']
        } else {
            seq![t.last()]
        }
    }
}

pub open spec fn cell_texts(cells: Seq<MdNode>) -> Seq<Seq<char>> {
    cells.map_values(|c: MdNode| pipes_escaped(inlines_rendered(c.children@)))
}

/// A table row: `| a | b |`.
pub open spec fn row_rendered(row: MdNode) -> Seq<char> {
    seq!['|', ' '] + join(cell_texts(row.children@), seq![' ', '|', ' ']) + seq![' ', '|', '\n']
}

pub open spec fn delimiter_of(a: Align) -> Seq<char> {
    match a {
        Align::Unaligned => seq!['-', '-', '-'],
        Align::Left => seq![':', '-', '-', '-'],
        Align::Center => seq![':', '-', '-', '-', ':'],
        Align::Right => seq!['-', '-', '-', ':'],
    }
}

/// A table: header row, delimiter row from the alignments, body rows.
pub open spec fn table_rendered(node: MdNode) -> Seq<char> {
    let rows = node.children@;
    if rows.len() == 0 {
        Seq::empty()
    } else {
        row_rendered(rows[0]) + seq!['|', ' '] + join(
            node.alignments@.map_values(|a: Align| delimiter_of(a)),
            seq![' ', '|', ' '],
        ) + seq![' ', '|', '\n'] + concat(rows.drop_first().map_values(|r: MdNode| row_rendered(r)))
    }
}

/// `str::lines`: pieces between newlines, without a final empty piece and
/// each without a trailing carriage return.
pub open spec fn lines_of(s: Seq<char>) -> Seq<Seq<char>> {
    let parts = split_on(s, '\n');
    let parts = if s.len() == 0 || s.last() == '\n' {
        parts.drop_last()
    } else {
        parts
    };
    parts.map_values(
        |l: Seq<char>|
            if l.len() > 0 && l.last() == '\r' {
                l.drop_last()
            } else {
                l
            },
    )
}

/// Paragraph texts of HTML lines: runs of non-blank lines, each line
/// trimmed, joined by spaces.
pub open spec fn html_paragraphs(lines: Seq<Seq<char>>) -> (Seq<Seq<char>>, Seq<Seq<char>>)
    decreases lines.len(),
{
    if lines.len() == 0 {
        (Seq::empty(), Seq::empty())
    } else {
        let (done, cur) = html_paragraphs(lines.drop_last());
        if trim(lines.last()).len() == 0 {
            if cur.len() > 0 {
                (done.push(join(cur, seq![' '])), Seq::empty())
            } else {
                (done, cur)
            }
        } else {
            (done, cur.push(trim(lines.last())))
        }
    }
}

pub open spec fn html_paragraph_texts(literal: Seq<char>) -> Seq<Seq<char>> {
    let (done, cur) = html_paragraphs(lines_of(literal));
    if cur.len() > 0 {
        done.push(join(cur, seq![' ']))
    } else {
        done
    }
}

/// Wrapped HTML paragraphs, separated by blank lines.
pub open spec fn html_wrapped(paras: Seq<Seq<char>>, w: LineWrapper, p: Seq<char>, sub: Seq<char>) -> Seq<char>
    decreases paras.len(),
{
    if paras.len() == 0 {
        Seq::empty()
    } else {
        let n = paras.len() - 1;
        html_wrapped(paras.drop_last(), w, p, sub) + (if n > 0 {
            seq!['\n']
        } else {
            Seq::empty()
        }) + line_wrapped(w, trim(paras[n]), if n == 0 {
            p
        } else {
            sub
        }, sub) + seq!['\n']
    }
}

/// HTML worth wrapping: it has letters and a tag, and more than forty bytes.
pub open spec fn wrappable_html(t: Seq<char>) -> bool {
    &&& t.len() > 0
    &&& exists|i: int| 0 <= i < t.len() && alphabetic(#[trigger] t[i])
    &&& t.contains('<')
    &&& vstd::utf8::encode_utf8(t).len() > 40
}

/// The definition inside a reference-definition marker, if the HTML is one.
pub open spec fn refdef_inside(t: Seq<char>) -> Option<Seq<char>> {
    let k = REFDEF_MARKER_PREFIX@.len() as int;
    if starts_with(t, REFDEF_MARKER_PREFIX@) && ends_with(t.skip(k), "-->"@) {
        Some(trim(t.skip(k).take(t.len() - k - "-->"@.len())))
    } else {
        None
    }
}

/// An HTML block: a reference-definition marker becomes its definition
/// again, a footnote marker its footnote definition; wrappable HTML is wrapped paragraph by paragraph; other HTML is
/// kept as it is.
pub open spec fn html_block_rendered(node: MdNode, w: LineWrapper, sp: ListSpacing, p: Seq<char>, sub: Seq<char>) -> Seq<char> {
    let t = trim(node.literal@);
    match refdef_inside(t) {
        Some(def) => p + refdef_label_lowered(def) + seq!['\n'],
        None => if starts_with(t, FNDEF_MARKER_START@) && fndef_rendered(node.literal@, w, sp, p) is Some {
            fndef_rendered(node.literal@, w, sp, p)->Some_0
        } else if wrappable_html(t) {
            html_wrapped(html_paragraph_texts(node.literal@), w, p, sub)
        } else {
            p + node.literal@ + if node.literal@.len() > 0 && node.literal@.last() == '\n' {
                Seq::empty()
            } else {
                seq!['\n']
            }
        },
    }
}

/// ASCII letters in upper case.
pub open spec fn ascii_upper(s: Seq<char>) -> Seq<char> {
    s.map_values(|c: char| if 'a' <= c && c <= 'z' {
        ((c as u32) - 32) as char
    } else {
        c
    })
}

/// The item prefixes of item `i` of a list: the marker after the prefix,
/// and spaces as wide as the marker after the subsequent prefix.
pub open spec fn item_prefixes(list: MdNode, i: int, p: Seq<char>, sub: Seq<char>) -> (Seq<char>, Seq<char>) {
    if list.ordered {
        let num = decimal((list.start + i) as nat);
        (p + num + seq!['.', ' '], sub + repeated(' ', num.len() + 2))
    } else {
        (p + seq![list.bullet, ' '], sub + seq![' ', ' '])
    }
}

/// A short one-line HTML block of a tag or template comment.
pub open spec fn tag_block(n: MdNode) -> bool {
    let t = trim(n.literal@);
    &&& n.kind is HtmlBlock
    &&& !t.contains('\n')
    &&& (starts_with(t, "<!--"@) && ends_with(t, "-->"@)) || (starts_with(t, "{%"@) && ends_with(t, "%}"@))
        || (starts_with(t, "{#"@) && ends_with(t, "#}"@)) || (starts_with(t, "{{"@) && ends_with(t, "}}"@))
}

/// Whether a blank line goes before child `i` of a list item.
pub open spec fn item_gap(item: MdNode, ch: Seq<MdNode>, i: int, parent_tight: bool, sp: ListSpacing) -> bool {
    let child = ch[i];
    let suppress = !parent_tight && (child.kind is CodeBlock || (child.kind is List && sp
        == ListSpacing::Preserve)) && child.start_line <= ch[i - 1].end_line + 1;
    &&& i > 0
    &&& child_spacing_needed(item, parent_tight, sp)
    &&& !(ch[i - 1].kind is Heading)
    &&& !(child.kind is Heading && ends_with_hard_break(child.children@))
    &&& !tag_block(child)
    &&& !suppress
}

/// The task-list box of a task item.
pub open spec fn task_box(item: MdNode) -> Seq<char> {
    if item.checked {
        "[x] "@
    } else {
        "[ ] "@
    }
}

/// The block `node` rendered with first-line prefix `p` and prefix `sub` for
/// the other lines.
pub open spec fn block_rendered(node: MdNode, w: LineWrapper, sp: ListSpacing, p: Seq<char>, sub: Seq<char>) -> Seq<char>
    decreases node,
{
    match node.kind {
        NodeKind::Document => joined(node.children@, blocks_outs(node.children@, w, sp, p, sub), document_sep()),
        NodeKind::Paragraph => paragraph_rendered(node, w, p, sub, Seq::empty()),
        NodeKind::Heading => heading_rendered(node, p),
        NodeKind::List => list_rendered(node, node.children@, w, sp, p, sub),
        NodeKind::BlockQuote => {
            let qp = p + seq!['>', ' '];
            let qs = sub + seq!['>', ' '];
            without_trailing_newlines(joined(node.children@, blocks_outs(node.children@, w, sp, qp, qs), quoted_sep(sub + seq!['>'])))
                + seq!['\n']
        },
        NodeKind::CodeBlock => code_block_rendered(node, p, sub),
        NodeKind::ThematicBreak => p + seq!['*', ' ', '*', ' ', '*', '\n'],
        NodeKind::HtmlBlock => html_block_rendered(node, w, sp, p, sub),
        NodeKind::Table => table_rendered(node),
        NodeKind::TableRow | NodeKind::TableCell => Seq::empty(),
        NodeKind::FootnoteDefinition => {
            let fp = p + seq!['[', '^'] + node.title@ + seq![']', ':', ' '];
            let fs = sub + seq![' ', ' ', ' ', ' '];
            let body = footnote_body(node.children@, w, sp, fp, fs);
            if ends_with(body, seq!['\n', '\n']) {
                body
            } else if body.len() > 0 && body.last() == '\n' {
                body + seq!['\n']
            } else {
                body + seq!['\n', '\n']
            }
        },
        NodeKind::Alert => {
            let qp = p + seq!['>', ' '];
            let qs = sub + seq!['>', ' '];
            seq!['>', ' ', '[', '!'] + ascii_upper(node.title@) + seq![']', '\n'] + without_trailing_newlines(
                joined(node.children@, blocks_outs(node.children@, w, sp, qp, qs), quoted_sep(sub + seq!['>'])),
            ) + seq!['\n']
        },
        _ => concat(blocks_outs(node.children@, w, sp, p, sub)),
    }
}

/// Each block of `ch` rendered with the same prefixes.
pub open spec fn blocks_outs(ch: Seq<MdNode>, w: LineWrapper, sp: ListSpacing, p: Seq<char>, sub: Seq<char>) -> Seq<Seq<char>>
    decreases ch,
{
    if ch.len() == 0 {
        Seq::empty()
    } else {
        blocks_outs(ch.drop_last(), w, sp, p, sub).push(block_rendered(ch.last(), w, sp, p, sub))
    }
}

/// The children of a footnote definition: the first after the label, the
/// others indented, with a blank line between them in loose mode.
pub open spec fn footnote_body(ch: Seq<MdNode>, w: LineWrapper, sp: ListSpacing, fp: Seq<char>, fs: Seq<char>) -> Seq<char>
    decreases ch,
{
    if ch.len() == 0 {
        Seq::empty()
    } else {
        let n = ch.len() - 1;
        footnote_body(ch.drop_last(), w, sp, fp, fs) + (if n > 0 && sp == ListSpacing::Loose {
            seq!['\n']
        } else {
            Seq::empty()
        }) + block_rendered(ch.last(), w, sp, if n == 0 {
            fp
        } else {
            fs
        }, fs)
    }
}

/// The items `items` (a prefix of the list's items) rendered.
pub open spec fn list_rendered(list: MdNode, items: Seq<MdNode>, w: LineWrapper, sp: ListSpacing, p: Seq<char>, sub: Seq<char>) -> Seq<char>
    decreases items,
{
    if items.len() == 0 {
        Seq::empty()
    } else {
        let n = items.len() - 1;
        let (ip, is) = item_prefixes(list, n, p, sub);
        let tight = list_tight(list, sp);
        list_rendered(list, items.drop_last(), w, sp, p, sub) + (if !tight && n > 0 {
            trim_end(sub) + seq!['\n']
        } else {
            Seq::empty()
        }) + item_rendered(items.last(), items.last().children@, tight, w, sp, ip, is)
    }
}

/// The children `ch` (a prefix of the item's children) of a list item.
pub open spec fn item_rendered(item: MdNode, ch: Seq<MdNode>, parent_tight: bool, w: LineWrapper, sp: ListSpacing, ip: Seq<char>, is: Seq<char>) -> Seq<char>
    decreases ch,
{
    if ch.len() == 0 {
        Seq::empty()
    } else {
        let n = ch.len() - 1;
        let child = ch.last();
        let p = if n == 0 {
            ip
        } else {
            is
        };
        let gap = if item_gap(item, ch, n, parent_tight, sp) {
            if trim(is).len() == 0 {
                seq!['\n']
            } else {
                is + seq!['\n']
            }
        } else {
            Seq::empty()
        };
        let out = if item.kind is TaskItem && n == 0 && child.kind is Paragraph {
            paragraph_rendered(child, w, p, is, task_box(item))
        } else {
            block_rendered(child, w, sp, p, is)
        };
        item_rendered(item, ch.drop_last(), parent_tight, w, sp, ip, is) + gap + out
    }
}

// ---------------------------------------------------------------------------
// Executable block rendering: pieces
// ---------------------------------------------------------------------------

fn repeated_exec(c: char, n: usize) -> (r: Vec<char>)
    ensures
        r@ == repeated(c, n as nat),
{
    let mut r: Vec<char> = Vec::new();
    let mut i: usize = 0;
    while i < n
        invariant
            i <= n,
            r@ == repeated(c, i as nat),
        decreases n - i,
    {
        r.push(c);
        i += 1;
        assert(r@ =~= repeated(c, i as nat));
    }
    r
}

fn without_trailing_newlines_exec(v: &Vec<char>) -> (r: Vec<char>)
    ensures
        r@ == without_trailing_newlines(v@),
{
    let mut n: usize = v.len();
    assert(v@.take(n as int) =~= v@);
    while n > 0 && v[n - 1] == '\n'
        invariant
            n <= v.len(),
            without_trailing_newlines(v@.take(n as int)) == without_trailing_newlines(v@),
        decreases n,
    {
        assert(v@.take(n as int).drop_last() =~= v@.take(n - 1));
        n -= 1;
    }
    assert(v@.take(n as int) =~= v@.subrange(0, n as int));
    slice_of(v, 0, n)
}

fn push_newline(r: &mut Vec<char>)
    ensures
        final(r)@ == old(r)@ + seq!['\n'],
{
    r.push('\n');
}

fn heading_exec(node: &MdNode, p: &str) -> (r: Vec<char>)
    ensures
        r@ == heading_rendered(*node, p@),
{
    let inline = inline_children_buf(&node.children);
    let hard = crate::formatter::blocks::inline_ends_with_hard_break(node) || (inline.len() > 0
        && inline[inline.len() - 1] == '\\');
    let mut r = chars_of(p);
    let hashes = repeated_exec('#', node.level as usize);
    append_chars(&mut r, &hashes);
    r.push(' ');
    append_chars(&mut r, &inline);
    r.push('\n');
    if !hard {
        r.push('\n');
    }
    r
}

fn paragraph_exec(node: &MdNode, w: &LineWrapper, p: &str, sub: &str, lead: &Vec<char>) -> (r: Vec<char>)
    ensures
        r@ == paragraph_rendered(*node, *w, p@, sub@, lead@),
{
    let inline = inline_children_buf(&node.children);
    let mut text = slice_of(lead, 0, lead.len());
    assert(text@ =~= lead@);
    append_chars(&mut text, &inline);
    let ts = string_of(&text);
    let wrapped = w.wrap(ts.as_str(), p, sub);
    let mut r = chars_of(wrapped.as_str());
    r.push('\n');
    r
}

fn code_block_exec(node: &MdNode, p: &str, sub: &str) -> (r: Vec<char>)
    ensures
        r@ == code_block_rendered(*node, p@, sub@),
{
    let lit = chars_of(node.literal.as_str());
    let code = without_trailing_newlines_exec(&lit);
    let fc = if node.fenced && node.fence_char == '~' {
        '~'
    } else {
        '`'
    };
    let code_str = string_of(&code);
    let needed = crate::formatter::text_passes::min_fence_length(code_str.as_str(), fc);
    let least: usize = if node.fenced {
        node.fence_length
    } else {
        3
    };
    let len = if needed >= least {
        needed
    } else {
        least
    };
    let fence = repeated_exec(fc, len);
    let mut r = chars_of(p);
    append_chars(&mut r, &fence);
    append_str(&mut r, node.info.as_str());
    r.push('\n');
    if code.len() > 0 {
        let lines = crate::text::split_char(&code, '\n');
        let ghost ls = crate::text::buf_views(lines@);
        let sv = chars_of(sub);
        let empty_prefix = crate::text::trim_end_chars(&sv);
        let ghost head = r@;
        let mut i: usize = 0;
        while i < lines.len()
            invariant
                i <= lines.len(),
                ls == crate::text::buf_views(lines@),
                sv@ == sub@,
                empty_prefix@ == trim_end(sub@),
                r@ == head + code_lines(ls.take(i as int), sub@),
            decreases lines.len() - i,
        {
            assert(ls.take(i + 1).drop_last() =~= ls.take(i as int));
            assert(ls[i as int] == lines@[i as int]@);
            if lines[i].len() == 0 {
                append_chars(&mut r, &empty_prefix);
            } else {
                append_chars(&mut r, &sv);
                append_chars(&mut r, &lines[i]);
            }
            r.push('\n');
            i += 1;
        }
        assert(ls.take(lines.len() as int) =~= ls);
    }
    append_str(&mut r, sub);
    append_chars(&mut r, &fence);
    r.push('\n');
    r
}

fn pipes_escaped_exec(t: &Vec<char>) -> (r: Vec<char>)
    ensures
        r@ == pipes_escaped(t@),
{
    let mut r: Vec<char> = Vec::new();
    let mut i: usize = 0;
    while i < t.len()
        invariant
            i <= t.len(),
            r@ == pipes_escaped(t@.take(i as int)),
        decreases t.len() - i,
    {
        assert(t@.take(i + 1).drop_last() =~= t@.take(i as int));
        if t[i] == '|' {
            r.push('\\');
        }
        r.push(t[i]);
        i += 1;
    }
    assert(t@.take(t.len() as int) =~= t@);
    r
}

fn row_exec(row: &MdNode) -> (r: Vec<char>)
    ensures
        r@ == row_rendered(*row),
{
    let mut cells: Vec<Vec<char>> = Vec::new();
    let mut i: usize = 0;
    while i < row.children.len()
        invariant
            i <= row.children.len(),
            crate::text::buf_views(cells@) == cell_texts(row.children@.take(i as int)),
        decreases row.children.len() - i,
    {
        let inner = inline_children_buf(&row.children[i].children);
        let e = pipes_escaped_exec(&inner);
        let ghost before = cells@;
        cells.push(e);
        assert(crate::text::buf_views(cells@) =~= crate::text::buf_views(before).push(e@));
        assert(cell_texts(row.children@.take(i + 1)) =~= cell_texts(row.children@.take(i as int)).push(
            pipes_escaped(inlines_rendered(row.children@[i as int].children@)),
        ));
        i += 1;
    }
    assert(row.children@.take(row.children.len() as int) =~= row.children@);
    let mut sep: Vec<char> = Vec::new();
    sep.push(' ');
    sep.push('|');
    sep.push(' ');
    let body = crate::text::join_bufs(&cells, &sep);
    let mut r: Vec<char> = Vec::new();
    r.push('|');
    r.push(' ');
    append_chars(&mut r, &body);
    r.push(' ');
    r.push('|');
    r.push('\n');
    assert(sep@ =~= seq![' ', '|', ' ']);
    r
}

fn delimiter_exec(a: Align) -> (r: Vec<char>)
    ensures
        r@ == delimiter_of(a),
{
    let mut r: Vec<char> = Vec::new();
    match a {
        Align::Left | Align::Center => r.push(':'),
        _ => {},
    }
    r.push('-');
    r.push('-');
    r.push('-');
    match a {
        Align::Center | Align::Right => r.push(':'),
        _ => {},
    }
    r
}

fn table_exec(node: &MdNode) -> (r: Vec<char>)
    ensures
        r@ == table_rendered(*node),
{
    let rows = &node.children;
    if rows.len() == 0 {
        return Vec::new();
    }
    let mut r = row_exec(&rows[0]);
    let mut delims: Vec<Vec<char>> = Vec::new();
    let mut i: usize = 0;
    while i < node.alignments.len()
        invariant
            i <= node.alignments.len(),
            crate::text::buf_views(delims@) == node.alignments@.take(i as int).map_values(
                |a: Align| delimiter_of(a),
            ),
        decreases node.alignments.len() - i,
    {
        let d = delimiter_exec(node.alignments[i]);
        let ghost before = delims@;
        delims.push(d);
        assert(crate::text::buf_views(delims@) =~= node.alignments@.take(i + 1).map_values(
            |a: Align| delimiter_of(a),
        )) by {
            assert(crate::text::buf_views(delims@) =~= crate::text::buf_views(before).push(d@));
        }
        i += 1;
    }
    assert(node.alignments@.take(node.alignments.len() as int) =~= node.alignments@);
    let mut sep: Vec<char> = Vec::new();
    sep.push(' ');
    sep.push('|');
    sep.push(' ');
    assert(sep@ =~= seq![' ', '|', ' ']);
    let body = crate::text::join_bufs(&delims, &sep);
    r.push('|');
    r.push(' ');
    append_chars(&mut r, &body);
    r.push(' ');
    r.push('|');
    r.push('\n');
    let ghost head = r@;
    let ghost body_rows = rows@.drop_first();
    let mut k: usize = 1;
    while k < rows.len()
        invariant
            1 <= k <= rows.len(),
            body_rows == rows@.drop_first(),
            r@ == head + concat(body_rows.take(k - 1).map_values(|x: MdNode| row_rendered(x))),
        decreases rows.len() - k,
    {
        let one = row_exec(&rows[k]);
        append_chars(&mut r, &one);
        assert(body_rows.take(k as int).map_values(|x: MdNode| row_rendered(x)).drop_last() =~= body_rows.take(
            k - 1,
        ).map_values(|x: MdNode| row_rendered(x)));
        assert(body_rows[k - 1] == rows@[k as int]);
        k += 1;
    }
    assert(body_rows.take(rows.len() - 1) =~= body_rows);
    r
}

fn refdef_inside_exec(t: &Vec<char>) -> (r: Option<Vec<char>>)
    ensures
        match refdef_inside(t@) {
            Some(d) => r matches Some(x) && x@ == d,
            None => r is None,
        },
{
    if !crate::text::starts_with_str(t, REFDEF_MARKER_PREFIX) {
        return None;
    }
    let k = chars_of(REFDEF_MARKER_PREFIX).len();
    let rest = slice_of(t, k, t.len());
    assert(rest@ =~= t@.skip(k as int));
    if !crate::text::ends_with_str(&rest, "-->") {
        return None;
    }
    let m = chars_of("-->").len();
    let inner = slice_of(&rest, 0, rest.len() - m);
    assert(inner@ =~= t@.skip(k as int).take(t@.len() - k - "-->"@.len()));
    Some(crate::text::trim_chars(&inner))
}

fn wrappable_html_exec(t: &Vec<char>) -> (r: bool)
    ensures
        r == wrappable_html(t@),
{
    if t.len() == 0 {
        return false;
    }
    let mut i: usize = 0;
    while i < t.len() && !is_alphabetic(t[i])
        invariant
            i <= t.len(),
            forall|j: int| 0 <= j < i ==> !alphabetic(#[trigger] t@[j]),
        decreases t.len() - i,
    {
        i += 1;
    }
    let alpha = i < t.len();
    if !alpha {
        return false;
    }
    if !crate::text::contains_char(t, '<') {
        return false;
    }
    let ts = string_of(t);
    ts.as_str().as_bytes().len() > 40
}

pub(crate) fn lines_exec(v: &Vec<char>) -> (r: Vec<Vec<char>>)
    ensures
        crate::text::buf_views(r@) == lines_of(v@),
{
    let parts = crate::text::split_char(v, '\n');
    let ghost ps = crate::text::buf_views(parts@);
    proof {
        crate::text::lemma_split_on(v@, '\n');
    }
    let n = if v.len() == 0 || v[v.len() - 1] == '\n' {
        parts.len() - 1
    } else {
        parts.len()
    };
    let ghost kept = if v.len() == 0 || v@.last() == '\n' {
        ps.drop_last()
    } else {
        ps
    };
    assert(kept =~= ps.take(n as int));
    let mut r: Vec<Vec<char>> = Vec::new();
    let mut i: usize = 0;
    while i < n
        invariant
            i <= n <= parts.len(),
            ps == crate::text::buf_views(parts@),
            kept == ps.take(n as int),
            crate::text::buf_views(r@) == kept.take(i as int).map_values(
                |l: Seq<char>|
                    if l.len() > 0 && l.last() == '\r' {
                        l.drop_last()
                    } else {
                        l
                    },
            ),
        decreases n - i,
    {
        let l = &parts[i];
        let x = if l.len() > 0 && l[l.len() - 1] == '\r' {
            slice_of(l, 0, l.len() - 1)
        } else {
            slice_of(l, 0, l.len())
        };
        proof {
            assert(ps[i as int] == l@);
            if l.len() > 0 && l@.last() == '\r' {
                assert(x@ =~= l@.drop_last());
            } else {
                assert(x@ =~= l@);
            }
        }
        let ghost before = r@;
        r.push(x);
        assert(crate::text::buf_views(r@) =~= crate::text::buf_views(before).push(x@));
        assert(kept.take(i + 1).map_values(
            |l: Seq<char>|
                if l.len() > 0 && l.last() == '\r' {
                    l.drop_last()
                } else {
                    l
                },
        ) =~= crate::text::buf_views(r@));
        i += 1;
    }
    assert(kept.take(n as int) =~= kept);
    r
}

fn html_paragraph_texts_exec(literal: &Vec<char>) -> (r: Vec<Vec<char>>)
    ensures
        crate::text::buf_views(r@) == html_paragraph_texts(literal@),
{
    let lines = lines_exec(literal);
    let ghost ls = crate::text::buf_views(lines@);
    let mut sp: Vec<char> = Vec::new();
    sp.push(' ');
    assert(sp@ =~= seq![' ']);
    let mut done: Vec<Vec<char>> = Vec::new();
    let mut cur: Vec<Vec<char>> = Vec::new();
    let mut i: usize = 0;
    assert(crate::text::buf_views(done@) =~= Seq::<Seq<char>>::empty());
    assert(crate::text::buf_views(cur@) =~= Seq::<Seq<char>>::empty());
    while i < lines.len()
        invariant
            i <= lines.len(),
            ls == crate::text::buf_views(lines@),
            sp@ == seq![' '],
            (crate::text::buf_views(done@), crate::text::buf_views(cur@)) == html_paragraphs(ls.take(i as int)),
        decreases lines.len() - i,
    {
        assert(ls.take(i + 1).drop_last() =~= ls.take(i as int));
        assert(ls[i as int] == lines@[i as int]@);
        let t = crate::text::trim_chars(&lines[i]);
        if t.len() == 0 {
            if cur.len() > 0 {
                let j = crate::text::join_bufs(&cur, &sp);
                let ghost before = done@;
                done.push(j);
                assert(crate::text::buf_views(done@) =~= crate::text::buf_views(before).push(j@));
                cur = Vec::new();
                assert(crate::text::buf_views(cur@) =~= Seq::<Seq<char>>::empty());
            }
        } else {
            let ghost before = cur@;
            cur.push(t);
            assert(crate::text::buf_views(cur@) =~= crate::text::buf_views(before).push(t@));
        }
        i += 1;
    }
    assert(ls.take(lines.len() as int) =~= ls);
    if cur.len() > 0 {
        let j = crate::text::join_bufs(&cur, &sp);
        let ghost before = done@;
        done.push(j);
        assert(crate::text::buf_views(done@) =~= crate::text::buf_views(before).push(j@));
    }
    done
}

fn html_block_exec(node: &MdNode, w: &LineWrapper, sp: ListSpacing, p: &str, sub: &str) -> (r: Vec<char>)
    ensures
        r@ == html_block_rendered(*node, *w, sp, p@, sub@),
{
    let lit = chars_of(node.literal.as_str());
    let t = crate::text::trim_chars(&lit);
    match refdef_inside_exec(&t) {
        Some(def) => {
            let ds = string_of(&def);
            let lowered = crate::formatter::filling::lowercase_refdef_label(ds.as_str());
            let mut r = chars_of(p);
            append_str(&mut r, lowered.as_str());
            r.push('\n');
            r
        },
        None => {
            if crate::text::starts_with_str(&t, FNDEF_MARKER_START) {
                match render_fndef(node.literal.as_str(), w, sp, p) {
                    Some(f) => {
                        return chars_of(f.as_str());
                    },
                    None => {},
                }
            }
            if wrappable_html_exec(&t) {
                let paras = html_paragraph_texts_exec(&lit);
                let ghost ps = crate::text::buf_views(paras@);
                let mut r: Vec<char> = Vec::new();
                let mut i: usize = 0;
                while i < paras.len()
                    invariant
                        i <= paras.len(),
                        ps == crate::text::buf_views(paras@),
                        r@ == html_wrapped(ps.take(i as int), *w, p@, sub@),
                    decreases paras.len() - i,
                {
                    assert(ps.take(i + 1).drop_last() =~= ps.take(i as int));
                    assert(ps[i as int] == paras@[i as int]@);
                    if i > 0 {
                        r.push('\n');
                    }
                    let tp = crate::text::trim_chars(&paras[i]);
                    let ts = string_of(&tp);
                    let wrapped = if i == 0 {
                        w.wrap(ts.as_str(), p, sub)
                    } else {
                        w.wrap(ts.as_str(), sub, sub)
                    };
                    append_str(&mut r, wrapped.as_str());
                    r.push('\n');
                    i += 1;
                }
                assert(ps.take(paras.len() as int) =~= ps);
                r
            } else {
                let mut r = chars_of(p);
                append_chars(&mut r, &lit);
                if !(lit.len() > 0 && lit[lit.len() - 1] == '\n') {
                    r.push('\n');
                }
                r
            }
        },
    }
}

fn ascii_upper_exec(s: &str) -> (r: Vec<char>)
    ensures
        r@ == ascii_upper(s@),
{
    let v = chars_of(s);
    let mut r: Vec<char> = Vec::new();
    let mut i: usize = 0;
    while i < v.len()
        invariant
            i <= v.len(),
            v@ == s@,
            r@ == ascii_upper(s@.take(i as int)),
        decreases v.len() - i,
    {
        let c = v[i];
        let u = if 'a' <= c && c <= 'z' {
            match crate::preservation::tokens::char_from_u32((c as u32) - 32) {
                Some(x) => x,
                None => c,
            }
        } else {
            c
        };
        r.push(u);
        assert(r@ =~= ascii_upper(s@.take(i + 1)));
        i += 1;
    }
    assert(s@.take(v.len() as int) =~= s@);
    r
}

fn item_prefixes_exec(list: &MdNode, i: usize, p: &str, sub: &str) -> (r: (String, String))
    ensures
        (r.0@, r.1@) == item_prefixes(*list, i as int, p@, sub@),
{
    if list.ordered {
        let num = crate::cli::decimal_exec((list.start as u128) + (i as u128));
        let mut a = chars_of(p);
        append_chars(&mut a, &num);
        a.push('.');
        a.push(' ');
        let mut b = chars_of(sub);
        let spaces = repeated_exec(' ', num.len());
        append_chars(&mut b, &spaces);
        b.push(' ');
        b.push(' ');
        assert(repeated(' ', num@.len()) + seq![' ', ' '] =~= repeated(' ', num@.len() + 2));
        (string_of(&a), string_of(&b))
    } else {
        let mut a = chars_of(p);
        a.push(list.bullet);
        a.push(' ');
        let mut b = chars_of(sub);
        b.push(' ');
        b.push(' ');
        (string_of(&a), string_of(&b))
    }
}

fn tag_block_exec(n: &MdNode) -> (r: bool)
    ensures
        r == tag_block(*n),
{
    if n.kind != NodeKind::HtmlBlock {
        return false;
    }
    let t = crate::text::trim_chars(&chars_of(n.literal.as_str()));
    if crate::text::contains_char(&t, '\n') {
        return false;
    }
    (crate::text::starts_with_str(&t, "<!--") && crate::text::ends_with_str(&t, "-->")) || (
    crate::text::starts_with_str(&t, "{%") && crate::text::ends_with_str(&t, "%}")) || (
    crate::text::starts_with_str(&t, "{#") && crate::text::ends_with_str(&t, "#}")) || (
    crate::text::starts_with_str(&t, "{{") && crate::text::ends_with_str(&t, "}}"))
}

// ---------------------------------------------------------------------------
// Executable block rendering
// ---------------------------------------------------------------------------

proof fn lemma_outs_len(ch: Seq<MdNode>, w: LineWrapper, sp: ListSpacing, p: Seq<char>, sub: Seq<char>)
    ensures
        blocks_outs(ch, w, sp, p, sub).len() == ch.len(),
    decreases ch.len(),
{
    if ch.len() > 0 {
        lemma_outs_len(ch.drop_last(), w, sp, p, sub);
    }
}

/// Each block of `ch` rendered with the same prefixes.
fn render_blocks(ch: &Vec<MdNode>, w: &LineWrapper, list_spacing: ListSpacing, p: &str, sub: &str) -> (r: Vec<String>)
    ensures
        crate::text::views(r@) == blocks_outs(ch@, *w, list_spacing, p@, sub@),
        r.len() == ch.len(),
    decreases ch,
{
    let mut r: Vec<String> = Vec::new();
    let mut i: usize = 0;
    while i < ch.len()
        invariant
            i <= ch.len(),
            r.len() == i,
            crate::text::views(r@) == blocks_outs(ch@.take(i as int), *w, list_spacing, p@, sub@),
        decreases ch.len() - i,
    {
        assert(ch@.take(i + 1).drop_last() =~= ch@.take(i as int));
        let one = render_block(&ch[i], w, list_spacing, p, sub);
        let ghost before = r@;
        r.push(one);
        assert(crate::text::views(r@) =~= crate::text::views(before).push(one@));
        i += 1;
    }
    assert(ch@.take(ch.len() as int) =~= ch@);
    r
}

fn quoted_children(node: &MdNode, w: &LineWrapper, list_spacing: ListSpacing, p: &str, sub: &str) -> (r: Vec<char>)
    ensures
        r@ == without_trailing_newlines(joined(node.children@, blocks_outs(node.children@, *w, list_spacing, p@ + seq!['>', ' '], sub@ + seq!['>', ' ']), quoted_sep(sub@ + seq!['>']))) + seq!['\n'],
    decreases node, 0nat,
{
    let mut qp = chars_of(p);
    qp.push('>');
    qp.push(' ');
    let mut qs = chars_of(sub);
    qs.push('>');
    qs.push(' ');
    let qps = string_of(&qp);
    let qss = string_of(&qs);
    assert(qps@ =~= p@ + seq!['>', ' ']);
    assert(qss@ =~= sub@ + seq!['>', ' ']);
    let outs = render_blocks(&node.children, w, list_spacing, qps.as_str(), qss.as_str());
    let mut blank = chars_of(sub);
    blank.push('>');
    let bs = string_of(&blank);
    assert(bs@ =~= sub@ + seq!['>']);
    let joined_text = crate::formatter::blocks::join_quoted_children(&node.children, &outs, bs.as_str());
    let jv = chars_of(joined_text.as_str());
    let mut r = without_trailing_newlines_exec(&jv);
    r.push('\n');
    r
}

/// Render one block as Markdown, its first line after `prefix` and the
/// others after `subsequent_prefix`.
pub fn render_block(node: &MdNode, wrapper: &LineWrapper, list_spacing: ListSpacing, prefix: &str, subsequent_prefix: &str) -> (r: String)
    ensures
        r@ == block_rendered(*node, *wrapper, list_spacing, prefix@, subsequent_prefix@),
    decreases node, 1nat,
{
    let w = wrapper;
    let p = prefix;
    let sub = subsequent_prefix;
    let v: Vec<char> = match node.kind {
        NodeKind::Document => {
            let outs = render_blocks(&node.children, w, list_spacing, p, sub);
            let j = crate::formatter::blocks::join_block_children(&node.children, &outs);
            chars_of(j.as_str())
        },
        NodeKind::Paragraph => {
            let lead: Vec<char> = Vec::new();
            let r = paragraph_exec(node, w, p, sub, &lead);
            assert(lead@ =~= Seq::<char>::empty());
            r
        },
        NodeKind::Heading => heading_exec(node, p),
        NodeKind::List => {
            let tight = crate::formatter::blocks::effective_list_tightness(node, list_spacing);
            let sv = chars_of(sub);
            let blank = crate::text::trim_end_chars(&sv);
            let mut r: Vec<char> = Vec::new();
            let mut i: usize = 0;
            while i < node.children.len()
                invariant
                    i <= node.children.len(),
                    tight == list_tight(*node, list_spacing),
                    blank@ == trim_end(sub@),
                    r@ == list_rendered(*node, node.children@.take(i as int), *w, list_spacing, p@, sub@),
                decreases node.children.len() - i,
            {
                assert(node.children@.take(i + 1).drop_last() =~= node.children@.take(i as int));
                let (ip, is) = item_prefixes_exec(node, i, p, sub);
                if !tight && i > 0 {
                    append_chars(&mut r, &blank);
                    r.push('\n');
                }
                let item = render_list_item(&node.children[i], node, w, list_spacing, ip.as_str(), is.as_str());
                append_str(&mut r, item.as_str());
                i += 1;
            }
            assert(node.children@.take(node.children.len() as int) =~= node.children@);
            r
        },
        NodeKind::BlockQuote => quoted_children(node, w, list_spacing, p, sub),
        NodeKind::CodeBlock => code_block_exec(node, p, sub),
        NodeKind::ThematicBreak => {
            let mut r = chars_of(p);
            r.push('*');
            r.push(' ');
            r.push('*');
            r.push(' ');
            r.push('*');
            r.push('\n');
            r
        },
        NodeKind::HtmlBlock => html_block_exec(node, w, list_spacing, p, sub),
        NodeKind::Table => table_exec(node),
        NodeKind::TableRow | NodeKind::TableCell => Vec::new(),
        NodeKind::FootnoteDefinition => {
            let mut fp = chars_of(p);
            fp.push('[');
            fp.push('^');
            append_str(&mut fp, node.title.as_str());
            fp.push(']');
            fp.push(':');
            fp.push(' ');
            let mut fs = chars_of(sub);
            fs.push(' ');
            fs.push(' ');
            fs.push(' ');
            fs.push(' ');
            let fps = string_of(&fp);
            let fss = string_of(&fs);
            assert(fps@ =~= p@ + seq!['[', '^'] + node.title@ + seq![']', ':', ' ']);
            assert(fss@ =~= sub@ + seq![' ', ' ', ' ', ' ']);
            let mut r: Vec<char> = Vec::new();
            let mut i: usize = 0;
            while i < node.children.len()
                invariant
                    i <= node.children.len(),
                    r@ == footnote_body(node.children@.take(i as int), *w, list_spacing, fps@, fss@),
                decreases node.children.len() - i,
            {
                assert(node.children@.take(i + 1).drop_last() =~= node.children@.take(i as int));
                if i > 0 && list_spacing == ListSpacing::Loose {
                    r.push('\n');
                }
                let out = if i == 0 {
                    render_block(&node.children[i], w, list_spacing, fps.as_str(), fss.as_str())
                } else {
                    render_block(&node.children[i], w, list_spacing, fss.as_str(), fss.as_str())
                };
                append_str(&mut r, out.as_str());
                i += 1;
            }
            assert(node.children@.take(node.children.len() as int) =~= node.children@);
            let n = r.len();
            let ghost body = r@;
            if n >= 2 && r[n - 1] == '\n' && r[n - 2] == '\n' {
                assert(body.subrange(n - 2, n as int) =~= seq!['\n', '\n']);
                assert(ends_with(body, seq!['\n', '\n']));
            } else {
                assert(!ends_with(body, seq!['\n', '\n'])) by {
                    if n >= 2 {
                        assert(body.subrange(n - 2, n as int)[1] == body[n - 1]);
                        assert(body.subrange(n - 2, n as int)[0] == body[n - 2]);
                    }
                }
                if n > 0 && r[n - 1] == '\n' {
                    r.push('\n');
                } else {
                    r.push('\n');
                    r.push('\n');
                }
            }
            assert(r@ == block_rendered(*node, *w, list_spacing, p@, sub@));
            r
        },
        NodeKind::Alert => {
            let mut r: Vec<char> = Vec::new();
            r.push('>');
            r.push(' ');
            r.push('[');
            r.push('!');
            let up = ascii_upper_exec(node.title.as_str());
            append_chars(&mut r, &up);
            r.push(']');
            r.push('\n');
            let inner = quoted_children(node, w, list_spacing, p, sub);
            append_chars(&mut r, &inner);
            r
        },
        _ => {
            let outs = render_blocks(&node.children, w, list_spacing, p, sub);
            let bufs = crate::text::bufs_of(&outs);
            let mut r: Vec<char> = Vec::new();
            let mut i: usize = 0;
            while i < bufs.len()
                invariant
                    i <= bufs.len(),
                    crate::text::buf_views(bufs@) == crate::text::views(outs@),
                    r@ == concat(crate::text::buf_views(bufs@).take(i as int)),
                decreases bufs.len() - i,
            {
                assert(crate::text::buf_views(bufs@).take(i + 1).drop_last() =~= crate::text::buf_views(bufs@).take(i as int));
                append_chars(&mut r, &bufs[i]);
                i += 1;
            }
            assert(crate::text::buf_views(bufs@).take(bufs.len() as int) =~= crate::text::buf_views(bufs@));
            r
        },
    };
    string_of(&v)
}

/// Render a list item of `parent` as Markdown: its first child after
/// `item_prefix`, everything else after `item_subsequent`, with the spacing
/// the list's mode and source ask for between children.
pub fn render_list_item(item: &MdNode, parent: &MdNode, wrapper: &LineWrapper, list_spacing: ListSpacing, item_prefix: &str, item_subsequent: &str) -> (r: String)
    ensures
        r@ == item_rendered(*item, item.children@, list_tight(*parent, list_spacing), *wrapper, list_spacing, item_prefix@, item_subsequent@),
    decreases item, 1nat,
{
    let w = wrapper;
    let parent_tight = crate::formatter::blocks::effective_list_tightness(parent, list_spacing);
    let needs = crate::formatter::blocks::item_needs_child_spacing(item, parent_tight, list_spacing);
    let isv = chars_of(item_subsequent);
    let is_blank = crate::text::trim_chars(&isv).len() == 0;
    let ch = &item.children;
    let mut r: Vec<char> = Vec::new();
    let mut i: usize = 0;
    while i < ch.len()
        invariant
            i <= ch.len(),
            ch == &item.children,
            parent_tight == list_tight(*parent, list_spacing),
            needs == child_spacing_needed(*item, parent_tight, list_spacing),
            isv@ == item_subsequent@,
            is_blank == (trim(item_subsequent@).len() == 0),
            r@ == item_rendered(*item, ch@.take(i as int), parent_tight, *w, list_spacing, item_prefix@, item_subsequent@),
        decreases ch.len() - i,
    {
        let ghost pre = ch@.take(i + 1);
        assert(pre.drop_last() =~= ch@.take(i as int));
        assert(pre.last() == ch@[i as int]);
        let child = &ch[i];
        if i > 0 && needs {
            let prev = &ch[i - 1];
            assert(pre[i - 1] == prev);
            let suppress = !parent_tight && (child.kind == NodeKind::CodeBlock || (child.kind == NodeKind::List
                && list_spacing == ListSpacing::Preserve)) && (child.start_line <= prev.end_line
                || child.start_line - prev.end_line == 1);
            let gap = !(prev.kind == NodeKind::Heading) && !(child.kind == NodeKind::Heading
                && crate::formatter::blocks::inline_ends_with_hard_break(child)) && !tag_block_exec(child)
                && !suppress;
            if gap {
                if !is_blank {
                    append_chars(&mut r, &isv);
                }
                r.push('\n');
            }
        }
        let p = if i == 0 {
            item_prefix
        } else {
            item_subsequent
        };
        let out = if item.kind == NodeKind::TaskItem && i == 0 && child.kind == NodeKind::Paragraph {
            let lead = chars_of(if item.checked {
                "[x] "
            } else {
                "[ ] "
            });
            paragraph_exec(child, w, p, item_subsequent, &lead)
        } else {
            let s = render_block(child, w, list_spacing, p, item_subsequent);
            chars_of(s.as_str())
        };
        append_chars(&mut r, &out);
        i += 1;
    }
    assert(ch@.take(ch.len() as int) =~= ch@);
    string_of(&r)
}

// ---------------------------------------------------------------------------
// Reference definitions survive the parser
// ---------------------------------------------------------------------------

proof fn lemma_trim_trailing_space(s: Seq<char>)
    ensures
        trim(s + seq![' ']) == trim(s),
{
    let t = s + seq![' '];
    crate::text::lemma_trim_empty(s);
    crate::text::lemma_trim_empty(t);
    if crate::text::all_ws(s) {
        assert(crate::text::all_ws(t)) by {
            assert forall|i: int| 0 <= i < t.len() implies is_ws(#[trigger] t[i]) by {
                if i < s.len() {
                    assert(t[i] == s[i]);
                }
            }
        }
        assert(trim(s) =~= trim(t));
    } else {
        crate::text::lemma_lead_ws(s);
        let k = crate::text::lead_ws(s) as int;
        assert(k < s.len());
        assert forall|i: int| 0 <= i < k implies is_ws(#[trigger] t[i]) by {
            assert(t[i] == s[i]);
        }
        assert(t[k] == s[k]);
        crate::text::lemma_lead_ws_char(t, k);
        let u = crate::text::trim_start(s);
        assert(crate::text::trim_start(t) =~= u + seq![' ']);
        let v = u + seq![' '];
        assert(v.drop_last() =~= u);
        assert(crate::text::trail_ws(v) == 1 + crate::text::trail_ws(u));
        crate::text::lemma_trail_ws(u);
        assert(trim_end(v) =~= trim_end(u));
    }
}

/// A reference definition that extraction wrapped in a marker comes back
/// from rendering as the definition line itself, trimmed, with its label
/// lowercased: the parser sees a comment, the output the definition.
pub proof fn lemma_refdef_marker_renders_definition(
    line: Seq<char>,
    node: MdNode,
    w: LineWrapper,
    sp: ListSpacing,
    p: Seq<char>,
    sub: Seq<char>,
)
    requires
        node.kind is HtmlBlock,
        crate::formatter::filling::refdef_match(line) is Some,
        trim(node.literal@) == crate::formatter::filling::refdef_line(line),
    ensures
        block_rendered(node, w, sp, p, sub) == p + refdef_label_lowered(trim(line)) + seq!['\n'],
{
    reveal_strlit("-->");
    let pre = REFDEF_MARKER_PREFIX@;
    let m = pre + line + seq![' '] + crate::formatter::filling::MARKER_END@;
    let k = pre.len() as int;
    assert(m.subrange(0, k) =~= pre);
    assert(starts_with(m, pre));
    let rest = m.skip(k);
    assert(rest =~= line + seq![' '] + "-->"@);
    assert(rest.subrange(rest.len() - 3, rest.len() as int) =~= "-->"@);
    assert(ends_with(rest, "-->"@));
    assert(rest.take(m.len() - k - "-->"@.len()) =~= line + seq![' ']);
    lemma_trim_trailing_space(line);
    assert(refdef_inside(m) == Some(trim(line)));
}

} // verus!
