//! Multi-paragraph text filling.

use vstd::prelude::*;
use crate::regex_scan::{gap, regex_scan_of, scan};
use crate::text::{
    append_chars, append_str, buf_views, chars_of, join, join_bufs, push_buf, split_char, split_on,
    string_of, strings_of, trim, trim_chars, views,
};
use crate::wrapping::text_wrapping::{WordSplitter, wrap_paragraph, wrapped_paragraph};

verus! {

/// Default wrap width, a compromise between an 80-column console and lines
/// too wide to read comfortably.
pub const DEFAULT_WRAP_WIDTH: usize = 88;

/// Default indent.
pub const DEFAULT_INDENT: &'static str = "    ";

/// Paragraph separator: two or more newlines.
pub const PARAGRAPH_BREAK_PATTERN: &'static str = r"\n{2,}";

pub open spec fn default_indent() -> Seq<char> {
    seq![' ', ' ', ' ', ' ']
}

/// The trimmed paragraphs of a text: the pieces between runs of two or more
/// newlines. (If the pattern did not compile, the whole text would be one
/// paragraph.)
pub open spec fn paragraphs_of(text: Seq<char>) -> Seq<Seq<char>> {
    match regex_scan_of(PARAGRAPH_BREAK_PATTERN@, text) {
        Some(sc) => sc.0.map_values(|p: Seq<char>| trim(p)),
        None => seq![trim(text)],
    }
}

fn paragraphs_chars(text: &str) -> (r: Vec<Vec<char>>)
    ensures
        buf_views(r@) == paragraphs_of(text@),
{
    match scan(PARAGRAPH_BREAK_PATTERN, text) {
        None => {
            let v = chars_of(text);
            let mut r: Vec<Vec<char>> = Vec::new();
            push_buf(&mut r, trim_chars(&v));
            assert(buf_views(r@) =~= paragraphs_of(text@));
            r
        },
        Some(sc) => {
            let ghost gs = views(sc.gaps@);
            let ghost target = gs.map_values(|p: Seq<char>| trim(p));
            let mut r: Vec<Vec<char>> = Vec::new();
            let mut k: usize = 0;
            while k < sc.gaps.len()
                invariant
                    k <= sc.gaps.len(),
                    gs == views(sc.gaps@),
                    target == gs.map_values(|p: Seq<char>| trim(p)),
                    buf_views(r@) == target.take(k as int),
                decreases sc.gaps.len() - k,
            {
                let g = gap(&sc, k);
                push_buf(&mut r, trim_chars(&g));
                assert(buf_views(r@) =~= target.take(k + 1));
                k += 1;
            }
            assert(target.take(sc.gaps.len() as int) =~= target);
            r
        },
    }
}

/// Split text into paragraphs separated by blank lines.
pub fn split_paragraphs(text: &str) -> (r: Vec<String>)
    ensures
        views(r@) == paragraphs_of(text@),
{
    let p = paragraphs_chars(text);
    strings_of(&p)
}

/// Text wrapping styles.
#[derive(Clone, Copy, PartialEq, Eq, Debug, Structural)]
pub enum Wrap {
    /// No wrapping.
    NoWrap,
    /// Wrapping that keeps the white space within paragraphs.
    Wrap,
    /// Wrapping that also normalizes white space.
    WrapFull,
    /// Wrapping and indenting.
    WrapIndent,
    /// Indenting only.
    IndentOnly,
    /// Wrapping with a hanging indent (every line indented but the first).
    HangingIndent,
    /// Two-space hanging indent for Markdown list items.
    MarkdownItem,
}

pub open spec fn initial_indent_of(w: Wrap) -> Seq<char> {
    match w {
        Wrap::IndentOnly | Wrap::WrapIndent => default_indent(),
        _ => Seq::empty(),
    }
}

pub open spec fn subsequent_indent_of(w: Wrap) -> Seq<char> {
    match w {
        Wrap::MarkdownItem => seq![' ', ' '],
        Wrap::IndentOnly | Wrap::WrapIndent | Wrap::HangingIndent => default_indent(),
        _ => Seq::empty(),
    }
}

pub open spec fn wraps(w: Wrap) -> bool {
    w is Wrap || w is WrapFull || w is WrapIndent || w is HangingIndent || w is MarkdownItem
}

pub open spec fn first_para_only(w: Wrap) -> bool {
    w is HangingIndent || w is MarkdownItem
}

pub open spec fn replaces_whitespace(w: Wrap) -> bool {
    w is WrapFull || w is WrapIndent || w is HangingIndent
}

impl Wrap {
    pub fn initial_indent(self) -> (r: &'static str)
        ensures
            r@ == initial_indent_of(self),
    {
        proof {
            reveal_strlit("    ");
            reveal_strlit("");
        }
        match self {
            Wrap::IndentOnly | Wrap::WrapIndent => DEFAULT_INDENT,
            _ => "",
        }
    }

    pub fn subsequent_indent(self) -> (r: &'static str)
        ensures
            r@ == subsequent_indent_of(self),
    {
        proof {
            reveal_strlit("    ");
            reveal_strlit("  ");
            reveal_strlit("");
        }
        match self {
            Wrap::MarkdownItem => "  ",
            Wrap::IndentOnly | Wrap::WrapIndent | Wrap::HangingIndent => DEFAULT_INDENT,
            _ => "",
        }
    }

    pub fn should_wrap(self) -> (b: bool)
        ensures
            b == wraps(self),
    {
        match self {
            Wrap::Wrap | Wrap::WrapFull | Wrap::WrapIndent | Wrap::HangingIndent
            | Wrap::MarkdownItem => true,
            _ => false,
        }
    }

    pub fn initial_indent_first_para_only(self) -> (b: bool)
        ensures
            b == first_para_only(self),
    {
        match self {
            Wrap::HangingIndent | Wrap::MarkdownItem => true,
            _ => false,
        }
    }

    pub fn replace_whitespace(self) -> (b: bool)
        ensures
            b == replaces_whitespace(self),
    {
        match self {
            Wrap::WrapFull | Wrap::WrapIndent | Wrap::HangingIndent => true,
            _ => false,
        }
    }
}

/// A line without the carriage return that ended it.
pub open spec fn strip_cr(p: Seq<char>) -> Seq<char> {
    if p.len() > 0 && p.last() == '\r' {
        p.drop_last()
    } else {
        p
    }
}

/// `str::lines`: the pieces between newlines, a carriage return before a
/// newline dropped, and no empty last line after a final newline.
pub open spec fn text_lines(s: Seq<char>) -> Seq<Seq<char>> {
    let parts = split_on(s, '\n');
    let n = parts.len() as int;
    let kept: int = if s.len() == 0 {
        0
    } else if s.last() == '\n' {
        n - 1
    } else {
        n
    };
    Seq::new(kept as nat, |i: int| if i < n - 1 { strip_cr(parts[i]) } else { parts[i] })
}

/// The text `fill_text` returns.
///
/// Without wrapping, every line is prefixed with the extra indent (and the
/// default indent for `IndentOnly`); a text without lines gives the trimmed
/// empty-line indent. With wrapping, each paragraph is wrapped to the width
/// less the subsequent indent and the paragraphs are joined by a line holding
/// the trimmed empty-line indent.
pub open spec fn filled_text(
    text: Seq<char>,
    wrap: Wrap,
    width: int,
    extra_indent: Seq<char>,
    empty_indent: Seq<char>,
    initial_column: int,
    splitter: Option<WordSplitter>,
) -> Seq<char> {
    if !wraps(wrap) {
        let indent = if wrap is IndentOnly {
            extra_indent + default_indent()
        } else {
            extra_indent
        };
        let lines = text_lines(text);
        if lines.len() > 0 {
            join(lines.map_values(|l: Seq<char>| indent + l), seq!['\n'])
        } else {
            trim(empty_indent)
        }
    } else {
        let ii = extra_indent + initial_indent_of(wrap);
        let si = extra_indent + subsequent_indent_of(wrap);
        let paras = paragraphs_of(text);
        let wrapped = Seq::new(
            paras.len(),
            |i: int|
                wrapped_paragraph(
                    paras[i],
                    width - si.len(),
                    if first_para_only(wrap) && i > 0 {
                        si
                    } else {
                        ii
                    },
                    si,
                    initial_column,
                    replaces_whitespace(wrap),
                    true,
                    splitter,
                    false,
                ),
        );
        join(wrapped, seq!['\n'] + trim(empty_indent) + seq!['\n'])
    }
}

pub fn text_lines_chars(v: &Vec<char>) -> (r: Vec<Vec<char>>)
    ensures
        buf_views(r@) == text_lines(v@),
{
    let parts = split_char(v, '\n');
    let ghost ps = split_on(v@, '\n');
    let ghost target = text_lines(v@);
    let n = parts.len();
    let kept: usize = if v.len() == 0 {
        0
    } else if v[v.len() - 1] == '\n' {
        n - 1
    } else {
        n
    };
    proof {
        crate::text::lemma_split_on(v@, '\n');
        assert(target.len() == kept);
    }
    let mut r: Vec<Vec<char>> = Vec::new();
    let mut i: usize = 0;
    while i < kept
        invariant
            i <= kept <= n,
            n == parts.len(),
            ps == split_on(v@, '\n'),
            buf_views(parts@) == ps,
            target == text_lines(v@),
            target.len() == kept,
            buf_views(r@) == target.take(i as int),
        decreases kept - i,
    {
        let p = &parts[i];
        assert(p@ == ps[i as int]);
        let mut l: Vec<char> = Vec::new();
        append_chars(&mut l, p);
        if i + 1 < n && l.len() > 0 && l[l.len() - 1] == '\r' {
            l.pop();
        }
        assert(l@ =~= target[i as int]);
        push_buf(&mut r, l);
        assert(buf_views(r@) =~= target.take(i + 1));
        i += 1;
    }
    assert(target.take(kept as int) =~= target);
    r
}

fn paragraph_sep(empty_indent: &str) -> (r: Vec<char>)
    ensures
        r@ == seq!['\n'] + trim(empty_indent@) + seq!['\n'],
{
    let e = chars_of(empty_indent);
    let t = trim_chars(&e);
    let mut r: Vec<char> = Vec::new();
    r.push('\n');
    append_chars(&mut r, &t);
    r.push('\n');
    assert(r@ =~= seq!['\n'] + trim(empty_indent@) + seq!['\n']);
    r
}

/// Fill any number of paragraphs of plain text.
///
/// When wrapping, the width must leave room for the subsequent indent.
pub fn fill_text(
    text: &str,
    text_wrap: Wrap,
    width: usize,
    extra_indent: &str,
    empty_indent: &str,
    initial_column: usize,
    word_splitter: Option<WordSplitter>,
) -> (r: String)
    requires
        wraps(text_wrap) ==> width >= extra_indent@.len() + subsequent_indent_of(text_wrap).len(),
    ensures
        r@ == filled_text(
            text@,
            text_wrap,
            width as int,
            extra_indent@,
            empty_indent@,
            initial_column as int,
            word_splitter,
        ),
{
    let ghost target = filled_text(
        text@,
        text_wrap,
        width as int,
        extra_indent@,
        empty_indent@,
        initial_column as int,
        word_splitter,
    );
    if !text_wrap.should_wrap() {
        let mut indent = chars_of(extra_indent);
        if text_wrap == Wrap::IndentOnly {
            proof {
                reveal_strlit("    ");
            }
            append_str(&mut indent, DEFAULT_INDENT);
        }
        assert(indent@ == if text_wrap is IndentOnly {
            extra_indent@ + default_indent()
        } else {
            extra_indent@
        });
        let v = chars_of(text);
        let lines = text_lines_chars(&v);
        if lines.len() > 0 {
            let ghost ls = text_lines(v@);
            let ghost f = |l: Seq<char>| indent@ + l;
            let mut out: Vec<Vec<char>> = Vec::new();
            let mut i: usize = 0;
            while i < lines.len()
                invariant
                    i <= lines.len(),
                    buf_views(lines@) == ls,
                    f == (|l: Seq<char>| indent@ + l),
                    buf_views(out@) == ls.map_values(f).take(i as int),
                decreases lines.len() - i,
            {
                let mut l: Vec<char> = Vec::new();
                append_chars(&mut l, &indent);
                append_chars(&mut l, &lines[i]);
                push_buf(&mut out, l);
                assert(buf_views(out@) =~= ls.map_values(f).take(i + 1));
                i += 1;
            }
            assert(ls.map_values(f).take(lines.len() as int) =~= ls.map_values(f));
            let mut nl: Vec<char> = Vec::new();
            nl.push('\n');
            assert(nl@ =~= seq!['\n']);
            let j = join_bufs(&out, &nl);
            assert(buf_views(out@) == text_lines(text@).map_values(
                |l: Seq<char>| (if text_wrap is IndentOnly {
                    extra_indent@ + default_indent()
                } else {
                    extra_indent@
                }) + l,
            ));
            assert(j@ == target);
            return string_of(&j);
        }
        let e = chars_of(empty_indent);
        let t = trim_chars(&e);
        return string_of(&t);
    }
    let mut ii_buf = chars_of(extra_indent);
    append_str(&mut ii_buf, text_wrap.initial_indent());
    let mut si_buf = chars_of(extra_indent);
    append_str(&mut si_buf, text_wrap.subsequent_indent());
    let ii = string_of(&ii_buf);
    let si = string_of(&si_buf);
    assert(ii@ == extra_indent@ + initial_indent_of(text_wrap));
    assert(si@ == extra_indent@ + subsequent_indent_of(text_wrap));
    let w = width - si_buf.len();
    let replace = text_wrap.replace_whitespace();
    let first_only = text_wrap.initial_indent_first_para_only();
    let paras = paragraphs_chars(text);
    let ghost ps = paragraphs_of(text@);
    let ghost wrapped_all = Seq::new(
        ps.len(),
        |i: int|
            wrapped_paragraph(
                ps[i],
                w as int,
                if first_para_only(text_wrap) && i > 0 {
                    si@
                } else {
                    ii@
                },
                si@,
                initial_column as int,
                replaces_whitespace(text_wrap),
                true,
                word_splitter,
                false,
            ),
    );
    let mut out: Vec<Vec<char>> = Vec::new();
    let mut i: usize = 0;
    while i < paras.len()
        invariant
            i <= paras.len(),
            buf_views(paras@) == ps,
            first_only == first_para_only(text_wrap),
            replace == replaces_whitespace(text_wrap),
            wrapped_all == Seq::new(
                ps.len(),
                |i: int|
                    wrapped_paragraph(
                        ps[i],
                        w as int,
                        if first_para_only(text_wrap) && i > 0 {
                            si@
                        } else {
                            ii@
                        },
                        si@,
                        initial_column as int,
                        replaces_whitespace(text_wrap),
                        true,
                        word_splitter,
                        false,
                    ),
            ),
            buf_views(out@) == wrapped_all.take(i as int),
        decreases paras.len() - i,
    {
        let p = string_of(&paras[i]);
        let cur_initial = if first_only && i > 0 {
            si.as_str()
        } else {
            ii.as_str()
        };
        let wp = wrap_paragraph(
            p.as_str(),
            w,
            cur_initial,
            si.as_str(),
            initial_column,
            replace,
            true,
            word_splitter,
            false,
        );
        let wv = chars_of(wp.as_str());
        push_buf(&mut out, wv);
        assert(buf_views(out@) =~= wrapped_all.take(i + 1));
        i += 1;
    }
    assert(wrapped_all.take(paras.len() as int) =~= wrapped_all);
    let sep = paragraph_sep(empty_indent);
    let j = join_bufs(&out, &sep);
    let r = string_of(&j);
    proof {
        let si_v = extra_indent@ + subsequent_indent_of(text_wrap);
        let ii_v = extra_indent@ + initial_indent_of(text_wrap);
        assert(w as int == width as int - si_v.len());
        let expected = Seq::new(
            ps.len(),
            |i: int|
                wrapped_paragraph(
                    ps[i],
                    width as int - si_v.len(),
                    if first_para_only(text_wrap) && i > 0 {
                        si_v
                    } else {
                        ii_v
                    },
                    si_v,
                    initial_column as int,
                    replaces_whitespace(text_wrap),
                    true,
                    word_splitter,
                    false,
                ),
        );
        assert(wrapped_all =~= expected);
    }
    assert(r@ == target);
    r
}

/// `fill_text` with the defaults: plain wrapping at the default width, no
/// indents, starting at column 0, with the HTML/Markdown-aware splitter.
pub fn fill_text_default(text: &str) -> (r: String)
    ensures
        r@ == filled_text(
            text@,
            Wrap::Wrap,
            DEFAULT_WRAP_WIDTH as int,
            Seq::empty(),
            Seq::empty(),
            0,
            None,
        ),
{
    proof {
        reveal_strlit("");
    }
    fill_text(text, Wrap::Wrap, DEFAULT_WRAP_WIDTH, "", "", 0, None)
}

} // verus!
