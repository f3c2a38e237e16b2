//! Word splitting and greedy paragraph wrapping.

use vstd::prelude::*;
use crate::regex_scan::{
    gap, group_or_empty, group_text, group_views, regex_scan_of, scan, well_formed_scan, whole,
};
use crate::text::{
    append_chars, buf_views, chars_of, collapse_whitespace, collapse_ws, is_ws, join, join_bufs,
    proper_words, push_buf, split_whitespace_chars, split_ws, string_of, strings_of, trim, trim_chars,
    views, ws_finish, ws_finish_buf, ws_scan_buf, ws_scan_from,
};
use crate::wrapping::tag_handling::{
    denormalize_adjacent_tags_chars, normalize_adjacent_tags_chars, rewrite_adjacent,
};

verus! {

/// Constructs that are never broken across lines: code spans and fences,
/// Markdown links, paired and single template tags, HTML comments and tags.
pub const ATOMIC_CONSTRUCT_PATTERN: &'static str = r"(?s)````[\s\S]*?````|```[\s\S]*?```|``[^`]+``|`[^`]+`|\[[^\]]*\](?:\([^)]*\)|\[[^\]]*\])?|\{%\s+[a-zA-Z][^%]*%\}\s*\{%\s*/[^%]*%\}|\{#\s*[a-zA-Z][^#]*#\}\s*\{#\s*/[^#]*#\}|\{\{\s*[a-zA-Z][^}]*\}\}\s*\{\{\s*/[^}]*\}\}|<!--\s*[a-zA-Z:][^-]*(?:-[^-]+)*-->\s*<!--\s*/[^-]*(?:-[^-]+)*-->|\{%.*?%\}|\{#.*?#\}|\{\{.*?\}\}|<!--.*?-->|<[a-zA-Z][^>]*>|</[a-zA-Z][^>]*>";

/// How a paragraph is split into words.
#[derive(Clone, Copy, PartialEq, Eq, Debug)]
pub enum WordSplitter {
    /// Split on white space only.
    Simple,
    /// Keep tags, code spans, links and comments together as single words.
    HtmlMarkdown,
}

// ---------------------------------------------------------------------------
// Escaping words at the start of a wrapped Markdown line
// ---------------------------------------------------------------------------

pub open spec fn is_digit(c: char) -> bool {
    '0' <= c && c <= '9'
}

/// `^[0-9]+[.)]$`: a word that would read as an ordered list marker.
pub open spec fn is_numeral_marker(w: Seq<char>) -> bool {
    &&& w.len() >= 2
    &&& (w.last() == '.' || w.last() == ')')
    &&& forall|i: int| 0 <= i < w.len() - 1 ==> is_digit(#[trigger] w[i])
}

/// `^([-*+>]|#+)$`: a word that would read as a bullet, quote or heading marker.
pub open spec fn is_special_marker(w: Seq<char>) -> bool {
    ||| (w.len() == 1 && (w[0] == '-' || w[0] == '*' || w[0] == '+' || w[0] == '>'))
    ||| (w.len() >= 1 && forall|i: int| 0 <= i < w.len() ==> #[trigger] w[i] == '#')
}

/// The word with a backslash inserted so it is not read as Markdown syntax.
pub open spec fn escape_word(w: Seq<char>) -> Seq<char> {
    if is_numeral_marker(w) {
        w.drop_last() + seq!['\\', w.last()]
    } else if is_special_marker(w) {
        seq!['\\'] + w
    } else {
        w
    }
}

fn numeral_marker_chars(w: &Vec<char>) -> (b: bool)
    ensures
        b == is_numeral_marker(w@),
{
    if w.len() < 2 || !(w[w.len() - 1] == '.' || w[w.len() - 1] == ')') {
        return false;
    }
    let mut i: usize = 0;
    while i < w.len() - 1
        invariant
            w.len() >= 2,
            i <= w.len() - 1,
            forall|j: int| 0 <= j < i ==> is_digit(#[trigger] w@[j]),
        decreases w.len() - 1 - i,
    {
        if !('0' <= w[i] && w[i] <= '9') {
            assert(!is_digit(w@[i as int]));
            return false;
        }
        i += 1;
    }
    true
}

fn special_marker_chars(w: &Vec<char>) -> (b: bool)
    ensures
        b == is_special_marker(w@),
{
    if w.len() == 1 && (w[0] == '-' || w[0] == '*' || w[0] == '+' || w[0] == '>') {
        return true;
    }
    if w.len() == 0 {
        return false;
    }
    let mut i: usize = 0;
    while i < w.len()
        invariant
            w.len() >= 1,
            i <= w.len(),
            forall|j: int| 0 <= j < i ==> w@[j] == '#',
            !(w@.len() == 1 && (w@[0] == '-' || w@[0] == '*' || w@[0] == '+' || w@[0] == '>')),
        decreases w.len() - i,
    {
        if w[i] != '#' {
            return false;
        }
        i += 1;
    }
    true
}

pub fn escape_word_chars(w: &Vec<char>) -> (r: Vec<char>)
    ensures
        r@ == escape_word(w@),
{
    if numeral_marker_chars(w) {
        let mut r: Vec<char> = Vec::new();
        let mut i: usize = 0;
        while i < w.len() - 1
            invariant
                w.len() >= 2,
                i <= w.len() - 1,
                r@ == w@.take(i as int),
            decreases w.len() - 1 - i,
        {
            r.push(w[i]);
            i += 1;
            assert(r@ =~= w@.take(i as int));
        }
        r.push('\\');
        r.push(w[w.len() - 1]);
        assert(r@ =~= escape_word(w@));
        r
    } else if special_marker_chars(w) {
        let mut r: Vec<char> = Vec::new();
        r.push('\\');
        append_chars(&mut r, w);
        assert(r@ =~= escape_word(w@));
        r
    } else {
        let mut r: Vec<char> = Vec::new();
        append_chars(&mut r, w);
        assert(r@ =~= w@);
        r
    }
}

/// Prepends a backslash to a word if it matches markdown patterns
/// that need escaping at the start of a wrapped line.
pub fn markdown_escape_word(word: &str) -> (r: String)
    ensures
        r@ == escape_word(word@),
{
    let w = chars_of(word);
    let r = escape_word_chars(&w);
    string_of(&r)
}

/// Escaping inserts exactly one backslash, and removing it gives the word back.
pub proof fn lemma_escape_word_inverse(w: Seq<char>)
    ensures
        escape_word(w) == w || escape_word(w).len() == w.len() + 1,
        is_numeral_marker(w) ==> escape_word(w).remove(w.len() - 1) == w,
        !is_numeral_marker(w) && is_special_marker(w) ==> escape_word(w).drop_first() == w,
{
    if is_numeral_marker(w) {
        assert(escape_word(w).remove(w.len() - 1) =~= w);
    } else if is_special_marker(w) {
        assert(escape_word(w).drop_first() =~= w);
    }
}

// ---------------------------------------------------------------------------
// Word splitting
// ---------------------------------------------------------------------------

/// Simple word splitter that splits on whitespace.
pub fn simple_word_split(text: &str) -> (r: Vec<String>)
    ensures
        views(r@) == split_ws(text@),
{
    let v = chars_of(text);
    let w = split_whitespace_chars(&v);
    strings_of(&w)
}

/// The word scan over the pieces of an atomic-construct search, up to (not
/// including) gap `k`: gaps are scanned character by character, and each
/// construct is glued to the word being read, white space inside it included.
pub open spec fn atomic_scan_upto(
    gaps: Seq<Seq<char>>,
    groups: Seq<Seq<Option<Seq<char>>>>,
    k: int,
) -> (Seq<Seq<char>>, Seq<char>)
    decreases k,
{
    if k <= 0 {
        (Seq::empty(), Seq::empty())
    } else {
        let st = ws_scan_from(atomic_scan_upto(gaps, groups, k - 1), gaps[k - 1]);
        (st.0, st.1 + whole(groups[k - 1]))
    }
}

/// Words of a text where every atomic construct counts as part of a word.
pub open spec fn atomic_words(gaps: Seq<Seq<char>>, groups: Seq<Seq<Option<Seq<char>>>>) -> Seq<
    Seq<char>,
> {
    ws_finish(ws_scan_from(atomic_scan_upto(gaps, groups, groups.len() as int), gaps.last()))
}

/// The words of the HTML/Markdown-aware splitter: adjacent tags are first
/// separated by a space, then the text is split on white space except inside
/// the constructs that `ATOMIC_CONSTRUCT_PATTERN` finds. (If the pattern did
/// not compile, the text would be split on white space only.)
pub open spec fn html_md_words(text: Seq<char>) -> Seq<Seq<char>> {
    let norm = rewrite_adjacent(text, false);
    match regex_scan_of(ATOMIC_CONSTRUCT_PATTERN@, norm) {
        Some(sc) => atomic_words(sc.0, sc.1),
        None => split_ws(norm),
    }
}

fn html_md_words_chars(text: &Vec<char>) -> (r: Vec<Vec<char>>)
    ensures
        buf_views(r@) == html_md_words(text@),
{
    let norm = normalize_adjacent_tags_chars(text);
    let norm_s = string_of(&norm);
    match scan(ATOMIC_CONSTRUCT_PATTERN, norm_s.as_str()) {
        None => split_whitespace_chars(&norm),
        Some(sc) => {
            let ghost gs = views(sc.gaps@);
            let ghost ms = group_views(sc.groups@);
            let mut words: Vec<Vec<char>> = Vec::new();
            let mut cur: Vec<char> = Vec::new();
            let mut k: usize = 0;
            assert(buf_views(words@) =~= Seq::<Seq<char>>::empty());
            while k < sc.groups.len()
                invariant
                    k <= sc.groups.len(),
                    gs == views(sc.gaps@),
                    ms == group_views(sc.groups@),
                    well_formed_scan(gs, ms),
                    (buf_views(words@), cur@) == atomic_scan_upto(gs, ms, k as int),
                decreases sc.groups.len() - k,
            {
                let g = gap(&sc, k);
                ws_scan_buf(&mut words, &mut cur, &g);
                let m = group_or_empty(&sc, k, 0);
                assert(ms[k as int].len() >= 1 && ms[k as int][0] is Some);
                assert(m@ == whole(ms[k as int]));
                append_chars(&mut cur, &m);
                k += 1;
            }
            let g = gap(&sc, k);
            assert(gs.last() == gs[k as int]);
            ws_scan_buf(&mut words, &mut cur, &g);
            ws_finish_buf(&mut words, cur);
            words
        },
    }
}

/// Word splitter for Markdown/HTML that keeps certain constructs together.
pub fn html_md_word_split(text: &str) -> (r: Vec<String>)
    ensures
        views(r@) == html_md_words(text@),
{
    let v = chars_of(text);
    let w = html_md_words_chars(&v);
    strings_of(&w)
}

/// Word splitter that splits on white space (same as `simple_word_split`).
pub fn simple_word_splitter(text: &str) -> (r: Vec<String>)
    ensures
        views(r@) == split_ws(text@),
{
    simple_word_split(text)
}

/// Word splitter that keeps tags, code spans, links and comments together
/// (same as `html_md_word_split`).
pub fn html_md_word_splitter(text: &str) -> (r: Vec<String>)
    ensures
        views(r@) == html_md_words(text@),
{
    html_md_word_split(text)
}

/// The default word splitter: the HTML/Markdown-aware one.
pub fn get_html_md_word_splitter() -> (r: WordSplitter)
    ensures
        r == WordSplitter::HtmlMarkdown,
{
    WordSplitter::HtmlMarkdown
}

/// Default length function: the number of characters.
pub fn default_len(s: &str) -> (n: usize)
    ensures
        n == s@.len(),
{
    chars_of(s).len()
}

/// The words a splitter produces (the HTML/Markdown-aware one by default).
pub open spec fn split_words(splitter: Option<WordSplitter>, text: Seq<char>) -> Seq<Seq<char>> {
    match splitter {
        Some(WordSplitter::Simple) => split_ws(text),
        _ => html_md_words(text),
    }
}

pub fn split_words_chars(splitter: Option<WordSplitter>, text: &Vec<char>) -> (r: Vec<Vec<char>>)
    ensures
        buf_views(r@) == split_words(splitter, text@),
{
    match splitter {
        Some(WordSplitter::Simple) => split_whitespace_chars(text),
        _ => html_md_words_chars(text),
    }
}

// ---------------------------------------------------------------------------
// Greedy wrapping
// ---------------------------------------------------------------------------

/// The text of a line made of `words`, trimmed when `drop_ws` is set.
pub open spec fn line_of(words: Seq<Seq<char>>, drop_ws: bool) -> Seq<char> {
    if drop_ws {
        trim(join(words, seq![' ']))
    } else {
        join(words, seq![' '])
    }
}

/// The state of greedy wrapping: finished lines, the words of the current
/// line, the current column and whether the first line is still open.
pub type WrapState = (Seq<Seq<char>>, Seq<Seq<char>>, int, bool);

/// One word of greedy wrapping: it joins the current line when the line, a
/// space and the word fit in `width`; otherwise the current line is finished
/// and the word starts a new line at column `sub` (escaped first when
/// wrapping Markdown past the first line).
pub open spec fn wrap_step(
    st: WrapState,
    w: Seq<char>,
    width: int,
    sub: int,
    drop_ws: bool,
    md: bool,
) -> WrapState {
    let space: int = if st.1.len() == 0 { 0 } else { 1 };
    if st.2 + w.len() + space <= width {
        (st.0, st.1.push(w), st.2 + w.len() + space, st.3)
    } else {
        let lines = if st.1.len() > 0 {
            st.0.push(line_of(st.1, drop_ws))
        } else {
            st.0
        };
        let first = if st.1.len() > 0 {
            false
        } else {
            st.3
        };
        let e = if md && !first {
            escape_word(w)
        } else {
            w
        };
        (lines, seq![e], sub + e.len(), first)
    }
}

pub open spec fn wrap_scan(
    words: Seq<Seq<char>>,
    width: int,
    init: int,
    sub: int,
    drop_ws: bool,
    md: bool,
) -> WrapState
    decreases words.len(),
{
    if words.len() == 0 {
        (Seq::empty(), Seq::empty(), init, true)
    } else {
        wrap_step(wrap_scan(words.drop_last(), width, init, sub, drop_ws, md), words.last(), width, sub, drop_ws, md)
    }
}

/// The lines of greedy wrapping of `words`.
pub open spec fn wrap_words(
    words: Seq<Seq<char>>,
    width: int,
    init: int,
    sub: int,
    drop_ws: bool,
    md: bool,
) -> Seq<Seq<char>> {
    let st = wrap_scan(words, width, init, sub, drop_ws, md);
    if st.1.len() > 0 {
        st.0.push(line_of(st.1, drop_ws))
    } else {
        st.0
    }
}

/// The lines `wrap_paragraph_lines` returns.
pub open spec fn wrapped_lines(
    text: Seq<char>,
    width: int,
    init: int,
    sub: int,
    replace_ws: bool,
    drop_ws: bool,
    splitter: Option<WordSplitter>,
    md: bool,
) -> Seq<Seq<char>> {
    let t = if replace_ws {
        collapse_ws(text)
    } else {
        text
    };
    if width == 0 {
        let t2 = if drop_ws {
            trim(t)
        } else {
            t
        };
        if t2.len() == 0 {
            Seq::empty()
        } else {
            seq![t2]
        }
    } else {
        wrap_words(split_words(splitter, t), width, init, sub, drop_ws, md)
    }
}

fn line_of_chars(words: &Vec<Vec<char>>, drop_ws: bool) -> (r: Vec<char>)
    ensures
        r@ == line_of(buf_views(words@), drop_ws),
{
    let mut sp: Vec<char> = Vec::new();
    sp.push(' ');
    assert(sp@ =~= seq![' ']);
    let j = join_bufs(words, &sp);
    if drop_ws {
        trim_chars(&j)
    } else {
        j
    }
}

fn copy_chars(v: &Vec<char>) -> (r: Vec<char>)
    ensures
        r@ == v@,
{
    let mut r: Vec<char> = Vec::new();
    append_chars(&mut r, v);
    assert(r@ =~= v@);
    r
}

/// Greedy wrapping of a list of words.
pub fn wrap_words_chars(
    words: &Vec<Vec<char>>,
    width: usize,
    initial_column: u128,
    subsequent_offset: usize,
    drop_whitespace: bool,
    is_markdown: bool,
) -> (r: Vec<Vec<char>>)
    requires
        initial_column <= 2 * (usize::MAX as u128),
    ensures
        buf_views(r@) == wrap_words(
            buf_views(words@),
            width as int,
            initial_column as int,
            subsequent_offset as int,
            drop_whitespace,
            is_markdown,
        ),
{
    let ghost ws = buf_views(words@);
    let mut lines: Vec<Vec<char>> = Vec::new();
    let mut cur: Vec<Vec<char>> = Vec::new();
    let mut cur_width: u128 = initial_column;
    let mut first = true;
    let mut i: usize = 0;
    assert(buf_views(lines@) =~= Seq::<Seq<char>>::empty());
    assert(buf_views(cur@) =~= Seq::<Seq<char>>::empty());
    while i < words.len()
        invariant
            i <= words.len(),
            ws == buf_views(words@),
            (buf_views(lines@), buf_views(cur@), cur_width as int, first) == wrap_scan(
                ws.take(i as int),
                width as int,
                initial_column as int,
                subsequent_offset as int,
                drop_whitespace,
                is_markdown,
            ),
            cur_width <= 2 * (usize::MAX as u128),
        decreases words.len() - i,
    {
        proof {
            assert(ws.take(i + 1).drop_last() =~= ws.take(i as int));
            assert(ws.take(i + 1).last() == words@[i as int]@);
        }
        let ww = words[i].len() as u128;
        let space: u128 = if cur.len() == 0 { 0 } else { 1 };
        if cur_width + ww + space <= width as u128 {
            let w = copy_chars(&words[i]);
            push_buf(&mut cur, w);
            cur_width = cur_width + ww + space;
        } else {
            if cur.len() > 0 {
                let l = line_of_chars(&cur, drop_whitespace);
                push_buf(&mut lines, l);
                first = false;
            }
            let e = if is_markdown && !first {
                escape_word_chars(&words[i])
            } else {
                copy_chars(&words[i])
            };
            cur_width = subsequent_offset as u128 + e.len() as u128;
            cur = Vec::new();
            push_buf(&mut cur, e);
        }
        assert(buf_views(lines@) =~= wrap_scan(
            ws.take(i + 1),
            width as int,
            initial_column as int,
            subsequent_offset as int,
            drop_whitespace,
            is_markdown,
        ).0);
        assert(buf_views(cur@) =~= wrap_scan(
            ws.take(i + 1),
            width as int,
            initial_column as int,
            subsequent_offset as int,
            drop_whitespace,
            is_markdown,
        ).1);
        i += 1;
    }
    assert(ws.take(words.len() as int) =~= ws);
    if cur.len() > 0 {
        let l = line_of_chars(&cur, drop_whitespace);
        push_buf(&mut lines, l);
    }
    lines
}

pub fn wrap_paragraph_lines_chars(
    text: &Vec<char>,
    width: usize,
    initial_column: u128,
    subsequent_offset: usize,
    replace_whitespace: bool,
    drop_whitespace: bool,
    splitter: Option<WordSplitter>,
    is_markdown: bool,
) -> (r: Vec<Vec<char>>)
    requires
        initial_column <= 2 * (usize::MAX as u128),
    ensures
        buf_views(r@) == wrapped_lines(
            text@,
            width as int,
            initial_column as int,
            subsequent_offset as int,
            replace_whitespace,
            drop_whitespace,
            splitter,
            is_markdown,
        ),
{
    let t = if replace_whitespace {
        collapse_whitespace(text)
    } else {
        copy_chars(text)
    };
    if width == 0 {
        let t2 = if drop_whitespace {
            trim_chars(&t)
        } else {
            t
        };
        let mut r: Vec<Vec<char>> = Vec::new();
        if t2.len() > 0 {
            r.push(t2);
        }
        assert(buf_views(r@) =~= wrapped_lines(
            text@,
            width as int,
            initial_column as int,
            subsequent_offset as int,
            replace_whitespace,
            drop_whitespace,
            splitter,
            is_markdown,
        ));
        return r;
    }
    let words = split_words_chars(splitter, &t);
    wrap_words_chars(
        &words,
        width,
        initial_column,
        subsequent_offset,
        drop_whitespace,
        is_markdown,
    )
}

/// Wrap a single paragraph of text, returning a list of wrapped lines.
///
/// A width of 0 means no wrapping. With `is_markdown`, a word that starts a
/// wrapped line (after the first) is escaped when it would read as a Markdown
/// list, quote or heading marker. Without a splitter the HTML/Markdown-aware
/// one is used.
pub fn wrap_paragraph_lines(
    text: &str,
    width: usize,
    initial_column: usize,
    subsequent_offset: usize,
    replace_whitespace: bool,
    drop_whitespace: bool,
    splitter: Option<WordSplitter>,
    is_markdown: bool,
) -> (r: Vec<String>)
    ensures
        views(r@) == wrapped_lines(
            text@,
            width as int,
            initial_column as int,
            subsequent_offset as int,
            replace_whitespace,
            drop_whitespace,
            splitter,
            is_markdown,
        ),
{
    let v = chars_of(text);
    let lines = wrap_paragraph_lines_chars(
        &v,
        width,
        initial_column as u128,
        subsequent_offset,
        replace_whitespace,
        drop_whitespace,
        splitter,
        is_markdown,
    );
    strings_of(&lines)
}

/// Lines with the initial indent on the first line (when `first` is set) and
/// the subsequent indent on every later line.
pub open spec fn indent_lines(lines: Seq<Seq<char>>, initial: Seq<char>, subsequent: Seq<char>, first: bool) -> Seq<Seq<char>> {
    Seq::new(
        lines.len(),
        |i: int|
            if i == 0 {
                if first {
                    initial + lines[0]
                } else {
                    lines[0]
                }
            } else {
                subsequent + lines[i]
            },
    )
}

/// The text `wrap_paragraph` returns.
pub open spec fn wrapped_paragraph(
    text: Seq<char>,
    width: int,
    initial_indent: Seq<char>,
    subsequent_indent: Seq<char>,
    initial_column: int,
    replace_ws: bool,
    drop_ws: bool,
    splitter: Option<WordSplitter>,
    md: bool,
) -> Seq<char> {
    let lines = wrapped_lines(
        text,
        width,
        initial_column + initial_indent.len(),
        subsequent_indent.len() as int,
        replace_ws,
        drop_ws,
        splitter,
        md,
    );
    rewrite_adjacent(
        join(indent_lines(lines, initial_indent, subsequent_indent, initial_column == 0), seq!['\n']),
        true,
    )
}

pub fn indent_lines_chars(lines: &Vec<Vec<char>>, initial: &Vec<char>, subsequent: &Vec<char>, first: bool) -> (r: Vec<Vec<char>>)
    ensures
        buf_views(r@) == indent_lines(buf_views(lines@), initial@, subsequent@, first),
{
    let ghost target = indent_lines(buf_views(lines@), initial@, subsequent@, first);
    let mut r: Vec<Vec<char>> = Vec::new();
    let mut i: usize = 0;
    while i < lines.len()
        invariant
            i <= lines.len(),
            target == indent_lines(buf_views(lines@), initial@, subsequent@, first),
            buf_views(r@) == target.take(i as int),
        decreases lines.len() - i,
    {
        let mut l: Vec<char> = Vec::new();
        if i == 0 {
            if first {
                append_chars(&mut l, initial);
            }
        } else {
            append_chars(&mut l, subsequent);
        }
        append_chars(&mut l, &lines[i]);
        assert(l@ =~= target[i as int]);
        push_buf(&mut r, l);
        assert(buf_views(r@) =~= target.take(i + 1));
        i += 1;
    }
    assert(target.take(lines.len() as int) =~= target);
    r
}

/// Wrap lines of a single paragraph of plain text, returning a new string.
///
/// Every line but the first gets `subsequent_indent`; the first gets
/// `initial_indent` when `initial_column` is 0. Adjacent tags that the word
/// splitter separated are joined again.
pub fn wrap_paragraph(
    text: &str,
    width: usize,
    initial_indent: &str,
    subsequent_indent: &str,
    initial_column: usize,
    replace_whitespace: bool,
    drop_whitespace: bool,
    splitter: Option<WordSplitter>,
    is_markdown: bool,
) -> (r: String)
    ensures
        r@ == wrapped_paragraph(
            text@,
            width as int,
            initial_indent@,
            subsequent_indent@,
            initial_column as int,
            replace_whitespace,
            drop_whitespace,
            splitter,
            is_markdown,
        ),
{
    let ii = chars_of(initial_indent);
    let si = chars_of(subsequent_indent);
    let v = chars_of(text);
    let lines = wrap_paragraph_lines_chars(
        &v,
        width,
        initial_column as u128 + ii.len() as u128,
        si.len(),
        replace_whitespace,
        drop_whitespace,
        splitter,
        is_markdown,
    );
    let indented = indent_lines_chars(&lines, &ii, &si, initial_column == 0);
    let mut nl: Vec<char> = Vec::new();
    nl.push('\n');
    assert(nl@ =~= seq!['\n']);
    let joined = join_bufs(&indented, &nl);
    let r = denormalize_adjacent_tags_chars(&joined);
    string_of(&r)
}

} // verus!

verus! {

/// Escaping keeps a proper word proper (non-empty, no white space).
pub proof fn lemma_escape_proper(w: Seq<char>)
    requires
        w.len() > 0,
        crate::text::no_ws(w),
    ensures
        escape_word(w).len() > 0,
        crate::text::no_ws(escape_word(w)),
{
    let e = escape_word(w);
    assert forall|i: int| 0 <= i < e.len() implies !is_ws(#[trigger] e[i]) by {
        if is_numeral_marker(w) {
            if i < w.len() - 1 {
                assert(e[i] == w[i]);
            } else if i == w.len() {
                assert(e[i] == w.last());
            }
        } else if is_special_marker(w) {
            if i > 0 {
                assert(e[i] == w[i - 1]);
            }
        }
    }
}

/// The text of a line of proper words is their join: trimming changes nothing.
pub proof fn lemma_line_of_proper(cur: Seq<Seq<char>>, drop_ws: bool)
    requires
        cur.len() > 0,
        proper_words(cur),
    ensures
        line_of(cur, drop_ws) == join(cur, seq![' ']),
        cur.len() == 1 ==> !join(cur, seq![' ']).contains(' '),
        cur.len() >= 2 ==> join(cur, seq![' ']).contains(' '),
{
    crate::text::lemma_join_ends(cur, seq![' ']);
    crate::text::lemma_trim_noop(join(cur, seq![' ']));
    if cur.len() == 1 {
        if cur[0].contains(' ') {
            let k = choose|k: int| 0 <= k < cur[0].len() && cur[0][k] == ' ';
            assert(!is_ws(cur[0][k]));
        }
    }
    if cur.len() >= 2 {
        let j = join(cur.drop_last(), seq![' ']);
        assert(join(cur, seq![' ']) == j + seq![' '] + cur.last());
        assert((j + seq![' '] + cur.last())[j.len() as int] == ' ');
    }
}

/// All lines finished so far, with the current line appended when non-empty.
pub open spec fn all_lines(st: WrapState, drop_ws: bool) -> Seq<Seq<char>> {
    if st.1.len() > 0 {
        st.0.push(line_of(st.1, drop_ws))
    } else {
        st.0
    }
}

pub open spec fn min_int(a: int, b: int) -> int {
    if a <= b {
        a
    } else {
        b
    }
}

/// The invariants of greedy wrapping over proper words.
pub open spec fn wrap_invariant(
    words: Seq<Seq<char>>,
    st: WrapState,
    width: int,
    init: int,
    sub: int,
    drop_ws: bool,
    md: bool,
) -> bool {
    &&& proper_words(st.1)
    &&& (words.len() > 0 ==> st.1.len() > 0)
    &&& (words.len() == 0 ==> st.0.len() == 0 && st.1.len() == 0 && st.2 == init)
    &&& (st.1.len() > 0 ==> (st.2 == init + join(st.1, seq![' ']).len() || st.2 == sub + join(
        st.1,
        seq![' '],
    ).len()))
    &&& (st.1.len() >= 2 ==> st.2 <= width)
    &&& forall|i: int|
        0 <= i < st.0.len() ==> ((#[trigger] st.0[i]).contains(' ') ==> st.0[i].len() + min_int(
            init,
            sub,
        ) <= width)
    &&& (!md ==> join(all_lines(st, drop_ws), seq![' ']) == join(words, seq![' ']))
}

proof fn lemma_wrap_scan(
    words: Seq<Seq<char>>,
    width: int,
    init: int,
    sub: int,
    drop_ws: bool,
    md: bool,
)
    requires
        proper_words(words),
    ensures
        wrap_invariant(words, wrap_scan(words, width, init, sub, drop_ws, md), width, init, sub, drop_ws, md),
    decreases words.len(),
{
    if words.len() > 0 {
        let prev_words = words.drop_last();
        assert(proper_words(prev_words)) by {
            assert forall|i: int| 0 <= i < prev_words.len() implies (#[trigger] prev_words[i]).len() > 0
                && crate::text::no_ws(prev_words[i]) by {
                assert(prev_words[i] == words[i]);
            }
        }
        lemma_wrap_scan(prev_words, width, init, sub, drop_ws, md);
        let st = wrap_scan(prev_words, width, init, sub, drop_ws, md);
        let w = words.last();
        assert(w == words[words.len() - 1]);
        assert(w.len() > 0 && crate::text::no_ws(w));
        let nst = wrap_scan(words, width, init, sub, drop_ws, md);
        assert(nst == wrap_step(st, w, width, sub, drop_ws, md));
        let space: int = if st.1.len() == 0 { 0 } else { 1 };
        let sp = seq![' '];
        if st.2 + w.len() + space <= width {
            // w joins the current line
            let cur = st.1.push(w);
            assert(proper_words(cur)) by {
                assert forall|i: int| 0 <= i < cur.len() implies (#[trigger] cur[i]).len() > 0
                    && crate::text::no_ws(cur[i]) by {
                    if i < st.1.len() {
                        assert(cur[i] == st.1[i]);
                    }
                }
            }
            crate::text::lemma_join_push(st.1, sp, w);
            assert(cur.drop_last() =~= st.1);
            lemma_line_of_proper(cur, drop_ws);
            if st.1.len() > 0 {
                lemma_line_of_proper(st.1, drop_ws);
            }
            if !md {
                crate::text::lemma_join_push(prev_words, sp, w);
                assert(words =~= prev_words.push(w));
                if st.1.len() == 0 {
                    assert(prev_words.len() == 0);
                    assert(all_lines(nst, drop_ws) =~= seq![w]);
                } else {
                    assert(all_lines(st, drop_ws) == st.0.push(join(st.1, sp)));
                    assert(all_lines(nst, drop_ws) == st.0.push(join(st.1, sp) + sp + w));
                    crate::text::lemma_join_push(st.0, sp, join(st.1, sp));
                    crate::text::lemma_join_push(st.0, sp, join(st.1, sp) + sp + w);
                    assert(join(all_lines(nst, drop_ws), sp) =~= join(all_lines(st, drop_ws), sp) + sp + w);
                }
            }
        } else {
            let first = if st.1.len() > 0 { false } else { st.3 };
            let e = if md && !first { escape_word(w) } else { w };
            lemma_escape_proper(w);
            assert(e.len() > 0 && crate::text::no_ws(e));
            assert(proper_words(seq![e])) by {
                assert forall|i: int| 0 <= i < seq![e].len() implies (#[trigger] seq![e][i]).len() > 0
                    && crate::text::no_ws(seq![e][i]) by {
                    assert(seq![e][i] == e);
                }
            }
            assert(join(seq![e], sp) == e);
            lemma_line_of_proper(seq![e], drop_ws);
            if st.1.len() > 0 {
                lemma_line_of_proper(st.1, drop_ws);
                let l = line_of(st.1, drop_ws);
                assert(nst.0 == st.0.push(l));
                assert forall|i: int| 0 <= i < nst.0.len() implies ((#[trigger] nst.0[i]).contains(' ')
                    ==> nst.0[i].len() + min_int(init, sub) <= width) by {
                    if i < st.0.len() {
                        assert(nst.0[i] == st.0[i]);
                    } else {
                        assert(nst.0[i] == l);
                    }
                }
                if !md {
                    crate::text::lemma_join_push(prev_words, sp, w);
                    assert(words =~= prev_words.push(w));
                    assert(all_lines(nst, drop_ws) == st.0.push(l).push(w));
                    crate::text::lemma_join_push(st.0.push(l), sp, w);
                    crate::text::lemma_join_push(st.0, sp, l);
                    assert(join(all_lines(nst, drop_ws), sp) =~= join(all_lines(st, drop_ws), sp) + sp + w);
                }
            } else {
                assert(prev_words.len() == 0);
                if !md {
                    assert(words =~= seq![w]);
                    assert(all_lines(nst, drop_ws) =~= seq![w]);
                }
            }
        }
    }
}

/// Greedy wrapping loses no word: without Markdown escaping, the lines joined
/// with single spaces are the words joined with single spaces.
pub proof fn lemma_wrap_words_preserves_words(
    words: Seq<Seq<char>>,
    width: int,
    init: int,
    sub: int,
    drop_ws: bool,
)
    requires
        proper_words(words),
    ensures
        join(wrap_words(words, width, init, sub, drop_ws, false), seq![' ']) == join(words, seq![' ']),
{
    lemma_wrap_scan(words, width, init, sub, drop_ws, false);
}

/// Greedy wrapping respects the width: every line that holds more than one
/// word (that is, contains a space) fits in `width` counted from the smaller
/// of the two starting columns. A line of a single word may be longer.
pub proof fn lemma_wrap_words_fit(
    words: Seq<Seq<char>>,
    width: int,
    init: int,
    sub: int,
    drop_ws: bool,
    md: bool,
)
    requires
        proper_words(words),
    ensures
        forall|i: int|
            0 <= i < wrap_words(words, width, init, sub, drop_ws, md).len() ==> ((#[trigger] wrap_words(
                words,
                width,
                init,
                sub,
                drop_ws,
                md,
            )[i]).contains(' ') ==> wrap_words(words, width, init, sub, drop_ws, md)[i].len()
                + min_int(init, sub) <= width),
{
    lemma_wrap_scan(words, width, init, sub, drop_ws, md);
    let st = wrap_scan(words, width, init, sub, drop_ws, md);
    let out = wrap_words(words, width, init, sub, drop_ws, md);
    if st.1.len() > 0 {
        lemma_line_of_proper(st.1, drop_ws);
        assert forall|i: int| 0 <= i < out.len() implies ((#[trigger] out[i]).contains(' ') ==> out[i].len()
            + min_int(init, sub) <= width) by {
            if i < st.0.len() {
                assert(out[i] == st.0[i]);
            }
        }
    }
}

/// Wrapping a paragraph with the simple splitter and no escaping keeps its
/// words in order: the lines joined with spaces are the paragraph's words
/// joined with spaces.
pub proof fn lemma_wrapped_lines_preserve_words(
    text: Seq<char>,
    width: int,
    init: int,
    sub: int,
    drop_ws: bool,
)
    requires
        width > 0,
    ensures
        join(wrapped_lines(text, width, init, sub, false, drop_ws, Some(WordSplitter::Simple), false), seq![' '])
            == join(split_ws(text), seq![' ']),
{
    crate::text::lemma_split_ws_proper(text);
    lemma_wrap_words_preserves_words(split_ws(text), width, init, sub, drop_ws);
}

/// Wrapping a paragraph with the simple splitter respects the width for every
/// line of more than one word.
pub proof fn lemma_wrapped_lines_fit(
    text: Seq<char>,
    width: int,
    init: int,
    sub: int,
    replace_ws: bool,
    drop_ws: bool,
    md: bool,
)
    requires
        width > 0,
    ensures
        forall|i: int|
            0 <= i < wrapped_lines(text, width, init, sub, replace_ws, drop_ws, Some(WordSplitter::Simple), md).len()
                ==> ((#[trigger] wrapped_lines(text, width, init, sub, replace_ws, drop_ws, Some(WordSplitter::Simple), md)[i]).contains(' ')
                ==> wrapped_lines(text, width, init, sub, replace_ws, drop_ws, Some(WordSplitter::Simple), md)[i].len()
                + min_int(init, sub) <= width),
{
    let t = if replace_ws { collapse_ws(text) } else { text };
    crate::text::lemma_split_ws_proper(t);
    lemma_wrap_words_fit(split_ws(t), width, init, sub, drop_ws, md);
}

} // verus!
