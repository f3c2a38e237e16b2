//! Line wrappers: wrapping a paragraph to a width, optionally with every
//! sentence on a line of its own, with Markdown hard breaks and lines of
//! template or HTML tags handled.

use vstd::prelude::*;
use crate::regex_scan::{gap, regex_scan_of, scan};
use crate::text::{
    append_chars, buf_views, chars_of, contains_char, join, join_bufs, push_buf, split_char, split_on,
    string_of, trim, trim_chars, views,
};
use crate::wrapping::atomic_sentences::{atomic_sentences, split_sentences_atomic};
use crate::wrapping::block_heuristics::{block_content_chars, is_block_content};
use crate::wrapping::tag_handling::{
    closing_tag_spacing, denormalize_adjacent_tags_chars, ends_with_tag, ends_with_tag_chars,
    fix_closing_tag_spacing, fix_multiline_opening_tag_with_closing, multiline_closing_fix,
    rewrite_adjacent, starts_with_tag, starts_with_tag_chars, unindented_tag, unindented_tag_chars,
    gather,
};
use crate::wrapping::text_filling::DEFAULT_WRAP_WIDTH;
use crate::wrapping::text_wrapping::{
    indent_lines, indent_lines_chars, wrap_paragraph, wrap_paragraph_lines_chars, wrapped_lines,
    wrapped_paragraph,
};

verus! {

/// Default minimum line length for sentence breaking: a shorter line is
/// joined with the next one.
pub const DEFAULT_MIN_LINE_LEN: usize = 20;

/// Markdown hard line break: a backslash or two spaces before a newline.
pub const HARD_BREAK_PATTERN: &'static str = r"\\\n|  \n";

/// How a line wrapper breaks lines.
#[derive(Clone, Copy, PartialEq, Eq, Debug, Structural)]
pub enum LineBreaking {
    /// Greedy wrapping to the width.
    ToWidth,
    /// Wrapping to the width with every sentence starting a new line; a line
    /// shorter than `min_line_len` is continued by the next sentence.
    BySentence { min_line_len: usize },
}

/// A way of wrapping text with an initial indent for the first line and a
/// subsequent indent for the others.
#[derive(Clone, Copy, PartialEq, Eq, Debug, Structural)]
pub struct LineWrapper {
    pub width: usize,
    pub breaking: LineBreaking,
    pub is_markdown: bool,
}

// ---------------------------------------------------------------------------
// Sentence-per-line wrapping
// ---------------------------------------------------------------------------

pub open spec fn newlines_to_spaces(s: Seq<char>) -> Seq<char> {
    s.map_values(|c: char| if c == '\n' { ' ' } else { c })
}

/// One sentence: it is wrapped starting at the indent's column, or after the
/// last line when that line is shorter than `min_line_len`, in which case its
/// first line joins the last one when both fit on a line together.
pub open spec fn sentence_lines_step(
    st: (Seq<Seq<char>>, bool),
    sentence: Seq<char>,
    width: int,
    min_line_len: int,
    md: bool,
    ii_len: int,
    si_len: int,
) -> (Seq<Seq<char>>, bool) {
    let lines = st.0;
    let base = if st.1 {
        ii_len
    } else {
        si_len
    };
    let last_len: int = if lines.len() > 0 {
        lines.last().len() as int
    } else {
        0
    };
    let short = lines.len() > 0 && last_len < min_line_len;
    let col = if short {
        base + last_len
    } else {
        base
    };
    let wrapped = wrapped_lines(sentence, width, col, si_len, true, true, None, md);
    if short && wrapped.len() > 0 && last_len + 1 + wrapped[0].len() <= width {
        (lines.drop_last().push(lines.last() + seq![' '] + wrapped[0]) + wrapped.drop_first(), false)
    } else {
        (lines + wrapped, false)
    }
}

/// How a sentence is added depends only on the last line so far, never on
/// how many lines come before it: lines put in front of the state come out
/// in front of the result, unchanged. (So a short last line is continued by
/// the next sentence wherever it stands, not only when it is the first.)
pub proof fn lemma_sentence_step_local(
    pre: Seq<Seq<char>>,
    lines: Seq<Seq<char>>,
    first: bool,
    sentence: Seq<char>,
    width: int,
    min_line_len: int,
    md: bool,
    ii_len: int,
    si_len: int,
)
    requires
        lines.len() > 0,
    ensures
        sentence_lines_step((pre + lines, first), sentence, width, min_line_len, md, ii_len, si_len).0 == pre
            + sentence_lines_step((lines, first), sentence, width, min_line_len, md, ii_len, si_len).0,
        sentence_lines_step((pre + lines, first), sentence, width, min_line_len, md, ii_len, si_len).1
            == sentence_lines_step((lines, first), sentence, width, min_line_len, md, ii_len, si_len).1,
{
    let all = pre + lines;
    assert(all.last() == lines.last());
    assert(all.drop_last() =~= pre + lines.drop_last());
    let base = if first {
        ii_len
    } else {
        si_len
    };
    let last_len = lines.last().len() as int;
    let col = if last_len < min_line_len {
        base + last_len
    } else {
        base
    };
    let wrapped = wrapped_lines(sentence, width, col, si_len, true, true, None, md);
    if last_len < min_line_len && wrapped.len() > 0 && last_len + 1 + wrapped[0].len() <= width {
        assert(all.drop_last().push(all.last() + seq![' '] + wrapped[0]) + wrapped.drop_first() =~= pre + (
        lines.drop_last().push(lines.last() + seq![' '] + wrapped[0]) + wrapped.drop_first()));
    } else {
        assert(all + wrapped =~= pre + (lines + wrapped));
    }
}

pub open spec fn sentence_lines_scan(
    sentences: Seq<Seq<char>>,
    width: int,
    min_line_len: int,
    md: bool,
    ii_len: int,
    si_len: int,
) -> (Seq<Seq<char>>, bool)
    decreases sentences.len(),
{
    if sentences.len() == 0 {
        (Seq::empty(), true)
    } else {
        sentence_lines_step(
            sentence_lines_scan(sentences.drop_last(), width, min_line_len, md, ii_len, si_len),
            sentences.last(),
            width,
            min_line_len,
            md,
            ii_len,
            si_len,
        )
    }
}

/// Text wrapped with every sentence starting a new line. A width of 0 means
/// no wrapping: the text on one line after the initial indent.
pub open spec fn sentence_wrapped(
    text: Seq<char>,
    width: int,
    min_line_len: int,
    md: bool,
    ii: Seq<char>,
    si: Seq<char>,
) -> Seq<char> {
    let t = newlines_to_spaces(text);
    if width == 0 {
        ii + trim(t)
    } else {
        let lines = sentence_lines_scan(
            atomic_sentences(t, 0),
            width,
            min_line_len,
            md,
            ii.len() as int,
            si.len() as int,
        ).0;
        rewrite_adjacent(join(indent_lines(lines, ii, si, true), seq!['\n']), true)
    }
}

/// What the wrapper does to one piece of text, before tag lines and hard
/// breaks are considered.
pub open spec fn base_wrapped(w: LineWrapper, text: Seq<char>, ii: Seq<char>, si: Seq<char>) -> Seq<char> {
    match w.breaking {
        LineBreaking::ToWidth => wrapped_paragraph(text, w.width as int, ii, si, 0, true, true, None, w.is_markdown),
        LineBreaking::BySentence { min_line_len } => sentence_wrapped(
            text,
            w.width as int,
            min_line_len as int,
            w.is_markdown,
            ii,
            si,
        ),
    }
}

fn newlines_to_spaces_chars(v: &Vec<char>) -> (r: Vec<char>)
    ensures
        r@ == newlines_to_spaces(v@),
{
    let mut r: Vec<char> = Vec::new();
    let mut i: usize = 0;
    while i < v.len()
        invariant
            i <= v.len(),
            r@ == newlines_to_spaces(v@).take(i as int),
        decreases v.len() - i,
    {
        r.push(if v[i] == '\n' { ' ' } else { v[i] });
        assert(r@ =~= newlines_to_spaces(v@).take(i + 1));
        i += 1;
    }
    assert(newlines_to_spaces(v@).take(v.len() as int) =~= newlines_to_spaces(v@));
    r
}

/// Appends `src[from..]` to `dst`.
fn extend_lines(dst: &mut Vec<Vec<char>>, src: &Vec<Vec<char>>, from: usize)
    requires
        from <= src.len(),
    ensures
        buf_views(final(dst)@) == buf_views(old(dst)@) + buf_views(src@).subrange(from as int, src.len() as int),
{
    let ghost before = buf_views(dst@);
    let ghost sv = buf_views(src@);
    let mut j: usize = from;
    assert(sv.subrange(from as int, from as int) =~= Seq::<Seq<char>>::empty());
    assert(before + sv.subrange(from as int, from as int) =~= before);
    while j < src.len()
        invariant
            from <= j <= src.len(),
            sv == buf_views(src@),
            buf_views(dst@) == before + sv.subrange(from as int, j as int),
        decreases src.len() - j,
    {
        let l = crate::text::slice_of(&src[j], 0, src[j].len());
        assert(src@[j as int]@.subrange(0, src@[j as int]@.len() as int) =~= src@[j as int]@);
        push_buf(dst, l);
        assert(buf_views(dst@) =~= before + sv.subrange(from as int, j + 1));
        j += 1;
    }
}

fn sentence_step_exec(
    lines: &mut Vec<Vec<char>>,
    first_line: bool,
    sentence: &Vec<char>,
    width: usize,
    min_line_len: usize,
    md: bool,
    ii_len: usize,
    si_len: usize,
)
    ensures
        buf_views(final(lines)@) == sentence_lines_step(
            (buf_views(old(lines)@), first_line),
            sentence@,
            width as int,
            min_line_len as int,
            md,
            ii_len as int,
            si_len as int,
        ).0,
{
    let ghost before = buf_views(lines@);
    let base: usize = if first_line { ii_len } else { si_len };
    let last_len: usize = if lines.len() > 0 { lines[lines.len() - 1].len() } else { 0 };
    let short = lines.len() > 0 && last_len < min_line_len;
    let col: u128 = if short { base as u128 + last_len as u128 } else { base as u128 };
    let wrapped = wrap_paragraph_lines_chars(sentence, width, col, si_len, true, true, None, md);
    let ghost wv = buf_views(wrapped@);
    if short && wrapped.len() > 0 && (last_len as u128) + 1 + (wrapped[0].len() as u128) <= width as u128 {
        let mut last = lines.pop().unwrap();
        proof {
            assert(buf_views(lines@) =~= before.drop_last());
            assert(last@ == before.last());
        }
        last.push(' ');
        append_chars(&mut last, &wrapped[0]);
        assert(last@ =~= before.last() + seq![' '] + wv[0]);
        push_buf(lines, last);
        extend_lines(lines, &wrapped, 1);
        assert(wv.subrange(1, wv.len() as int) =~= wv.drop_first());
    } else {
        extend_lines(lines, &wrapped, 0);
        assert(wv.subrange(0, wv.len() as int) =~= wv);
    }
}

fn sentence_wrap(
    text: &Vec<char>,
    width: usize,
    min_line_len: usize,
    md: bool,
    ii: &Vec<char>,
    si: &Vec<char>,
) -> (r: Vec<char>)
    ensures
        r@ == sentence_wrapped(text@, width as int, min_line_len as int, md, ii@, si@),
{
    let t = newlines_to_spaces_chars(text);
    if width == 0 {
        let mut r: Vec<char> = Vec::new();
        append_chars(&mut r, ii);
        let tt = trim_chars(&t);
        append_chars(&mut r, &tt);
        return r;
    }
    let ts = string_of(&t);
    let sentences = split_sentences_atomic(ts.as_str(), 0);
    let ghost ss = views(sentences@);
    let mut lines: Vec<Vec<char>> = Vec::new();
    let mut first_line = true;
    let mut k: usize = 0;
    assert(buf_views(lines@) =~= Seq::<Seq<char>>::empty());
    while k < sentences.len()
        invariant
            k <= sentences.len(),
            ss == views(sentences@),
            (buf_views(lines@), first_line) == sentence_lines_scan(
                ss.take(k as int),
                width as int,
                min_line_len as int,
                md,
                ii.len() as int,
                si.len() as int,
            ),
        decreases sentences.len() - k,
    {
        proof {
            assert(ss.take(k + 1).drop_last() =~= ss.take(k as int));
            assert(ss.take(k + 1).last() == sentences@[k as int]@);
        }
        let sv = chars_of(sentences[k].as_str());
        sentence_step_exec(&mut lines, first_line, &sv, width, min_line_len, md, ii.len(), si.len());
        first_line = false;
        k += 1;
    }
    assert(ss.take(sentences.len() as int) =~= ss);
    let indented = indent_lines_chars(&lines, ii, si, true);
    let mut nl: Vec<char> = Vec::new();
    nl.push('\n');
    assert(nl@ =~= seq!['\n']);
    let joined = join_bufs(&indented, &nl);
    denormalize_adjacent_tags_chars(&joined)
}

fn base_wrap(w: &LineWrapper, text: &Vec<char>, ii: &Vec<char>, si: &Vec<char>) -> (r: Vec<char>)
    ensures
        r@ == base_wrapped(*w, text@, ii@, si@),
{
    match w.breaking {
        LineBreaking::ToWidth => {
            let t = string_of(text);
            let a = string_of(ii);
            let b = string_of(si);
            let r = wrap_paragraph(t.as_str(), w.width, a.as_str(), b.as_str(), 0, true, true, None, w.is_markdown);
            chars_of(r.as_str())
        },
        LineBreaking::BySentence { min_line_len } => {
            sentence_wrap(text, w.width, min_line_len, w.is_markdown, ii, si)
        },
    }
}

} // verus!

verus! {

// ---------------------------------------------------------------------------
// Lines of tags
// ---------------------------------------------------------------------------

/// Some line starts or ends with a template or HTML tag.
pub open spec fn any_tag_line(lines: Seq<Seq<char>>) -> bool {
    exists|i: int| 0 <= i < lines.len() && (ends_with_tag(#[trigger] lines[i]) || starts_with_tag(lines[i]))
}

/// Line `i` starts a new segment: the previous line ends with a tag, the line
/// is an unindented tag line, or (when the text has tags) either of the two
/// is block content (a table row or a list item).
pub open spec fn segment_break(lines: Seq<Seq<char>>, has_tags: bool, i: int) -> bool {
    ||| ends_with_tag(lines[i - 1])
    ||| unindented_tag(lines[i])
    ||| (has_tags && is_block_content(lines[i]))
    ||| (has_tags && is_block_content(lines[i - 1]))
}

/// The first `n` lines grouped into segments.
pub open spec fn line_groups(lines: Seq<Seq<char>>, has_tags: bool, n: int) -> Seq<Seq<Seq<char>>>
    decreases n,
{
    if n <= 0 {
        Seq::empty()
    } else if n == 1 {
        seq![seq![lines[0]]]
    } else {
        let g = line_groups(lines, has_tags, n - 1);
        if segment_break(lines, has_tags, n - 1) {
            g.push(seq![lines[n - 1]])
        } else {
            g.update(g.len() - 1, g.last().push(lines[n - 1]))
        }
    }
}

proof fn lemma_line_groups_len(lines: Seq<Seq<char>>, has_tags: bool, n: int)
    requires
        n >= 1,
    ensures
        line_groups(lines, has_tags, n).len() >= 1,
    decreases n,
{
    if n > 1 {
        lemma_line_groups_len(lines, has_tags, n - 1);
    }
}

/// The segments of a multi-line text: its lines grouped, each group joined
/// with newlines.
pub open spec fn segments_of(lines: Seq<Seq<char>>) -> Seq<Seq<char>> {
    line_groups(lines, any_tag_line(lines), lines.len() as int).map_values(
        |g: Seq<Seq<char>>| join(g, seq!['\n']),
    )
}

pub open spec fn has_block_line(s: Seq<char>) -> bool {
    exists|j: int| 0 <= j < split_on(s, '\n').len() && is_block_content(#[trigger] split_on(s, '\n')[j])
}

/// The lines segment `i` contributes when the wrapped segments are joined: a
/// blank line goes before it when a tag line meets block content.
pub open spec fn segment_contribution(
    segs: Seq<Seq<char>>,
    wrapped: Seq<Seq<char>>,
    i: int,
) -> Seq<Seq<char>> {
    if i == 0 {
        seq![wrapped[0]]
    } else {
        let prev = segs[i - 1];
        let curr = segs[i];
        let prev_tag = ends_with_tag(split_on(prev, '\n').last());
        let curr_tag = unindented_tag(split_on(curr, '\n')[0]);
        if (prev_tag && has_block_line(curr)) || (has_block_line(prev) && curr_tag) {
            seq![Seq::empty(), wrapped[i]]
        } else {
            seq![wrapped[i]]
        }
    }
}

/// What a wrapper with tag-line handling does: a multi-line text is cut into
/// segments at tag lines and block content, each segment is wrapped on its
/// own (the first with the initial indent), and the results are joined with
/// blank lines where a tag line meets block content; closing tags and
/// multi-line opening tags are then fixed.
pub open spec fn tag_handled(w: LineWrapper, text: Seq<char>, ii: Seq<char>, si: Seq<char>) -> Seq<char> {
    if !text.contains('\n') {
        multiline_closing_fix(base_wrapped(w, text, ii, si))
    } else {
        let segs = segments_of(split_on(text, '\n'));
        if segs.len() == 1 {
            multiline_closing_fix(base_wrapped(w, text, ii, si))
        } else {
            let wrapped = Seq::new(
                segs.len(),
                |i: int|
                    base_wrapped(
                        w,
                        segs[i],
                        if i == 0 {
                            ii
                        } else {
                            si
                        },
                        si,
                    ),
            );
            multiline_closing_fix(
                closing_tag_spacing(
                    join(
                        gather(|i: int| segment_contribution(segs, wrapped, i), segs.len() as int),
                        seq!['\n'],
                    ),
                ),
            )
        }
    }
}

fn any_tag_line_exec(lines: &Vec<Vec<char>>) -> (b: bool)
    ensures
        b == any_tag_line(buf_views(lines@)),
{
    let ghost ls = buf_views(lines@);
    let mut i: usize = 0;
    while i < lines.len()
        invariant
            i <= lines.len(),
            ls == buf_views(lines@),
            forall|j: int| 0 <= j < i ==> !(ends_with_tag(#[trigger] ls[j]) || starts_with_tag(ls[j])),
        decreases lines.len() - i,
    {
        assert(ls[i as int] == lines@[i as int]@);
        if ends_with_tag_chars(&lines[i]) || starts_with_tag_chars(&lines[i]) {
            return true;
        }
        i += 1;
    }
    false
}

fn has_block_line_exec(s: &Vec<char>) -> (b: bool)
    ensures
        b == has_block_line(s@),
{
    let parts = split_char(s, '\n');
    let ghost ps = split_on(s@, '\n');
    let mut i: usize = 0;
    while i < parts.len()
        invariant
            i <= parts.len(),
            ps == buf_views(parts@),
            ps == split_on(s@, '\n'),
            forall|j: int| 0 <= j < i ==> !is_block_content(#[trigger] ps[j]),
        decreases parts.len() - i,
    {
        assert(ps[i as int] == parts@[i as int]@);
        if block_content_chars(&parts[i]) {
            return true;
        }
        i += 1;
    }
    false
}

fn segment_break_exec(lines: &Vec<Vec<char>>, has_tags: bool, i: usize) -> (b: bool)
    requires
        0 < i < lines.len(),
    ensures
        b == segment_break(buf_views(lines@), has_tags, i as int),
{
    assert(buf_views(lines@)[i - 1] == lines@[i - 1]@);
    assert(buf_views(lines@)[i as int] == lines@[i as int]@);
    ends_with_tag_chars(&lines[i - 1]) || unindented_tag_chars(&lines[i]) || (has_tags
        && block_content_chars(&lines[i])) || (has_tags && block_content_chars(&lines[i - 1]))
}

fn segments_exec(lines: &Vec<Vec<char>>) -> (r: Vec<Vec<char>>)
    requires
        lines.len() >= 1,
    ensures
        buf_views(r@) == segments_of(buf_views(lines@)),
{
    let ghost ls = buf_views(lines@);
    let has_tags = any_tag_line_exec(lines);
    let ghost joinf = |g: Seq<Seq<char>>| join(g, seq!['\n']);
    let nl = {
        let mut nl: Vec<char> = Vec::new();
        nl.push('\n');
        assert(nl@ =~= seq!['\n']);
        nl
    };
    let mut done: Vec<Vec<char>> = Vec::new();
    let mut cur: Vec<Vec<char>> = Vec::new();
    let first = crate::text::slice_of(&lines[0], 0, lines[0].len());
    assert(lines@[0]@.subrange(0, lines@[0]@.len() as int) =~= lines@[0]@);
    push_buf(&mut cur, first);
    assert(buf_views(cur@) =~= seq![ls[0]]);
    assert(buf_views(done@) =~= line_groups(ls, has_tags, 1).drop_last().map_values(joinf));
    let mut i: usize = 1;
    while i < lines.len()
        invariant
            1 <= i <= lines.len(),
            ls == buf_views(lines@),
            nl@ == seq!['\n'],
            joinf == (|g: Seq<Seq<char>>| join(g, seq!['\n'])),
            line_groups(ls, has_tags, i as int).len() >= 1,
            buf_views(done@) == line_groups(ls, has_tags, i as int).drop_last().map_values(joinf),
            buf_views(cur@) == line_groups(ls, has_tags, i as int).last(),
        decreases lines.len() - i,
    {
        let ghost g = line_groups(ls, has_tags, i as int);
        let l = crate::text::slice_of(&lines[i], 0, lines[i].len());
        assert(lines@[i as int]@.subrange(0, lines@[i as int]@.len() as int) =~= lines@[i as int]@);
        if segment_break_exec(lines, has_tags, i) {
            let j = join_bufs(&cur, &nl);
            push_buf(&mut done, j);
            cur = Vec::new();
            push_buf(&mut cur, l);
            proof {
                let g2 = line_groups(ls, has_tags, i + 1);
                assert(g2 == g.push(seq![ls[i as int]]));
                assert(g2.drop_last() =~= g);
                assert(g.map_values(joinf) =~= g.drop_last().map_values(joinf).push(joinf(g.last())));
                assert(buf_views(cur@) =~= g2.last());
            }
        } else {
            push_buf(&mut cur, l);
            proof {
                let g2 = line_groups(ls, has_tags, i + 1);
                assert(g2 == g.update(g.len() - 1, g.last().push(ls[i as int])));
                assert(g2.drop_last() =~= g.drop_last());
            }
        }
        i += 1;
    }
    let j = join_bufs(&cur, &nl);
    push_buf(&mut done, j);
    proof {
        let g = line_groups(ls, has_tags, lines.len() as int);
        assert(g.map_values(joinf) =~= g.drop_last().map_values(joinf).push(joinf(g.last())));
        assert(has_tags == any_tag_line(ls));
    }
    done
}

/// The last piece of `s` split at newlines.
fn last_line(s: &Vec<char>) -> (r: Vec<char>)
    ensures
        r@ == split_on(s@, '\n').last(),
{
    let parts = split_char(s, '\n');
    proof {
        crate::text::lemma_split_on(s@, '\n');
    }
    let n = parts.len();
    let r = crate::text::slice_of(&parts[n - 1], 0, parts[n - 1].len());
    assert(parts@[n - 1]@.subrange(0, parts@[n - 1]@.len() as int) =~= parts@[n - 1]@);
    r
}

/// The first piece of `s` split at newlines.
fn first_line(s: &Vec<char>) -> (r: Vec<char>)
    ensures
        r@ == split_on(s@, '\n')[0],
{
    let parts = split_char(s, '\n');
    proof {
        crate::text::lemma_split_on(s@, '\n');
    }
    let r = crate::text::slice_of(&parts[0], 0, parts[0].len());
    assert(parts@[0]@.subrange(0, parts@[0]@.len() as int) =~= parts@[0]@);
    r
}

fn base_wrap_str(w: &LineWrapper, text: &Vec<char>, ii: &str, si: &str) -> (r: Vec<char>)
    ensures
        r@ == base_wrapped(*w, text@, ii@, si@),
{
    let a = chars_of(ii);
    let b = chars_of(si);
    base_wrap(w, text, &a, &b)
}

fn fix_multiline_chars(v: &Vec<char>) -> (r: Vec<char>)
    ensures
        r@ == multiline_closing_fix(v@),
{
    let s = string_of(v);
    let f = fix_multiline_opening_tag_with_closing(s.as_str());
    chars_of(f.as_str())
}

/// Wraps `text` with `base`, first cutting a multi-line text into segments at
/// lines of template or HTML tags and at block content (see `tag_handled`).
pub fn add_tag_newline_handling(base: &LineWrapper, text: &str, initial_indent: &str, subsequent_indent: &str) -> (r: String)
    ensures
        r@ == tag_handled(*base, text@, initial_indent@, subsequent_indent@),
{
    let v = chars_of(text);
    if !contains_char(&v, '\n') {
        let w = base_wrap_str(base, &v, initial_indent, subsequent_indent);
        let f = fix_multiline_chars(&w);
        return string_of(&f);
    }
    let lines = split_char(&v, '\n');
    proof {
        crate::text::lemma_split_on(v@, '\n');
    }
    let segs = segments_exec(&lines);
    if segs.len() == 1 {
        let w = base_wrap_str(base, &v, initial_indent, subsequent_indent);
        let f = fix_multiline_chars(&w);
        return string_of(&f);
    }
    let ghost sv = buf_views(segs@);
    let ghost wrapped_all = Seq::new(
        sv.len(),
        |i: int|
            base_wrapped(
                *base,
                sv[i],
                if i == 0 {
                    initial_indent@
                } else {
                    subsequent_indent@
                },
                subsequent_indent@,
            ),
    );
    let mut wrapped: Vec<Vec<char>> = Vec::new();
    let mut i: usize = 0;
    while i < segs.len()
        invariant
            i <= segs.len(),
            sv == buf_views(segs@),
            wrapped_all == Seq::new(
                sv.len(),
                |i: int|
                    base_wrapped(
                        *base,
                        sv[i],
                        if i == 0 {
                            initial_indent@
                        } else {
                            subsequent_indent@
                        },
                        subsequent_indent@,
                    ),
            ),
            buf_views(wrapped@) == wrapped_all.take(i as int),
        decreases segs.len() - i,
    {
        let cur_initial = if i == 0 { initial_indent } else { subsequent_indent };
        let w = base_wrap_str(base, &segs[i], cur_initial, subsequent_indent);
        push_buf(&mut wrapped, w);
        assert(buf_views(wrapped@) =~= wrapped_all.take(i + 1));
        i += 1;
    }
    assert(wrapped_all.take(segs.len() as int) =~= wrapped_all);
    let ghost wv = buf_views(wrapped@);
    let ghost f = |i: int| segment_contribution(sv, wv, i);
    let mut parts: Vec<Vec<char>> = Vec::new();
    let mut k: usize = 0;
    assert(buf_views(parts@) =~= gather(f, 0));
    while k < segs.len()
        invariant
            k <= segs.len() == wrapped.len(),
            sv == buf_views(segs@),
            wv == buf_views(wrapped@),
            f == (|i: int| segment_contribution(sv, wv, i)),
            buf_views(parts@) == gather(f, k as int),
        decreases segs.len() - k,
    {
        let w = crate::text::slice_of(&wrapped[k], 0, wrapped[k].len());
        assert(wrapped@[k as int]@.subrange(0, wrapped@[k as int]@.len() as int) =~= wrapped@[k as int]@);
        if k == 0 {
            push_buf(&mut parts, w);
        } else {
            assert(sv[k - 1] == segs@[k - 1]@);
            assert(sv[k as int] == segs@[k as int]@);
            let prev_last = last_line(&segs[k - 1]);
            let curr_first = first_line(&segs[k]);
            let prev_tag = ends_with_tag_chars(&prev_last);
            let curr_tag = unindented_tag_chars(&curr_first);
            let prev_block = has_block_line_exec(&segs[k - 1]);
            let curr_block = has_block_line_exec(&segs[k]);
            if (prev_tag && curr_block) || (prev_block && curr_tag) {
                push_buf(&mut parts, Vec::new());
            }
            push_buf(&mut parts, w);
        }
        assert(buf_views(parts@) =~= gather(f, k + 1));
        k += 1;
    }
    let mut nl: Vec<char> = Vec::new();
    nl.push('\n');
    assert(nl@ =~= seq!['\n']);
    let joined = join_bufs(&parts, &nl);
    let js = string_of(&joined);
    let spaced = fix_closing_tag_spacing(js.as_str());
    let fixed = fix_multiline_opening_tag_with_closing(spaced.as_str());
    proof {
        assert(sv == segments_of(split_on(text@, '\n')));
    }
    fixed
}

} // verus!

verus! {

// ---------------------------------------------------------------------------
// Markdown hard breaks and the wrappers
// ---------------------------------------------------------------------------

/// The pieces of a text between Markdown hard breaks. (If the pattern did not
/// compile, the text would be one piece.)
pub open spec fn hard_break_segments(text: Seq<char>) -> Seq<Seq<char>> {
    match regex_scan_of(HARD_BREAK_PATTERN@, text) {
        Some(sc) => sc.0,
        None => seq![text],
    }
}

/// What a Markdown wrapper does: the pieces between hard breaks are wrapped
/// on their own (the first with the initial indent) and joined by lines
/// ending in a backslash.
pub open spec fn hard_break_handled(w: LineWrapper, text: Seq<char>, ii: Seq<char>, si: Seq<char>) -> Seq<char> {
    let segs = hard_break_segments(text);
    if segs.len() == 0 {
        Seq::empty()
    } else if segs.len() == 1 {
        tag_handled(w, text, ii, si)
    } else {
        join(
            Seq::new(
                segs.len(),
                |i: int|
                    tag_handled(
                        w,
                        segs[i],
                        if i == 0 {
                            ii
                        } else {
                            si
                        },
                        si,
                    ) + if i < segs.len() - 1 {
                        seq!['\\']
                    } else {
                        Seq::empty()
                    },
            ),
            seq!['\n'],
        )
    }
}

/// What `LineWrapper::wrap` returns.
pub open spec fn line_wrapped(w: LineWrapper, text: Seq<char>, ii: Seq<char>, si: Seq<char>) -> Seq<char> {
    if w.is_markdown {
        hard_break_handled(w, text, ii, si)
    } else {
        base_wrapped(w, text, ii, si)
    }
}

fn split_markdown_hard_breaks(text: &str) -> (r: Vec<Vec<char>>)
    ensures
        buf_views(r@) == hard_break_segments(text@),
{
    match scan(HARD_BREAK_PATTERN, text) {
        None => {
            let mut r: Vec<Vec<char>> = Vec::new();
            push_buf(&mut r, chars_of(text));
            assert(buf_views(r@) =~= seq![text@]);
            r
        },
        Some(sc) => {
            let ghost gs = views(sc.gaps@);
            let mut r: Vec<Vec<char>> = Vec::new();
            let mut k: usize = 0;
            while k < sc.gaps.len()
                invariant
                    k <= sc.gaps.len(),
                    gs == views(sc.gaps@),
                    buf_views(r@) == gs.take(k as int),
                decreases sc.gaps.len() - k,
            {
                push_buf(&mut r, gap(&sc, k));
                assert(buf_views(r@) =~= gs.take(k + 1));
                k += 1;
            }
            assert(gs.take(sc.gaps.len() as int) =~= gs);
            r
        },
    }
}

/// Wraps `text` with tag-line handling, first splitting it at Markdown hard
/// breaks (see `hard_break_handled`).
fn add_markdown_hard_break_handling(w: &LineWrapper, text: &str, initial_indent: &str, subsequent_indent: &str) -> (r: String)
    ensures
        r@ == hard_break_handled(*w, text@, initial_indent@, subsequent_indent@),
{
    let segs = split_markdown_hard_breaks(text);
    if segs.len() == 0 {
        return String::new();
    }
    if segs.len() == 1 {
        return add_tag_newline_handling(w, text, initial_indent, subsequent_indent);
    }
    let ghost sv = buf_views(segs@);
    let ghost target = Seq::new(
        sv.len(),
        |i: int|
            tag_handled(
                *w,
                sv[i],
                if i == 0 {
                    initial_indent@
                } else {
                    subsequent_indent@
                },
                subsequent_indent@,
            ) + if i < sv.len() - 1 {
                seq!['\\']
            } else {
                Seq::empty()
            },
    );
    let mut out: Vec<Vec<char>> = Vec::new();
    let mut i: usize = 0;
    while i < segs.len()
        invariant
            i <= segs.len(),
            sv == buf_views(segs@),
            target == Seq::new(
                sv.len(),
                |i: int|
                    tag_handled(
                        *w,
                        sv[i],
                        if i == 0 {
                            initial_indent@
                        } else {
                            subsequent_indent@
                        },
                        subsequent_indent@,
                    ) + if i < sv.len() - 1 {
                        seq!['\\']
                    } else {
                        Seq::empty()
                    },
            ),
            buf_views(out@) == target.take(i as int),
        decreases segs.len() - i,
    {
        let cur_initial = if i == 0 { initial_indent } else { subsequent_indent };
        let seg = string_of(&segs[i]);
        let wrapped = add_tag_newline_handling(w, seg.as_str(), cur_initial, subsequent_indent);
        let mut wv = chars_of(wrapped.as_str());
        if i + 1 < segs.len() {
            wv.push('\\');
        }
        assert(wv@ =~= target[i as int]);
        push_buf(&mut out, wv);
        assert(buf_views(out@) =~= target.take(i + 1));
        i += 1;
    }
    assert(target.take(segs.len() as int) =~= target);
    let mut nl: Vec<char> = Vec::new();
    nl.push('\n');
    assert(nl@ =~= seq!['\n']);
    let joined = join_bufs(&out, &nl);
    string_of(&joined)
}

impl LineWrapper {
    /// Wraps `text`, the first line after `initial_indent` and the others
    /// after `subsequent_indent`. A Markdown wrapper also handles hard breaks
    /// and lines of template or HTML tags.
    pub fn wrap(&self, text: &str, initial_indent: &str, subsequent_indent: &str) -> (r: String)
        ensures
            r@ == line_wrapped(*self, text@, initial_indent@, subsequent_indent@),
    {
        if self.is_markdown {
            add_markdown_hard_break_handling(self, text, initial_indent, subsequent_indent)
        } else {
            let v = chars_of(text);
            let w = base_wrap_str(self, &v, initial_indent, subsequent_indent);
            string_of(&w)
        }
    }
}

/// Wrap lines of text to a given width.
pub fn line_wrap_to_width(width: usize, is_markdown: bool) -> (r: LineWrapper)
    ensures
        r == (LineWrapper { width, breaking: LineBreaking::ToWidth, is_markdown }),
{
    LineWrapper { width, breaking: LineBreaking::ToWidth, is_markdown }
}

/// Wrap lines of text to a given width but also keep sentences on their own
/// lines (a line shorter than `min_line_len` is continued by the next
/// sentence).
pub fn line_wrap_by_sentence(width: usize, min_line_len: usize, is_markdown: bool) -> (r: LineWrapper)
    ensures
        r == (LineWrapper { width, breaking: LineBreaking::BySentence { min_line_len }, is_markdown }),
{
    LineWrapper { width, breaking: LineBreaking::BySentence { min_line_len }, is_markdown }
}

/// Wrapping to the default width.
pub fn line_wrap_to_width_default(is_markdown: bool) -> (r: LineWrapper)
    ensures
        r == (LineWrapper { width: DEFAULT_WRAP_WIDTH, breaking: LineBreaking::ToWidth, is_markdown }),
{
    line_wrap_to_width(DEFAULT_WRAP_WIDTH, is_markdown)
}

/// Sentence-per-line wrapping to the default width with the default minimum
/// line length.
pub fn line_wrap_by_sentence_default(is_markdown: bool) -> (r: LineWrapper)
    ensures
        r == (LineWrapper {
            width: DEFAULT_WRAP_WIDTH,
            breaking: LineBreaking::BySentence { min_line_len: DEFAULT_MIN_LINE_LEN },
            is_markdown,
        }),
{
    line_wrap_by_sentence(DEFAULT_WRAP_WIDTH, DEFAULT_MIN_LINE_LEN, is_markdown)
}

} // verus!
