//! Greedy wrapping of parser-facing text whose protected tokens are measured
//! by the width of the source they stand for.

use vstd::prelude::*;
use crate::preservation::bridge::{ProtectedSource, measure_from, metrics_of};
use crate::text::{
    buf_views, chars_of, collapse_whitespace, collapse_ws, join, join_bufs, push_buf, string_of,
    strings_of, trim, trim_chars, views,
};
use crate::wrapping::tag_handling::{denormalize_adjacent_tags_chars, rewrite_adjacent};
use crate::wrapping::text_wrapping::{
    escape_word, escape_word_chars, html_md_words, indent_lines, indent_lines_chars, line_of,
};

verus! {

/// How a word of protected text measures (see [`measure_from`]).
pub open spec fn measured(ps: ProtectedSource, w: Seq<char>) -> Result<(int, Option<int>, bool), &'static str> {
    measure_from(w, ps.regions@, views(ps.tokens@), 0, 0, None, false)
}

/// The first-line width, last-line width and authored-break flag of a word
/// that measures.
pub open spec fn word_metrics(ps: ProtectedSource, w: Seq<char>) -> (int, int, bool) {
    metrics_of(measured(ps, w)->Ok_0)
}

/// Whether a word measures (the tokens in it are well formed and issued by
/// this source).
pub open spec fn measures(ps: ProtectedSource, w: Seq<char>) -> bool {
    measured(ps, w) is Ok
}

/// One word: it joins the current line when the current column, a space and
/// its first-line width fit in `width`; otherwise the current line is
/// finished and the word (escaped when wrapping Markdown past the first
/// line) starts a new one at column `sub`. A word holding an authored line
/// break leaves the column at its last line's width and ends the first line.
pub open spec fn pwrap_step(
    st: (Seq<Seq<char>>, Seq<Seq<char>>, int, bool),
    w: Seq<char>,
    width: int,
    sub: int,
    drop_ws: bool,
    md: bool,
    ps: ProtectedSource,
) -> (Seq<Seq<char>>, Seq<Seq<char>>, int, bool) {
    let m = word_metrics(ps, w);
    let space: int = if st.1.len() == 0 {
        0
    } else {
        1
    };
    if st.2 + space + m.0 <= width {
        (
            st.0,
            st.1.push(w),
            if m.2 {
                m.1
            } else {
                st.2 + space + m.1
            },
            if m.2 {
                false
            } else {
                st.3
            },
        )
    } else {
        let lines = if st.1.len() > 0 {
            st.0.push(line_of(st.1, drop_ws))
        } else {
            st.0
        };
        let first = if st.1.len() > 0 {
            false
        } else {
            st.3
        };
        let e = if md && !first {
            escape_word(w)
        } else {
            w
        };
        let em = word_metrics(ps, e);
        (
            lines,
            seq![e],
            if em.2 {
                em.1
            } else {
                sub + em.1
            },
            if em.2 {
                false
            } else {
                first
            },
        )
    }
}

pub open spec fn pwrap_scan(
    words: Seq<Seq<char>>,
    width: int,
    init: int,
    sub: int,
    drop_ws: bool,
    md: bool,
    ps: ProtectedSource,
) -> (Seq<Seq<char>>, Seq<Seq<char>>, int, bool)
    decreases words.len(),
{
    if words.len() == 0 {
        (Seq::empty(), Seq::empty(), init, true)
    } else {
        pwrap_step(
            pwrap_scan(words.drop_last(), width, init, sub, drop_ws, md, ps),
            words.last(),
            width,
            sub,
            drop_ws,
            md,
            ps,
        )
    }
}

/// The lines `wrap_paragraph_lines_protected` returns: white space runs
/// collapse to one space; with width 0 the (trimmed) text is one line;
/// otherwise the HTML/Markdown-aware words are wrapped greedily.
pub open spec fn protected_wrapped_lines(
    text: Seq<char>,
    width: int,
    init: int,
    sub: int,
    drop_ws: bool,
    md: bool,
    ps: ProtectedSource,
) -> Seq<Seq<char>> {
    let t = collapse_ws(text);
    if width == 0 {
        let t2 = if drop_ws {
            trim(t)
        } else {
            t
        };
        if t2.len() == 0 {
            Seq::empty()
        } else {
            seq![t2]
        }
    } else {
        let st = pwrap_scan(html_md_words(t), width, init, sub, drop_ws, md, ps);
        if st.1.len() > 0 {
            st.0.push(line_of(st.1, drop_ws))
        } else {
            st.0
        }
    }
}

/// Every word of the text measures, escaped too when wrapping Markdown.
pub open spec fn words_measure(text: Seq<char>, md: bool, ps: ProtectedSource) -> bool {
    let words = html_md_words(collapse_ws(text));
    forall|i: int|
        0 <= i < words.len() ==> measures(ps, #[trigger] words[i]) && (md ==> measures(
            ps,
            escape_word(words[i]),
        ))
}

/// A measuring walk that has seen no authored break has no first width.
proof fn lemma_measure_first(
    text: Seq<char>,
    regions: Seq<crate::preservation::model::ProtectedRegion>,
    tokens: Seq<Seq<char>>,
    p: int,
    column: int,
    first: Option<int>,
    broke: bool,
)
    requires
        first is Some ==> broke,
    ensures
        measure_from(text, regions, tokens, p, column, first, broke) matches Ok(m) ==> (m.1 is Some
            ==> m.2),
    decreases text.len() - p,
{
    if p >= text.len() || p < 0 {
    } else {
        let c = text[p];
        if c == crate::preservation::tokens::ESCAPE_MARKER {
            if p + 1 < text.len() {
                lemma_measure_first(text, regions, tokens, p + 2, column + 1, first, broke);
            }
        } else if c == crate::escape_placeholders::PERIOD_ESCAPE_PLACEHOLDER && p + 1 < text.len()
            && text[p + 1] == crate::escape_placeholders::ESCAPE_PLACEHOLDER_FILLER {
            lemma_measure_first(
                text,
                regions,
                tokens,
                p + 2,
                column + crate::escape_placeholders::pair_width(c),
                first,
                broke,
            );
        } else if c != crate::preservation::tokens::TOKEN_START {
            lemma_measure_first(text, regions, tokens, p + 1, column + 1, first, broke);
        } else if text.len() - p < 10 {
        } else {
            let token = text.subrange(p, p + 10);
            match crate::preservation::tokens::token_index(token) {
                Err(m) => {},
                Ok(i) => {
                    if i < regions.len() && tokens[i as int] == token {
                        if regions[i as int].form is Block {
                            lemma_measure_first(text, regions, tokens, p + 10, column + 1, first, broke);
                        } else {
                            let widths = regions[i as int].logical_widths@;
                            if widths.len() > 1 {
                                lemma_measure_first(
                                    text,
                                    regions,
                                    tokens,
                                    p + 10,
                                    widths.last() as int,
                                    if first is Some {
                                        first
                                    } else {
                                        Some(column + widths[0])
                                    },
                                    true,
                                );
                            } else if widths.len() == 1 {
                                lemma_measure_first(
                                    text,
                                    regions,
                                    tokens,
                                    p + 10,
                                    column + widths[0],
                                    first,
                                    broke,
                                );
                            }
                        }
                    }
                },
            }
        }
    }
}

/// The metrics of a word, with first and final widths equal when there is
/// no authored break.
fn measure_word(ps: &ProtectedSource, w: &Vec<char>) -> (r: (usize, usize, bool))
    requires
        ps.regions.len() <= ps.tokens.len(),
        measures(*ps, w@),
    ensures
        (r.0 as int, r.1 as int, r.2) == word_metrics(*ps, w@),
        !r.2 ==> r.0 == r.1,
{
    proof {
        lemma_measure_first(w@, ps.regions@, views(ps.tokens@), 0, 0, None, false);
    }
    let s = string_of(w);
    match ps.measure_inline_text(s.as_str()) {
        Ok(m) => (m.first_width, m.final_width, m.has_authored_break),
        Err(_) => {
            proof {
                assert(false);
            }
            (0, 0, false)
        },
    }
}

fn copy_word(v: &Vec<char>) -> (r: Vec<char>)
    ensures
        r@ == v@,
{
    let mut r: Vec<char> = Vec::new();
    crate::text::append_chars(&mut r, v);
    assert(r@ =~= v@);
    r
}

fn line_of_words(words: &Vec<Vec<char>>, drop_ws: bool) -> (r: Vec<char>)
    ensures
        r@ == line_of(buf_views(words@), drop_ws),
{
    let mut sp: Vec<char> = Vec::new();
    sp.push(' ');
    assert(sp@ =~= seq![' ']);
    let j = join_bufs(words, &sp);
    if drop_ws {
        trim_chars(&j)
    } else {
        j
    }
}

/// Wraps parser-facing text, measuring each protected token by the source it
/// stands for (see [`protected_wrapped_lines`]). Every word must measure.
pub fn wrap_paragraph_lines_protected(
    text: &str,
    width: usize,
    initial_column: usize,
    subsequent_offset: usize,
    drop_whitespace: bool,
    is_markdown: bool,
    protected: &ProtectedSource,
) -> (r: Vec<String>)
    requires
        protected.regions.len() <= protected.tokens.len(),
        width != 0 ==> words_measure(text@, is_markdown, *protected),
    ensures
        views(r@) == protected_wrapped_lines(
            text@,
            width as int,
            initial_column as int,
            subsequent_offset as int,
            drop_whitespace,
            is_markdown,
            *protected,
        ),
{
    let v = chars_of(text);
    let t = collapse_whitespace(&v);
    if width == 0 {
        let t2 = if drop_whitespace {
            trim_chars(&t)
        } else {
            t
        };
        let mut r: Vec<Vec<char>> = Vec::new();
        if t2.len() > 0 {
            r.push(t2);
        }
        assert(buf_views(r@) =~= protected_wrapped_lines(
            text@,
            width as int,
            initial_column as int,
            subsequent_offset as int,
            drop_whitespace,
            is_markdown,
            *protected,
        ));
        return strings_of(&r);
    }
    let ts = string_of(&t);
    let word_strings = crate::wrapping::text_wrapping::html_md_word_split(ts.as_str());
    let words = crate::text::bufs_of(&word_strings);
    let ghost ws = buf_views(words@);
    assert(ws == html_md_words(collapse_ws(text@)));
    let ghost ps = *protected;
    let mut lines: Vec<Vec<char>> = Vec::new();
    let mut cur: Vec<Vec<char>> = Vec::new();
    let mut cur_width: u128 = initial_column as u128;
    let mut first = true;
    let mut i: usize = 0;
    assert(buf_views(lines@) =~= Seq::<Seq<char>>::empty());
    assert(buf_views(cur@) =~= Seq::<Seq<char>>::empty());
    while i < words.len()
        invariant
            i <= words.len(),
            ws == buf_views(words@),
            ws == html_md_words(collapse_ws(text@)),
            ps == *protected,
            protected.regions.len() <= protected.tokens.len(),
            words_measure(text@, is_markdown, ps),
            (buf_views(lines@), buf_views(cur@), cur_width as int, first) == pwrap_scan(
                ws.take(i as int),
                width as int,
                initial_column as int,
                subsequent_offset as int,
                drop_whitespace,
                is_markdown,
                ps,
            ),
            cur_width <= 2 * (usize::MAX as u128),
        decreases words.len() - i,
    {
        proof {
            assert(ws.take(i + 1).drop_last() =~= ws.take(i as int));
            assert(ws.take(i + 1).last() == words@[i as int]@);
            assert(ws[i as int] == words@[i as int]@);
        }
        let (fw, lw, br) = measure_word(protected, &words[i]);
        let space: u128 = if cur.len() == 0 { 0 } else { 1 };
        if cur_width + space + fw as u128 <= width as u128 {
            let w = copy_word(&words[i]);
            push_buf(&mut cur, w);
            if br {
                cur_width = lw as u128;
                first = false;
            } else {
                cur_width = cur_width + space + lw as u128;
            }
        } else {
            if cur.len() > 0 {
                let l = line_of_words(&cur, drop_whitespace);
                push_buf(&mut lines, l);
                first = false;
            }
            let e = if is_markdown && !first {
                escape_word_chars(&words[i])
            } else {
                copy_word(&words[i])
            };
            let (_ef, el, eb) = measure_word(protected, &e);
            if eb {
                cur_width = el as u128;
                first = false;
            } else {
                cur_width = subsequent_offset as u128 + el as u128;
            }
            cur = Vec::new();
            push_buf(&mut cur, e);
        }
        assert(buf_views(lines@) =~= pwrap_scan(
            ws.take(i + 1),
            width as int,
            initial_column as int,
            subsequent_offset as int,
            drop_whitespace,
            is_markdown,
            ps,
        ).0);
        assert(buf_views(cur@) =~= pwrap_scan(
            ws.take(i + 1),
            width as int,
            initial_column as int,
            subsequent_offset as int,
            drop_whitespace,
            is_markdown,
            ps,
        ).1);
        i += 1;
    }
    assert(ws.take(words.len() as int) =~= ws);
    if cur.len() > 0 {
        let l = line_of_words(&cur, drop_whitespace);
        push_buf(&mut lines, l);
    }
    strings_of(&lines)
}

/// The text `wrap_paragraph_protected` returns: the wrapped lines, the first
/// with `initial_indent` and the others with `subsequent_indent`, joined by
/// line breaks, adjacent tags joined again.
pub open spec fn protected_paragraph(
    text: Seq<char>,
    width: int,
    initial_indent: Seq<char>,
    subsequent_indent: Seq<char>,
    md: bool,
    ps: ProtectedSource,
) -> Seq<char> {
    let lines = protected_wrapped_lines(
        text,
        width,
        initial_indent.len() as int,
        subsequent_indent.len() as int,
        true,
        md,
        ps,
    );
    rewrite_adjacent(join(indent_lines(lines, initial_indent, subsequent_indent, true), seq!['\n']), true)
}

/// Wraps a paragraph of parser-facing text with indents (see
/// [`protected_paragraph`]).
pub fn wrap_paragraph_protected(
    text: &str,
    width: usize,
    initial_indent: &str,
    subsequent_indent: &str,
    protected: &ProtectedSource,
    is_markdown: bool,
) -> (r: String)
    requires
        protected.regions.len() <= protected.tokens.len(),
        width != 0 ==> words_measure(text@, is_markdown, *protected),
    ensures
        r@ == protected_paragraph(
            text@,
            width as int,
            initial_indent@,
            subsequent_indent@,
            is_markdown,
            *protected,
        ),
{
    let ii = chars_of(initial_indent);
    let si = chars_of(subsequent_indent);
    let lines = wrap_paragraph_lines_protected(
        text,
        width,
        ii.len(),
        si.len(),
        true,
        is_markdown,
        protected,
    );
    let bufs = crate::text::bufs_of(&lines);
    let indented = indent_lines_chars(&bufs, &ii, &si, true);
    let mut nl: Vec<char> = Vec::new();
    nl.push('\n');
    assert(nl@ =~= seq!['\n']);
    let joined = join_bufs(&indented, &nl);
    let r = denormalize_adjacent_tags_chars(&joined);
    string_of(&r)
}

} // verus!
