//! Sentence splitting that never breaks inside an inline Markdown construct.
//!
//! Words are the white-space separated runs of the text, where a code span,
//! link, image, autolink or bare URL counts as one opaque piece glued to the
//! characters around it. Sentences are returned as verbatim slices of the
//! input, from the start of their first word to the end of their last.

use vstd::prelude::*;
use crate::regex_scan::{
    gap, group_or_empty, group_views, lemma_scan_prefix_mono, lemma_scan_text_prefix, regex_scan_of,
    scan, scan_prefix, scan_text, well_formed_scan, whole,
};
use crate::text::{chars_of, is_white_space, is_ws, slice_of, string_of, views};
use crate::wrapping::sentence::{ends_sentence, heuristic_end_of_sentence};

verus! {

/// Inline Markdown constructs a sentence is never broken inside: code spans,
/// images and links (inline or reference), autolinks and bare URLs.
pub const MARKDOWN_INLINE_PATTERN: &'static str = r"````[\s\S]*?````|```[\s\S]*?```|``[^`]+``|`[^`]+`|!?\[[^\]]*\](?:\([^)]*\)|\[[^\]]*\])?|<[a-zA-Z][a-zA-Z0-9+.\-]*:[^\s<>]*>|https?://[^\s<>]+";

/// Word scan state: finished word spans, the span of the word being read and
/// the current position (all in characters).
pub type SpanState = (Seq<(int, int)>, Option<(int, int)>, int);

pub open spec fn flush_span(spans: Seq<(int, int)>, open: Option<(int, int)>) -> Seq<(int, int)> {
    match open {
        Some(o) => spans.push(o),
        None => spans,
    }
}

/// A plain character: white space ends the word being read; anything else
/// extends it (or starts one).
pub open spec fn span_char(st: SpanState, c: char) -> SpanState {
    let p = st.2;
    if is_ws(c) {
        (flush_span(st.0, st.1), None, p + 1)
    } else {
        (
            st.0,
            Some(
                (
                    match st.1 {
                        Some(o) => o.0,
                        None => p,
                    },
                    p + 1,
                ),
            ),
            p + 1,
        )
    }
}

pub open spec fn span_chars(st: SpanState, s: Seq<char>) -> SpanState
    decreases s.len(),
{
    if s.len() == 0 {
        st
    } else {
        span_char(span_chars(st, s.drop_last()), s.last())
    }
}

/// An inline construct of `len` characters, glued to the word being read.
pub open spec fn span_atom(st: SpanState, len: int) -> SpanState {
    let p = st.2;
    if len == 0 {
        st
    } else {
        (
            st.0,
            Some(
                (
                    match st.1 {
                        Some(o) => o.0,
                        None => p,
                    },
                    p + len,
                ),
            ),
            p + len,
        )
    }
}

/// The word scan over the gaps and constructs before gap `k`.
pub open spec fn span_scan_upto(
    gaps: Seq<Seq<char>>,
    groups: Seq<Seq<Option<Seq<char>>>>,
    k: int,
) -> SpanState
    decreases k,
{
    if k <= 0 {
        (Seq::empty(), None, 0)
    } else {
        span_atom(
            span_chars(span_scan_upto(gaps, groups, k - 1), gaps[k - 1]),
            whole(groups[k - 1]).len() as int,
        )
    }
}

/// The spans of the words of a text cut into gaps and constructs.
pub open spec fn atomic_word_spans(
    gaps: Seq<Seq<char>>,
    groups: Seq<Seq<Option<Seq<char>>>>,
) -> Seq<(int, int)> {
    let st = span_chars(span_scan_upto(gaps, groups, groups.len() as int), gaps.last());
    flush_span(st.0, st.1)
}

/// The word spans of a text. (If the pattern did not compile, the text would
/// have no constructs.)
pub open spec fn text_word_spans(text: Seq<char>) -> Seq<(int, int)> {
    match regex_scan_of(MARKDOWN_INLINE_PATTERN@, text) {
        Some(sc) => atomic_word_spans(sc.0, sc.1),
        None => atomic_word_spans(seq![text], Seq::empty()),
    }
}

/// Sentence scan state: finished sentences, the span of the sentence being
/// read, and its character and word counts.
pub type SentenceState = (Seq<Seq<char>>, Option<(int, int)>, int, int);

/// One word: it joins the current sentence, which ends after it when the word
/// looks like the end of a sentence and the sentence (its word characters
/// plus one space between words) is at least `min_length` long.
pub open spec fn sentence_step(
    text: Seq<char>,
    min_length: int,
    st: SentenceState,
    sp: (int, int),
) -> SentenceState {
    let start = match st.1 {
        Some(o) => o.0,
        None => sp.0,
    };
    let chars = st.2 + (sp.1 - sp.0);
    let words = st.3 + 1;
    if ends_sentence(text.subrange(sp.0, sp.1)) && chars + words - 1 >= min_length {
        (st.0.push(text.subrange(start, sp.1)), None, 0, 0)
    } else {
        (st.0, Some((start, sp.1)), chars, words)
    }
}

pub open spec fn sentence_span_scan(
    text: Seq<char>,
    min_length: int,
    spans: Seq<(int, int)>,
) -> SentenceState
    decreases spans.len(),
{
    if spans.len() == 0 {
        (Seq::empty(), None, 0, 0)
    } else {
        sentence_step(text, min_length, sentence_span_scan(text, min_length, spans.drop_last()), spans.last())
    }
}

/// The sentences `split_sentences_atomic` returns.
pub open spec fn atomic_sentences(text: Seq<char>, min_length: int) -> Seq<Seq<char>> {
    let st = sentence_span_scan(text, min_length, text_word_spans(text));
    match st.1 {
        Some(o) => st.0.push(text.subrange(o.0, o.1)),
        None => st.0,
    }
}

// ---------------------------------------------------------------------------
// Facts about the scans
// ---------------------------------------------------------------------------

/// Spans in order, disjoint, non-empty and within `[lo, hi]`.
pub open spec fn spans_sorted(spans: Seq<(int, int)>, lo: int, hi: int) -> bool {
    &&& forall|i: int| 0 <= i < spans.len() ==> lo <= (#[trigger] spans[i]).0 < spans[i].1 <= hi
    &&& forall|i: int, j: int| 0 <= i < j < spans.len() ==> (#[trigger] spans[i]).1 <= (#[trigger] spans[j]).0
}

pub open spec fn span_state_ok(st: SpanState) -> bool {
    &&& 0 <= st.2
    &&& match st.1 {
        Some(o) => spans_sorted(st.0, 0, o.0) && 0 <= o.0 < o.1 && o.1 == st.2,
        None => spans_sorted(st.0, 0, st.2),
    }
}

proof fn lemma_flush_sorted(st: SpanState)
    requires
        span_state_ok(st),
    ensures
        spans_sorted(flush_span(st.0, st.1), 0, st.2),
{
    if let Some(o) = st.1 {
        let s2 = st.0.push(o);
        assert forall|i: int, j: int| 0 <= i < j < s2.len() implies (#[trigger] s2[i]).1 <= (#[trigger] s2[j]).0 by {
            if j == s2.len() - 1 {
                assert(s2[j] == o);
                assert(s2[i] == st.0[i]);
            } else {
                assert(s2[i] == st.0[i]);
                assert(s2[j] == st.0[j]);
            }
        }
        assert forall|i: int| 0 <= i < s2.len() implies 0 <= (#[trigger] s2[i]).0 < s2[i].1 <= st.2 by {
            if i < s2.len() - 1 {
                assert(s2[i] == st.0[i]);
            }
        }
    }
}

proof fn lemma_sorted_widen(spans: Seq<(int, int)>, lo: int, hi: int, hi2: int)
    requires
        spans_sorted(spans, lo, hi),
        hi <= hi2,
    ensures
        spans_sorted(spans, lo, hi2),
{
}

proof fn lemma_span_char(st: SpanState, c: char)
    requires
        span_state_ok(st),
    ensures
        span_state_ok(span_char(st, c)),
        span_char(st, c).2 == st.2 + 1,
{
    lemma_flush_sorted(st);
    if is_ws(c) {
        lemma_sorted_widen(flush_span(st.0, st.1), 0, st.2, st.2 + 1);
    }
}

proof fn lemma_span_chars(st: SpanState, s: Seq<char>)
    requires
        span_state_ok(st),
    ensures
        span_state_ok(span_chars(st, s)),
        span_chars(st, s).2 == st.2 + s.len(),
    decreases s.len(),
{
    if s.len() > 0 {
        lemma_span_chars(st, s.drop_last());
        lemma_span_char(span_chars(st, s.drop_last()), s.last());
    }
}

proof fn lemma_span_atom(st: SpanState, len: int)
    requires
        span_state_ok(st),
        0 <= len,
    ensures
        span_state_ok(span_atom(st, len)),
        span_atom(st, len).2 == st.2 + len,
{
}

proof fn lemma_span_scan_upto(gaps: Seq<Seq<char>>, groups: Seq<Seq<Option<Seq<char>>>>, k: int)
    requires
        0 <= k <= groups.len(),
        k < gaps.len(),
    ensures
        span_state_ok(span_scan_upto(gaps, groups, k)),
        span_scan_upto(gaps, groups, k).2 == scan_prefix(gaps, groups, k).len(),
    decreases k,
{
    if k > 0 {
        lemma_span_scan_upto(gaps, groups, k - 1);
        let st = span_scan_upto(gaps, groups, k - 1);
        lemma_span_chars(st, gaps[k - 1]);
        lemma_span_atom(span_chars(st, gaps[k - 1]), whole(groups[k - 1]).len() as int);
    }
}

/// The word spans of a text are in order, disjoint, non-empty and within it.
proof fn lemma_word_spans_sorted(gaps: Seq<Seq<char>>, groups: Seq<Seq<Option<Seq<char>>>>)
    requires
        gaps.len() == groups.len() + 1,
    ensures
        spans_sorted(atomic_word_spans(gaps, groups), 0, scan_text(gaps, groups).len() as int),
{
    let n = groups.len() as int;
    lemma_span_scan_upto(gaps, groups, n);
    let st = span_scan_upto(gaps, groups, n);
    lemma_span_chars(st, gaps.last());
    lemma_flush_sorted(span_chars(st, gaps.last()));
    lemma_scan_text_prefix(gaps, groups);
}

// ---------------------------------------------------------------------------
// Executable scans
// ---------------------------------------------------------------------------

pub open spec fn span_views(v: Seq<(usize, usize)>) -> Seq<(int, int)> {
    v.map_values(|p: (usize, usize)| (p.0 as int, p.1 as int))
}

pub open spec fn open_view(o: Option<(usize, usize)>) -> Option<(int, int)> {
    match o {
        Some(p) => Some((p.0 as int, p.1 as int)),
        None => None,
    }
}

fn push_span(spans: &mut Vec<(usize, usize)>, sp: (usize, usize))
    ensures
        span_views(final(spans)@) == span_views(old(spans)@).push((sp.0 as int, sp.1 as int)),
{
    spans.push(sp);
    assert(span_views(spans@) =~= span_views(old(spans)@).push((sp.0 as int, sp.1 as int)));
}

/// Runs the word scan over the characters of `g`, starting at `pos`.
fn scan_gap_chars(
    g: &Vec<char>,
    spans: &mut Vec<(usize, usize)>,
    open: &mut Option<(usize, usize)>,
    pos: &mut usize,
    limit: usize,
)
    requires
        span_state_ok((span_views(old(spans)@), open_view(*old(open)), *old(pos) as int)),
        *old(pos) + g@.len() <= limit,
    ensures
        (span_views(final(spans)@), open_view(*final(open)), *final(pos) as int) == span_chars(
            (span_views(old(spans)@), open_view(*old(open)), *old(pos) as int),
            g@,
        ),
        span_state_ok((span_views(final(spans)@), open_view(*final(open)), *final(pos) as int)),
{
    let ghost st0 = (span_views(spans@), open_view(*open), *pos as int);
    let ghost p0 = *pos;
    let mut j: usize = 0;
    while j < g.len()
        invariant
            j <= g.len(),
            p0 + g@.len() <= limit,
            span_state_ok(st0),
            (span_views(spans@), open_view(*open), *pos as int) == span_chars(st0, g@.take(j as int)),
            *pos == p0 + j,
        decreases g.len() - j,
    {
        proof {
            assert(g@.take(j + 1).drop_last() =~= g@.take(j as int));
            assert(g@.take(j + 1).last() == g@[j as int]);
            crate::wrapping::atomic_sentences::lemma_span_chars(st0, g@.take(j as int));
        }
        let c = g[j];
        let p = *pos;
        if is_white_space(c) {
            match *open {
                Some(o) => {
                    push_span(spans, o);
                },
                None => {},
            }
            *open = None;
        } else {
            let start = match *open {
                Some(o) => o.0,
                None => p,
            };
            *open = Some((start, p + 1));
        }
        *pos = p + 1;
        j += 1;
    }
    proof {
        assert(g@.take(g.len() as int) =~= g@);
        lemma_span_chars(st0, g@);
    }
}

/// The word spans of `text` (whose characters are `v`).
fn word_spans(text: &str, v: &Vec<char>) -> (r: Vec<(usize, usize)>)
    requires
        v@ == text@,
    ensures
        span_views(r@) == text_word_spans(text@),
        spans_sorted(span_views(r@), 0, v.len() as int),
{
    let mut spans: Vec<(usize, usize)> = Vec::new();
    let mut open: Option<(usize, usize)> = None;
    let mut pos: usize = 0;
    assert(span_views(spans@) =~= Seq::<(int, int)>::empty());
    match scan(MARKDOWN_INLINE_PATTERN, text) {
        None => {
            proof {
                assert(scan_text(seq![text@], Seq::empty()) == text@);
                lemma_word_spans_sorted(seq![text@], Seq::empty());
            }
            scan_gap_chars(v, &mut spans, &mut open, &mut pos, v.len());
            match open {
                Some(o) => push_span(&mut spans, o),
                None => {},
            }
            assert(span_views(spans@) == text_word_spans(text@));
            spans
        },
        Some(sc) => {
            let ghost gs = views(sc.gaps@);
            let ghost ms = group_views(sc.groups@);
            proof {
                lemma_scan_text_prefix(gs, ms);
                lemma_word_spans_sorted(gs, ms);
            }
            let n = v.len();
            let mut k: usize = 0;
            while k < sc.groups.len()
                invariant
                    k <= sc.groups.len(),
                    n == v.len(),
                    gs == views(sc.gaps@),
                    ms == group_views(sc.groups@),
                    well_formed_scan(gs, ms),
                    scan_text(gs, ms) == text@,
                    v@ == text@,
                    scan_text(gs, ms) == scan_prefix(gs, ms, ms.len() as int) + gs.last(),
                    (span_views(spans@), open_view(open), pos as int) == span_scan_upto(gs, ms, k as int),
                    pos as int == scan_prefix(gs, ms, k as int).len(),
                    span_state_ok((span_views(spans@), open_view(open), pos as int)),
                decreases sc.groups.len() - k,
            {
                let g = gap(&sc, k);
                proof {
                    lemma_scan_prefix_mono(gs, ms, k + 1, ms.len() as int);
                    assert(scan_prefix(gs, ms, k + 1) == scan_prefix(gs, ms, k as int) + gs[k as int] + whole(ms[k as int]));
                }
                let ghost st_before = (span_views(spans@), open_view(open), pos as int);
                scan_gap_chars(&g, &mut spans, &mut open, &mut pos, n);
                proof {
                    lemma_span_chars(st_before, gs[k as int]);
                }
                let m = group_or_empty(&sc, k, 0);
                assert(ms[k as int].len() >= 1 && ms[k as int][0] is Some);
                assert(m@ == whole(ms[k as int]));
                let len = m.len();
                if len > 0 {
                    let start = match open {
                        Some(o) => o.0,
                        None => pos,
                    };
                    open = Some((start, pos + len));
                    pos = pos + len;
                }
                k += 1;
            }
            let g = gap(&sc, k);
            assert(gs.last() == gs[k as int]);
            scan_gap_chars(&g, &mut spans, &mut open, &mut pos, n);
            match open {
                Some(o) => push_span(&mut spans, o),
                None => {},
            }
            assert(span_views(spans@) == text_word_spans(text@));
            spans
        },
    }
}

/// Atomic-aware sentence splitting: sentences end after a word that looks
/// like the end of a sentence once they are at least `min_length` long
/// (counting the characters of their words and one space between words);
/// no sentence ends inside a code span, link, image, autolink or URL. Each
/// sentence is the slice of the text from its first word to its last.
pub fn split_sentences_atomic(text: &str, min_length: usize) -> (r: Vec<String>)
    ensures
        views(r@) == atomic_sentences(text@, min_length as int),
{
    let v = chars_of(text);
    let spans = word_spans(text, &v);
    let ghost sv = span_views(spans@);
    let ghost n = v.len() as int;
    let mut done: Vec<String> = Vec::new();
    let mut open: Option<(usize, usize)> = None;
    let mut chars: usize = 0;
    let mut words: usize = 0;
    let mut i: usize = 0;
    assert(views(done@) =~= Seq::<Seq<char>>::empty());
    while i < spans.len()
        invariant
            i <= spans.len(),
            sv == span_views(spans@),
            n == v.len(),
            v@ == text@,
            spans_sorted(sv, 0, n),
            (views(done@), open_view(open), chars as int, words as int) == sentence_span_scan(
                text@,
                min_length as int,
                sv.take(i as int),
            ),
            match open {
                Some(o) => {
                    &&& i > 0
                    &&& o.0 <= o.1
                    &&& o.1 == sv[i - 1].1
                    &&& words <= chars <= o.1 - o.0
                },
                None => chars == 0 && words == 0,
            },
        decreases spans.len() - i,
    {
        proof {
            assert(sv.take(i + 1).drop_last() =~= sv.take(i as int));
            assert(sv.take(i + 1).last() == sv[i as int]);
            assert(sv[i as int] == (spans@[i as int].0 as int, spans@[i as int].1 as int));
            if i > 0 {
                assert(sv[i - 1].1 <= sv[i as int].0);
            }
        }
        let (a, b) = spans[i];
        let start = match open {
            Some(o) => o.0,
            None => a,
        };
        let c2 = chars + (b - a);
        let w2 = words + 1;
        let word = slice_of(&v, a, b);
        let ws = string_of(&word);
        if heuristic_end_of_sentence(ws.as_str()) && (c2 as u128) + (w2 as u128) - 1 >= min_length as u128 {
            let sent = slice_of(&v, start, b);
            done.push(string_of(&sent));
            open = None;
            chars = 0;
            words = 0;
        } else {
            open = Some((start, b));
            chars = c2;
            words = w2;
        }
        proof {
            assert(views(done@) == sentence_span_scan(text@, min_length as int, sv.take(i + 1)).0);
        }
        i += 1;
    }
    assert(sv.take(spans.len() as int) =~= sv);
    match open {
        Some(o) => {
            let sent = slice_of(&v, o.0, o.1);
            done.push(string_of(&sent));
        },
        None => {},
    }
    proof {
        assert(views(done@) =~= atomic_sentences(text@, min_length as int));
    }
    done
}

} // verus!
