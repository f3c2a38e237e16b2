//! Template tags (Jinja/Markdoc `{% %}`, `{# #}`, `{{ }}`) and HTML comments
//! during wrapping: keeping adjacent tags apart as separate words, and keeping
//! tags and block content on lines of their own.

use vstd::prelude::*;
use crate::text::{
    append_chars, buf_views, chars_of, contains_char, is_white_space, is_ws, join, join_bufs,
    lemma_split_on, matches_at_buf, occurs_at, skip_ws_backward, skip_ws_forward, slice_of,
    split_char, split_on, string_of, trim, trim_bounds, trim_chars, trim_end, trim_end_chars,
    trim_start, trim_start_chars,
};
use crate::wrapping::block_heuristics::{block_content_chars, is_block_content};

verus! {

/// Opening delimiter of tag kind `k`: `{%`, `{#`, `{{`, `<!--`.
pub open spec fn open_delim(k: int) -> Seq<char> {
    if k == 0 {
        seq!['{', '%']
    } else if k == 1 {
        seq!['{', '#']
    } else if k == 2 {
        seq!['{', '{']
    } else {
        seq!['<', '!', '-', '-']
    }
}

/// Closing delimiter of tag kind `k`: `%}`, `#}`, `}}`, `-->`.
pub open spec fn close_delim(k: int) -> Seq<char> {
    if k == 0 {
        seq!['%', '}']
    } else if k == 1 {
        seq!['#', '}']
    } else if k == 2 {
        seq!['}', '}']
    } else {
        seq!['-', '-', '>']
    }
}

pub fn open_delim_buf(k: usize) -> (r: Vec<char>)
    requires
        k < 4,
    ensures
        r@ == open_delim(k as int),
{
    let mut r: Vec<char> = Vec::new();
    if k == 0 {
        r.push('{');
        r.push('%');
    } else if k == 1 {
        r.push('{');
        r.push('#');
    } else if k == 2 {
        r.push('{');
        r.push('{');
    } else {
        r.push('<');
        r.push('!');
        r.push('-');
        r.push('-');
    }
    assert(r@ =~= open_delim(k as int));
    r
}

pub fn close_delim_buf(k: usize) -> (r: Vec<char>)
    requires
        k < 4,
    ensures
        r@ == close_delim(k as int),
{
    let mut r: Vec<char> = Vec::new();
    if k == 0 {
        r.push('%');
        r.push('}');
    } else if k == 1 {
        r.push('#');
        r.push('}');
    } else if k == 2 {
        r.push('}');
        r.push('}');
    } else {
        r.push('-');
        r.push('-');
        r.push('>');
    }
    assert(r@ =~= close_delim(k as int));
    r
}

/// A closing delimiter directly (or, with `spaced`, after one space) followed
/// by the opening delimiter of the same kind.
pub open spec fn adjacent_pattern(k: int, spaced: bool) -> Seq<char> {
    close_delim(k) + (if spaced {
        seq![' ']
    } else {
        Seq::empty()
    }) + open_delim(k)
}

/// The first kind (in the order tag, comment, variable, HTML comment) whose
/// adjacent pattern starts `s`, or 4.
pub open spec fn first_adjacent(s: Seq<char>, spaced: bool, k: int) -> int
    decreases 4 - k,
{
    if k >= 4 {
        4
    } else if occurs_at(s, 0, adjacent_pattern(k, spaced)) {
        k
    } else {
        first_adjacent(s, spaced, k + 1)
    }
}

/// Leftmost-first rewriting of adjacent tag pairs: with `spaced` false a
/// space is inserted between them, with `spaced` true the space is removed.
pub open spec fn rewrite_adjacent(s: Seq<char>, spaced: bool) -> Seq<char>
    decreases s.len(),
{
    if s.len() == 0 {
        Seq::empty()
    } else {
        let k = first_adjacent(s, spaced, 0);
        if 0 <= k < 4 {
            proof {
                lemma_first_adjacent_range(s, spaced, 0);
            }
            adjacent_pattern(k, !spaced) + rewrite_adjacent(
                s.skip(adjacent_pattern(k, spaced).len() as int),
                spaced,
            )
        } else {
            seq![s[0]] + rewrite_adjacent(s.skip(1), spaced)
        }
    }
}

pub proof fn lemma_first_adjacent_range(s: Seq<char>, spaced: bool, k: int)
    requires
        0 <= k,
    ensures
        k <= first_adjacent(s, spaced, k) <= 4 || k > 4,
        first_adjacent(s, spaced, k) < 4 ==> occurs_at(
            s,
            0,
            adjacent_pattern(first_adjacent(s, spaced, k), spaced),
        ),
    decreases 4 - k,
{
    if k < 4 && !occurs_at(s, 0, adjacent_pattern(k, spaced)) {
        lemma_first_adjacent_range(s, spaced, k + 1);
    }
}

fn adjacent_pattern_buf(k: usize, spaced: bool) -> (r: Vec<char>)
    requires
        k < 4,
    ensures
        r@ == adjacent_pattern(k as int, spaced),
{
    let mut r = close_delim_buf(k);
    if spaced {
        r.push(' ');
    }
    let o = open_delim_buf(k);
    append_chars(&mut r, &o);
    assert(r@ =~= adjacent_pattern(k as int, spaced));
    r
}

/// The first kind whose adjacent pattern occurs at position `i` of `v`, or 4.
fn first_adjacent_at(v: &Vec<char>, i: usize, spaced: bool) -> (k: usize)
    requires
        i < v.len(),
    ensures
        k == first_adjacent(v@.skip(i as int), spaced, 0),
        k <= 4,
{
    let ghost rest = v@.skip(i as int);
    let mut k: usize = 0;
    while k < 4
        invariant
            i < v.len(),
            rest == v@.skip(i as int),
            k <= 4,
            first_adjacent(rest, spaced, 0) == first_adjacent(rest, spaced, k as int),
        decreases 4 - k,
    {
        let p = adjacent_pattern_buf(k, spaced);
        if matches_at_buf(v, i, &p) {
            assert(occurs_at(rest, 0, adjacent_pattern(k as int, spaced))) by {
                assert(rest.subrange(0, p@.len() as int) =~= v@.subrange(i as int, i + p@.len()));
            }
            return k;
        }
        assert(!occurs_at(rest, 0, adjacent_pattern(k as int, spaced))) by {
            if i + p@.len() <= v@.len() {
                assert(rest.subrange(0, p@.len() as int) =~= v@.subrange(i as int, i + p@.len()));
            }
        }
        k += 1;
    }
    k
}

fn rewrite_adjacent_chars(v: &Vec<char>, spaced: bool) -> (r: Vec<char>)
    ensures
        r@ == rewrite_adjacent(v@, spaced),
{
    let mut out: Vec<char> = Vec::new();
    let mut i: usize = 0;
    assert(v@.skip(0) =~= v@);
    while i < v.len()
        invariant
            i <= v.len(),
            out@ + rewrite_adjacent(v@.skip(i as int), spaced) == rewrite_adjacent(v@, spaced),
        decreases v.len() - i,
    {
        let ghost rest = v@.skip(i as int);
        let k = first_adjacent_at(v, i, spaced);
        let found = k < 4;
        if found {
            let p = adjacent_pattern_buf(k, spaced);
            let q = adjacent_pattern_buf(k, !spaced);
            append_chars(&mut out, &q);
            proof {
                lemma_first_adjacent_range(rest, spaced, 0);
                assert(rest.skip(p@.len() as int) =~= v@.skip(i + p@.len()));
            }
            i = i + p.len();
        } else {
            out.push(v[i]);
            proof {
                assert(rest.skip(1) =~= v@.skip(i + 1));
                assert(rest[0] == v@[i as int]);
            }
            i = i + 1;
        }
    }
    assert(rewrite_adjacent(v@.skip(i as int), spaced) =~= Seq::<char>::empty());
    assert(out@ =~= out@ + Seq::<char>::empty());
    out
}

/// Add a space between adjacent tags so they become separate tokens.
pub fn normalize_adjacent_tags(text: &str) -> (r: String)
    ensures
        r@ == rewrite_adjacent(text@, false),
{
    let v = chars_of(text);
    let r = rewrite_adjacent_chars(&v, false);
    string_of(&r)
}

/// Remove spaces between adjacent tags that were added during word splitting.
pub fn denormalize_adjacent_tags(text: &str) -> (r: String)
    ensures
        r@ == rewrite_adjacent(text@, true),
{
    let v = chars_of(text);
    let r = rewrite_adjacent_chars(&v, true);
    string_of(&r)
}

pub fn normalize_adjacent_tags_chars(v: &Vec<char>) -> (r: Vec<char>)
    ensures
        r@ == rewrite_adjacent(v@, false),
{
    rewrite_adjacent_chars(v, false)
}

pub fn denormalize_adjacent_tags_chars(v: &Vec<char>) -> (r: Vec<char>)
    ensures
        r@ == rewrite_adjacent(v@, true),
{
    rewrite_adjacent_chars(v, true)
}

// ---------------------------------------------------------------------------
// Line predicates
// ---------------------------------------------------------------------------

pub open spec fn starts_with_open(s: Seq<char>) -> bool {
    exists|k: int| 0 <= k < 4 && occurs_at(s, 0, #[trigger] open_delim(k))
}

pub open spec fn ends_with_close(s: Seq<char>) -> bool {
    exists|k: int| 0 <= k < 4 && occurs_at(s, s.len() - close_delim(k).len(), #[trigger] close_delim(k))
}

/// A line that starts and ends with tag delimiters and is not indented.
pub open spec fn is_tag_only(line: Seq<char>) -> bool {
    let t = trim(line);
    !(line.len() > 0 && is_ws(line[0])) && t.len() > 0 && starts_with_open(t) && ends_with_close(t)
}

/// A line whose text (after leading white space) starts with a tag delimiter.
pub open spec fn starts_with_tag(line: Seq<char>) -> bool {
    let t = trim_start(line);
    t.len() > 0 && starts_with_open(t)
}

/// A line whose text (before trailing white space) ends with a tag delimiter.
pub open spec fn ends_with_tag(line: Seq<char>) -> bool {
    let t = trim_end(line);
    t.len() > 0 && ends_with_close(t)
}

pub open spec fn unindented_tag(line: Seq<char>) -> bool {
    line.len() > 0 && !is_ws(line[0]) && starts_with_tag(line)
}

/// Opening delimiter, a space and a slash: `{% /`, `{# /`, `{{ /`, `<!-- /`.
pub open spec fn closing_opener(k: int) -> Seq<char> {
    open_delim(k) + seq![' ', '/']
}

pub open spec fn is_closing(line: Seq<char>) -> bool {
    exists|k: int| 0 <= k < 4 && occurs_at(trim_start(line), 0, #[trigger] closing_opener(k))
}

fn starts_with_open_buf(t: &Vec<char>) -> (b: bool)
    ensures
        b == starts_with_open(t@),
{
    let mut k: usize = 0;
    while k < 4
        invariant
            k <= 4,
            forall|j: int| 0 <= j < k ==> !occurs_at(t@, 0, #[trigger] open_delim(j)),
        decreases 4 - k,
    {
        let o = open_delim_buf(k);
        if matches_at_buf(t, 0, &o) {
            return true;
        }
        k += 1;
    }
    false
}

fn ends_with_close_buf(t: &Vec<char>) -> (b: bool)
    ensures
        b == ends_with_close(t@),
{
    let mut k: usize = 0;
    while k < 4
        invariant
            k <= 4,
            forall|j: int|
                0 <= j < k ==> !occurs_at(t@, t@.len() - close_delim(j).len(), #[trigger] close_delim(j)),
        decreases 4 - k,
    {
        let c = close_delim_buf(k);
        if c.len() <= t.len() && matches_at_buf(t, t.len() - c.len(), &c) {
            return true;
        }
        k += 1;
    }
    false
}

pub fn tag_only_chars(line: &Vec<char>) -> (b: bool)
    ensures
        b == is_tag_only(line@),
{
    if line.len() > 0 && is_white_space(line[0]) {
        return false;
    }
    let t = trim_chars(line);
    t.len() > 0 && starts_with_open_buf(&t) && ends_with_close_buf(&t)
}

pub fn starts_with_tag_chars(line: &Vec<char>) -> (b: bool)
    ensures
        b == starts_with_tag(line@),
{
    let t = trim_start_chars(line);
    t.len() > 0 && starts_with_open_buf(&t)
}

pub fn ends_with_tag_chars(line: &Vec<char>) -> (b: bool)
    ensures
        b == ends_with_tag(line@),
{
    let t = trim_end_chars(line);
    t.len() > 0 && ends_with_close_buf(&t)
}

pub fn unindented_tag_chars(line: &Vec<char>) -> (b: bool)
    ensures
        b == unindented_tag(line@),
{
    line.len() > 0 && !is_white_space(line[0]) && starts_with_tag_chars(line)
}

pub fn closing_chars(line: &Vec<char>) -> (b: bool)
    ensures
        b == is_closing(line@),
{
    let t = trim_start_chars(line);
    let mut k: usize = 0;
    while k < 4
        invariant
            k <= 4,
            t@ == trim_start(line@),
            forall|j: int| 0 <= j < k ==> !occurs_at(t@, 0, #[trigger] closing_opener(j)),
        decreases 4 - k,
    {
        let mut p = open_delim_buf(k);
        p.push(' ');
        p.push('/');
        assert(p@ =~= closing_opener(k as int));
        if matches_at_buf(&t, 0, &p) {
            return true;
        }
        k += 1;
    }
    false
}

/// Check if a line ends with a Jinja/Markdoc tag or HTML comment.
pub fn line_ends_with_tag(line: &str) -> (b: bool)
    ensures
        b == ends_with_tag(line@),
{
    let v = chars_of(line);
    ends_with_tag_chars(&v)
}

/// Check if a line starts with a Jinja/Markdoc tag or HTML comment.
pub fn line_starts_with_tag(line: &str) -> (b: bool)
    ensures
        b == starts_with_tag(line@),
{
    let v = chars_of(line);
    starts_with_tag_chars(&v)
}

// ---------------------------------------------------------------------------
// Line rewriting
// ---------------------------------------------------------------------------

/// Lines produced for the first `n` input lines, each input line contributing
/// the lines `f(i)`.
pub open spec fn gather(f: spec_fn(int) -> Seq<Seq<char>>, n: int) -> Seq<Seq<char>>
    decreases n,
{
    if n <= 0 {
        Seq::empty()
    } else {
        gather(f, n - 1) + f(n - 1)
    }
}

pub open spec fn blank_line(line: Seq<char>) -> bool {
    trim(line).len() == 0
}

/// What line `i` contributes when blank lines are added around block content
/// inside tags: a blank line before it when it is block content after a
/// tag-only line, or a tag-only line after block content.
pub open spec fn spacing_contribution(lines: Seq<Seq<char>>, i: int) -> Seq<Seq<char>> {
    let line = lines[i];
    let prev = lines[i - 1];
    let case1 = i > 0 && !blank_line(prev) && is_tag_only(prev) && is_block_content(line);
    let case2 = i > 0 && !blank_line(prev) && is_block_content(prev) && is_tag_only(line);
    (if case1 {
        seq![Seq::<char>::empty()]
    } else {
        Seq::empty()
    }) + (if case2 {
        seq![Seq::<char>::empty()]
    } else {
        Seq::empty()
    }) + seq![line]
}

pub open spec fn tag_block_spacing(text: Seq<char>) -> Seq<char> {
    let lines = split_on(text, '\n');
    if !(exists|i: int| 0 <= i < lines.len() && is_tag_only(#[trigger] lines[i])) {
        text
    } else {
        join(gather(|i: int| spacing_contribution(lines, i), lines.len() as int), seq!['\n'])
    }
}

fn push_line(out: &mut Vec<Vec<char>>, line: Vec<char>)
    ensures
        buf_views(final(out)@) == buf_views(old(out)@).push(line@),
{
    out.push(line);
    assert(buf_views(out@) =~= buf_views(old(out)@).push(line@));
}

fn newline_buf() -> (r: Vec<char>)
    ensures
        r@ == seq!['\n'],
{
    let mut r: Vec<char> = Vec::new();
    r.push('\n');
    assert(r@ =~= seq!['\n']);
    r
}

/// Preprocess text to ensure proper blank lines around block content within tags.
pub fn preprocess_tag_block_spacing(text: &str) -> (r: String)
    ensures
        r@ == tag_block_spacing(text@),
{
    let v = chars_of(text);
    let lines = split_char(&v, '\n');
    let ghost ls = split_on(v@, '\n');
    let mut any = false;
    let mut j: usize = 0;
    while j < lines.len()
        invariant
            j <= lines.len(),
            buf_views(lines@) == ls,
            any ==> exists|i: int| 0 <= i < ls.len() && is_tag_only(#[trigger] ls[i]),
            !any ==> forall|i: int| 0 <= i < j ==> !is_tag_only(#[trigger] ls[i]),
        decreases lines.len() - j,
    {
        assert(lines@[j as int]@ == ls[j as int]);
        if tag_only_chars(&lines[j]) {
            any = true;
        }
        j += 1;
    }
    if !any {
        return string_of(&v);
    }
    let ghost f = |i: int| spacing_contribution(ls, i);
    let mut out: Vec<Vec<char>> = Vec::new();
    let mut i: usize = 0;
    assert(buf_views(out@) =~= gather(f, 0));
    while i < lines.len()
        invariant
            i <= lines.len(),
            buf_views(lines@) == ls,
            f == (|i: int| spacing_contribution(ls, i)),
            buf_views(out@) == gather(f, i as int),
        decreases lines.len() - i,
    {
        assert(lines@[i as int]@ == ls[i as int]);
        if i > 0 {
            assert(lines@[i - 1]@ == ls[i - 1]);
            let prev_blank = trim_chars(&lines[i - 1]).len() == 0;
            if !prev_blank && tag_only_chars(&lines[i - 1]) && block_content_chars(&lines[i]) {
                push_line(&mut out, Vec::new());
            }
            if !prev_blank && block_content_chars(&lines[i - 1]) && tag_only_chars(&lines[i]) {
                push_line(&mut out, Vec::new());
            }
        }
        let line = slice_of(&lines[i], 0, lines[i].len());
        assert(lines@[i as int]@.subrange(0, lines@[i as int]@.len() as int) =~= lines@[i as int]@);
        push_line(&mut out, line);
        assert(buf_views(out@) =~= gather(f, i + 1));
        i += 1;
    }
    let nl = newline_buf();
    let joined = join_bufs(&out, &nl);
    string_of(&joined)
}

/// What line `i` contributes when closing tags are moved to the start of their
/// line: a closing tag loses its indentation and gets a blank line before it
/// when the line before it is block content.
pub open spec fn fixed_line(line: Seq<char>) -> Seq<char> {
    if is_closing(line) {
        trim_start(line)
    } else {
        line
    }
}

pub open spec fn closing_contribution(lines: Seq<Seq<char>>, i: int) -> Seq<Seq<char>> {
    if is_closing(lines[i]) {
        let prev = fixed_line(lines[i - 1]);
        if i > 0 && !blank_line(prev) && is_block_content(prev) {
            seq![Seq::<char>::empty(), trim_start(lines[i])]
        } else {
            seq![trim_start(lines[i])]
        }
    } else {
        seq![lines[i]]
    }
}

pub open spec fn closing_tag_spacing(text: Seq<char>) -> Seq<char> {
    let lines = split_on(text, '\n');
    join(gather(|i: int| closing_contribution(lines, i), lines.len() as int), seq!['\n'])
}

fn fixed_line_chars(line: &Vec<char>) -> (r: Vec<char>)
    ensures
        r@ == fixed_line(line@),
{
    if closing_chars(line) {
        trim_start_chars(line)
    } else {
        let r = slice_of(line, 0, line.len());
        assert(line@.subrange(0, line@.len() as int) =~= line@);
        r
    }
}

/// Fix closing tag spacing for block content.
pub fn fix_closing_tag_spacing(text: &str) -> (r: String)
    ensures
        r@ == closing_tag_spacing(text@),
{
    let v = chars_of(text);
    let lines = split_char(&v, '\n');
    let ghost ls = split_on(v@, '\n');
    let ghost f = |i: int| closing_contribution(ls, i);
    let mut out: Vec<Vec<char>> = Vec::new();
    let mut i: usize = 0;
    assert(buf_views(out@) =~= gather(f, 0));
    while i < lines.len()
        invariant
            i <= lines.len(),
            buf_views(lines@) == ls,
            f == (|i: int| closing_contribution(ls, i)),
            buf_views(out@) == gather(f, i as int),
        decreases lines.len() - i,
    {
        assert(lines@[i as int]@ == ls[i as int]);
        if closing_chars(&lines[i]) {
            let stripped = trim_start_chars(&lines[i]);
            if i > 0 {
                assert(lines@[i - 1]@ == ls[i - 1]);
                let prev = fixed_line_chars(&lines[i - 1]);
                let prev_blank = trim_chars(&prev).len() == 0;
                if !prev_blank && block_content_chars(&prev) {
                    push_line(&mut out, Vec::new());
                }
            }
            push_line(&mut out, stripped);
        } else {
            let line = slice_of(&lines[i], 0, lines[i].len());
            assert(lines@[i as int]@.subrange(0, lines@[i as int]@.len() as int)
                =~= lines@[i as int]@);
            push_line(&mut out, line);
        }
        assert(buf_views(out@) =~= gather(f, i + 1));
        i += 1;
    }
    let nl = newline_buf();
    let joined = join_bufs(&out, &nl);
    string_of(&joined)
}

/// Whether `close_delim(k)`, optional white space, `open_delim(k)`, optional
/// white space and `/` occur at position `p` (one alternative of the pattern
/// that finds a closing tag after the end of another tag).
pub open spec fn closing_after_tag_at(s: Seq<char>, p: int, k: int) -> bool {
    let q = p + close_delim(k).len() + crate::text::lead_ws(s.skip(p + close_delim(k).len()));
    let r = q + open_delim(k).len() + crate::text::lead_ws(s.skip(q + open_delim(k).len()));
    &&& occurs_at(s, p, close_delim(k))
    &&& occurs_at(s, q, open_delim(k))
    &&& r < s.len()
    &&& s[r] == '/'
}

/// Where the opening delimiter of that closing tag starts.
pub open spec fn closing_split_point(s: Seq<char>, p: int, k: int) -> int {
    p + close_delim(k).len() + crate::text::lead_ws(s.skip(p + close_delim(k).len()))
}

/// First alternative (in pattern order) matching at `p`, or 4.
pub open spec fn closing_alternative(s: Seq<char>, p: int, k: int) -> int
    decreases 4 - k,
{
    if k >= 4 {
        4
    } else if closing_after_tag_at(s, p, k) {
        k
    } else {
        closing_alternative(s, p, k + 1)
    }
}

/// Leftmost position at or after `p` where some alternative matches, or the
/// length of `s`.
pub open spec fn first_closing_match(s: Seq<char>, p: int) -> int
    decreases s.len() - p,
{
    if p >= s.len() {
        s.len() as int
    } else if closing_alternative(s, p, 0) < 4 {
        p
    } else {
        first_closing_match(s, p + 1)
    }
}

/// What line `i` contributes when a closing tag that follows another tag on a
/// continuation line is moved to a line of its own.
pub open spec fn multiline_contribution(lines: Seq<Seq<char>>, i: int) -> Seq<Seq<char>> {
    let line = lines[i];
    let p = first_closing_match(line, 0);
    if i == 0 || starts_with_open(trim_start(line)) || p >= line.len() {
        seq![line]
    } else {
        let split = closing_split_point(line, p, closing_alternative(line, p, 0));
        seq![trim_end(line.take(split)), trim_start(line.skip(split))]
    }
}

pub open spec fn multiline_closing_fix(text: Seq<char>) -> Seq<char> {
    if !text.contains('\n') {
        text
    } else {
        let lines = split_on(text, '\n');
        join(gather(|i: int| multiline_contribution(lines, i), lines.len() as int), seq!['\n'])
    }
}

pub proof fn lemma_closing_alternative_range(s: Seq<char>, p: int, k: int)
    requires
        0 <= k,
    ensures
        k <= closing_alternative(s, p, k) <= 4 || k > 4,
        closing_alternative(s, p, k) < 4 ==> closing_after_tag_at(s, p, closing_alternative(s, p, k)),
    decreases 4 - k,
{
    if k < 4 && !closing_after_tag_at(s, p, k) {
        lemma_closing_alternative_range(s, p, k + 1);
    }
}

fn closing_after_tag_buf(v: &Vec<char>, p: usize, k: usize) -> (r: (bool, usize))
    requires
        p <= v.len(),
        k < 4,
    ensures
        r.0 == closing_after_tag_at(v@, p as int, k as int),
        r.0 ==> r.1 == closing_split_point(v@, p as int, k as int),
        r.1 <= v.len(),
{
    let c = close_delim_buf(k);
    if !matches_at_buf(v, p, &c) {
        return (false, 0);
    }
    let q = skip_ws_forward(v, p + c.len(), v.len());
    assert(v@.subrange((p + c.len()) as int, v@.len() as int) =~= v@.skip(p + c.len()));
    let o = open_delim_buf(k);
    if !matches_at_buf(v, q, &o) {
        return (false, 0);
    }
    let r = skip_ws_forward(v, q + o.len(), v.len());
    assert(v@.subrange((q + o.len()) as int, v@.len() as int) =~= v@.skip(q + o.len()));
    if r < v.len() && v[r] == '/' {
        (true, q)
    } else {
        (false, 0)
    }
}

/// The first closing-after-tag match of a line: its split point, if any.
fn find_closing_split(v: &Vec<char>) -> (r: Option<usize>)
    ensures
        match r {
            Some(split) => split <= v@.len() && first_closing_match(v@, 0) < v@.len() && split == closing_split_point(
                v@,
                first_closing_match(v@, 0),
                closing_alternative(v@, first_closing_match(v@, 0), 0),
            ),
            None => first_closing_match(v@, 0) >= v@.len(),
        },
{
    let mut p: usize = 0;
    while p < v.len()
        invariant
            p <= v.len(),
            first_closing_match(v@, p as int) == first_closing_match(v@, 0),
        decreases v.len() - p,
    {
        let mut k: usize = 0;
        while k < 4
            invariant
                p < v.len(),
                k <= 4,
                first_closing_match(v@, p as int) == first_closing_match(v@, 0),
                closing_alternative(v@, p as int, 0) == closing_alternative(v@, p as int, k as int),
            decreases 4 - k,
        {
            let (hit, split) = closing_after_tag_buf(v, p, k);
            if hit {
                assert(closing_alternative(v@, p as int, k as int) == k);
                assert(first_closing_match(v@, p as int) == p);
                proof {
                    lemma_closing_alternative_range(v@, p as int, 0);
                }
                return Some(split);
            }
            k += 1;
        }
        p += 1;
    }
    None
}

/// Ensure closing tags are on their own line when the opening tag spans multiple lines.
pub fn fix_multiline_opening_tag_with_closing(text: &str) -> (r: String)
    ensures
        r@ == multiline_closing_fix(text@),
{
    let v = chars_of(text);
    if !contains_char(&v, '\n') {
        return string_of(&v);
    }
    let lines = split_char(&v, '\n');
    let ghost ls = split_on(v@, '\n');
    let ghost f = |i: int| multiline_contribution(ls, i);
    let mut out: Vec<Vec<char>> = Vec::new();
    let mut i: usize = 0;
    assert(buf_views(out@) =~= gather(f, 0));
    while i < lines.len()
        invariant
            i <= lines.len(),
            buf_views(lines@) == ls,
            f == (|i: int| multiline_contribution(ls, i)),
            buf_views(out@) == gather(f, i as int),
        decreases lines.len() - i,
    {
        assert(lines@[i as int]@ == ls[i as int]);
        let line = slice_of(&lines[i], 0, lines[i].len());
        assert(lines@[i as int]@.subrange(0, lines@[i as int]@.len() as int) =~= lines@[i as int]@);
        let mut split_at: Option<usize> = None;
        if i > 0 {
            let stripped = trim_start_chars(&line);
            if !starts_with_open_buf(&stripped) {
                split_at = find_closing_split(&line);
            }
        }
        match split_at {
            Some(split) => {
                proof {
                    let p = first_closing_match(line@, 0);
                    lemma_closing_alternative_range(line@, p, 0);
                    crate::text::lemma_lead_ws(line@.skip(p + close_delim(closing_alternative(line@, p, 0)).len()));
                }
                let before = slice_of(&line, 0, split);
                let after = slice_of(&line, split, line.len());
                assert(before@ =~= line@.take(split as int));
                assert(after@ =~= line@.skip(split as int));
                let b = trim_end_chars(&before);
                let a = trim_start_chars(&after);
                push_line(&mut out, b);
                push_line(&mut out, a);
            },
            None => {
                push_line(&mut out, line);
            },
        }
        assert(buf_views(out@) =~= gather(f, i + 1));
        i += 1;
    }
    let nl = newline_buf();
    let joined = join_bufs(&out, &nl);
    string_of(&joined)
}

} // verus!
