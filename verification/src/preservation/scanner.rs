//! Parser-independent scanner for source-exact regions: code spans and
//! inline math inside paragraphs, headings and table cells, and display
//! math blocks, outside front matter and code blocks.
//!
//! Positions are scalar offsets into the normalized source.

use vstd::prelude::*;
use crate::preservation::inline_scan::{
    Cand, append_cands, arbitrate, arbitrated, cand_view, cand_views, escape_even, escape_is_even,
    inline_scope_regions, proper_cand, proper_cands, scan_backticks, backtick_spans, scan_inline_scope,
    sort_by_start, sort_candidates, copy_candidate,
};
use crate::preservation::lines::{
    ContainerFrame, ContainerKind, Line, LineView, all_blank, build_lines, consume_indent, consume_whitespace,
    indent_end, is_blank_char, line_view, line_views, match_frame, match_frame_exec, short_enough, source_lines,
    ws_end,
};
use crate::preservation::model::{
    Candidate, NormalizedSource, PreservationError, ProtectedRegion, RegionKind, candidate_result, line_widths,
    usize_views,
};
use crate::text::{chars_of, slice_of};

verus! {

// ---------------------------------------------------------------------------
// Line payloads
// ---------------------------------------------------------------------------

/// The text without its trailing spaces and tabs.
pub open spec fn trim_end_blanks(s: Seq<char>) -> Seq<char>
    decreases s.len(),
{
    if s.len() > 0 && is_blank_char(s.last()) {
        trim_end_blanks(s.drop_last())
    } else {
        s
    }
}

fn trim_end_blanks_exec(v: &Vec<char>, a: usize, b: usize) -> (r: Vec<char>)
    requires
        a <= b <= v.len(),
    ensures
        r@ == trim_end_blanks(v@.subrange(a as int, b as int)),
{
    let mut e = b;
    while e > a && (v[e - 1] == ' ' || v[e - 1] == '\t')
        invariant
            a <= e <= b <= v.len(),
            trim_end_blanks(v@.subrange(a as int, b as int)) == trim_end_blanks(v@.subrange(a as int, e as int)),
        decreases e,
    {
        assert(v@.subrange(a as int, e as int).drop_last() =~= v@.subrange(a as int, e - 1));
        e -= 1;
    }
    slice_of(v, a, e)
}

/// Where a line's payload starts: after its container markers and up to
/// three columns of indent.
pub open spec fn payload_start(t: Seq<char>, l: LineView) -> int {
    indent_end(t, l.content_start, l.content_end, l.logical_column, l.logical_column, 3).0
}

/// A line's payload: its content after the indent, trailing blanks removed.
pub open spec fn payload(t: Seq<char>, l: LineView) -> Seq<char> {
    trim_end_blanks(t.subrange(payload_start(t, l), l.content_end))
}

/// What precedes a line's payload (container markers and indent).
pub open spec fn scaffold(t: Seq<char>, l: LineView) -> Seq<char> {
    t.subrange(l.start, payload_start(t, l))
}

/// Facts every scanned line satisfies.
pub open spec fn line_ok(t: Seq<char>, l: LineView) -> bool {
    crate::preservation::lines::line_bounds(t, l)
}

pub open spec fn lines_ok(t: Seq<char>, ls: Seq<LineView>) -> bool {
    forall|i: int| 0 <= i < ls.len() ==> line_ok(t, #[trigger] ls[i])
}

fn payload_start_exec(t: &Vec<char>, l: &Line) -> (r: usize)
    requires
        short_enough(t@),
        line_ok(t@, line_view(*l)),
    ensures
        r == payload_start(t@, line_view(*l)),
        l.content_start <= r <= l.content_end,
{
    proof {
        crate::preservation::lines::lemma_indent_end(
            t@,
            l.content_start as int,
            l.content_end as int,
            l.logical_column as int,
            l.logical_column as int,
            3,
        );
    }
    let (s, _) = consume_indent(t, l.content_start, l.content_end, l.logical_column, 3);
    s
}

pub fn line_payload(t: &Vec<char>, l: &Line) -> (r: Vec<char>)
    requires
        short_enough(t@),
        line_ok(t@, line_view(*l)),
    ensures
        r@ == payload(t@, line_view(*l)),
{
    let s = payload_start_exec(t, l);
    trim_end_blanks_exec(t, s, l.content_end)
}

pub fn line_scaffold(t: &Vec<char>, l: &Line) -> (r: Vec<char>)
    requires
        short_enough(t@),
        line_ok(t@, line_view(*l)),
    ensures
        r@ == scaffold(t@, line_view(*l)),
{
    let s = payload_start_exec(t, l);
    slice_of(t, l.start, s)
}

/// A line continued under the given containers from its start: where its
/// content starts and at which column, or `None` when a container does not
/// continue (blank rest of line and only list items left excepted).
pub open spec fn under_frames(
    t: Seq<char>,
    i: int,
    col: int,
    ce: int,
    frames: Seq<ContainerFrame>,
    j: int,
) -> Option<(int, int)>
    decreases frames.len() - j,
{
    if j < 0 || j >= frames.len() {
        Some((i, col))
    } else {
        match match_frame(t, i, ce, col, frames[j]) {
            Some(p) => under_frames(t, p.0, p.1, ce, frames, j + 1),
            None => if all_blank(t, i, ce) && (forall|k: int|
                j <= k < frames.len() ==> (#[trigger] frames[k]).kind == ContainerKind::ListItem) {
                Some((ce, col))
            } else {
                None
            },
        }
    }
}

/// The payload of a line read under the given containers.
pub open spec fn payload_under(t: Seq<char>, l: LineView, frames: Seq<ContainerFrame>) -> Option<Seq<char>> {
    match under_frames(t, l.start, 0, l.content_end, frames, 0) {
        Some(p) => Some(trim_end_blanks(t.subrange(indent_end(t, p.0, l.content_end, p.1, p.1, 3).0, l.content_end))),
        None => None,
    }
}

fn lists_from(frames: &Vec<ContainerFrame>, j: usize) -> (b: bool)
    requires
        j <= frames.len(),
    ensures
        b == (forall|k: int| j <= k < frames.len() ==> (#[trigger] frames@[k]).kind == ContainerKind::ListItem),
{
    let mut k = j;
    while k < frames.len()
        invariant
            j <= k <= frames.len(),
            forall|m: int| j <= m < k ==> (#[trigger] frames@[m]).kind == ContainerKind::ListItem,
        decreases frames.len() - k,
    {
        if frames[k].kind != ContainerKind::ListItem {
            return false;
        }
        k += 1;
    }
    true
}

fn blank_range(t: &Vec<char>, a: usize, b: usize) -> (r: bool)
    requires
        b <= t.len(),
    ensures
        r == all_blank(t@, a as int, b as int),
{
    let mut k = a;
    while k < b
        invariant
            b <= t.len(),
            a <= k,
            forall|j: int| a <= j < k ==> is_blank_char(#[trigger] t@[j]),
        decreases b - k,
    {
        if !(t[k] == ' ' || t[k] == '\t') {
            return false;
        }
        k += 1;
    }
    true
}

pub fn payload_under_frames(t: &Vec<char>, l: &Line, frames: &Vec<ContainerFrame>) -> (r: Option<Vec<char>>)
    requires
        short_enough(t@),
        line_ok(t@, line_view(*l)),
    ensures
        match payload_under(t@, line_view(*l), frames@) {
            Some(p) => r matches Some(x) && x@ == p,
            None => r is None,
        },
{
    let mut index = l.start;
    let mut column: usize = 0;
    let mut j: usize = 0;
    let mut found = true;
    while j < frames.len()
        invariant_except_break
            found,
            under_frames(t@, l.start as int, 0, l.content_end as int, frames@, 0) == under_frames(
                t@,
                index as int,
                column as int,
                l.content_end as int,
                frames@,
                j as int,
            ),
        invariant
            short_enough(t@),
            line_ok(t@, line_view(*l)),
            l.start <= index <= l.content_end,
            column <= 4 * index + 8,
            j <= frames.len(),
        ensures
            found ==> under_frames(t@, l.start as int, 0, l.content_end as int, frames@, 0) == Some(
                (index as int, column as int),
            ),
            !found ==> under_frames(t@, l.start as int, 0, l.content_end as int, frames@, 0) is None,
            l.start <= index <= l.content_end,
            column <= 4 * index + 8,
        decreases frames.len() - j,
    {
        match match_frame_exec(t, index, l.content_end, column, frames[j]) {
            Some((next, next_column)) => {
                index = next;
                column = next_column;
                j += 1;
            },
            None => {
                let blank = blank_range(t, index, l.content_end);
                if blank && lists_from(frames, j) {
                    index = l.content_end;
                    break;
                } else {
                    found = false;
                    break;
                }
            },
        }
    }
    if !found {
        return None;
    }
    proof {
        crate::preservation::lines::lemma_indent_end(
            t@,
            index as int,
            l.content_end as int,
            column as int,
            column as int,
            3,
        );
    }
    let (s, _) = consume_indent(t, index, l.content_end, column, 3);
    Some(trim_end_blanks_exec(t, s, l.content_end))
}


// ---------------------------------------------------------------------------
// Opaque lines: front matter, fenced code, indented code
// ---------------------------------------------------------------------------

/// A line's text without its line break.
pub open spec fn line_text(t: Seq<char>, l: LineView) -> Seq<char> {
    t.subrange(l.start, l.content_end)
}

/// A line whose payload is empty.
pub open spec fn blank_line(t: Seq<char>, l: LineView) -> bool {
    payload(t, l).len() == 0
}

/// The first line from `j` that reads `---` or `...` (the number of lines
/// when none does).
pub open spec fn first_closer(t: Seq<char>, ls: Seq<LineView>, j: int) -> int
    decreases ls.len() - j,
{
    if j < 0 || j >= ls.len() {
        ls.len() as int
    } else if line_text(t, ls[j]) == "---"@ || line_text(t, ls[j]) == "..."@ {
        j
    } else {
        first_closer(t, ls, j + 1)
    }
}

/// The last line of front matter (`---` at the very start, outside any
/// container, up to the closing line), or -1.
pub open spec fn frontmatter_end(t: Seq<char>, ls: Seq<LineView>) -> int {
    if ls.len() > 0 && ls[0].start == 0 && ls[0].frames.len() == 0 && line_text(t, ls[0]) == "---"@ {
        let c = first_closer(t, ls, 1);
        if c < ls.len() {
            c
        } else {
            -1
        }
    } else {
        -1
    }
}

/// Lines `a` to `b` marked.
pub open spec fn cover(cov: Seq<bool>, a: int, b: int) -> Seq<bool> {
    Seq::new(cov.len(), |i: int| if a <= i <= b { true } else { cov[i] })
}

/// A fence opener: three or more backticks (with no backtick after them) or
/// tildes; the fence character and length.
pub open spec fn fence_opener(p: Seq<char>) -> Option<(char, int)> {
    if p.len() == 0 || !(p[0] == '`' || p[0] == '~') {
        None
    } else {
        let len = crate::preservation::inline_scan::run_end(p, p[0], 0, p.len() as int);
        if len < 3 || (p[0] == '`' && p.skip(len).contains('`')) {
            None
        } else {
            Some((p[0], len))
        }
    }
}

/// A fence closer for a fence of `c` of length `len`.
pub open spec fn fence_closes(p: Seq<char>, c: char, len: int) -> bool {
    p.len() >= len && forall|k: int| 0 <= k < p.len() ==> p[k] == c
}

/// The last line of a fenced block: lines after the opener read under its
/// containers, up to the closing fence or the first line that leaves them.
pub open spec fn fence_final(
    t: Seq<char>,
    ls: Seq<LineView>,
    cand: int,
    fin: int,
    c: char,
    len: int,
    frames: Seq<ContainerFrame>,
) -> int
    decreases ls.len() - cand,
{
    if cand < 0 || cand >= ls.len() {
        fin
    } else {
        match payload_under(t, ls[cand], frames) {
            None => fin,
            Some(p) => if fence_closes(p, c, len) {
                cand
            } else {
                fence_final(t, ls, cand + 1, cand, c, len, frames)
            },
        }
    }
}

pub proof fn lemma_fence_final(
    t: Seq<char>,
    ls: Seq<LineView>,
    cand: int,
    fin: int,
    c: char,
    len: int,
    frames: Seq<ContainerFrame>,
)
    requires
        0 <= fin < cand,
    ensures
        fin <= fence_final(t, ls, cand, fin, c, len, frames),
        fence_final(t, ls, cand, fin, c, len, frames) < ls.len() || fence_final(t, ls, cand, fin, c, len, frames)
            == fin,
    decreases ls.len() - cand,
{
    if 0 <= cand < ls.len() {
        match payload_under(t, ls[cand], frames) {
            None => {},
            Some(p) => if !fence_closes(p, c, len) {
                lemma_fence_final(t, ls, cand + 1, cand, c, len, frames);
            },
        }
    }
}

/// Fenced code blocks from line `index` on.
pub open spec fn fences_from(t: Seq<char>, ls: Seq<LineView>, index: int, cov: Seq<bool>) -> Seq<bool>
    decreases ls.len() - index,
{
    if index < 0 || index >= ls.len() || cov.len() != ls.len() {
        cov
    } else if cov[index] {
        fences_from(t, ls, index + 1, cov)
    } else {
        match fence_opener(payload(t, ls[index])) {
            None => fences_from(t, ls, index + 1, cov),
            Some((c, len)) => {
                let f = fence_final(t, ls, index + 1, index, c, len, ls[index].frames);
                proof {
                    lemma_fence_final(t, ls, index + 1, index, c, len, ls[index].frames);
                }
                fences_from(t, ls, f + 1, cover(cov, index, f))
            },
        }
    }
}

/// The width of a line's indent past its containers.
pub open spec fn indent_width(t: Seq<char>, l: LineView) -> int {
    ws_end(t, l.content_start, l.content_end, l.logical_column).1 - l.logical_column
}

/// The last line of an indented code block starting at `index`: later lines
/// in the same containers indented four or more columns, blank lines in
/// between.
pub open spec fn indent_final(
    t: Seq<char>,
    ls: Seq<LineView>,
    cov: Seq<bool>,
    index: int,
    cursor: int,
    fin: int,
) -> int
    decreases ls.len() - cursor,
{
    if cursor < 0 || cursor >= ls.len() || cursor >= cov.len() || cov[cursor] {
        fin
    } else if blank_line(t, ls[cursor]) {
        indent_final(t, ls, cov, index, cursor + 1, fin)
    } else if ls[cursor].frames == ls[index].frames && indent_width(t, ls[cursor]) >= 4 {
        indent_final(t, ls, cov, index, cursor + 1, cursor)
    } else {
        fin
    }
}

pub proof fn lemma_indent_final(t: Seq<char>, ls: Seq<LineView>, cov: Seq<bool>, index: int, cursor: int, fin: int)
    requires
        0 <= fin < cursor,
    ensures
        fin <= indent_final(t, ls, cov, index, cursor, fin),
        indent_final(t, ls, cov, index, cursor, fin) < ls.len() || indent_final(t, ls, cov, index, cursor, fin)
            == fin,
    decreases ls.len() - cursor,
{
    if 0 <= cursor < ls.len() && cursor < cov.len() && !cov[cursor] {
        if blank_line(t, ls[cursor]) {
            lemma_indent_final(t, ls, cov, index, cursor + 1, fin);
        } else if ls[cursor].frames == ls[index].frames && indent_width(t, ls[cursor]) >= 4 {
            lemma_indent_final(t, ls, cov, index, cursor + 1, cursor);
        }
    }
}

/// Indented code blocks from line `index` on: a line indented four or more
/// columns that follows a blank or opaque line (or starts the text).
pub open spec fn indented_from(t: Seq<char>, ls: Seq<LineView>, index: int, cov: Seq<bool>) -> Seq<bool>
    decreases ls.len() - index,
{
    if index < 0 || index >= ls.len() || cov.len() != ls.len() {
        cov
    } else if cov[index] || indent_width(t, ls[index]) < 4 {
        indented_from(t, ls, index + 1, cov)
    } else if index > 0 && !cov[index - 1] && !blank_line(t, ls[index - 1]) {
        indented_from(t, ls, index + 1, cov)
    } else {
        let f = indent_final(t, ls, cov, index, index + 1, index);
        proof {
            lemma_indent_final(t, ls, cov, index, index + 1, index);
        }
        indented_from(t, ls, f + 1, cover(cov, index, f))
    }
}

/// For each line, whether it is front matter or code (which no region
/// crosses into).
pub open spec fn opaque_flags(t: Seq<char>, ls: Seq<LineView>) -> Seq<bool> {
    let fm = frontmatter_end(t, ls);
    let cov0 = Seq::new(ls.len(), |i: int| i <= fm);
    indented_from(t, ls, 0, fences_from(t, ls, 0, cov0))
}

fn line_text_is(t: &Vec<char>, l: &Line, s: &str) -> (b: bool)
    requires
        line_ok(t@, line_view(*l)),
    ensures
        b == (line_text(t@, line_view(*l)) == s@),
{
    let v = slice_of(t, l.start, l.content_end);
    let w = chars_of(s);
    crate::text::chars_eq(&v, &w)
}

fn cover_exec(cov: &mut Vec<bool>, a: usize, b: usize)
    requires
        b < old(cov).len(),
    ensures
        final(cov)@ == cover(old(cov)@, a as int, b as int),
{
    let ghost orig = cov@;
    let mut i = a;
    while i <= b
        invariant
            b < cov.len(),
            cov@.len() == orig.len(),
            a <= i,
            i <= b + 1 || i == a,
            forall|k: int| 0 <= k < cov@.len() ==> cov@[k] == if a <= k < i { true } else { orig[k] },
        decreases b + 1 - i,
    {
        cov.set(i, true);
        i += 1;
    }
    assert(cov@ =~= cover(orig, a as int, b as int));
}

fn fence_opener_exec(p: &Vec<char>) -> (r: Option<(char, usize)>)
    ensures
        match fence_opener(p@) {
            Some((c, len)) => r matches Some(x) && x.0 == c && x.1 as int == len,
            None => r is None,
        },
{
    if p.len() == 0 || !(p[0] == '`' || p[0] == '~') {
        return None;
    }
    let c = p[0];
    let mut len: usize = 0;
    while len < p.len() && p[len] == c
        invariant
            len <= p.len(),
            crate::preservation::inline_scan::run_end(p@, c, 0, p@.len() as int)
                == crate::preservation::inline_scan::run_end(p@, c, len as int, p@.len() as int),
        decreases p.len() - len,
    {
        len += 1;
    }
    if len < 3 {
        return None;
    }
    if c == '`' {
        let rest = slice_of(p, len, p.len());
        assert(rest@ =~= p@.skip(len as int));
        if crate::text::contains_char(&rest, '`') {
            return None;
        }
    }
    Some((c, len))
}

fn fence_closes_exec(p: &Vec<char>, c: char, len: usize) -> (b: bool)
    ensures
        b == fence_closes(p@, c, len as int),
{
    if p.len() < len {
        return false;
    }
    let mut k: usize = 0;
    while k < p.len()
        invariant
            k <= p.len(),
            forall|j: int| 0 <= j < k ==> p@[j] == c,
        decreases p.len() - k,
    {
        if p[k] != c {
            return false;
        }
        k += 1;
    }
    true
}

fn frames_eq(a: &Vec<ContainerFrame>, b: &Vec<ContainerFrame>) -> (r: bool)
    ensures
        r == (a@ == b@),
{
    if a.len() != b.len() {
        return false;
    }
    let mut i: usize = 0;
    while i < a.len()
        invariant
            i <= a.len() == b.len(),
            forall|j: int| 0 <= j < i ==> a@[j] == b@[j],
        decreases a.len() - i,
    {
        if a[i] != b[i] {
            return false;
        }
        i += 1;
    }
    assert(a@ =~= b@);
    true
}

fn indent_width_exec(t: &Vec<char>, l: &Line) -> (w: usize)
    requires
        short_enough(t@),
        line_ok(t@, line_view(*l)),
    ensures
        w as int == indent_width(t@, line_view(*l)),
{
    proof {
        crate::preservation::lines::lemma_ws_end(
            t@,
            l.content_start as int,
            l.content_end as int,
            l.logical_column as int,
        );
    }
    let (_, col) = consume_whitespace(t, l.content_start, l.content_end, l.logical_column);
    col - l.logical_column
}

pub open spec fn lines_fit(t: Seq<char>, lines: Seq<Line>) -> bool {
    forall|i: int| 0 <= i < lines.len() ==> line_ok(t, #[trigger] line_view(lines[i]))
}

/// For each line, whether it is front matter or code (see [`opaque_flags`]).
pub fn opaque_line_flags(t: &Vec<char>, lines: &Vec<Line>) -> (r: Vec<bool>)
    requires
        short_enough(t@),
        lines_fit(t@, lines@),
    ensures
        r@ == opaque_flags(t@, line_views(lines@)),
        r.len() == lines.len(),
{
    let ghost ls = line_views(lines@);
    let n = lines.len();
    let mut covered: Vec<bool> = Vec::new();
    let mut fm_end: usize = 0;
    let mut has_fm = false;
    if n > 0 && lines[0].start == 0 && lines[0].frames.len() == 0 && line_text_is(t, &lines[0], "---") {
        let mut j: usize = 1;
        while j < n && !(line_text_is(t, &lines[j], "---") || line_text_is(t, &lines[j], "..."))
            invariant
                1 <= j <= n == lines.len(),
                ls == line_views(lines@),
                lines_fit(t@, lines@),
                first_closer(t@, ls, 1) == first_closer(t@, ls, j as int),
            decreases n - j,
        {
            assert(ls[j as int] == line_view(lines@[j as int]));
            j += 1;
        }
        if j < n {
            assert(ls[j as int] == line_view(lines@[j as int]));
            has_fm = true;
            fm_end = j;
        }
    }
    assert(ls.len() > 0 ==> ls[0] == line_view(lines@[0]));
    let ghost fm = frontmatter_end(t@, ls);
    assert(has_fm ==> fm == fm_end as int);
    assert(!has_fm ==> fm == -1);
    let mut i: usize = 0;
    while i < n
        invariant
            i <= n == lines.len(),
            covered@.len() == i,
            forall|k: int| 0 <= k < i ==> covered@[k] == (k <= fm),
            has_fm ==> fm == fm_end as int,
            !has_fm ==> fm == -1,
        decreases n - i,
    {
        covered.push(has_fm && i <= fm_end);
        i += 1;
    }
    assert(covered@ =~= Seq::new(ls.len(), |i: int| i <= fm));
    let ghost cov0 = covered@;
    // Fenced code.
    let mut index: usize = 0;
    while index < n
        invariant
            n == lines.len() == covered.len(),
            ls == line_views(lines@),
            lines_fit(t@, lines@),
            short_enough(t@),
            fences_from(t@, ls, 0, cov0) == fences_from(t@, ls, index as int, covered@),
        decreases n - index,
    {
        assert(ls[index as int] == line_view(lines@[index as int]));
        if covered[index] {
            index += 1;
            continue;
        }
        let p = line_payload(t, &lines[index]);
        match fence_opener_exec(&p) {
            None => {
                index += 1;
            },
            Some((c, len)) => {
                let ghost frames = ls[index as int].frames;
                let mut final_index = index;
                let mut cand = index + 1;
                proof {
                    lemma_fence_final(t@, ls, index + 1, index as int, c, len as int, frames);
                }
                let ghost target = fence_final(t@, ls, index + 1, index as int, c, len as int, frames);
                while cand < n
                    invariant_except_break
                        final_index < cand,
                        target == fence_final(t@, ls, cand as int, final_index as int, c, len as int, frames),
                    invariant
                        n == lines.len(),
                        ls == line_views(lines@),
                        lines_fit(t@, lines@),
                        short_enough(t@),
                        index <= final_index < n,
                        index < cand,
                        frames == lines@[index as int].frames@,
                    ensures
                        target == final_index as int,
                        index <= final_index < n,
                    decreases n - cand,
                {
                    assert(ls[cand as int] == line_view(lines@[cand as int]));
                    match payload_under_frames(t, &lines[cand], &lines[index].frames) {
                        None => {
                            break;
                        },
                        Some(pc) => {
                            final_index = cand;
                            if fence_closes_exec(&pc, c, len) {
                                break;
                            }
                        },
                    }
                    cand += 1;
                }
                cover_exec(&mut covered, index, final_index);
                index = final_index + 1;
            },
        }
    }
    let ghost cov1 = covered@;
    assert(cov1 == fences_from(t@, ls, 0, cov0));
    // Indented code.
    let mut index: usize = 0;
    while index < n
        invariant
            n == lines.len() == covered.len(),
            ls == line_views(lines@),
            lines_fit(t@, lines@),
            short_enough(t@),
            indented_from(t@, ls, 0, cov1) == indented_from(t@, ls, index as int, covered@),
        decreases n - index,
    {
        assert(ls[index as int] == line_view(lines@[index as int]));
        if covered[index] || indent_width_exec(t, &lines[index]) < 4 {
            index += 1;
            continue;
        }
        if index > 0 && !covered[index - 1] {
            assert(ls[index - 1] == line_view(lines@[index - 1]));
            let prev = line_payload(t, &lines[index - 1]);
            if prev.len() > 0 {
                index += 1;
                continue;
            }
        }
        let mut final_index = index;
        let mut cursor = index + 1;
        proof {
            lemma_indent_final(t@, ls, covered@, index as int, index + 1, index as int);
        }
        let ghost target = indent_final(t@, ls, covered@, index as int, index + 1, index as int);
        while cursor < n && !covered[cursor]
            invariant
                n == lines.len() == covered.len(),
                ls == line_views(lines@),
                lines_fit(t@, lines@),
                short_enough(t@),
                index <= final_index < cursor,
                cursor <= n,
                index < n,
                target == indent_final(t@, ls, covered@, index as int, cursor as int, final_index as int),
            ensures
                target == final_index as int,
                index <= final_index < n,
            decreases n - cursor,
        {
            assert(ls[cursor as int] == line_view(lines@[cursor as int]));
            assert(ls[index as int] == line_view(lines@[index as int]));
            let pc = line_payload(t, &lines[cursor]);
            if pc.len() == 0 {
                cursor += 1;
                continue;
            }
            if frames_eq(&lines[cursor].frames, &lines[index].frames) && indent_width_exec(t, &lines[cursor]) >= 4 {
                final_index = cursor;
                cursor += 1;
            } else {
                break;
            }
        }
        cover_exec(&mut covered, index, final_index);
        index = final_index + 1;
    }
    covered
}


// ---------------------------------------------------------------------------
// Display math blocks
// ---------------------------------------------------------------------------

/// A `$$` closing line, optionally labelled: `$$`, then blanks and a
/// `(label)` or `{label}` without nested brackets or line breaks.
pub open spec fn dollar_closer(p: Seq<char>) -> bool {
    if p == "$$"@ {
        true
    } else if p.len() > 2 && p[0] == '$' && p[1] == '$' && is_blank_char(p[2]) {
        let label = crate::text::trim_start(p.skip(2));
        (label.len() >= 2 && label[0] == '(' && label.last() == ')' && !label.subrange(1, label.len() - 1).contains(
            '(',
        ) && !label.subrange(1, label.len() - 1).contains(')') && !label.subrange(1, label.len() - 1).contains('\n'))
            || (label.len() >= 2 && label[0] == '{' && label.last() == '}' && !label.subrange(
            1,
            label.len() - 1,
        ).contains('{') && !label.subrange(1, label.len() - 1).contains('}') && !label.subrange(
            1,
            label.len() - 1,
        ).contains('\n'))
    } else {
        false
    }
}

/// A line that is exactly `\begin{name}` or `\end{name}`: whether it
/// begins, and the name.
pub open spec fn environment_line(p: Seq<char>) -> Option<(bool, Seq<char>)> {
    let head: Option<(bool, Seq<char>)> = if crate::text::starts_with(p, "\\begin{"@) {
        Some((true, p.skip(7)))
    } else if crate::text::starts_with(p, "\\end{"@) {
        Some((false, p.skip(5)))
    } else {
        None
    };
    match head {
        None => None,
        Some((begins, tail)) => if tail.len() > 0 && tail.last() == '}' {
            let name = tail.drop_last();
            if name.len() > 0 && !name.contains('{') && !name.contains('}') && !name.contains('\n') {
                Some((begins, name))
            } else {
                None
            }
        } else {
            None
        },
    }
}

fn dollar_closer_exec(p: &Vec<char>) -> (b: bool)
    ensures
        b == dollar_closer(p@),
{
    let dd = chars_of("$$");
    if crate::text::chars_eq(p, &dd) {
        return true;
    }
    if !(p.len() > 2 && p[0] == '$' && p[1] == '$' && (p[2] == ' ' || p[2] == '\t')) {
        return false;
    }
    let rest = slice_of(p, 2, p.len());
    assert(rest@ =~= p@.skip(2));
    let label = crate::text::trim_start_chars(&rest);
    if label.len() < 2 {
        return false;
    }
    let inner = slice_of(&label, 1, label.len() - 1);
    let last = label[label.len() - 1];
    (label[0] == '(' && last == ')' && !crate::text::contains_char(&inner, '(') && !crate::text::contains_char(
        &inner,
        ')',
    ) && !crate::text::contains_char(&inner, '\n')) || (label[0] == '{' && last == '}'
        && !crate::text::contains_char(&inner, '{') && !crate::text::contains_char(&inner, '}')
        && !crate::text::contains_char(&inner, '\n'))
}

fn environment_line_exec(p: &Vec<char>) -> (r: Option<(bool, Vec<char>)>)
    ensures
        match environment_line(p@) {
            Some((b, name)) => r matches Some(x) && x.0 == b && x.1@ == name,
            None => r is None,
        },
{
    let (begins, tail) = if crate::text::starts_with_str(p, "\\begin{") {
        proof {
            reveal_strlit("\\begin{");
        }
        let tl = slice_of(p, 7, p.len());
        assert(tl@ =~= p@.skip(7));
        (true, tl)
    } else if crate::text::starts_with_str(p, "\\end{") {
        proof {
            reveal_strlit("\\end{");
        }
        let tl = slice_of(p, 5, p.len());
        assert(tl@ =~= p@.skip(5));
        (false, tl)
    } else {
        return None;
    };
    if !(tail.len() > 0 && tail[tail.len() - 1] == '}') {
        return None;
    }
    let name = slice_of(&tail, 0, tail.len() - 1);
    assert(name@ =~= tail@.drop_last());
    if name.len() > 0 && !crate::text::contains_char(&name, '{') && !crate::text::contains_char(&name, '}')
        && !crate::text::contains_char(&name, '\n') {
        Some((begins, name))
    } else {
        None
    }
}

/// The first slot of `key` (the number of slots without one).
pub open spec fn slot_of(s: Seq<(Seq<ContainerFrame>, int)>, key: Seq<ContainerFrame>) -> int
    decreases s.len(),
{
    if s.len() == 0 {
        0
    } else if s[0].0 == key {
        0
    } else {
        1 + slot_of(s.drop_first(), key)
    }
}

/// The last open environment under `key` (the number of entries without
/// one).
pub open spec fn last_env_of(s: Seq<(Seq<ContainerFrame>, Seq<char>, int)>, key: Seq<ContainerFrame>) -> int
    decreases s.len(),
{
    if s.len() == 0 {
        0
    } else if s.last().0 == key {
        s.len() - 1
    } else {
        let r = last_env_of(s.drop_last(), key);
        if r == s.len() - 1 {
            s.len() as int
        } else {
            r
        }
    }
}

/// A display-math block from the opening line to the closing line.
pub open spec fn block_cand(t: Seq<char>, kind: RegionKind, opener: LineView, closer: LineView) -> Cand {
    Cand {
        kind,
        form: crate::preservation::model::RegionForm::Block,
        start: opener.start,
        end: closer.end,
        container: opener.context,
        scaffold: scaffold(t, opener),
    }
}

/// The state of the block scan: open `$$` lines and open `\[` lines by
/// container stack, open environments, and candidates so far.
pub type BlockState = (
    Seq<(Seq<ContainerFrame>, int)>,
    Seq<(Seq<ContainerFrame>, int)>,
    Seq<(Seq<ContainerFrame>, Seq<char>, int)>,
    Seq<Cand>,
);

/// One line of the block scan (lines inside code and lazy lines are
/// skipped). Openers and closers pair up only within the same containers.
pub open spec fn block_step(t: Seq<char>, ls: Seq<LineView>, opaque: Seq<bool>, st: BlockState, i: int) -> BlockState {
    let l = ls[i];
    if opaque[i] || l.lazy {
        st
    } else {
        let p = payload(t, l);
        let key = l.frames;
        let (dollars, brackets, envs, cands) = st;
        if p == "$$"@ {
            let d = slot_of(dollars, key);
            if d < dollars.len() {
                (
                    dollars.remove(d),
                    brackets,
                    envs,
                    cands.push(block_cand(t, RegionKind::MathDollarBlock, ls[dollars[d].1], l)),
                )
            } else {
                (dollars.push((key, i)), brackets, envs, cands)
            }
        } else if dollar_closer(p) {
            let d = slot_of(dollars, key);
            if d < dollars.len() {
                (
                    dollars.remove(d),
                    brackets,
                    envs,
                    cands.push(block_cand(t, RegionKind::MathDollarBlock, ls[dollars[d].1], l)),
                )
            } else {
                st
            }
        } else if p == "\\["@ {
            if slot_of(brackets, key) < brackets.len() {
                st
            } else {
                (dollars, brackets.push((key, i)), envs, cands)
            }
        } else if p == "\\]"@ {
            let b = slot_of(brackets, key);
            if b < brackets.len() {
                (
                    dollars,
                    brackets.remove(b),
                    envs,
                    cands.push(block_cand(t, RegionKind::MathBracketBlock, ls[brackets[b].1], l)),
                )
            } else {
                st
            }
        } else {
            match environment_line(p) {
                None => st,
                Some((begins, name)) => if begins {
                    (dollars, brackets, envs.push((key, name, i)), cands)
                } else {
                    let e = last_env_of(envs, key);
                    if e < envs.len() && envs[e].1 == name {
                        (
                            dollars,
                            brackets,
                            envs.remove(e),
                            cands.push(block_cand(t, RegionKind::MathEnvironmentBlock, ls[envs[e].2], l)),
                        )
                    } else {
                        st
                    }
                },
            }
        }
    }
}

pub open spec fn blocks_scan(t: Seq<char>, ls: Seq<LineView>, opaque: Seq<bool>, n: int) -> BlockState
    decreases n,
{
    if n <= 0 {
        (Seq::empty(), Seq::empty(), Seq::empty(), Seq::empty())
    } else {
        block_step(t, ls, opaque, blocks_scan(t, ls, opaque, n - 1), n - 1)
    }
}

/// The display-math blocks chosen.
pub open spec fn block_regions(t: Seq<char>, ls: Seq<LineView>, opaque: Seq<bool>) -> Seq<Cand> {
    arbitrated(blocks_scan(t, ls, opaque, ls.len() as int).3, 0, t.len() as int)
}


pub proof fn lemma_slot_of(s: Seq<(Seq<ContainerFrame>, int)>, key: Seq<ContainerFrame>)
    ensures
        0 <= slot_of(s, key) <= s.len(),
        slot_of(s, key) < s.len() ==> s[slot_of(s, key)].0 == key,
        forall|k: int| 0 <= k < slot_of(s, key) ==> s[k].0 != key,
    decreases s.len(),
{
    if s.len() > 0 && s[0].0 != key {
        lemma_slot_of(s.drop_first(), key);
        assert forall|k: int| 0 <= k < slot_of(s, key) implies s[k].0 != key by {
            if k > 0 {
                assert(s[k] == s.drop_first()[k - 1]);
            }
        }
    }
}

pub proof fn lemma_last_env_of(s: Seq<(Seq<ContainerFrame>, Seq<char>, int)>, key: Seq<ContainerFrame>)
    ensures
        0 <= last_env_of(s, key) <= s.len(),
        last_env_of(s, key) < s.len() ==> s[last_env_of(s, key)].0 == key,
        forall|k: int| last_env_of(s, key) < k < s.len() ==> s[k].0 != key,
        last_env_of(s, key) == s.len() ==> forall|k: int| 0 <= k < s.len() ==> s[k].0 != key,
    decreases s.len(),
{
    if s.len() > 0 && s.last().0 != key {
        lemma_last_env_of(s.drop_last(), key);
        let r = last_env_of(s.drop_last(), key);
        assert forall|k: int| last_env_of(s, key) < k < s.len() implies s[k].0 != key by {
            if k < s.len() - 1 {
                assert(s[k] == s.drop_last()[k]);
            }
        }
        if last_env_of(s, key) == s.len() {
            assert forall|k: int| 0 <= k < s.len() implies s[k].0 != key by {
                if k < s.len() - 1 {
                    assert(s[k] == s.drop_last()[k]);
                }
            }
        }
        if r < s.len() - 1 {
            assert(s[r] == s.drop_last()[r]);
        }
    }
}

pub open spec fn slot_views(v: Seq<(Vec<ContainerFrame>, usize)>) -> Seq<(Seq<ContainerFrame>, int)> {
    v.map_values(|p: (Vec<ContainerFrame>, usize)| (p.0@, p.1 as int))
}

pub open spec fn env_views(v: Seq<(Vec<ContainerFrame>, Vec<char>, usize)>) -> Seq<
    (Seq<ContainerFrame>, Seq<char>, int),
> {
    v.map_values(|p: (Vec<ContainerFrame>, Vec<char>, usize)| (p.0@, p.1@, p.2 as int))
}

fn find_slot(s: &Vec<(Vec<ContainerFrame>, usize)>, key: &Vec<ContainerFrame>) -> (r: usize)
    ensures
        r as int == slot_of(slot_views(s@), key@),
{
    let ghost sv = slot_views(s@);
    let mut i: usize = 0;
    while i < s.len()
        invariant
            i <= s.len(),
            sv == slot_views(s@),
            forall|k: int| 0 <= k < i ==> sv[k].0 != key@,
        decreases s.len() - i,
    {
        assert(sv[i as int].0 == s@[i as int].0@);
        if frames_eq(&s[i].0, key) {
            proof {
                lemma_slot_of(sv, key@);
            }
            return i;
        }
        i += 1;
    }
    proof {
        lemma_slot_of(sv, key@);
    }
    i
}

fn find_last_env(s: &Vec<(Vec<ContainerFrame>, Vec<char>, usize)>, key: &Vec<ContainerFrame>) -> (r: usize)
    ensures
        r as int == last_env_of(env_views(s@), key@),
{
    let ghost sv = env_views(s@);
    let mut j: usize = s.len();
    while j > 0
        invariant
            j <= s.len(),
            sv == env_views(s@),
            forall|k: int| j <= k < s.len() ==> sv[k].0 != key@,
        decreases j,
    {
        assert(sv[j - 1].0 == s@[j - 1].0@);
        if frames_eq(&s[j - 1].0, key) {
            proof {
                lemma_last_env_of(sv, key@);
            }
            return j - 1;
        }
        j -= 1;
    }
    proof {
        lemma_last_env_of(sv, key@);
    }
    s.len()
}

fn make_block(t: &Vec<char>, kind: RegionKind, opener: &Line, closer: &Line) -> (c: Candidate)
    requires
        short_enough(t@),
        line_ok(t@, line_view(*opener)),
    ensures
        cand_view(c) == block_cand(t@, kind, line_view(*opener), line_view(*closer)),
{
    let sc = line_scaffold(t, opener);
    Candidate::block(kind, opener.start, closer.end, opener.context, crate::text::string_of(&sc))
}

/// Lines in order, each a non-empty range.
pub open spec fn lines_ordered(lines: Seq<Line>) -> bool {
    &&& forall|i: int| 0 <= i < lines.len() ==> (#[trigger] lines[i]).start < lines[i].end
    &&& forall|i: int, j: int| 0 <= i < j < lines.len() ==> (#[trigger] lines[i]).end <= (#[trigger] lines[j]).start
}

/// Stored openers are earlier lines.
pub open spec fn openers_before(st: BlockState, i: int) -> bool {
    &&& forall|k: int| 0 <= k < st.0.len() ==> 0 <= (#[trigger] st.0[k]).1 < i
    &&& forall|k: int| 0 <= k < st.1.len() ==> 0 <= (#[trigger] st.1[k]).1 < i
    &&& forall|k: int| 0 <= k < st.2.len() ==> 0 <= (#[trigger] st.2[k]).2 < i
}

/// The display-math blocks (see [`block_regions`]).
#[verifier::rlimit(60)]
pub fn scan_blocks(t: &Vec<char>, lines: &Vec<Line>, opaque: &Vec<bool>) -> (r: Vec<Candidate>)
    requires
        short_enough(t@),
        lines_fit(t@, lines@),
        lines_ordered(lines@),
        opaque.len() == lines.len(),
    ensures
        cand_views(r@) == block_regions(t@, line_views(lines@), opaque@),
        proper_cands(cand_views(r@)),
{
    let ghost ls = line_views(lines@);
    let mut dollars: Vec<(Vec<ContainerFrame>, usize)> = Vec::new();
    let mut brackets: Vec<(Vec<ContainerFrame>, usize)> = Vec::new();
    let mut envs: Vec<(Vec<ContainerFrame>, Vec<char>, usize)> = Vec::new();
    let mut cands: Vec<Candidate> = Vec::new();
    let mut i: usize = 0;
    assert(slot_views(dollars@) =~= Seq::<(Seq<ContainerFrame>, int)>::empty());
    assert(slot_views(brackets@) =~= Seq::<(Seq<ContainerFrame>, int)>::empty());
    assert(env_views(envs@) =~= Seq::<(Seq<ContainerFrame>, Seq<char>, int)>::empty());
    assert(cand_views(cands@) =~= Seq::<Cand>::empty());
    while i < lines.len()
        invariant
            i <= lines.len() == opaque.len(),
            ls == line_views(lines@),
            short_enough(t@),
            lines_fit(t@, lines@),
            lines_ordered(lines@),
            (slot_views(dollars@), slot_views(brackets@), env_views(envs@), cand_views(cands@)) == blocks_scan(
                t@,
                ls,
                opaque@,
                i as int,
            ),
            openers_before((slot_views(dollars@), slot_views(brackets@), env_views(envs@), cand_views(cands@)), i as int),
            proper_cands(cand_views(cands@)),
        decreases lines.len() - i,
    {
        let ghost st = blocks_scan(t@, ls, opaque@, i as int);
        let ghost before = cand_views(cands@);
        assert(ls[i as int] == line_view(lines@[i as int]));
        let line = &lines[i];
        if opaque[i] || line.lazy {
            i += 1;
            continue;
        }
        let p = line_payload(t, line);
        let key = &line.frames;
        let dd = chars_of("$$");
        let ob = chars_of("\\[");
        let cb = chars_of("\\]");
        let mut added: Option<Candidate> = None;
        if crate::text::chars_eq(&p, &dd) {
            let d = find_slot(&dollars, key);
            if d < dollars.len() {
                let (_, o) = dollars.remove(d);
                assert(st.0[d as int].1 == o as int);
                assert(ls[o as int] == line_view(lines@[o as int]));
                added = Some(make_block(t, RegionKind::MathDollarBlock, &lines[o], line));
            } else {
                let k = crate::preservation::lines::copy_frames_pub(key);
                dollars.push((k, i));
            }
        } else if dollar_closer_exec(&p) {
            let d = find_slot(&dollars, key);
            if d < dollars.len() {
                let (_, o) = dollars.remove(d);
                assert(st.0[d as int].1 == o as int);
                assert(ls[o as int] == line_view(lines@[o as int]));
                added = Some(make_block(t, RegionKind::MathDollarBlock, &lines[o], line));
            }
        } else if crate::text::chars_eq(&p, &ob) {
            let b = find_slot(&brackets, key);
            if b >= brackets.len() {
                let k = crate::preservation::lines::copy_frames_pub(key);
                brackets.push((k, i));
            }
        } else if crate::text::chars_eq(&p, &cb) {
            let b = find_slot(&brackets, key);
            if b < brackets.len() {
                let (_, o) = brackets.remove(b);
                assert(st.1[b as int].1 == o as int);
                assert(ls[o as int] == line_view(lines@[o as int]));
                added = Some(make_block(t, RegionKind::MathBracketBlock, &lines[o], line));
            }
        } else {
            match environment_line_exec(&p) {
                None => {},
                Some((begins, name)) => {
                    if begins {
                        let k = crate::preservation::lines::copy_frames_pub(key);
                        envs.push((k, name, i));
                    } else {
                        let e = find_last_env(&envs, key);
                        if e < envs.len() && crate::text::chars_eq(&envs[e].1, &name) {
                            let (_, _, o) = envs.remove(e);
                            assert(st.2[e as int].2 == o as int);
                            assert(ls[o as int] == line_view(lines@[o as int]));
                            added = Some(make_block(t, RegionKind::MathEnvironmentBlock, &lines[o], line));
                        }
                    }
                },
            }
        }
        match added {
            Some(c) => {
                let ghost pre = cands@;
                cands.push(c);
                assert(cand_views(cands@) =~= before.push(cand_view(c)));
                assert(proper_cands(cand_views(cands@))) by {
                    assert forall|k: int| 0 <= k < cand_views(cands@).len() implies proper_cand(
                        #[trigger] cand_views(cands@)[k],
                    ) by {
                        if k < before.len() {
                            assert(cand_views(cands@)[k] == before[k]);
                        }
                    }
                }
            },
            None => {},
        }
        proof {
            assert(blocks_scan(t@, ls, opaque@, i + 1) == block_step(t@, ls, opaque@, st, i as int));
        }
        assert(slot_views(dollars@) =~= blocks_scan(t@, ls, opaque@, i + 1).0);
        assert(slot_views(brackets@) =~= blocks_scan(t@, ls, opaque@, i + 1).1);
        assert(env_views(envs@) =~= blocks_scan(t@, ls, opaque@, i + 1).2);
        assert(cand_views(cands@) =~= blocks_scan(t@, ls, opaque@, i + 1).3);
        i += 1;
    }
    arbitrate(cands, 0, t.len())
}

// ---------------------------------------------------------------------------
// Inline scopes
// ---------------------------------------------------------------------------

/// Where the run of `#` starting at `i` ends.
pub open spec fn hashes_from(p: Seq<char>, i: int) -> int
    decreases p.len() - i,
{
    if 0 <= i < p.len() && p[i] == '#' {
        hashes_from(p, i + 1)
    } else {
        i
    }
}

/// An ATX heading payload: one to six `#`, then the end or a blank.
pub open spec fn is_heading(p: Seq<char>) -> bool {
    let h = hashes_from(p, 0);
    &&& 1 <= h <= 6
    &&& (h == p.len() || p[h] == ' ' || p[h] == '\t')
}

pub fn is_heading_exec(p: &Vec<char>) -> (b: bool)
    ensures
        b == is_heading(p@),
{
    let mut k: usize = 0;
    while k < p.len() && p[k] == '#'
        invariant
            k <= p.len(),
            hashes_from(p@, 0) == hashes_from(p@, k as int),
        decreases p.len() - k,
    {
        k += 1;
    }
    1 <= k && k <= 6 && (k == p.len() || p[k] == ' ' || p[k] == '\t')
}

/// Whether `i` lies inside one of the ranges.
pub open spec fn in_ranges(code: Seq<Cand>, i: int) -> bool {
    exists|k: int| 0 <= k < code.len() && (#[trigger] code[k]).start <= i < code[k].end
}

/// A cell separator: an unescaped `|` outside code spans.
pub open spec fn pipe_at(t: Seq<char>, code: Seq<Cand>, i: int) -> bool {
    t[i] == '|' && escape_even(t, i) && !in_ranges(code, i)
}

/// The non-empty pieces of `[seg, end)` between separators at or after `i`.
pub open spec fn pipe_pieces(t: Seq<char>, code: Seq<Cand>, i: int, end: int, seg: int) -> Seq<(int, int)>
    decreases end - i,
{
    if i >= end {
        if seg < end {
            seq![(seg, end)]
        } else {
            Seq::empty()
        }
    } else if pipe_at(t, code, i) {
        (if seg < i {
            seq![(seg, i)]
        } else {
            Seq::empty()
        }) + pipe_pieces(t, code, i + 1, end, i + 1)
    } else {
        pipe_pieces(t, code, i + 1, end, seg)
    }
}

/// The cells of a table-like line `[start, end)`: the text between its
/// separators, code spans kept whole.
pub open spec fn pipe_ranges(t: Seq<char>, start: int, end: int) -> Seq<(int, int)> {
    pipe_pieces(t, arbitrated(backtick_spans(t, start, end), start, end), start, end, start)
}

pub open spec fn range_views(v: Seq<(usize, usize)>) -> Seq<(int, int)> {
    v.map_values(|p: (usize, usize)| (p.0 as int, p.1 as int))
}

fn in_ranges_exec(code: &Vec<Candidate>, i: usize) -> (b: bool)
    ensures
        b == in_ranges(cand_views(code@), i as int),
{
    let ghost cv = cand_views(code@);
    let mut k: usize = 0;
    while k < code.len()
        invariant
            k <= code.len(),
            cv == cand_views(code@),
            forall|j: int| 0 <= j < k ==> !((#[trigger] cv[j]).start <= i < cv[j].end),
        decreases code.len() - k,
    {
        assert(cv[k as int] == cand_view(code@[k as int]));
        if code[k].start <= i && i < code[k].end {
            return true;
        }
        k += 1;
    }
    false
}

/// The cells of a table-like line (see [`pipe_ranges`]).
pub fn structural_pipe_ranges(t: &Vec<char>, start: usize, end: usize) -> (r: Vec<(usize, usize)>)
    requires
        end <= t.len(),
    ensures
        range_views(r@) == pipe_ranges(t@, start as int, end as int),
{
    let code = arbitrate(scan_backticks(t, start, end), start, end);
    let ghost cv = cand_views(code@);
    let ghost whole = pipe_pieces(t@, cv, start as int, end as int, start as int);
    let mut out: Vec<(usize, usize)> = Vec::new();
    let mut seg = start;
    let mut i = start;
    assert(range_views(out@) =~= Seq::<(int, int)>::empty());
    assert(Seq::<(int, int)>::empty() + whole =~= whole);
    while i < end
        invariant
            end <= t.len(),
            start <= i,
            seg <= i,
            cv == cand_views(code@),
            range_views(out@) + pipe_pieces(t@, cv, i as int, end as int, seg as int) == whole,
        decreases end - i,
    {
        let ghost before = range_views(out@);
        if t[i] == '|' && escape_is_even(t, i) && !in_ranges_exec(&code, i) {
            assert(pipe_at(t@, cv, i as int));
            if seg < i {
                out.push((seg, i));
                assert(range_views(out@) =~= before.push((seg as int, i as int)));
                assert(range_views(out@) + pipe_pieces(t@, cv, i + 1, end as int, i + 1) =~= before + (seq![
                    (seg as int, i as int),
                ] + pipe_pieces(t@, cv, i + 1, end as int, i + 1)));
            } else {
                assert(Seq::<(int, int)>::empty() + pipe_pieces(t@, cv, i + 1, end as int, i + 1) =~= pipe_pieces(
                    t@,
                    cv,
                    i + 1,
                    end as int,
                    i + 1,
                ));
            }
            seg = i + 1;
        } else {
            assert(!pipe_at(t@, cv, i as int));
        }
        i += 1;
    }
    let ghost before = range_views(out@);
    if seg < end {
        out.push((seg, end));
        assert(range_views(out@) =~= before.push((seg as int, end as int)));
    } else {
        assert(before + Seq::<(int, int)>::empty() =~= before);
    }
    out
}

/// The scopes found so far, the open paragraph's start, its end and its
/// containers.
pub type ScopeState = (Seq<(int, int)>, Option<int>, int, Option<Seq<ContainerFrame>>);

/// The scopes with the open paragraph closed (when it is not empty).
pub open spec fn flushed(sc: Seq<(int, int)>, ps: Option<int>, pe: int) -> Seq<(int, int)> {
    match ps {
        Some(v) => if v < pe {
            sc.push((v, pe))
        } else {
            sc
        },
        None => sc,
    }
}

/// One line's effect on the scopes: excluded and blank lines and a change
/// of containers close the paragraph; a line with `|` gives its cells; a
/// heading gives its payload; a list item starts a new paragraph; other
/// lines continue (or open) the paragraph.
pub open spec fn scope_step(t: Seq<char>, ls: Seq<LineView>, ex: Seq<bool>, st: ScopeState, i: int) -> ScopeState {
    let l = ls[i];
    let p = payload(t, l);
    let pst = payload_start(t, l);
    let brk = ex[i] || p.len() == 0 || (st.3 is Some && st.3->0 != l.frames);
    let sc1 = if brk {
        flushed(st.0, st.1, st.2)
    } else {
        st.0
    };
    let ps1: Option<int> = if brk {
        None
    } else {
        st.1
    };
    let pk1: Option<Seq<ContainerFrame>> = if brk {
        None
    } else {
        st.3
    };
    if ex[i] || p.len() == 0 {
        (sc1, ps1, st.2, pk1)
    } else if p.contains('|') {
        (flushed(sc1, ps1, st.2) + pipe_ranges(t, pst, l.content_end), None, st.2, None)
    } else {
        let brk2 = is_heading(p) || (l.starts_list && ps1 is Some);
        let sc2 = if brk2 {
            flushed(sc1, ps1, st.2)
        } else {
            sc1
        };
        let ps2: Option<int> = if brk2 {
            None
        } else {
            ps1
        };
        let pk2: Option<Seq<ContainerFrame>> = if brk2 {
            None
        } else {
            pk1
        };
        if is_heading(p) {
            (sc2.push((pst, l.end)), ps2, st.2, pk2)
        } else {
            (
                sc2,
                if ps2 is Some {
                    ps2
                } else {
                    Some(pst)
                },
                l.end,
                if pk2 is Some {
                    pk2
                } else {
                    Some(l.frames)
                },
            )
        }
    }
}

pub open spec fn scopes_scan(t: Seq<char>, ls: Seq<LineView>, ex: Seq<bool>, n: int) -> ScopeState
    decreases n,
{
    if n <= 0 {
        (Seq::empty(), None, 0, None)
    } else {
        scope_step(t, ls, ex, scopes_scan(t, ls, ex, n - 1), n - 1)
    }
}

/// The ranges scanned for inline regions: paragraphs, headings and table
/// cells outside the excluded lines.
pub open spec fn inline_scope_ranges(t: Seq<char>, ls: Seq<LineView>, ex: Seq<bool>) -> Seq<(int, int)> {
    let st = scopes_scan(t, ls, ex, ls.len() as int);
    flushed(st.0, st.1, st.2)
}

proof fn lemma_pipe_pieces_bound(t: Seq<char>, code: Seq<Cand>, i: int, end: int, seg: int)
    ensures
        forall|k: int| 0 <= k < pipe_pieces(t, code, i, end, seg).len() ==> (#[trigger] pipe_pieces(
            t,
            code,
            i,
            end,
            seg,
        )[k]).1 <= end,
    decreases end - i,
{
    if i < end {
        if pipe_at(t, code, i) {
            lemma_pipe_pieces_bound(t, code, i + 1, end, i + 1);
            let head: Seq<(int, int)> = if seg < i {
                seq![(seg, i)]
            } else {
                Seq::empty()
            };
            let rest = pipe_pieces(t, code, i + 1, end, i + 1);
            assert(pipe_pieces(t, code, i, end, seg) == head + rest);
            assert forall|k: int| 0 <= k < (head + rest).len() implies (#[trigger] (head + rest)[k]).1 <= end by {
                if k >= head.len() {
                    assert((head + rest)[k] == rest[k - head.len()]);
                }
            }
        } else {
            lemma_pipe_pieces_bound(t, code, i + 1, end, seg);
            assert(pipe_pieces(t, code, i, end, seg) == pipe_pieces(t, code, i + 1, end, seg));
        }
    }
}

pub open spec fn opt_int(o: Option<usize>) -> Option<int> {
    match o {
        Some(v) => Some(v as int),
        None => None,
    }
}

pub open spec fn opt_frames(o: Option<Vec<ContainerFrame>>) -> Option<Seq<ContainerFrame>> {
    match o {
        Some(v) => Some(v@),
        None => None,
    }
}

pub open spec fn ends_within(sc: Seq<(int, int)>, n: int) -> bool {
    forall|k: int| 0 <= k < sc.len() ==> (#[trigger] sc[k]).1 <= n
}

fn flush(scopes: &mut Vec<(usize, usize)>, ps: Option<usize>, pe: usize)
    ensures
        range_views(final(scopes)@) == flushed(range_views(old(scopes)@), opt_int(ps), pe as int),
{
    let ghost before = range_views(scopes@);
    match ps {
        Some(v) => {
            if v < pe {
                scopes.push((v, pe));
                assert(range_views(scopes@) =~= before.push((v as int, pe as int)));
            }
        },
        None => {},
    }
}

fn append_ranges(dst: &mut Vec<(usize, usize)>, src: Vec<(usize, usize)>)
    ensures
        range_views(final(dst)@) == range_views(old(dst)@) + range_views(src@),
{
    let mut other = src;
    let ghost a = dst@;
    let ghost b = other@;
    dst.append(&mut other);
    assert(range_views(dst@) =~= range_views(a) + range_views(b));
}

/// The ranges scanned for inline regions (see [`inline_scope_ranges`]).
#[verifier::rlimit(80)]
pub fn inline_scopes(t: &Vec<char>, lines: &Vec<Line>, excluded: &Vec<bool>) -> (r: Vec<(usize, usize)>)
    requires
        short_enough(t@),
        lines_fit(t@, lines@),
        excluded.len() == lines.len(),
    ensures
        range_views(r@) == inline_scope_ranges(t@, line_views(lines@), excluded@),
        ends_within(range_views(r@), t@.len() as int),
{
    let ghost ls = line_views(lines@);
    let mut scopes: Vec<(usize, usize)> = Vec::new();
    let mut ps: Option<usize> = None;
    let mut pe: usize = 0;
    let mut pk: Option<Vec<ContainerFrame>> = None;
    let mut i: usize = 0;
    assert(range_views(scopes@) =~= Seq::<(int, int)>::empty());
    while i < lines.len()
        invariant
            i <= lines.len() == excluded.len(),
            ls == line_views(lines@),
            short_enough(t@),
            lines_fit(t@, lines@),
            (range_views(scopes@), opt_int(ps), pe as int, opt_frames(pk)) == scopes_scan(t@, ls, excluded@, i as int),
            ends_within(range_views(scopes@), t@.len() as int),
            pe <= t@.len(),
            ps matches Some(v) ==> v <= t@.len(),
        decreases lines.len() - i,
    {
        let ghost st = scopes_scan(t@, ls, excluded@, i as int);
        assert(ls[i as int] == line_view(lines@[i as int]));
        let line = &lines[i];
        let p = line_payload(t, line);
        let pst = payload_start_exec(t, line);
        let key_changed = match &pk {
            Some(k) => !frames_eq(k, &line.frames),
            None => false,
        };
        let brk = excluded[i] || p.len() == 0 || key_changed;
        if brk {
            flush(&mut scopes, ps, pe);
            ps = None;
            pk = None;
        }
        if excluded[i] || p.len() == 0 {
        } else if crate::text::contains_char(&p, '|') {
            flush(&mut scopes, ps, pe);
            ps = None;
            pk = None;
            let cells = structural_pipe_ranges(t, pst, line.content_end);
            proof {
                lemma_pipe_pieces_bound(
                    t@,
                    arbitrated(backtick_spans(t@, pst as int, line.content_end as int), pst as int, line.content_end as int),
                    pst as int,
                    line.content_end as int,
                    pst as int,
                );
            }
            let ghost before = range_views(scopes@);
            append_ranges(&mut scopes, cells);
            assert(ends_within(range_views(scopes@), t@.len() as int)) by {
                assert forall|k: int| 0 <= k < range_views(scopes@).len() implies (#[trigger] range_views(
                    scopes@,
                )[k]).1 <= t@.len() by {
                    if k >= before.len() {
                        assert(range_views(scopes@)[k] == pipe_ranges(
                            t@,
                            pst as int,
                            line.content_end as int,
                        )[k - before.len()]);
                    } else {
                        assert(range_views(scopes@)[k] == before[k]);
                    }
                }
            }
        } else {
            let heading = is_heading_exec(&p);
            if heading || (line.starts_list && ps.is_some()) {
                flush(&mut scopes, ps, pe);
                ps = None;
                pk = None;
            }
            if heading {
                let ghost before = range_views(scopes@);
                scopes.push((pst, line.end));
                assert(range_views(scopes@) =~= before.push((pst as int, line.end as int)));
            } else {
                if ps.is_none() {
                    ps = Some(pst);
                }
                pe = line.end;
                if pk.is_none() {
                    pk = Some(crate::preservation::lines::copy_frames_pub(&line.frames));
                }
            }
        }
        assert(scopes_scan(t@, ls, excluded@, i + 1) == scope_step(t@, ls, excluded@, st, i as int));
        i += 1;
    }
    let ghost before = range_views(scopes@);
    flush(&mut scopes, ps, pe);
    assert(ends_within(range_views(scopes@), t@.len() as int)) by {
        assert forall|k: int| 0 <= k < range_views(scopes@).len() implies (#[trigger] range_views(scopes@)[k]).1
            <= t@.len() by {
            if k < before.len() {
                assert(range_views(scopes@)[k] == before[k]);
            }
        }
    }
    scopes
}

// ---------------------------------------------------------------------------
// The whole scan
// ---------------------------------------------------------------------------

pub const REGIONS_OVERLAP: &'static str = "selected block and inline regions overlap";

/// Whether a line shares text with one of the blocks.
pub open spec fn overlaps_any(l: LineView, bs: Seq<Cand>) -> bool {
    exists|k: int| 0 <= k < bs.len() && l.start < (#[trigger] bs[k]).end && bs[k].start < l.end
}

/// Lines kept from inline scanning: front matter, code, and lines a block
/// covers.
pub open spec fn excluded_lines(ls: Seq<LineView>, opaque: Seq<bool>, bs: Seq<Cand>) -> Seq<bool> {
    Seq::new(ls.len(), |i: int| opaque[i] || overlaps_any(ls[i], bs))
}

/// The inline regions of each scope, scope after scope.
pub open spec fn scope_regions(t: Seq<char>, scopes: Seq<(int, int)>) -> Seq<Cand>
    decreases scopes.len(),
{
    if scopes.len() == 0 {
        Seq::empty()
    } else {
        scope_regions(t, scopes.drop_last()) + inline_scope_regions(t, scopes.last().0, scopes.last().1)
    }
}

/// Every block and inline region chosen, ordered by start.
pub open spec fn protected_candidates(t: Seq<char>) -> Seq<Cand> {
    let ls = source_lines(t);
    let opaque = opaque_flags(t, ls);
    let blocks = block_regions(t, ls, opaque);
    let ex = excluded_lines(ls, opaque, blocks);
    sort_by_start(blocks + scope_regions(t, inline_scope_ranges(t, ls, ex)))
}

/// Turning the first `n` candidates into regions: the end of the last one,
/// or the first failure (an overlap, or a check of the region).
pub open spec fn assembled(t: Seq<char>, cs: Seq<Cand>, n: int) -> Result<int, &'static str>
    decreases n,
{
    if n <= 0 {
        Ok(0)
    } else {
        match assembled(t, cs, n - 1) {
            Err(m) => Err(m),
            Ok(previous_end) => {
                let c = cs[n - 1];
                if c.start < previous_end {
                    Err(REGIONS_OVERLAP)
                } else {
                    match candidate_result(t, c.form, c.start, c.end, c.scaffold) {
                        Err(m) => Err(m),
                        Ok(_) => Ok(c.end),
                    }
                }
            },
        }
    }
}

/// The region made from candidate `c` at position `i`.
pub open spec fn region_matches(t: Seq<char>, r: ProtectedRegion, c: Cand, i: int) -> bool {
    &&& r.index == i
    &&& r.kind == c.kind
    &&& r.form == c.form
    &&& r.start == c.start
    &&& r.end == c.end
    &&& r.container == c.container
    &&& r.scaffold_prefix@ == c.scaffold
    &&& candidate_result(t, c.form, c.start, c.end, c.scaffold) == Ok::<Seq<char>, &'static str>(r.source@)
    &&& usize_views(r.logical_widths@) == if c.form is Inline {
        line_widths(r.source@)
    } else {
        Seq::empty()
    }
}

proof fn lemma_assembled_err(t: Seq<char>, cs: Seq<Cand>, m: int, n: int)
    requires
        0 <= m <= n,
        assembled(t, cs, m) is Err,
    ensures
        assembled(t, cs, n) == assembled(t, cs, m),
    decreases n - m,
{
    if m < n {
        lemma_assembled_err(t, cs, m, n - 1);
    }
}

fn overlaps_any_exec(l: &Line, bs: &Vec<Candidate>) -> (b: bool)
    ensures
        b == overlaps_any(line_view(*l), cand_views(bs@)),
{
    let ghost bv = cand_views(bs@);
    let mut k: usize = 0;
    while k < bs.len()
        invariant
            k <= bs.len(),
            bv == cand_views(bs@),
            forall|j: int| 0 <= j < k ==> !(l.start < (#[trigger] bv[j]).end && bv[j].start < l.end),
        decreases bs.len() - k,
    {
        assert(bv[k as int] == cand_view(bs@[k as int]));
        if l.start < bs[k].end && bs[k].start < l.end {
            return true;
        }
        k += 1;
    }
    false
}

/// Finds the regions of a normalized source that must reach the output
/// exactly as written: display math blocks, then code spans and inline math
/// in paragraphs, headings and table cells, outside front matter and code
/// blocks. Fails when a block and an inline region overlap or a region does
/// not check against the source.
#[verifier::rlimit(60)]
pub fn scan_protected_regions(source: &NormalizedSource) -> (r: Result<Vec<ProtectedRegion>, PreservationError>)
    requires
        short_enough(source.text@),
    ensures
        ({
            let t = source.text@;
            let cs = protected_candidates(t);
            match assembled(t, cs, cs.len() as int) {
                Ok(_) => r matches Ok(rs) && rs.len() == cs.len() && forall|i: int|
                    0 <= i < rs.len() ==> region_matches(t, #[trigger] rs[i], cs[i], i),
                Err(m) => r matches Err(e) && e.0@ == m@,
            }
        }),
{
    let t = chars_of(source.text.as_str());
    let lines = build_lines(&t);
    let ghost ls = line_views(lines@);
    assert(lines_fit(t@, lines@));
    let opaque = opaque_line_flags(&t, &lines);
    let blocks = scan_blocks(&t, &lines, &opaque);
    let ghost bv = cand_views(blocks@);
    let mut excluded: Vec<bool> = Vec::new();
    let mut i: usize = 0;
    assert(excluded@ =~= excluded_lines(ls, opaque@, bv).take(0));
    while i < lines.len()
        invariant
            i <= lines.len() == opaque.len(),
            ls == line_views(lines@),
            bv == cand_views(blocks@),
            opaque@ == opaque_flags(t@, ls),
            excluded@ == excluded_lines(ls, opaque@, bv).take(i as int),
        decreases lines.len() - i,
    {
        assert(ls[i as int] == line_view(lines@[i as int]));
        let flag = opaque[i] || overlaps_any_exec(&lines[i], &blocks);
        let ghost before = excluded@;
        excluded.push(flag);
        assert(excluded@ =~= excluded_lines(ls, opaque@, bv).take(i + 1));
        i += 1;
    }
    assert(excluded@ =~= excluded_lines(ls, opaque@, bv));
    let scopes = inline_scopes(&t, &lines, &excluded);
    let ghost sv = range_views(scopes@);
    let mut inline: Vec<Candidate> = Vec::new();
    let mut k: usize = 0;
    assert(cand_views(inline@) =~= Seq::<Cand>::empty());
    assert(sv.take(0) =~= Seq::<(int, int)>::empty());
    while k < scopes.len()
        invariant
            k <= scopes.len(),
            sv == range_views(scopes@),
            ends_within(sv, t@.len() as int),
            cand_views(inline@) == scope_regions(t@, sv.take(k as int)),
            proper_cands(cand_views(inline@)),
        decreases scopes.len() - k,
    {
        assert(sv[k as int] == (scopes@[k as int].0 as int, scopes@[k as int].1 as int));
        let (a, b) = scopes[k];
        assert(sv.take(k + 1).drop_last() =~= sv.take(k as int));
        assert(sv.take(k + 1).last() == sv[k as int]);
        append_cands(&mut inline, scan_inline_scope(&t, a, b));
        k += 1;
    }
    assert(sv.take(k as int) =~= sv);
    let mut all = blocks;
    append_cands(&mut all, inline);
    let sorted = sort_candidates(all);
    let ghost cs = cand_views(sorted@);
    assert(cs == protected_candidates(source.text@));
    let mut regions: Vec<ProtectedRegion> = Vec::new();
    let mut previous_end: usize = 0;
    let mut j: usize = 0;
    while j < sorted.len()
        invariant
            j <= sorted.len(),
            t@ == source.text@,
            cs == cand_views(sorted@),
            cs == protected_candidates(source.text@),
            assembled(t@, cs, j as int) == Ok::<int, &'static str>(previous_end as int),
            regions.len() == j,
            forall|q: int| 0 <= q < j ==> region_matches(t@, #[trigger] regions@[q], cs[q], q),
        decreases sorted.len() - j,
    {
        assert(cs[j as int] == cand_view(sorted@[j as int]));
        let c = copy_candidate(&sorted[j]);
        if c.start < previous_end {
            proof {
                lemma_assembled_err(t@, cs, j + 1, cs.len() as int);
            }
            return Err(PreservationError(REGIONS_OVERLAP));
        }
        previous_end = c.end;
        let made = ProtectedRegion::from_candidate(source, c, regions.len());
        match made {
            Ok(region) => {
                assert(region_matches(t@, region, cs[j as int], j as int));
                let ghost pre = regions@;
                regions.push(region);
                assert forall|q: int| 0 <= q < j + 1 implies region_matches(t@, #[trigger] regions@[q], cs[q], q) by {
                    if q < j {
                        assert(regions@[q] == pre[q]);
                    }
                }
            },
            Err(e) => {
                proof {
                    lemma_assembled_err(t@, cs, j + 1, cs.len() as int);
                }
                return Err(e);
            },
        }
        j += 1;
    }
    Ok(regions)
}

} // verus!
