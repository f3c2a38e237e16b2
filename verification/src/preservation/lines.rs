//! Source lines with their block containers (block quotes and list items),
//! as the region scanner sees them: which containers a line continues or
//! opens, where its content starts and at which logical column (tabs
//! advance to the next multiple of four), and whether it is a lazy
//! continuation line.
//!
//! Positions are scalar offsets into the normalized source.

use vstd::prelude::*;
use crate::preservation::model::ContainerContext;

verus! {

/// The longest text the line scanner takes: columns stay within `usize`.
pub open spec fn short_enough(t: Seq<char>) -> bool {
    t.len() * 8 + 64 <= usize::MAX
}

pub open spec fn is_blank_char(c: char) -> bool {
    c == ' ' || c == '\t'
}

/// The column after `c`: a tab advances to the next multiple of four.
pub open spec fn advance(col: int, c: char) -> int {
    if c == '\t' {
        col + (4 - col % 4)
    } else {
        col + 1
    }
}

pub fn advance_column(column: usize, c: char) -> (r: usize)
    requires
        column + 4 <= usize::MAX,
    ensures
        r == advance(column as int, c),
        column < r <= column + 4,
{
    if c == '\t' {
        column + (4 - column % 4)
    } else {
        column + 1
    }
}

/// Skips spaces and tabs from `i` (before `end`).
pub open spec fn ws_end(t: Seq<char>, i: int, end: int, col: int) -> (int, int)
    decreases end - i,
{
    if 0 <= i < end && i < t.len() && is_blank_char(t[i]) {
        ws_end(t, i + 1, end, advance(col, t[i]))
    } else {
        (i, col)
    }
}

/// Skips spaces and tabs from `i` while the column stays within `max` of
/// `origin`.
pub open spec fn indent_end(t: Seq<char>, i: int, end: int, col: int, origin: int, max: int) -> (int, int)
    decreases end - i,
{
    if 0 <= i < end && i < t.len() && is_blank_char(t[i]) && advance(col, t[i]) - origin <= max {
        indent_end(t, i + 1, end, advance(col, t[i]), origin, max)
    } else {
        (i, col)
    }
}

/// Skips spaces and tabs from `i` until column `target`: the position and
/// column reached, or `None` when the blanks end first.
pub open spec fn to_column(t: Seq<char>, i: int, end: int, col: int, target: int) -> Option<(int, int)>
    decreases end - i,
{
    if 0 <= i < end && i < t.len() && is_blank_char(t[i]) && col < target {
        to_column(t, i + 1, end, advance(col, t[i]), target)
    } else if col >= target {
        Some((i, col))
    } else {
        None
    }
}

pub proof fn lemma_ws_end(t: Seq<char>, i: int, end: int, col: int)
    requires
        0 <= i,
        0 <= col,
    ensures
        i <= ws_end(t, i, end, col).0,
        ws_end(t, i, end, col).0 <= end || ws_end(t, i, end, col).0 == i,
        ws_end(t, i, end, col).0 <= t.len() || ws_end(t, i, end, col).0 == i,
        col <= ws_end(t, i, end, col).1 <= col + 4 * (ws_end(t, i, end, col).0 - i),
    decreases end - i,
{
    if 0 <= i < end && i < t.len() && is_blank_char(t[i]) {
        lemma_ws_end(t, i + 1, end, advance(col, t[i]));
    }
}

pub proof fn lemma_indent_end(t: Seq<char>, i: int, end: int, col: int, origin: int, max: int)
    requires
        0 <= i,
        0 <= col,
    ensures
        i <= indent_end(t, i, end, col, origin, max).0,
        indent_end(t, i, end, col, origin, max).0 <= end || indent_end(t, i, end, col, origin, max).0 == i,
        indent_end(t, i, end, col, origin, max).0 <= t.len() || indent_end(t, i, end, col, origin, max).0 == i,
        col <= indent_end(t, i, end, col, origin, max).1 <= col + 4 * (indent_end(t, i, end, col, origin, max).0 - i),
    decreases end - i,
{
    if 0 <= i < end && i < t.len() && is_blank_char(t[i]) && advance(col, t[i]) - origin <= max {
        lemma_indent_end(t, i + 1, end, advance(col, t[i]), origin, max);
    }
}

pub proof fn lemma_to_column(t: Seq<char>, i: int, end: int, col: int, target: int)
    requires
        0 <= i,
        0 <= col,
    ensures
        to_column(t, i, end, col, target) matches Some(p) ==> i <= p.0 && (p.0 <= end || p.0 == i) && (p.0
            <= t.len() || p.0 == i) && col <= p.1 <= col + 4 * (p.0 - i),
    decreases end - i,
{
    if 0 <= i < end && i < t.len() && is_blank_char(t[i]) && col < target {
        lemma_to_column(t, i + 1, end, advance(col, t[i]), target);
    }
}

pub fn consume_whitespace(t: &Vec<char>, index: usize, end: usize, column: usize) -> (r: (usize, usize))
    requires
        end <= t.len(),
        short_enough(t@),
        index <= t.len(),
        column <= 4 * index + 8,
    ensures
        (r.0 as int, r.1 as int) == ws_end(t@, index as int, end as int, column as int),
        index <= r.0,
        r.1 <= 4 * r.0 + 8,
{
    let mut i = index;
    let mut col = column;
    proof {
        lemma_ws_end(t@, index as int, end as int, column as int);
    }
    while i < end && (t[i] == ' ' || t[i] == '\t')
        invariant
            index <= i <= t.len(),
            end <= t.len(),
            col <= 4 * i + 8,
            short_enough(t@),
            ws_end(t@, index as int, end as int, column as int) == ws_end(t@, i as int, end as int, col as int),
        decreases end - i,
    {
        col = advance_column(col, t[i]);
        i += 1;
    }
    (i, col)
}

pub fn consume_indent(t: &Vec<char>, index: usize, end: usize, column: usize, maximum: usize) -> (r: (
    usize,
    usize,
))
    requires
        end <= t.len(),
        short_enough(t@),
        index <= t.len(),
        column <= 4 * index + 8,
    ensures
        (r.0 as int, r.1 as int) == indent_end(
            t@,
            index as int,
            end as int,
            column as int,
            column as int,
            maximum as int,
        ),
        index <= r.0 <= t.len(),
        column <= r.1 <= 4 * r.0 + 8,
{
    let origin = column;
    let mut i = index;
    let mut col = column;
    proof {
        lemma_indent_end(t@, index as int, end as int, column as int, column as int, maximum as int);
    }
    while i < end && (t[i] == ' ' || t[i] == '\t')
        invariant
            index <= i <= t.len(),
            end <= t.len(),
            origin == column,
            column <= col <= 4 * i + 8,
            short_enough(t@),
            indent_end(t@, index as int, end as int, column as int, column as int, maximum as int) == indent_end(
                t@,
                i as int,
                end as int,
                col as int,
                column as int,
                maximum as int,
            ),
        ensures
            index <= i <= t.len(),
            column <= col <= 4 * i + 8,
            indent_end(t@, index as int, end as int, column as int, column as int, maximum as int) == (
            i as int, col as int),
        decreases end - i,
    {
        let next = advance_column(col, t[i]);
        if next - origin > maximum {
            break;
        }
        i += 1;
        col = next;
    }
    (i, col)
}

pub fn consume_to_column(t: &Vec<char>, index: usize, end: usize, column: usize, target: usize) -> (r: Option<
    (usize, usize),
>)
    requires
        end <= t.len(),
        short_enough(t@),
        index <= t.len(),
        column <= 4 * index + 8,
    ensures
        match to_column(t@, index as int, end as int, column as int, target as int) {
            Some(p) => r matches Some(x) && (x.0 as int, x.1 as int) == p && index <= x.0 <= t.len() && x.1
                <= 4 * x.0 + 8,
            None => r is None,
        },
{
    let mut i = index;
    let mut col = column;
    while i < end && (t[i] == ' ' || t[i] == '\t') && col < target
        invariant
            index <= i <= t.len(),
            end <= t.len(),
            col <= 4 * i + 8,
            short_enough(t@),
            to_column(t@, index as int, end as int, column as int, target as int) == to_column(
                t@,
                i as int,
                end as int,
                col as int,
                target as int,
            ),
        decreases end - i,
    {
        col = advance_column(col, t[i]);
        i += 1;
    }
    if col >= target {
        Some((i, col))
    } else {
        None
    }
}

// ---------------------------------------------------------------------------
// Container markers
// ---------------------------------------------------------------------------

/// A block quote marker at `i` (up to three columns of indent, `>`, and one
/// optional blank): the position and column after it, and the marker's
/// position.
pub open spec fn quote_marker(t: Seq<char>, i: int, end: int, col: int) -> Option<(int, int, int)> {
    let m = indent_end(t, i, end, col, col, 3);
    if m.0 >= end || m.0 >= t.len() || t[m.0] != '>' {
        None
    } else if m.0 + 1 < end && m.0 + 1 < t.len() && is_blank_char(t[m.0 + 1]) {
        Some((m.0 + 2, advance(m.1 + 1, t[m.0 + 1]), m.0))
    } else {
        Some((m.0 + 1, m.1 + 1, m.0))
    }
}

pub open spec fn is_ascii_digit(c: char) -> bool {
    '0' <= c && c <= '9'
}

/// The end of the digits from `i` (at most nine, before `end`).
pub open spec fn digits_end(t: Seq<char>, i: int, first: int, end: int) -> int
    decreases end - i,
{
    if 0 <= i < end && i < t.len() && i - first < 9 && is_ascii_digit(t[i]) {
        digits_end(t, i + 1, first, end)
    } else {
        i
    }
}

proof fn lemma_digits_end(t: Seq<char>, i: int, first: int, end: int)
    requires
        0 <= i,
    ensures
        i <= digits_end(t, i, first, end),
        digits_end(t, i, first, end) <= end || digits_end(t, i, first, end) == i,
    decreases end - i,
{
    if 0 <= i < end && i < t.len() && i - first < 9 && is_ascii_digit(t[i]) {
        lemma_digits_end(t, i + 1, first, end);
    }
}

/// The end of a list marker at `i` (`-`, `*`, `+`, or up to nine digits and
/// `.` or `)`), when a blank or the end of the content follows it.
pub open spec fn list_marker_end(t: Seq<char>, i: int, end: int) -> Option<int> {
    if i >= end || i < 0 || end > t.len() {
        None
    } else {
        let me: Option<int> = if t[i] == '-' || t[i] == '*' || t[i] == '+' {
            Some(i + 1)
        } else if is_ascii_digit(t[i]) {
            let c = digits_end(t, i, i, end);
            if c >= end || !(t[c] == '.' || t[c] == ')') {
                None
            } else {
                Some(c + 1)
            }
        } else {
            None
        };
        match me {
            None => None,
            Some(m) => if m == end || is_blank_char(t[m]) {
                Some(m)
            } else {
                None
            },
        }
    }
}

/// A list item marker at `i`: the position and column where the item's
/// content starts, the item's content column, and the marker's position.
/// Up to four blank columns after the marker belong to it; with more (or
/// none before the end), one blank does.
pub open spec fn list_marker(t: Seq<char>, i: int, end: int, col: int) -> Option<(int, int, int, int)> {
    let m = indent_end(t, i, end, col, col, 3);
    match list_marker_end(t, m.0, end) {
        None => None,
        Some(me) => {
            let amc = m.1 + me - m.0;
            if me == end {
                Some((me, amc, amc + 1, m.0))
            } else {
                let p = ws_end(t, me, end, amc);
                if p.0 < end && p.1 - amc <= 4 {
                    Some((p.0, p.1, p.1, m.0))
                } else {
                    let cc = advance(amc, t[me]);
                    Some((me + 1, cc, cc, m.0))
                }
            }
        },
    }
}

pub fn consume_quote_marker(t: &Vec<char>, index: usize, end: usize, column: usize) -> (r: Option<
    (usize, usize, usize),
>)
    requires
        end <= t.len(),
        short_enough(t@),
        index <= t.len(),
        column <= 4 * index + 8,
    ensures
        match quote_marker(t@, index as int, end as int, column as int) {
            Some(q) => r matches Some(x) && (x.0 as int, x.1 as int, x.2 as int) == q && index < x.0 <= t.len()
                && x.1 <= 4 * x.0 + 8 && x.0 <= end,
            None => r is None,
        },
{
    proof {
        lemma_quote_marker(t@, index as int, end as int, column as int);
    }
    let (mi, mc) = consume_indent(t, index, end, column, 3);
    if mi >= end || t[mi] != '>' {
        return None;
    }
    let identity = mi;
    let mut marker_index = mi + 1;
    let mut marker_column = mc + 1;
    if marker_index < end && (t[marker_index] == ' ' || t[marker_index] == '\t') {
        marker_column = advance_column(marker_column, t[marker_index]);
        marker_index += 1;
    }
    Some((marker_index, marker_column, identity))
}

fn list_marker_end_exec(t: &Vec<char>, index: usize, end: usize) -> (r: Option<usize>)
    requires
        end <= t.len(),
    ensures
        match list_marker_end(t@, index as int, end as int) {
            Some(m) => r == Some(m as usize) && index < m <= end,
            None => r is None,
        },
{
    if index >= end {
        return None;
    }
    let c = t[index];
    let marker_end = if c == '-' || c == '*' || c == '+' {
        index + 1
    } else if '0' <= c && c <= '9' {
        let mut cursor = index;
        proof {
            lemma_digits_end(t@, index as int, index as int, end as int);
        }
        while cursor < end && cursor - index < 9 && '0' <= t[cursor] && t[cursor] <= '9'
            invariant
                index <= cursor,
                end <= t.len(),
                digits_end(t@, index as int, index as int, end as int) == digits_end(
                    t@,
                    cursor as int,
                    index as int,
                    end as int,
                ),
            decreases end - cursor,
        {
            cursor += 1;
        }
        if cursor >= end || !(t[cursor] == '.' || t[cursor] == ')') {
            return None;
        }
        cursor + 1
    } else {
        return None;
    };
    if marker_end == end || t[marker_end] == ' ' || t[marker_end] == '\t' {
        Some(marker_end)
    } else {
        None
    }
}

pub fn consume_list_marker(t: &Vec<char>, index: usize, end: usize, column: usize) -> (r: Option<
    (usize, usize, usize, usize),
>)
    requires
        end <= t.len(),
        short_enough(t@),
        index <= t.len(),
        column <= 4 * index + 8,
    ensures
        match list_marker(t@, index as int, end as int, column as int) {
            Some(q) => r matches Some(x) && (x.0 as int, x.1 as int, x.2 as int, x.3 as int) == q && index
                < x.0 <= t.len() && x.1 <= 4 * x.0 + 8 && x.2 <= 4 * x.0 + 9 && x.0 <= end,
            None => r is None,
        },
{
    proof {
        lemma_list_marker(t@, index as int, end as int, column as int);
    }
    let (marker_index, marker_column) = consume_indent(t, index, end, column, 3);
    let marker_end = match list_marker_end_exec(t, marker_index, end) {
        Some(m) => m,
        None => {
            return None;
        },
    };
    let after_marker_column = marker_column + (marker_end - marker_index);
    if marker_end == end {
        return Some((marker_end, after_marker_column, after_marker_column + 1, marker_index));
    }
    proof {
        lemma_ws_end(t@, marker_end as int, end as int, after_marker_column as int);
    }
    let (padding_end, padding_column) = consume_whitespace(t, marker_end, end, after_marker_column);
    let padding_width = padding_column - after_marker_column;
    if padding_end < end && padding_width <= 4 {
        Some((padding_end, padding_column, padding_column, marker_index))
    } else {
        let content_column = advance_column(after_marker_column, t[marker_end]);
        Some((marker_end + 1, content_column, content_column, marker_index))
    }
}


// ---------------------------------------------------------------------------
// Container frames
// ---------------------------------------------------------------------------

#[derive(Debug, Clone, Copy, PartialEq, Eq, Structural)]
pub enum ContainerKind {
    Quote,
    ListItem,
}

/// An open container: its kind, the position of its marker (which tells
/// containers of the same kind apart) and, for a list item, its content
/// column.
#[derive(Debug, Clone, Copy, PartialEq, Eq, Structural)]
pub struct ContainerFrame {
    pub kind: ContainerKind,
    pub identity: usize,
    pub content_column: usize,
}

/// Whether a line continues a container from `i`: a quote needs its marker,
/// a list item enough indent to reach its content column.
pub open spec fn match_frame(t: Seq<char>, i: int, end: int, col: int, f: ContainerFrame) -> Option<(int, int)> {
    match f.kind {
        ContainerKind::Quote => match quote_marker(t, i, end, col) {
            Some(q) => Some((q.0, q.1)),
            None => None,
        },
        ContainerKind::ListItem => to_column(t, i, end, col, f.content_column as int),
    }
}

pub proof fn lemma_quote_marker(t: Seq<char>, i: int, end: int, col: int)
    requires
        0 <= i,
        0 <= col,
    ensures
        quote_marker(t, i, end, col) matches Some(q) ==> i < q.0 && q.0 <= end && q.0 <= t.len() && q.1 <= col + 4 * (
        q.0 - i),
{
    lemma_indent_end(t, i, end, col, col, 3);
}

pub proof fn lemma_list_marker(t: Seq<char>, i: int, end: int, col: int)
    requires
        0 <= i,
        0 <= col,
    ensures
        list_marker(t, i, end, col) matches Some(q) ==> i < q.0 && q.0 <= end && q.0 <= t.len(),
{
    lemma_indent_end(t, i, end, col, col, 3);
    let m = indent_end(t, i, end, col, col, 3);
    if list_marker_end(t, m.0, end) is Some {
        let me = list_marker_end(t, m.0, end)->Some_0;
        if t[m.0] == '-' || t[m.0] == '*' || t[m.0] == '+' {
        } else {
            lemma_digits_end(t, m.0, m.0, end);
        }
        let amc = m.1 + me - m.0;
        if me != end {
            lemma_ws_end(t, me, end, amc);
        }
    }
}

/// Containers a line opens from `i`: quote markers and list markers, as many
/// as follow one another.
pub open spec fn new_frames(t: Seq<char>, i: int, end: int, col: int, frames: Seq<ContainerFrame>) -> (
    int,
    int,
    Seq<ContainerFrame>,
)
    decreases end - i,
{
    if i < 0 || i >= end || col < 0 {
        (i, col, frames)
    } else {
        match quote_marker(t, i, end, col) {
            Some(q) => {
                proof {
                    lemma_quote_marker(t, i, end, col);
                    lemma_indent_end(t, i, end, col, col, 3);
                }
                new_frames(
                    t,
                    q.0,
                    end,
                    q.1,
                    frames.push(ContainerFrame { kind: ContainerKind::Quote, identity: q.2 as usize, content_column: 0 }),
                )
            },
            None => match list_marker(t, i, end, col) {
                Some(l) => {
                    proof {
                        lemma_list_marker(t, i, end, col);
                    }
                    new_frames(
                        t,
                        l.0,
                        end,
                        l.1,
                        frames.push(
                            ContainerFrame {
                                kind: ContainerKind::ListItem,
                                identity: l.3 as usize,
                                content_column: l.2 as usize,
                            },
                        ),
                    )
                },
                None => (i, col, frames),
            },
        }
    }
}

/// Whether some frame is a list item.
pub open spec fn has_list(f: Seq<ContainerFrame>) -> bool {
    exists|i: int| 0 <= i < f.len() && (#[trigger] f[i]).kind == ContainerKind::ListItem
}

pub fn match_frame_exec(t: &Vec<char>, index: usize, end: usize, column: usize, frame: ContainerFrame) -> (r: Option<
    (usize, usize),
>)
    requires
        end <= t.len(),
        short_enough(t@),
        index <= t.len(),
        column <= 4 * index + 8,
    ensures
        match match_frame(t@, index as int, end as int, column as int, frame) {
            Some(p) => r matches Some(x) && (x.0 as int, x.1 as int) == p && index <= x.0 <= t.len() && x.1 <= 4
                * x.0 + 8 && (x.0 <= end || x.0 == index),
            None => r is None,
        },
{
    proof {
        lemma_quote_marker(t@, index as int, end as int, column as int);
        lemma_to_column(t@, index as int, end as int, column as int, frame.content_column as int);
    }
    match frame.kind {
        ContainerKind::Quote => match consume_quote_marker(t, index, end, column) {
            Some((i, c, _)) => Some((i, c)),
            None => None,
        },
        ContainerKind::ListItem => consume_to_column(t, index, end, column, frame.content_column),
    }
}

pub fn parse_new_frames(t: &Vec<char>, index: usize, end: usize, column: usize, frames: &mut Vec<ContainerFrame>) -> (r: (
    usize,
    usize,
    bool,
))
    requires
        end <= t.len(),
        short_enough(t@),
        index <= end,
        column <= 4 * index + 8,
    ensures
        r.0 <= end,
        (r.0 as int, r.1 as int, final(frames)@) == new_frames(
            t@,
            index as int,
            end as int,
            column as int,
            old(frames)@,
        ),
        r.2 == has_list(final(frames)@.skip(old(frames)@.len() as int)),
        final(frames)@.take(old(frames)@.len() as int) == old(frames)@,
        index <= r.0 <= t.len(),
        r.1 <= 4 * r.0 + 8,
{
    let original_len = frames.len();
    let ghost orig = frames@;
    let mut i = index;
    let mut col = column;
    let mut starts_list = false;
    assert(frames@.take(original_len as int) =~= orig);
    assert(!has_list(frames@.skip(original_len as int)));
    while i < end
        invariant
            end <= t.len(),
            short_enough(t@),
            index <= i <= end,
            col <= 4 * i + 8,
            new_frames(t@, index as int, end as int, column as int, orig) == new_frames(
                t@,
                i as int,
                end as int,
                col as int,
                frames@,
            ),
            original_len == orig.len(),
            original_len <= frames@.len(),
            frames@.take(original_len as int) == orig,
            starts_list == has_list(frames@.skip(original_len as int)),
        ensures
            new_frames(t@, index as int, end as int, column as int, orig) == (i as int, col as int, frames@),
            index <= i <= end,
            col <= 4 * i + 8,
            original_len <= frames@.len(),
            frames@.take(original_len as int) == orig,
            starts_list == has_list(frames@.skip(original_len as int)),
        decreases end - i,
    {
        let ghost pre = frames@;
        match consume_quote_marker(t, i, end, col) {
            Some((next, next_column, identity)) => {
                frames.push(ContainerFrame { kind: ContainerKind::Quote, identity, content_column: 0 });
                assert(frames@.take(original_len as int) =~= orig);
                assert(frames@.skip(original_len as int) =~= pre.skip(original_len as int).push(frames@.last()));
                assert(has_list(frames@.skip(original_len as int)) == has_list(pre.skip(original_len as int))) by {
                    let a = frames@.skip(original_len as int);
                    let b = pre.skip(original_len as int);
                    if has_list(a) {
                        let k = choose|k: int| 0 <= k < a.len() && (#[trigger] a[k]).kind == ContainerKind::ListItem;
                        assert(k < b.len());
                        assert(b[k] == a[k]);
                    }
                    if has_list(b) {
                        let k = choose|k: int| 0 <= k < b.len() && (#[trigger] b[k]).kind == ContainerKind::ListItem;
                        assert(a[k] == b[k]);
                    }
                }
                i = next;
                col = next_column;
            },
            None => {
                match consume_list_marker(t, i, end, col) {
                    Some((next, next_column, content_column, identity)) => {
                        frames.push(ContainerFrame { kind: ContainerKind::ListItem, identity, content_column });
                        assert(frames@.take(original_len as int) =~= orig);
                        let ghost a = frames@.skip(original_len as int);
                        assert(a =~= pre.skip(original_len as int).push(frames@.last()));
                        assert(a[a.len() - 1].kind == ContainerKind::ListItem);
                        starts_list = true;
                        i = next;
                        col = next_column;
                    },
                    None => {
                        break;
                    },
                }
            },
        }
    }
    (i, col, starts_list)
}

pub open spec fn quote_count(f: Seq<ContainerFrame>) -> nat
    decreases f.len(),
{
    if f.len() == 0 {
        0
    } else {
        quote_count(f.drop_last()) + if f.last().kind == ContainerKind::Quote {
            1nat
        } else {
            0nat
        }
    }
}

pub open spec fn list_count(f: Seq<ContainerFrame>) -> nat
    decreases f.len(),
{
    if f.len() == 0 {
        0
    } else {
        list_count(f.drop_last()) + if f.last().kind == ContainerKind::ListItem {
            1nat
        } else {
            0nat
        }
    }
}

/// The content column of the innermost list item (0 without one).
pub open spec fn last_list_column(f: Seq<ContainerFrame>) -> usize
    decreases f.len(),
{
    if f.len() == 0 {
        0
    } else if f.last().kind == ContainerKind::ListItem {
        f.last().content_column
    } else {
        last_list_column(f.drop_last())
    }
}

/// The container context of a stack of frames.
pub open spec fn context_of(f: Seq<ContainerFrame>) -> ContainerContext {
    ContainerContext {
        blockquote_depth: quote_count(f) as usize,
        list_depth: list_count(f) as usize,
        content_column: last_list_column(f),
    }
}

pub fn container_context(frames: &Vec<ContainerFrame>) -> (r: ContainerContext)
    ensures
        r == context_of(frames@),
{
    let mut quotes: usize = 0;
    let mut lists: usize = 0;
    let mut column: usize = 0;
    let mut i: usize = 0;
    while i < frames.len()
        invariant
            i <= frames.len(),
            quotes == quote_count(frames@.take(i as int)),
            lists == list_count(frames@.take(i as int)),
            column == last_list_column(frames@.take(i as int)),
            quotes + lists == i,
        decreases frames.len() - i,
    {
        assert(frames@.take(i + 1).drop_last() =~= frames@.take(i as int));
        if frames[i].kind == ContainerKind::Quote {
            quotes += 1;
        } else {
            lists += 1;
            column = frames[i].content_column;
        }
        i += 1;
    }
    assert(frames@.take(frames.len() as int) =~= frames@);
    ContainerContext { blockquote_depth: quotes, list_depth: lists, content_column: column }
}

// ---------------------------------------------------------------------------
// Block structure
// ---------------------------------------------------------------------------

/// The number of `#` a text starts with.
pub open spec fn leading_hashes(s: Seq<char>) -> nat
    decreases s.len(),
{
    if s.len() > 0 && s[0] == '#' {
        1 + leading_hashes(s.drop_first())
    } else {
        0
    }
}

/// Whether the content from `start` (after up to three columns of indent)
/// opens a block: an ATX heading, a quote or list marker, a code fence, or
/// a display-math delimiter line.
pub open spec fn block_start(t: Seq<char>, start: int, end: int, col: int) -> bool {
    let cs = indent_end(t, start, end, col, col, 3).0;
    if cs >= end || end > t.len() {
        false
    } else {
        let content = t.subrange(cs, end);
        let h = leading_hashes(content);
        let atx = 1 <= h <= 6 && (h == content.len() || is_blank_char(content[h as int]));
        let fence = crate::text::starts_with(content, "```"@) || crate::text::starts_with(content, "~~~"@);
        let math = content == "$$"@ || content == "\\["@ || content == "\\]"@ || crate::text::starts_with(
            content,
            "\\begin{"@,
        ) || crate::text::starts_with(content, "\\end{"@);
        atx || quote_marker(t, start, end, col) is Some || list_marker(t, start, end, col) is Some || fence
            || math
    }
}

fn leading_hashes_exec(v: &Vec<char>) -> (n: usize)
    ensures
        n == leading_hashes(v@),
        n <= v.len(),
{
    let mut n: usize = 0;
    assert(v@.skip(0) =~= v@);
    while n < v.len() && v[n] == '#'
        invariant
            n <= v.len(),
            leading_hashes(v@) == n + leading_hashes(v@.skip(n as int)),
        decreases v.len() - n,
    {
        assert(v@.skip(n as int)[0] == v@[n as int]);
        assert(v@.skip(n as int).drop_first() =~= v@.skip(n + 1));
        n += 1;
    }
    if n < v.len() {
        assert(v@.skip(n as int)[0] == v@[n as int]);
    }
    n
}

fn str_equals_chars(v: &Vec<char>, s: &str) -> (b: bool)
    ensures
        b == (v@ == s@),
{
    let w = crate::text::chars_of(s);
    crate::text::chars_eq(v, &w)
}

pub fn starts_block_structure(t: &Vec<char>, start: usize, end: usize, column: usize) -> (b: bool)
    requires
        end <= t.len(),
        short_enough(t@),
        start <= t.len(),
        column <= 4 * start + 8,
    ensures
        b == block_start(t@, start as int, end as int, column as int),
{
    let (content_start, _) = consume_indent(t, start, end, column, 3);
    if content_start >= end {
        return false;
    }
    let content = crate::text::slice_of(t, content_start, end);
    let hashes = leading_hashes_exec(&content);
    let atx_heading = 1 <= hashes && hashes <= 6 && (hashes == content.len() || content[hashes] == ' '
        || content[hashes] == '\t');
    let fence = crate::text::starts_with_str(&content, "```") || crate::text::starts_with_str(&content, "~~~");
    let structural_math = str_equals_chars(&content, "$$") || str_equals_chars(&content, "\\[")
        || str_equals_chars(&content, "\\]") || crate::text::starts_with_str(&content, "\\begin{")
        || crate::text::starts_with_str(&content, "\\end{");
    atx_heading || consume_quote_marker(t, start, end, column).is_some() || consume_list_marker(
        t,
        start,
        end,
        column,
    ).is_some() || fence || structural_math
}


// ---------------------------------------------------------------------------
// Lines
// ---------------------------------------------------------------------------

/// A source line as plain values.
pub struct LineView {
    pub index: int,
    pub start: int,
    pub end: int,
    pub content_end: int,
    pub content_start: int,
    pub logical_column: int,
    pub context: ContainerContext,
    pub frames: Seq<ContainerFrame>,
    pub lazy: bool,
    pub starts_list: bool,
}

/// A source line: its range (with and without the line break), where its
/// content starts past its container markers and at which column, the
/// containers it belongs to, whether it lazily continues a paragraph, and
/// whether it opens a list item.
#[derive(Debug)]
pub struct Line {
    pub index: usize,
    pub start: usize,
    pub end: usize,
    pub content_end: usize,
    pub content_start: usize,
    pub logical_column: usize,
    pub context: ContainerContext,
    pub frames: Vec<ContainerFrame>,
    pub lazy: bool,
    pub starts_list: bool,
}

pub open spec fn line_view(l: Line) -> LineView {
    LineView {
        index: l.index as int,
        start: l.start as int,
        end: l.end as int,
        content_end: l.content_end as int,
        content_start: l.content_start as int,
        logical_column: l.logical_column as int,
        context: l.context,
        frames: l.frames@,
        lazy: l.lazy,
        starts_list: l.starts_list,
    }
}

pub open spec fn line_views(v: Seq<Line>) -> Seq<LineView> {
    v.map_values(|l: Line| line_view(l))
}

/// Facts every scanned line satisfies.
pub open spec fn line_bounds(t: Seq<char>, l: LineView) -> bool {
    &&& 0 <= l.start <= l.content_start <= l.content_end <= l.end <= t.len()
    &&& l.logical_column <= 4 * l.content_start + 8
}

/// The first line break at or after `i` (the text's length without one).
pub open spec fn next_lf(t: Seq<char>, i: int) -> int
    decreases t.len() - i,
{
    if i < 0 || i >= t.len() {
        t.len() as int
    } else if t[i] == '\n' {
        i
    } else {
        next_lf(t, i + 1)
    }
}

pub proof fn lemma_next_lf(t: Seq<char>, i: int)
    requires
        0 <= i <= t.len(),
    ensures
        i <= next_lf(t, i) <= t.len(),
        next_lf(t, i) < t.len() ==> t[next_lf(t, i)] == '\n',
        forall|k: int| i <= k < next_lf(t, i) ==> t[k] != '\n',
    decreases t.len() - i,
{
    if i < t.len() && t[i] != '\n' {
        lemma_next_lf(t, i + 1);
    }
}

/// The end of the line starting at `s`, its line break included.
pub open spec fn line_end(t: Seq<char>, s: int) -> int {
    let n = next_lf(t, s);
    if n < t.len() {
        n + 1
    } else {
        t.len() as int
    }
}

/// Frames `j..` continued from `i`: the position and column reached and how
/// many frames matched.
pub open spec fn match_frames(t: Seq<char>, i: int, end: int, col: int, frames: Seq<ContainerFrame>, j: int) -> (
    int,
    int,
    int,
)
    decreases frames.len() - j,
{
    if j < 0 || j >= frames.len() {
        (i, col, j)
    } else {
        match match_frame(t, i, end, col, frames[j]) {
            Some(p) => match_frames(t, p.0, end, p.1, frames, j + 1),
            None => (i, col, j),
        }
    }
}

pub open spec fn all_blank(t: Seq<char>, a: int, b: int) -> bool {
    forall|k: int| a <= k < b ==> is_blank_char(#[trigger] t[k])
}

/// The list items at the front of a frame stack, up to its first quote.
pub open spec fn lists_prefix(f: Seq<ContainerFrame>) -> Seq<ContainerFrame>
    decreases f.len(),
{
    if f.len() == 0 || f[0].kind == ContainerKind::Quote {
        Seq::empty()
    } else {
        seq![f[0]] + lists_prefix(f.drop_first())
    }
}

/// One line starting at `s` (line `k`), given the containers open before it
/// and whether the previous line allows a lazy continuation; with the
/// containers open after it and whether it allows one.
pub open spec fn scan_line(t: Seq<char>, active: Seq<ContainerFrame>, prev_lazy: bool, k: int, s: int) -> (
    LineView,
    Seq<ContainerFrame>,
    bool,
) {
    let e = line_end(t, s);
    let ce = if e > s && t[e - 1] == '\n' {
        e - 1
    } else {
        e
    };
    let m = match_frames(t, s, ce, 0, active, 0);
    let blank = all_blank(t, m.0, ce);
    let lazy = m.2 < active.len() && prev_lazy && !blank && !block_start(t, m.0, ce, m.1);
    let nf = new_frames(t, m.0, ce, m.1, active.take(m.2));
    let cs = if lazy {
        m.0
    } else {
        nf.0
    };
    let col = if lazy {
        m.1
    } else {
        nf.1
    };
    let frames = if lazy {
        active
    } else {
        nf.2
    };
    let starts_list = if lazy {
        false
    } else {
        has_list(nf.2.skip(m.2))
    };
    let line = LineView {
        index: k,
        start: s,
        end: e,
        content_end: ce,
        content_start: cs,
        logical_column: col,
        context: context_of(frames),
        frames,
        lazy,
        starts_list,
    };
    if blank {
        (
            line,
            if frames.len() > m.2 {
                frames
            } else {
                active.take(m.2) + lists_prefix(active.skip(m.2))
            },
            false,
        )
    } else {
        (line, frames, !block_start(t, cs, ce, col))
    }
}

/// The lines from `s` on (line `k` first).
pub open spec fn lines_from(t: Seq<char>, s: int, k: int, active: Seq<ContainerFrame>, prev_lazy: bool) -> Seq<
    LineView,
>
    decreases t.len() - s,
{
    if s < 0 || s >= t.len() {
        Seq::empty()
    } else {
        let r = scan_line(t, active, prev_lazy, k, s);
        proof {
            lemma_next_lf(t, s);
        }
        seq![r.0] + lines_from(t, r.0.end, k + 1, r.1, r.2)
    }
}

/// The lines of a text (split after each line break), with their containers.
pub open spec fn source_lines(t: Seq<char>) -> Seq<LineView> {
    lines_from(t, 0, 0, Seq::empty(), false)
}

pub fn copy_frames_pub(f: &Vec<ContainerFrame>) -> (r: Vec<ContainerFrame>)
    ensures
        r@ == f@,
{
    copy_frames(f)
}

fn copy_frames(f: &Vec<ContainerFrame>) -> (r: Vec<ContainerFrame>)
    ensures
        r@ == f@,
{
    let mut r: Vec<ContainerFrame> = Vec::new();
    let mut i: usize = 0;
    while i < f.len()
        invariant
            i <= f.len(),
            r@ == f@.take(i as int),
        decreases f.len() - i,
    {
        r.push(f[i]);
        assert(r@ =~= f@.take(i + 1));
        i += 1;
    }
    assert(f@.take(f.len() as int) =~= f@);
    r
}

fn take_frames(f: &Vec<ContainerFrame>, n: usize) -> (r: Vec<ContainerFrame>)
    requires
        n <= f.len(),
    ensures
        r@ == f@.take(n as int),
{
    let mut r: Vec<ContainerFrame> = Vec::new();
    let mut i: usize = 0;
    while i < n
        invariant
            i <= n <= f.len(),
            r@ == f@.take(i as int),
        decreases n - i,
    {
        r.push(f[i]);
        assert(r@ =~= f@.take(i + 1));
        i += 1;
    }
    r
}

fn match_active(t: &Vec<char>, start: usize, content_end: usize, active: &Vec<ContainerFrame>) -> (r: (
    usize,
    usize,
    usize,
))
    requires
        content_end <= t.len(),
        start <= content_end,
        short_enough(t@),
    ensures
        (r.0 as int, r.1 as int, r.2 as int) == match_frames(t@, start as int, content_end as int, 0, active@, 0),
        start <= r.0 <= content_end,
        r.1 <= 4 * r.0 + 8,
        r.2 <= active.len(),
{
    let mut index = start;
    let mut column: usize = 0;
    let mut matched: usize = 0;
    while matched < active.len()
        invariant
            content_end <= t.len(),
            short_enough(t@),
            start <= index <= content_end,
            column <= 4 * index + 8,
            matched <= active.len(),
            match_frames(t@, start as int, content_end as int, 0, active@, 0) == match_frames(
                t@,
                index as int,
                content_end as int,
                column as int,
                active@,
                matched as int,
            ),
        ensures
            match_frames(t@, start as int, content_end as int, 0, active@, 0) == (index as int, column as int, matched as int),
            start <= index <= content_end,
            column <= 4 * index + 8,
            matched <= active.len(),
        decreases active.len() - matched,
    {
        match match_frame_exec(t, index, content_end, column, active[matched]) {
            Some((next, next_column)) => {
                index = next;
                column = next_column;
                matched += 1;
            },
            None => {
                break;
            },
        }
    }
    (index, column, matched)
}

fn blank_between(t: &Vec<char>, a: usize, b: usize) -> (r: bool)
    requires
        b <= t.len(),
    ensures
        r == all_blank(t@, a as int, b as int),
{
    let mut k = a;
    while k < b
        invariant
            b <= t.len(),
            a <= k,
            forall|j: int| a <= j < k ==> is_blank_char(#[trigger] t@[j]),
        decreases b - k,
    {
        if !(t[k] == ' ' || t[k] == '\t') {
            return false;
        }
        k += 1;
    }
    true
}

fn retained_frames(active: &Vec<ContainerFrame>, matched: usize) -> (r: Vec<ContainerFrame>)
    requires
        matched <= active.len(),
    ensures
        r@ == active@.take(matched as int) + lists_prefix(active@.skip(matched as int)),
{
    let mut r = take_frames(active, matched);
    let mut i = matched;
    assert(active@.skip(matched as int) =~= active@.skip(i as int));
    assert(r@ + lists_prefix(active@.skip(i as int)) == active@.take(matched as int) + lists_prefix(active@.skip(
        matched as int,
    )));
    while i < active.len() && active[i].kind != ContainerKind::Quote
        invariant
            matched <= i <= active.len(),
            r@ + lists_prefix(active@.skip(i as int)) == active@.take(matched as int) + lists_prefix(active@.skip(
                matched as int,
            )),
        decreases active.len() - i,
    {
        let ghost rest = active@.skip(i as int);
        assert(rest[0] == active@[i as int]);
        assert(rest.drop_first() =~= active@.skip(i + 1));
        let ghost pre = r@;
        r.push(active[i]);
        assert(r@ + lists_prefix(active@.skip(i + 1)) =~= pre + lists_prefix(rest));
        i += 1;
    }
    if i < active.len() {
        assert(active@.skip(i as int)[0] == active@[i as int]);
    }
    assert(lists_prefix(active@.skip(i as int)) =~= Seq::<ContainerFrame>::empty());
    assert(r@ + Seq::<ContainerFrame>::empty() =~= r@);
    r
}

/// Lines numbered by position, each a non-empty range inside the text, in
/// order and ending at or before `bound`.
pub open spec fn lines_laid_out(t: Seq<char>, lines: Seq<Line>, bound: int) -> bool {
    &&& forall|i: int| 0 <= i < lines.len() ==> (#[trigger] lines[i]).index == i
    &&& forall|i: int| 0 <= i < lines.len() ==> line_bounds(t, #[trigger] line_view(lines[i]))
    &&& forall|i: int| 0 <= i < lines.len() ==> (#[trigger] lines[i]).start < lines[i].end
    &&& forall|i: int| 0 <= i < lines.len() ==> (#[trigger] lines[i]).end <= bound
    &&& forall|i: int, j: int| 0 <= i < j < lines.len() ==> (#[trigger] lines[i]).end <= (#[trigger] lines[j]).start
}

proof fn lemma_push_line(t: Seq<char>, pre: Seq<Line>, line: Line, bound: int)
    requires
        lines_laid_out(t, pre, line.start as int),
        line.index == pre.len(),
        line_bounds(t, line_view(line)),
        line.start < line.end,
        line.end <= bound,
    ensures
        lines_laid_out(t, pre.push(line), bound),
{
    let q = pre.push(line);
    assert forall|i: int| 0 <= i < q.len() implies (#[trigger] q[i]).index == i && line_bounds(t, line_view(q[i]))
        && q[i].start < q[i].end && q[i].end <= bound by {
        if i < pre.len() {
            assert(q[i] == pre[i]);
        }
    }
    assert forall|i: int, j: int| 0 <= i < j < q.len() implies (#[trigger] q[i]).end <= (#[trigger] q[j]).start by {
        assert(q[i] == pre[i]);
        if j < pre.len() {
            assert(q[j] == pre[j]);
        }
    }
}

/// Splits a text into lines and works out each line's containers (see
/// [`source_lines`]).
pub fn build_lines(t: &Vec<char>) -> (r: Vec<Line>)
    requires
        short_enough(t@),
    ensures
        line_views(r@) == source_lines(t@),
        forall|i: int| 0 <= i < r@.len() ==> (#[trigger] r@[i]).index == i,
        forall|i: int| 0 <= i < r@.len() ==> line_bounds(t@, #[trigger] line_view(r@[i])),
        forall|i: int| 0 <= i < r@.len() ==> (#[trigger] r@[i]).start < r@[i].end,
        forall|i: int, j: int| 0 <= i < j < r@.len() ==> (#[trigger] r@[i]).end <= (#[trigger] r@[j]).start,
{
    let n = t.len();
    let mut lines: Vec<Line> = Vec::new();
    let mut start: usize = 0;
    let mut active: Vec<ContainerFrame> = Vec::new();
    let mut previous_allows_lazy = false;
    let mut k: usize = 0;
    assert(line_views(lines@) =~= Seq::<LineView>::empty());
    while start < n
        invariant
            n == t.len(),
            short_enough(t@),
            start <= n,
            k <= start,
            k == lines@.len(),
            line_views(lines@) + lines_from(t@, start as int, k as int, active@, previous_allows_lazy) == source_lines(
                t@,
            ),
            lines_laid_out(t@, lines@, start as int),
        decreases n - start,
    {
        proof {
            lemma_next_lf(t@, start as int);
        }
        let mut e = start;
        while e < n && t[e] != '\n'
            invariant
                start <= e <= n == t.len(),
                next_lf(t@, start as int) == next_lf(t@, e as int),
            decreases n - e,
        {
            e += 1;
        }
        let end = if e < n { e + 1 } else { n };
        let content_end = if end > start && t[end - 1] == '\n' { end - 1 } else { end };
        let ghost old_active = active@;
        let ghost old_prev = previous_allows_lazy;
        let ghost spec_line = scan_line(t@, active@, previous_allows_lazy, k as int, start as int);
        let (mstart, mcol, matched) = match_active(t, start, content_end, &active);
        let remaining_blank = blank_between(t, mstart, content_end);
        let lazy = matched < active.len() && previous_allows_lazy && !remaining_blank
            && !starts_block_structure(t, mstart, content_end, mcol);
        let mut frames: Vec<ContainerFrame>;
        let content_start: usize;
        let logical_column: usize;
        let starts_list: bool;
        if lazy {
            frames = copy_frames(&active);
            content_start = mstart;
            logical_column = mcol;
            starts_list = false;
        } else {
            frames = take_frames(&active, matched);
            let (cs, col, sl) = parse_new_frames(t, mstart, content_end, mcol, &mut frames);
            content_start = cs;
            logical_column = col;
            starts_list = sl;
        }
        let context = container_context(&frames);
        let saved = copy_frames(&frames);
        let line = Line {
            index: k,
            start,
            end,
            content_end,
            content_start,
            logical_column,
            context,
            frames: saved,
            lazy,
            starts_list,
        };
        assert(line_view(line) == spec_line.0);
        assert(line_bounds(t@, line_view(line)));
        let ghost pre = lines@;
        proof {
            lemma_push_line(t@, pre, line, end as int);
        }
        lines.push(line);
        assert(line_views(lines@) =~= line_views(pre).push(spec_line.0));
        if remaining_blank {
            if frames.len() > matched {
                active = frames;
            } else {
                active = retained_frames(&active, matched);
            }
            previous_allows_lazy = false;
        } else {
            previous_allows_lazy = !starts_block_structure(t, content_start, content_end, logical_column);
            active = frames;
        }
        assert(active@ == spec_line.1);
        assert(previous_allows_lazy == spec_line.2);
        assert(lines_from(t@, start as int, k as int, old_active, old_prev) == seq![spec_line.0] + lines_from(
            t@,
            end as int,
            k + 1,
            spec_line.1,
            spec_line.2,
        ));
        assert(line_views(lines@) + lines_from(t@, end as int, k + 1, active@, previous_allows_lazy) =~= line_views(
            pre,
        ) + lines_from(t@, start as int, k as int, old_active, old_prev));
        start = end;
        k += 1;
    }
    assert(lines_from(t@, start as int, k as int, active@, previous_allows_lazy) =~= Seq::<LineView>::empty());
    assert(line_views(lines@) + Seq::<LineView>::empty() =~= line_views(lines@));
    assert(lines_laid_out(t@, lines@, n as int));
    lines
}

} // verus!
