//! Block content detection using simple line-based heuristics.

use vstd::prelude::*;
use crate::text::{
    append_str, buf_views, chars_of, join, join_bufs, lemma_split_on, slice_of, split_char,
    split_on, string_of, trim, trim_bounds, trim_chars, trim_start, trim_start_chars,
};

verus! {

pub open spec fn is_digit(c: char) -> bool {
    '0' <= c && c <= '9'
}

pub open spec fn is_space_or_tab(c: char) -> bool {
    c == ' ' || c == '\t'
}

/// A GFM table row starts (after leading white space) with a pipe.
pub open spec fn is_table_row(line: Seq<char>) -> bool {
    let s = trim_start(line);
    s.len() > 0 && s[0] == '|'
}

/// A separator cell `:?-+:?` (already trimmed).
pub open spec fn dash_cell(t: Seq<char>) -> bool {
    cell_start(t) < cell_end(t) && forall|i: int| cell_start(t) <= i < cell_end(t) ==> t[i] == '-'
}

/// Start of the dashes: after an optional leading colon.
pub open spec fn cell_start(t: Seq<char>) -> int {
    if t.len() > 0 && t[0] == ':' {
        1
    } else {
        0
    }
}

/// End of the dashes: before an optional trailing colon.
pub open spec fn cell_end(t: Seq<char>) -> int {
    if t.len() > cell_start(t) && t.last() == ':' {
        t.len() - 1
    } else {
        t.len() as int
    }
}

/// The regex `^\|(\s*:?-+:?\s*\|)+\s*$` on the trimmed line: a pipe, then one
/// or more separator cells each closed by a pipe.
pub open spec fn is_table_separator(line: Seq<char>) -> bool {
    let t = trim(line);
    &&& t.len() >= 2
    &&& t[0] == '|'
    &&& t.last() == '|'
    &&& forall|k: int|
        0 <= k < split_on(t.subrange(1, t.len() - 1), '|').len() ==> dash_cell(
            trim(#[trigger] split_on(t.subrange(1, t.len() - 1), '|')[k]),
        )
}

/// Number of leading ASCII digits.
pub open spec fn lead_digits(s: Seq<char>) -> nat
    decreases s.len(),
{
    if s.len() > 0 && is_digit(s[0]) {
        1 + lead_digits(s.drop_first())
    } else {
        0
    }
}

/// CommonMark list item: a bullet `-`, `+` or `*` followed by a space or tab,
/// or 1-9 digits followed by `.` or `)` and a space or tab.
pub open spec fn is_list_item(line: Seq<char>) -> bool {
    let s = trim_start(line);
    if s.len() == 0 {
        false
    } else if s[0] == '-' || s[0] == '*' || s[0] == '+' {
        s.len() > 1 && is_space_or_tab(s[1])
    } else if is_digit(s[0]) {
        let n = lead_digits(s);
        n <= 9 && n + 1 < s.len() && (s[n as int] == '.' || s[n as int] == ')') && is_space_or_tab(
            s[(n + 1) as int],
        )
    } else {
        false
    }
}

pub open spec fn is_block_content(line: Seq<char>) -> bool {
    is_table_row(line) || is_list_item(line)
}

fn table_row_chars(v: &Vec<char>) -> (b: bool)
    ensures
        b == is_table_row(v@),
{
    let s = trim_start_chars(v);
    s.len() > 0 && s[0] == '|'
}

/// Check if a line looks like a GFM table row.
pub fn line_is_table_row(line: &str) -> (b: bool)
    ensures
        b == is_table_row(line@),
{
    let v = chars_of(line);
    table_row_chars(&v)
}

fn dash_cell_chars(t: &Vec<char>) -> (b: bool)
    ensures
        b == dash_cell(t@),
{
    let a: usize = if t.len() > 0 && t[0] == ':' { 1 } else { 0 };
    let b: usize = if t.len() > a && t[t.len() - 1] == ':' { t.len() - 1 } else { t.len() };
    assert(a == cell_start(t@) && b == cell_end(t@));
    if a >= b {
        return false;
    }
    let mut i = a;
    while i < b
        invariant
            a <= i <= b <= t.len(),
            a == cell_start(t@),
            b == cell_end(t@),
            forall|j: int| a <= j < i ==> t@[j] == '-',
        decreases b - i,
    {
        if t[i] != '-' {
            assert(a <= i < b && t@[i as int] != '-');
            return false;
        }
        i += 1;
    }
    true
}

fn table_separator_chars(v: &Vec<char>) -> (b: bool)
    ensures
        b == is_table_separator(v@),
{
    let t = trim_chars(v);
    if t.len() < 2 || t[0] != '|' || t[t.len() - 1] != '|' {
        return false;
    }
    let inner = slice_of(&t, 1, t.len() - 1);
    let cells = split_char(&inner, '|');
    let mut k: usize = 0;
    while k < cells.len()
        invariant
            k <= cells.len(),
            t@.len() >= 2,
            t@ == trim(v@),
            buf_views(cells@) == split_on(t@.subrange(1, t@.len() - 1), '|'),
            forall|j: int| 0 <= j < k ==> dash_cell(trim(#[trigger] split_on(t@.subrange(1, t@.len() - 1), '|')[j])),
        decreases cells.len() - k,
    {
        let c = trim_chars(&cells[k]);
        assert(cells@[k as int]@ == split_on(t@.subrange(1, t@.len() - 1), '|')[k as int]);
        if !dash_cell_chars(&c) {
            assert(!dash_cell(trim(split_on(t@.subrange(1, t@.len() - 1), '|')[k as int])));
            return false;
        }
        k += 1;
    }
    true
}

/// Check if a line is a GFM table separator row (e.g. `|---|---|`).
pub fn line_is_table_separator(line: &str) -> (b: bool)
    ensures
        b == is_table_separator(line@),
{
    let v = chars_of(line);
    table_separator_chars(&v)
}

/// The normalized form of one separator cell.
pub open spec fn normal_cell(cell: Seq<char>) -> Seq<char> {
    let c = trim(cell);
    let left = c.len() > 0 && c[0] == ':';
    let right = c.len() > 0 && c.last() == ':';
    if left && right {
        seq![':', '-', '-', '-', ':']
    } else if left {
        seq![':', '-', '-', '-']
    } else if right {
        seq!['-', '-', '-', ':']
    } else {
        seq!['-', '-', '-']
    }
}

/// A separator row rewritten with three dashes per cell, alignment colons kept.
pub open spec fn normalized_separator(line: Seq<char>) -> Seq<char> {
    if !is_table_separator(line) {
        line
    } else {
        let t = trim(line);
        let cells = split_on(t.subrange(1, t.len() - 1), '|');
        seq!['|', ' '] + join(cells.map_values(|c: Seq<char>| normal_cell(c)), seq![' ', '|', ' '])
            + seq![' ', '|']
    }
}

fn normal_cell_chars(cell: &Vec<char>) -> (r: Vec<char>)
    ensures
        r@ == normal_cell(cell@),
{
    let c = trim_chars(cell);
    let left = c.len() > 0 && c[0] == ':';
    let right = c.len() > 0 && c[c.len() - 1] == ':';
    let mut r: Vec<char> = Vec::new();
    if left {
        r.push(':');
    }
    r.push('-');
    r.push('-');
    r.push('-');
    if right {
        r.push(':');
    }
    assert(r@ =~= normal_cell(cell@));
    r
}

/// Normalize a table separator row to exactly 3 dashes per cell, preserving
/// alignment colons (e.g. `|---------|:----|` becomes `| --- | :--- |`).
/// Other lines are returned unchanged.
pub fn normalize_table_separator(line: &str) -> (r: String)
    ensures
        r@ == normalized_separator(line@),
{
    let v = chars_of(line);
    if !table_separator_chars(&v) {
        return string_of(&v);
    }
    let t = trim_chars(&v);
    let inner = slice_of(&t, 1, t.len() - 1);
    let cells = split_char(&inner, '|');
    let ghost cs = split_on(t@.subrange(1, t@.len() - 1), '|');
    let mut normal: Vec<Vec<char>> = Vec::new();
    let mut k: usize = 0;
    while k < cells.len()
        invariant
            k <= cells.len(),
            buf_views(cells@) == cs,
            buf_views(normal@) == cs.take(k as int).map_values(|c: Seq<char>| normal_cell(c)),
        decreases cells.len() - k,
    {
        let n = normal_cell_chars(&cells[k]);
        assert(cells@[k as int]@ == cs[k as int]);
        assert(buf_views(normal@).len() == normal@.len());
        let ghost old_n = normal@;
        normal.push(n);
        proof {
            assert forall|j: int| 0 <= j < k + 1 implies buf_views(normal@)[j] == cs.take(
                k + 1,
            ).map_values(|c: Seq<char>| normal_cell(c))[j] by {
                if j < k {
                    assert(normal@[j] == old_n[j]);
                    assert(buf_views(old_n)[j] == cs.take(k as int).map_values(
                        |c: Seq<char>| normal_cell(c),
                    )[j]);
                }
            }
            assert(buf_views(normal@) =~= cs.take(k + 1).map_values(|c: Seq<char>| normal_cell(c)));
        }
        k += 1;
    }
    assert(cs.take(cells.len() as int) =~= cs);
    assert(buf_views(normal@) == cs.map_values(|c: Seq<char>| normal_cell(c)));
    let mut sep: Vec<char> = Vec::new();
    sep.push(' ');
    sep.push('|');
    sep.push(' ');
    let body = join_bufs(&normal, &sep);
    let mut r: Vec<char> = Vec::new();
    r.push('|');
    r.push(' ');
    assert(sep@ =~= seq![' ', '|', ' ']);
    crate::text::append_chars(&mut r, &body);
    r.push(' ');
    r.push('|');
    assert(r@ =~= seq!['|', ' '] + body@ + seq![' ', '|']);
    string_of(&r)
}

fn list_item_chars(v: &Vec<char>) -> (b: bool)
    ensures
        b == is_list_item(v@),
{
    let s = trim_start_chars(v);
    if s.len() == 0 {
        return false;
    }
    if s[0] == '-' || s[0] == '*' || s[0] == '+' {
        return s.len() > 1 && (s[1] == ' ' || s[1] == '\t');
    }
    if '0' <= s[0] && s[0] <= '9' {
        let mut i: usize = 1;
        while i < s.len() && i < 10 && '0' <= s[i] && s[i] <= '9'
            invariant
                1 <= i <= s.len(),
                i <= 10,
                forall|j: int| 0 <= j < i ==> is_digit(#[trigger] s@[j]),
            decreases s.len() - i,
        {
            i += 1;
        }
        proof {
            lemma_lead_digits(s@, i as int);
        }
        if i > 9 {
            return false;
        }
        return i + 1 < s.len() && (s[i] == '.' || s[i] == ')') && (s[i + 1] == ' ' || s[i + 1]
            == '\t');
    }
    false
}

proof fn lemma_lead_digits(s: Seq<char>, i: int)
    requires
        0 <= i <= s.len(),
        forall|j: int| 0 <= j < i ==> is_digit(#[trigger] s[j]),
    ensures
        lead_digits(s) >= i,
        i < s.len() && !is_digit(s[i]) ==> lead_digits(s) == i,
    decreases i,
{
    if i > 0 {
        assert forall|j: int| 0 <= j < i - 1 implies is_digit(#[trigger] s.drop_first()[j]) by {
            assert(s.drop_first()[j] == s[j + 1]);
        }
        if i < s.len() {
            assert(s.drop_first()[i - 1] == s[i]);
        }
        lemma_lead_digits(s.drop_first(), i - 1);
    }
}

/// Check if a line looks like a CommonMark list item.
pub fn line_is_list_item(line: &str) -> (b: bool)
    ensures
        b == is_list_item(line@),
{
    let v = chars_of(line);
    list_item_chars(&v)
}

pub fn block_content_chars(v: &Vec<char>) -> (b: bool)
    ensures
        b == is_block_content(v@),
{
    table_row_chars(v) || list_item_chars(v)
}

/// Check if a line is block content (table row or list item).
pub fn line_is_block_content(line: &str) -> (b: bool)
    ensures
        b == is_block_content(line@),
{
    let v = chars_of(line);
    block_content_chars(&v)
}

} // verus!
