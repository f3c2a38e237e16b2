//! Text passes around parsing and rendering: typography inside footnote
//! definition markers, and the clean-ups applied to rendered Markdown
//! (period escapes, blank lines, fence info strings, numbered items).

use vstd::prelude::*;
use crate::formatter::fences::{outside_code, outside_code_flags, run_of};
use crate::formatter::filling::{
    FNDEF_MARKER_START, blank_lines_collapsed, collapse_blank_lines_outside_code, copy_buf, ends_with_newline,
    first_index_exec, first_index_of, lemma_first_index_found, lines_of, newline, relined,
};
use crate::formatter::rewrites::{Rewrite, rewrite_all, rewritten};
use crate::regex_scan::{group_text, group_views, regex_scan_of, scan, group_or_empty};
use crate::text::{
    append_chars, buf_views, chars_of, contains_seq, contains_str, is_ws, join_bufs, occurs_at, push_buf,
    slice_of, starts_with, starts_with_str, string_of, trim_start, trim_start_chars,
};
use crate::wrapping::text_filling::text_lines;
use crate::typography::ellipses::{ellipses, ellipsized};
use crate::typography::quotes::{smart_quoted, smart_quotes};

verus! {

// ---------------------------------------------------------------------------
// Searching
// ---------------------------------------------------------------------------

/// The first position at or after `i` where `pat` occurs in `s`, or -1.
pub open spec fn find_from(s: Seq<char>, pat: Seq<char>, i: int) -> int
    decreases s.len() + 1 - i,
{
    if i < 0 || i + pat.len() > s.len() {
        -1
    } else if occurs_at(s, i, pat) {
        i
    } else {
        find_from(s, pat, i + 1)
    }
}

/// The last position at or before `i` where `pat` occurs in `s`, or -1.
pub open spec fn find_last(s: Seq<char>, pat: Seq<char>, i: int) -> int
    decreases i + 1,
{
    if i < 0 {
        -1
    } else if occurs_at(s, i, pat) {
        i
    } else {
        find_last(s, pat, i - 1)
    }
}

/// The last occurrence of `pat` in `s`, or -1.
pub open spec fn rfind(s: Seq<char>, pat: Seq<char>) -> int {
    find_last(s, pat, s.len() - pat.len())
}

pub proof fn lemma_find_from(s: Seq<char>, pat: Seq<char>, i: int)
    ensures
        find_from(s, pat, i) == -1 || (i <= find_from(s, pat, i) && find_from(s, pat, i) + pat.len() <= s.len()
            && occurs_at(s, find_from(s, pat, i), pat)),
    decreases s.len() + 1 - i,
{
    if !(i < 0 || i + pat.len() > s.len()) && !occurs_at(s, i, pat) {
        lemma_find_from(s, pat, i + 1);
    }
}

pub proof fn lemma_find_last(s: Seq<char>, pat: Seq<char>, i: int)
    ensures
        find_last(s, pat, i) == -1 || (0 <= find_last(s, pat, i) <= i && occurs_at(s, find_last(s, pat, i), pat)),
    decreases i + 1,
{
    if i >= 0 && !occurs_at(s, i, pat) {
        lemma_find_last(s, pat, i - 1);
    }
}

fn occurs_at_buf(v: &Vec<char>, at: usize, pat: &Vec<char>) -> (b: bool)
    ensures
        b == occurs_at(v@, at as int, pat@),
{
    if at > v.len() || pat.len() > v.len() - at {
        return false;
    }
    let mut k: usize = 0;
    while k < pat.len()
        invariant
            at + pat.len() <= v.len(),
            k <= pat.len(),
            forall|j: int| 0 <= j < k ==> v@[at + j] == pat@[j],
        decreases pat.len() - k,
    {
        if v[at + k] != pat[k] {
            assert(v@.subrange(at as int, at + pat.len())[k as int] != pat@[k as int]);
            return false;
        }
        k += 1;
    }
    assert(v@.subrange(at as int, at + pat.len()) =~= pat@);
    true
}

/// `find_from` as a search: the position, or `None` for -1.
pub fn find_buf(v: &Vec<char>, pat: &Vec<char>, from: usize) -> (r: Option<usize>)
    ensures
        match r {
            Some(p) => p as int == find_from(v@, pat@, from as int),
            None => find_from(v@, pat@, from as int) == -1,
        },
{
    if from > v.len() || pat.len() > v.len() - from {
        return None;
    }
    let mut i = from;
    loop
        invariant
            from <= i <= v.len() - pat.len(),
            pat.len() <= v.len(),
            find_from(v@, pat@, from as int) == find_from(v@, pat@, i as int),
        decreases v.len() - i,
    {
        if occurs_at_buf(v, i, pat) {
            return Some(i);
        }
        if i == v.len() - pat.len() {
            assert(find_from(v@, pat@, i + 1) == -1);
            return None;
        }
        i += 1;
    }
}

/// `rfind` as a search.
pub fn rfind_buf(v: &Vec<char>, pat: &Vec<char>) -> (r: Option<usize>)
    ensures
        match r {
            Some(p) => p as int == rfind(v@, pat@),
            None => rfind(v@, pat@) == -1,
        },
{
    if pat.len() > v.len() {
        return None;
    }
    let mut i = v.len() - pat.len();
    loop
        invariant
            i + pat.len() <= v.len(),
            rfind(v@, pat@) == find_last(v@, pat@, i as int),
        decreases i,
    {
        if occurs_at_buf(v, i, pat) {
            return Some(i);
        }
        if i == 0 {
            assert(find_last(v@, pat@, -1) == -1);
            return None;
        }
        i -= 1;
    }
}

// ---------------------------------------------------------------------------
// Typography inside footnote definition markers
// ---------------------------------------------------------------------------

/// Smart quotes and ellipses, as asked.
pub open spec fn typeset(x: Seq<char>, quotes: bool, dots: bool) -> Seq<char> {
    let q = if quotes {
        smart_quoted(x)
    } else {
        x
    };
    if dots {
        ellipsized(q)
    } else {
        q
    }
}

/// One marker block (from the marker to its `-->`): the body after the
/// first line typeset, up to the last `-->`.
pub open spec fn fndef_block_typeset(block: Seq<char>, quotes: bool, dots: bool) -> Seq<char> {
    let nl = first_index_of(block, '\n');
    if nl >= block.len() {
        block
    } else {
        let header = block.take(nl + 1);
        let rest = block.skip(nl + 1);
        let c = rfind(rest, "-->"@);
        if c < 0 {
            block
        } else {
            header + typeset(rest.take(c), quotes, dots) + rest.skip(c)
        }
    }
}

/// The text with the body of every footnote definition marker typeset.
pub open spec fn fndef_bodies_typeset(s: Seq<char>, quotes: bool, dots: bool) -> Seq<char>
    decreases s.len(),
{
    let p = find_from(s, FNDEF_MARKER_START@, 0);
    if p < 0 {
        s
    } else {
        let after = s.skip(p);
        let e = find_from(after, "-->"@, 0);
        if e < 0 {
            s
        } else {
            proof {
                lemma_find_from(s, FNDEF_MARKER_START@, 0);
                lemma_find_from(after, "-->"@, 0);
                reveal_strlit("-->");
                assert(0 <= p);
                assert(p + FNDEF_MARKER_START@.len() <= s.len());
                assert(after.len() == s.len() - p);
                assert(after.skip(e + 3).len() < s.len());
            }
            s.take(p) + fndef_block_typeset(after.take(e + 3), quotes, dots) + fndef_bodies_typeset(
                after.skip(e + 3),
                quotes,
                dots,
            )
        }
    }
}

fn typeset_exec(x: &Vec<char>, quotes: bool, dots: bool) -> (r: Vec<char>)
    ensures
        r@ == typeset(x@, quotes, dots),
{
    let mut s = string_of(x);
    if quotes {
        s = smart_quotes(s.as_str());
    }
    if dots {
        s = ellipses(s.as_str());
    }
    chars_of(s.as_str())
}

fn fndef_block_exec(block: &Vec<char>, quotes: bool, dots: bool) -> (r: Vec<char>)
    ensures
        r@ == fndef_block_typeset(block@, quotes, dots),
{
    let nl = first_index_exec(block, '\n');
    assert(block@.subrange(0, block.len() as int) =~= block@);
    if nl >= block.len() {
        return slice_of(block, 0, block.len());
    }
    let rest = slice_of(block, nl + 1, block.len());
    assert(rest@ =~= block@.skip(nl + 1));
    let close = chars_of("-->");
    match rfind_buf(&rest, &close) {
        None => slice_of(block, 0, block.len()),
        Some(c) => {
            proof {
                lemma_find_last(rest@, close@, rest.len() - close.len());
            }
            let mut out = slice_of(block, 0, nl + 1);
            let body = slice_of(&rest, 0, c);
            let t = typeset_exec(&body, quotes, dots);
            append_chars(&mut out, &t);
            let tail = slice_of(&rest, c, rest.len());
            append_chars(&mut out, &tail);
            assert(out@ =~= fndef_block_typeset(block@, quotes, dots));
            out
        },
    }
}

/// Typesets (smart quotes, ellipses) the body of each footnote definition
/// marker, which the parser would otherwise keep as raw HTML (see
/// [`fndef_bodies_typeset`]).
#[verifier::rlimit(60)]
pub fn apply_typography_to_fndef_bodies(text: &str, do_smartquotes: bool, do_ellipses: bool) -> (r: String)
    ensures
        r@ == fndef_bodies_typeset(text@, do_smartquotes, do_ellipses),
{
    let v = chars_of(text);
    let marker = chars_of(FNDEF_MARKER_START);
    let close = chars_of("-->");
    let mut out: Vec<char> = Vec::new();
    let mut pos: usize = 0;
    assert(v@.skip(0) =~= v@);
    loop
        invariant
            pos <= v.len(),
            v@ == text@,
            marker@ == FNDEF_MARKER_START@,
            close@ == "-->"@,
            out@ + fndef_bodies_typeset(v@.skip(pos as int), do_smartquotes, do_ellipses) == fndef_bodies_typeset(
                v@,
                do_smartquotes,
                do_ellipses,
            ),
        decreases v.len() - pos,
    {
        let remaining = slice_of(&v, pos, v.len());
        assert(remaining@ =~= v@.skip(pos as int));
        let ghost s = remaining@;
        match find_buf(&remaining, &marker, 0) {
            None => {
                append_chars(&mut out, &remaining);
                return string_of(&out);
            },
            Some(p) => {
                proof {
                    lemma_find_from(s, marker@, 0);
                }
                let after = slice_of(&remaining, p, remaining.len());
                assert(after@ =~= s.skip(p as int));
                match find_buf(&after, &close, 0) {
                    None => {
                        append_chars(&mut out, &remaining);
                        return string_of(&out);
                    },
                    Some(e) => {
                        proof {
                            lemma_find_from(after@, close@, 0);
                            reveal_strlit("-->");
                        }
                        let before = slice_of(&remaining, 0, p);
                        let block = slice_of(&after, 0, e + 3);
                        let done = fndef_block_exec(&block, do_smartquotes, do_ellipses);
                        let ghost o = out@;
                        append_chars(&mut out, &before);
                        append_chars(&mut out, &done);
                        let next = pos + p + e + 3;
                        assert(after@.skip(e + 3) =~= v@.skip(next as int));
                        assert(before@ =~= s.take(p as int));
                        assert(out@ + fndef_bodies_typeset(v@.skip(next as int), do_smartquotes, do_ellipses) =~= o
                            + fndef_bodies_typeset(s, do_smartquotes, do_ellipses));
                        pos = next;
                    },
                }
            },
        }
    }
}

// ---------------------------------------------------------------------------
// Period escapes
// ---------------------------------------------------------------------------

pub proof fn lemma_run_of_len(s: Seq<char>, c: char)
    ensures
        run_of(s, c) <= s.len(),
        s.len() > 0 && s[0] == c ==> run_of(s, c) >= 1,
    decreases s.len(),
{
    if s.len() > 0 && s[0] == c {
        lemma_run_of_len(s.drop_first(), c);
    }
}

/// A line with every `\.` outside code spans turned into `.`.
pub open spec fn periods_removed(s: Seq<char>) -> Seq<char>
    decreases s.len(),
{
    if s.len() == 0 {
        Seq::empty()
    } else if s[0] == '`' {
        let n = run_of(s, '`');
        proof {
            lemma_run_of_len(s, '`');
        }
        s.take(n as int) + code_span_rest(s.skip(n as int), n)
    } else if s[0] == '\\' && s.len() > 1 && s[1] == '.' {
        seq!['.'] + periods_removed(s.skip(2))
    } else {
        seq![s[0]] + periods_removed(s.skip(1))
    }
}

/// The rest of a line inside a code span opened by `n` backticks: copied
/// up to a run of exactly `n` backticks.
pub open spec fn code_span_rest(s: Seq<char>, n: nat) -> Seq<char>
    decreases s.len(),
{
    if s.len() == 0 {
        Seq::empty()
    } else if s[0] == '`' {
        let m = run_of(s, '`');
        proof {
            lemma_run_of_len(s, '`');
        }
        s.take(m as int) + if m == n {
            periods_removed(s.skip(m as int))
        } else {
            code_span_rest(s.skip(m as int), n)
        }
    } else {
        seq![s[0]] + code_span_rest(s.skip(1), n)
    }
}

fn backtick_run(v: &Vec<char>, i: usize) -> (j: usize)
    requires
        i <= v.len(),
    ensures
        j - i == run_of(v@.skip(i as int), '`'),
        i <= j <= v.len(),
{
    let mut j = i;
    while j < v.len() && v[j] == '`'
        invariant
            i <= j <= v.len(),
            run_of(v@.skip(i as int), '`') == (j - i) + run_of(v@.skip(j as int), '`'),
        decreases v.len() - j,
    {
        assert(v@.skip(j as int)[0] == v@[j as int]);
        assert(v@.skip(j as int).drop_first() =~= v@.skip(j + 1));
        j += 1;
    }
    j
}

fn remove_periods_chars(v: &Vec<char>) -> (r: Vec<char>)
    ensures
        r@ == periods_removed(v@),
{
    let mut out: Vec<char> = Vec::new();
    let mut i: usize = 0;
    let mut in_code = false;
    let mut open: usize = 0;
    assert(v@.skip(0) =~= v@);
    while i < v.len()
        invariant
            i <= v.len(),
            out@ + (if in_code {
                code_span_rest(v@.skip(i as int), open as nat)
            } else {
                periods_removed(v@.skip(i as int))
            }) == periods_removed(v@),
        decreases v.len() - i,
    {
        let ghost s = v@.skip(i as int);
        let ghost before = out@;
        assert(s[0] == v@[i as int]);
        if v[i] == '`' {
            let j = backtick_run(v, i);
            let n = j - i;
            proof {
                lemma_run_of_len(s, '`');
            }
            let run = slice_of(v, i, j);
            append_chars(&mut out, &run);
            assert(run@ =~= s.take(n as int));
            assert(s.skip(n as int) =~= v@.skip(j as int));
            if in_code {
                if n == open {
                    in_code = false;
                }
            } else {
                in_code = true;
                open = n;
            }
            i = j;
        } else if !in_code && v[i] == '\\' && i + 1 < v.len() && v[i + 1] == '.' {
            assert(s[1] == v@[i + 1]);
            out.push('.');
            assert(s.skip(2) =~= v@.skip(i + 2));
            assert(out@ + periods_removed(v@.skip(i + 2)) =~= before + periods_removed(s));
            i += 2;
        } else {
            out.push(v[i]);
            assert(s.skip(1) =~= v@.skip(i + 1));
            i += 1;
        }
    }
    assert(periods_removed(v@.skip(i as int)) =~= Seq::<char>::empty());
    assert(code_span_rest(v@.skip(i as int), open as nat) =~= Seq::<char>::empty());
    assert(out@ + Seq::<char>::empty() =~= out@);
    out
}

/// Turns `\.` into `.` on a line, except inside backtick code spans (see
/// [`periods_removed`]).
pub fn remove_period_escapes_preserving_code(line: &str) -> (r: String)
    ensures
        r@ == periods_removed(line@),
{
    let v = chars_of(line);
    let out = remove_periods_chars(&v);
    string_of(&out)
}

/// The leading `>` and white space stripped.
pub open spec fn quote_prefix_len(s: Seq<char>) -> nat
    decreases s.len(),
{
    if s.len() > 0 && (s[0] == '>' || is_ws(s[0])) {
        1 + quote_prefix_len(s.drop_first())
    } else {
        0
    }
}

/// A leading bullet (`- `, `* `, `+ `) and task box (`[ ] `, `[x] `,
/// `[X] `) stripped.
pub open spec fn after_bullet(s: Seq<char>) -> Seq<char> {
    if starts_with(s, seq!['-', ' ']) || starts_with(s, seq!['*', ' ']) || starts_with(s, seq!['+', ' ']) {
        let rest = s.skip(2);
        if starts_with(rest, seq!['[', ' ', ']', ' ']) || starts_with(rest, seq!['[', 'x', ']', ' '])
            || starts_with(rest, seq!['[', 'X', ']', ' ']) {
            rest.skip(4)
        } else {
            rest
        }
    } else {
        s
    }
}

/// The number of leading ASCII digits.
pub open spec fn digit_prefix_len(s: Seq<char>) -> nat
    decreases s.len(),
{
    if s.len() > 0 && '0' <= s[0] <= '9' {
        1 + digit_prefix_len(s.drop_first())
    } else {
        0
    }
}

/// What a line outside fenced code becomes: a heading, or a line whose
/// content (past quote markers, a bullet and a task box) does not start
/// with digits and `\.`, loses its period escapes outside code spans.
pub open spec fn period_line(line: Seq<char>) -> Seq<char> {
    let ts = trim_start(line);
    if ts.len() > 0 && ts[0] == '#' {
        periods_removed(line)
    } else {
        let content = after_bullet(ts.skip(quote_prefix_len(ts) as int));
        let d = digit_prefix_len(content);
        if d > 0 && starts_with(content.skip(d as int), seq!['\\', '.']) {
            line
        } else {
            periods_removed(line)
        }
    }
}

/// The text `postprocess_period_escapes` returns.
pub open spec fn period_escapes_postprocessed(text: Seq<char>) -> Seq<char> {
    if !contains_seq(text, seq!['\\', '.']) {
        text
    } else {
        let lines = text_lines(text);
        relined(
            Seq::new(
                lines.len(),
                |i: int|
                    if outside_code(lines, i) {
                        period_line(lines[i])
                    } else {
                        lines[i]
                    },
            ),
            text,
        )
    }
}

fn prefix_char(c: char, quotes: bool) -> (b: bool)
    ensures
        b == if quotes {
            c == '>' || is_ws(c)
        } else {
            '0' <= c <= '9'
        },
{
    if quotes {
        c == '>' || crate::text::is_white_space(c)
    } else {
        '0' <= c && c <= '9'
    }
}

fn prefix_count(v: &Vec<char>, quotes: bool) -> (n: usize)
    ensures
        n == if quotes {
            quote_prefix_len(v@)
        } else {
            digit_prefix_len(v@)
        },
        n <= v.len(),
{
    let mut n: usize = 0;
    assert(v@.skip(0) =~= v@);
    while n < v.len() && prefix_char(v[n], quotes)
        invariant
            n <= v.len(),
            (if quotes {
                quote_prefix_len(v@)
            } else {
                digit_prefix_len(v@)
            }) == n + (if quotes {
                quote_prefix_len(v@.skip(n as int))
            } else {
                digit_prefix_len(v@.skip(n as int))
            }),
        decreases v.len() - n,
    {
        assert(v@.skip(n as int)[0] == v@[n as int]);
        assert(v@.skip(n as int).drop_first() =~= v@.skip(n + 1));
        n += 1;
    }
    n
}

fn after_bullet_exec(s: &Vec<char>) -> (r: Vec<char>)
    ensures
        r@ == after_bullet(s@),
{
    if starts_with_str(s, "- ") || starts_with_str(s, "* ") || starts_with_str(s, "+ ") {
        proof {
            reveal_strlit("- ");
            reveal_strlit("* ");
            reveal_strlit("+ ");
        }
        assert("- "@ =~= seq!['-', ' ']);
        assert("* "@ =~= seq!['*', ' ']);
        assert("+ "@ =~= seq!['+', ' ']);
        let rest = slice_of(s, 2, s.len());
        if starts_with_str(&rest, "[ ] ") || starts_with_str(&rest, "[x] ") || starts_with_str(&rest, "[X] ") {
            proof {
                reveal_strlit("[ ] ");
                reveal_strlit("[x] ");
                reveal_strlit("[X] ");
            }
            assert("[ ] "@ =~= seq!['[', ' ', ']', ' ']);
            assert("[x] "@ =~= seq!['[', 'x', ']', ' ']);
            assert("[X] "@ =~= seq!['[', 'X', ']', ' ']);
            slice_of(&rest, 4, rest.len())
        } else {
            proof {
                reveal_strlit("[ ] ");
                reveal_strlit("[x] ");
                reveal_strlit("[X] ");
            }
            assert("[ ] "@ =~= seq!['[', ' ', ']', ' ']);
            assert("[x] "@ =~= seq!['[', 'x', ']', ' ']);
            assert("[X] "@ =~= seq!['[', 'X', ']', ' ']);
            rest
        }
    } else {
        proof {
            reveal_strlit("- ");
            reveal_strlit("* ");
            reveal_strlit("+ ");
        }
        assert("- "@ =~= seq!['-', ' ']);
        assert("* "@ =~= seq!['*', ' ']);
        assert("+ "@ =~= seq!['+', ' ']);
        copy_buf(s)
    }
}

fn period_line_exec(line: &Vec<char>) -> (r: Vec<char>)
    ensures
        r@ == period_line(line@),
{
    let ts = trim_start_chars(line);
    if ts.len() > 0 && ts[0] == '#' {
        return remove_periods_chars(line);
    }
    let q = prefix_count(&ts, true);
    let after_quotes = slice_of(&ts, q, ts.len());
    let content = after_bullet_exec(&after_quotes);
    let d = prefix_count(&content, false);
    let tail = slice_of(&content, d, content.len());
    if d > 0 && starts_with_str(&tail, "\\.") {
        proof {
            reveal_strlit("\\.");
        }
        assert("\\."@ =~= seq!['\\', '.']);
        copy_buf(line)
    } else {
        proof {
            reveal_strlit("\\.");
        }
        assert("\\."@ =~= seq!['\\', '.']);
        remove_periods_chars(line)
    }
}

/// Drops period escapes that are not needed: all but a `\.` right after
/// digits at the start of a line's content (which would otherwise read as
/// a numbered item), outside code spans and fenced code (see
/// [`period_escapes_postprocessed`]).
pub fn postprocess_period_escapes(text: &str) -> (r: String)
    ensures
        r@ == period_escapes_postprocessed(text@),
{
    let v = chars_of(text);
    if !contains_str(&v, "\\.") {
        proof {
            reveal_strlit("\\.");
        }
        assert("\\."@ =~= seq!['\\', '.']);
        return string_of(&v);
    }
    proof {
        reveal_strlit("\\.");
    }
    assert("\\."@ =~= seq!['\\', '.']);
    let lines = lines_of(text);
    let ghost ls = buf_views(lines@);
    let flags = outside_code_flags(&lines);
    let ghost target = Seq::new(
        ls.len(),
        |i: int|
            if outside_code(ls, i) {
                period_line(ls[i])
            } else {
                ls[i]
            },
    );
    let mut out: Vec<Vec<char>> = Vec::new();
    let mut i: usize = 0;
    while i < lines.len()
        invariant
            i <= lines.len() == flags.len(),
            ls == buf_views(lines@),
            forall|j: int| 0 <= j < lines.len() ==> flags@[j] == outside_code(ls, j),
            target == Seq::new(
                ls.len(),
                |i: int|
                    if outside_code(ls, i) {
                        period_line(ls[i])
                    } else {
                        ls[i]
                    },
            ),
            buf_views(out@) == target.take(i as int),
        decreases lines.len() - i,
    {
        assert(ls[i as int] == lines@[i as int]@);
        let new_line = if flags[i] {
            period_line_exec(&lines[i])
        } else {
            copy_buf(&lines[i])
        };
        push_buf(&mut out, new_line);
        assert(buf_views(out@) =~= target.take(i + 1));
        i += 1;
    }
    assert(target.take(lines.len() as int) =~= target);
    let nl = newline();
    let mut joined = join_bufs(&out, &nl);
    if ends_with_newline(&v) {
        joined.push('\n');
    }
    string_of(&joined)
}

// ---------------------------------------------------------------------------
// Rendered-output clean-ups
// ---------------------------------------------------------------------------

/// A numbered item with two spaces after its period; group 1 is the number.
pub const NUMBERED_ITEM_TWO_SPACES_PATTERN: &'static str = r"^(\d+)\.  ";

/// Spaces and tabs removed from blank lines.
pub open spec fn blank_lines_normalized(text: Seq<char>) -> Seq<char> {
    rewritten(Rewrite::BlankLineSpace, text)
}

/// Blank lines made of spaces and tabs become empty (see
/// [`blank_lines_normalized`]).
pub fn normalize_blank_lines(text: &str) -> (r: String)
    ensures
        r@ == blank_lines_normalized(text@),
{
    let v = chars_of(text);
    let out = rewrite_all(Rewrite::BlankLineSpace, &v);
    string_of(&out)
}

/// The space between a code fence and its info string removed, when the
/// text has a backtick fence at all.
pub open spec fn code_fences_normalized(text: Seq<char>) -> Seq<char> {
    if !contains_seq(text, seq!['`', '`', '`']) {
        text
    } else {
        rewritten(Rewrite::FenceInfoSpace, text)
    }
}

/// Removes the space between a code fence and its language (see
/// [`code_fences_normalized`]).
pub fn normalize_code_fences(text: &str) -> (r: String)
    ensures
        r@ == code_fences_normalized(text@),
{
    let v = chars_of(text);
    proof {
        reveal_strlit("```");
    }
    assert("```"@ =~= seq!['`', '`', '`']);
    if !contains_str(&v, "```") {
        return string_of(&v);
    }
    let out = rewrite_all(Rewrite::FenceInfoSpace, &v);
    string_of(&out)
}

/// The first occurrence of `pat` replaced by `rep` (`str::replacen` with a
/// count of one).
pub open spec fn replaced_once(s: Seq<char>, pat: Seq<char>, rep: Seq<char>) -> Seq<char> {
    let k = find_from(s, pat, 0);
    if k < 0 {
        s
    } else {
        s.take(k) + rep + s.skip(k + pat.len())
    }
}

/// The number of the first numbered-item match of a line, if any.
pub open spec fn item_number(line: Seq<char>) -> Option<Seq<char>> {
    match regex_scan_of(NUMBERED_ITEM_TWO_SPACES_PATTERN@, line) {
        Some(sc) => if sc.1.len() > 0 {
            Some(group_text(sc.1[0], 1))
        } else {
            None
        },
        None => None,
    }
}

/// A numbered item's two spaces after the period made one.
pub open spec fn numbered_line(line: Seq<char>) -> Seq<char> {
    match item_number(line) {
        Some(num) => replaced_once(line, num + seq!['.', ' ', ' '], num + seq!['.', ' ']),
        None => line,
    }
}

/// The text `normalize_numbered_lists` returns: unchanged without `.  `;
/// otherwise each line fixed and ended by a line break, the last one
/// dropped when the text did not end with one.
pub open spec fn numbered_lists_normalized(text: Seq<char>) -> Seq<char> {
    if !contains_seq(text, seq!['.', ' ', ' ']) {
        text
    } else {
        let lines = text_lines(text);
        let r = crate::text::concat(Seq::new(lines.len(), |i: int| numbered_line(lines[i]) + seq!['\n']));
        if !(text.len() > 0 && text.last() == '\n') && r.len() > 0 && r.last() == '\n' {
            r.drop_last()
        } else {
            r
        }
    }
}

fn item_number_exec(line: &Vec<char>) -> (r: Option<Vec<char>>)
    ensures
        match item_number(line@) {
            Some(n) => r matches Some(v) && v@ == n,
            None => r is None,
        },
{
    let s = string_of(line);
    match scan(NUMBERED_ITEM_TWO_SPACES_PATTERN, s.as_str()) {
        None => None,
        Some(sc) => {
            if sc.groups.len() > 0 {
                Some(group_or_empty(&sc, 0, 1))
            } else {
                None
            }
        },
    }
}

fn replace_once_exec(s: &Vec<char>, pat: &Vec<char>, rep: &Vec<char>) -> (r: Vec<char>)
    ensures
        r@ == replaced_once(s@, pat@, rep@),
{
    match find_buf(s, pat, 0) {
        None => copy_buf(s),
        Some(k) => {
            proof {
                lemma_find_from(s@, pat@, 0);
            }
            assert(k + pat.len() <= s.len());
            let mut out = slice_of(s, 0, k);
            append_chars(&mut out, rep);
            let tail = slice_of(s, k + pat.len(), s.len());
            append_chars(&mut out, &tail);
            assert(out@ =~= replaced_once(s@, pat@, rep@));
            out
        },
    }
}

fn numbered_line_exec(line: &Vec<char>) -> (r: Vec<char>)
    ensures
        r@ == numbered_line(line@),
{
    match item_number_exec(line) {
        None => copy_buf(line),
        Some(num) => {
            let mut pat = copy_buf(&num);
            pat.push('.');
            pat.push(' ');
            pat.push(' ');
            let mut rep = copy_buf(&num);
            rep.push('.');
            rep.push(' ');
            assert(pat@ =~= num@ + seq!['.', ' ', ' ']);
            assert(rep@ =~= num@ + seq!['.', ' ']);
            replace_once_exec(line, &pat, &rep)
        },
    }
}

/// Makes the two spaces after a numbered item's period one (see
/// [`numbered_lists_normalized`]).
pub fn normalize_numbered_lists(text: &str) -> (r: String)
    ensures
        r@ == numbered_lists_normalized(text@),
{
    let v = chars_of(text);
    proof {
        reveal_strlit(".  ");
    }
    assert(".  "@ =~= seq!['.', ' ', ' ']);
    if !contains_str(&v, ".  ") {
        return string_of(&v);
    }
    let lines = lines_of(text);
    let ghost ls = buf_views(lines@);
    let ghost pieces = Seq::new(ls.len(), |i: int| numbered_line(ls[i]) + seq!['\n']);
    let mut out: Vec<char> = Vec::new();
    let mut i: usize = 0;
    while i < lines.len()
        invariant
            i <= lines.len(),
            ls == buf_views(lines@),
            pieces == Seq::new(ls.len(), |i: int| numbered_line(ls[i]) + seq!['\n']),
            out@ == crate::text::concat(pieces.take(i as int)),
        decreases lines.len() - i,
    {
        assert(ls[i as int] == lines@[i as int]@);
        let fixed = numbered_line_exec(&lines[i]);
        let ghost before = out@;
        append_chars(&mut out, &fixed);
        out.push('\n');
        assert(pieces.take(i + 1).drop_last() =~= pieces.take(i as int));
        assert(out@ =~= before + pieces[i as int]);
        i += 1;
    }
    assert(pieces.take(lines.len() as int) =~= pieces);
    if !ends_with_newline(&v) && ends_with_newline(&out) {
        out.pop();
        assert(out@ =~= crate::text::concat(pieces).drop_last());
    }
    string_of(&out)
}

/// The clean-ups of rendered Markdown, in order: blank lines, fence info
/// strings, numbered items, runs of blank lines.
pub open spec fn rendered_output_normalized(text: Seq<char>) -> Seq<char> {
    blank_lines_collapsed(
        numbered_lists_normalized(code_fences_normalized(blank_lines_normalized(text))),
    )
}

/// Applies the clean-ups of rendered Markdown (see
/// [`rendered_output_normalized`]).
pub fn normalize_comrak_output(text: &str) -> (r: String)
    ensures
        r@ == rendered_output_normalized(text@),
{
    let a = normalize_blank_lines(text);
    let b = normalize_code_fences(a.as_str());
    let c = normalize_numbered_lists(b.as_str());
    collapse_blank_lines_outside_code(c.as_str())
}

// ---------------------------------------------------------------------------
// Fence length
// ---------------------------------------------------------------------------

/// Runs of three or more backticks starting a line (after up to three
/// spaces); group 1 is the run.
pub const BACKTICK_FENCE_PATTERN: &'static str = r"(?m)^[ ]{0,3}(`{3,})";

/// Runs of three or more tildes starting a line (after up to three
/// spaces); group 1 is the run.
pub const TILDE_FENCE_PATTERN: &'static str = r"(?m)^[ ]{0,3}(~{3,})";

/// The longest byte length of group 1 over the first `n` matches (as
/// `str::len` reports it).
pub open spec fn longest_group(groups: Seq<Seq<Option<Seq<char>>>>, n: int) -> int
    decreases n,
{
    if n <= 0 {
        0
    } else {
        let l = (vstd::utf8::encode_utf8(group_text(groups[n - 1], 1)).len() as usize) as int;
        let m = longest_group(groups, n - 1);
        if l > m {
            l
        } else {
            m
        }
    }
}

/// The shortest fence of `fence_char` that no fence line of the content
/// can close: one longer than its longest fence run, and at least three
/// (three for a character that is not a fence character). The count stops
/// at the largest `usize`.
pub open spec fn fence_length_needed(code: Seq<char>, fence_char: char) -> int {
    let pattern = if fence_char == '`' {
        BACKTICK_FENCE_PATTERN@
    } else {
        TILDE_FENCE_PATTERN@
    };
    if fence_char != '`' && fence_char != '~' {
        3
    } else {
        let m = match regex_scan_of(pattern, code) {
            Some(sc) => longest_group(sc.1, sc.1.len() as int),
            None => 0,
        };
        if m + 1 > usize::MAX {
            usize::MAX as int
        } else if m + 1 > 3 {
            m + 1
        } else {
            3
        }
    }
}

/// The fence length a code block needs (see [`fence_length_needed`]).
pub fn min_fence_length(code_content: &str, fence_char: char) -> (r: usize)
    ensures
        r == fence_length_needed(code_content@, fence_char),
{
    let pattern = if fence_char == '`' {
        BACKTICK_FENCE_PATTERN
    } else if fence_char == '~' {
        TILDE_FENCE_PATTERN
    } else {
        return 3;
    };
    let mut max_len: usize = 0;
    match scan(pattern, code_content) {
        None => {},
        Some(sc) => {
            let ghost ms = group_views(sc.groups@);
            let mut k: usize = 0;
            while k < sc.groups.len()
                invariant
                    k <= sc.groups.len(),
                    ms == group_views(sc.groups@),
                    max_len == longest_group(ms, k as int),
                decreases sc.groups.len() - k,
            {
                let g = group_or_empty(&sc, k, 1);
                let gs = string_of(&g);
                let l = gs.as_str().len();
                assert(l == vstd::utf8::encode_utf8(group_text(ms[k as int], 1)).len() as usize);
                assert(longest_group(ms, k + 1) == if l > longest_group(ms, k as int) {
                    l as int
                } else {
                    longest_group(ms, k as int)
                });
                if l > max_len {
                    max_len = l;
                }
                k += 1;
            }
        },
    }
    if max_len == usize::MAX {
        usize::MAX
    } else if max_len + 1 > 3 {
        max_len + 1
    } else {
        3
    }
}

} // verus!
