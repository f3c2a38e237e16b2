//! Backslash escapes across parsing.
//!
//! A Markdown parser drops the backslash of an escape such as `\*`. Before
//! parsing, each escape `\x` (for `x` in the escape set) becomes a two-char
//! placeholder: the private-use scalar `U+E000 + x` and the filler
//! `U+E100`, which keeps the line's width. After rendering, each placeholder
//! becomes `\x` again. Fenced code is left alone.

use vstd::prelude::*;
use crate::formatter::fences::{outside_code, outside_code_flags};
use crate::formatter::filling::{copy_buf, ends_with_newline, lines_of, newline, relined};
use crate::preservation::tokens::char_from_u32;
use crate::text::{buf_views, chars_of, contains_seq, join, join_bufs, lemma_split_on, occurs_at, push_buf, split_on, string_of};
use crate::wrapping::text_filling::{strip_cr, text_lines};

verus! {

/// The second char of every placeholder.
pub const PUA_FILLER: char = '\u{E100}';

/// The characters CommonMark lets a backslash escape (all ASCII
/// punctuation), the backslash first.
pub const ESCAPE_CHARS: [char; 32] = [
    '\\', '~', '*', '#', '-', '+', '>', '.', '!', '[', ']', '(', ')', '{', '}', '$', '_', '|', '`', '"', '%',
    '&', '\'', ',', '/', ':', ';', '<', '=', '?', '@', '^',
];

/// The placeholder scalar of an escaped char.
pub open spec fn pua_of(c: char) -> char {
    ((c as u32) + 0xE000) as char
}

/// Whether a scalar is a placeholder scalar (`U+E000..=U+E0FF`).
pub open spec fn in_pua_range(c: char) -> bool {
    0xE000 <= (c as u32) <= 0xE0FF
}

/// The char a placeholder scalar stands for.
pub open spec fn unpua(c: char) -> char {
    ((c as u32) - 0xE000) as char
}

/// Every char of the set has a placeholder scalar.
pub open spec fn escapable_set(set: Seq<char>) -> bool {
    forall|i: int| 0 <= i < set.len() ==> (set[i] as u32) + 0xE000 <= 0x10FFFF
}

/// A line with each escape `\x` (`x` in the set) replaced by its
/// placeholder, scanning left to right.
pub open spec fn escapes_replaced(s: Seq<char>, set: Seq<char>) -> Seq<char>
    decreases s.len(),
{
    if s.len() == 0 {
        Seq::empty()
    } else if s[0] == '\\' && s.len() > 1 && set.contains(s[1]) {
        seq![pua_of(s[1]), PUA_FILLER] + escapes_replaced(s.skip(2), set)
    } else {
        seq![s[0]] + escapes_replaced(s.skip(1), set)
    }
}

/// A text with each placeholder (a placeholder scalar followed by the
/// filler) replaced by the escape it stands for.
pub open spec fn pua_restored(s: Seq<char>) -> Seq<char>
    decreases s.len(),
{
    if s.len() == 0 {
        Seq::empty()
    } else if in_pua_range(s[0]) && s.len() > 1 && s[1] == PUA_FILLER {
        seq!['\\', unpua(s[0])] + pua_restored(s.skip(2))
    } else {
        seq![s[0]] + pua_restored(s.skip(1))
    }
}

fn char_in(set: &[char], c: char) -> (b: bool)
    ensures
        b == set@.contains(c),
{
    let mut i: usize = 0;
    while i < set.len()
        invariant
            i <= set.len(),
            forall|j: int| 0 <= j < i ==> set@[j] != c,
        decreases set.len() - i,
    {
        if set[i] == c {
            assert(set@[i as int] == c);
            return true;
        }
        i += 1;
    }
    false
}

fn replace_escapes_chars(v: &Vec<char>, escape_set: &[char]) -> (r: Vec<char>)
    requires
        escapable_set(escape_set@),
    ensures
        r@ == escapes_replaced(v@, escape_set@),
{
    let ghost set = escape_set@;
    let mut out: Vec<char> = Vec::new();
    let mut i: usize = 0;
    assert(v@.skip(0) =~= v@);
    while i < v.len()
        invariant
            i <= v.len(),
            set == escape_set@,
            escapable_set(set),
            out@ + escapes_replaced(v@.skip(i as int), set) == escapes_replaced(v@, set),
        decreases v.len() - i,
    {
        let ghost rest = v@.skip(i as int);
        let ghost before = out@;
        assert(rest[0] == v@[i as int]);
        if v[i] == '\\' && i + 1 < v.len() && char_in(escape_set, v[i + 1]) {
            let next = v[i + 1];
            assert(rest[1] == next);
            proof {
                let k = choose|k: int| 0 <= k < set.len() && set[k] == next;
                assert((set[k] as u32) + 0xE000 <= 0x10FFFF);
            }
            let code: u32 = (next as u32) + 0xE000;
            let p = match char_from_u32(code) {
                Some(c) => c,
                None => next,
            };
            assert(p == pua_of(next));
            out.push(p);
            out.push(PUA_FILLER);
            assert(rest.skip(2) =~= v@.skip(i + 2));
            assert(out@ + escapes_replaced(v@.skip(i + 2), set) =~= before + escapes_replaced(rest, set));
            i += 2;
        } else {
            out.push(v[i]);
            assert(rest.skip(1) =~= v@.skip(i + 1));
            assert(out@ + escapes_replaced(v@.skip(i + 1), set) =~= before + escapes_replaced(rest, set));
            i += 1;
        }
    }
    assert(escapes_replaced(v@.skip(i as int), set) =~= Seq::<char>::empty());
    assert(out@ + Seq::<char>::empty() =~= out@);
    out
}

/// Replaces each escape `\x` of the line whose `x` is in the set by its
/// placeholder (see [`escapes_replaced`]).
pub fn replace_escapes_in_line(line: &str, escape_set: &[char]) -> (r: String)
    requires
        escapable_set(escape_set@),
    ensures
        r@ == escapes_replaced(line@, escape_set@),
{
    let v = chars_of(line);
    let out = replace_escapes_chars(&v, escape_set);
    string_of(&out)
}

/// The text with escapes replaced on every line outside fenced code.
pub open spec fn escapes_protected(text: Seq<char>, set: Seq<char>) -> Seq<char> {
    let lines = text_lines(text);
    relined(
        Seq::new(
            lines.len(),
            |i: int|
                if outside_code(lines, i) {
                    escapes_replaced(lines[i], set)
                } else {
                    lines[i]
                },
        ),
        text,
    )
}

/// Replaces escapes by placeholders outside fenced code (see
/// [`escapes_protected`]).
pub fn protect_escapes_outside_code(text: &str, escape_set: &[char]) -> (r: String)
    requires
        escapable_set(escape_set@),
    ensures
        r@ == escapes_protected(text@, escape_set@),
{
    let lines = lines_of(text);
    let ghost ls = buf_views(lines@);
    let flags = outside_code_flags(&lines);
    let ghost target = Seq::new(
        ls.len(),
        |i: int|
            if outside_code(ls, i) {
                escapes_replaced(ls[i], escape_set@)
            } else {
                ls[i]
            },
    );
    let mut out: Vec<Vec<char>> = Vec::new();
    let mut i: usize = 0;
    while i < lines.len()
        invariant
            i <= lines.len() == flags.len(),
            ls == buf_views(lines@),
            escapable_set(escape_set@),
            forall|j: int| 0 <= j < lines.len() ==> flags@[j] == outside_code(ls, j),
            target == Seq::new(
                ls.len(),
                |i: int|
                    if outside_code(ls, i) {
                        escapes_replaced(ls[i], escape_set@)
                    } else {
                        ls[i]
                    },
            ),
            buf_views(out@) == target.take(i as int),
        decreases lines.len() - i,
    {
        assert(ls[i as int] == lines@[i as int]@);
        let new_line = if flags[i] {
            replace_escapes_chars(&lines[i], escape_set)
        } else {
            copy_buf(&lines[i])
        };
        push_buf(&mut out, new_line);
        assert(buf_views(out@) =~= target.take(i + 1));
        i += 1;
    }
    assert(target.take(lines.len() as int) =~= target);
    let nl = newline();
    let mut joined = join_bufs(&out, &nl);
    let v = chars_of(text);
    if ends_with_newline(&v) {
        joined.push('\n');
    }
    string_of(&joined)
}

/// Turns each placeholder back into its escape (see [`pua_restored`]).
pub fn restore_pua_escape_placeholders(text: &str) -> (r: String)
    ensures
        r@ == pua_restored(text@),
{
    let v = chars_of(text);
    let mut out: Vec<char> = Vec::new();
    let mut i: usize = 0;
    assert(v@.skip(0) =~= v@);
    while i < v.len()
        invariant
            i <= v.len(),
            out@ + pua_restored(v@.skip(i as int)) == pua_restored(v@),
        decreases v.len() - i,
    {
        let ghost rest = v@.skip(i as int);
        let ghost before = out@;
        assert(rest[0] == v@[i as int]);
        let ch = v[i];
        let code = ch as u32;
        if 0xE000 <= code && code <= 0xE0FF && i + 1 < v.len() && v[i + 1] == PUA_FILLER {
            assert(rest[1] == v@[i + 1]);
            let original = match char_from_u32(code - 0xE000) {
                Some(c) => c,
                None => ch,
            };
            assert(original == unpua(ch));
            out.push('\\');
            out.push(original);
            assert(rest.skip(2) =~= v@.skip(i + 2));
            assert(out@ + pua_restored(v@.skip(i + 2)) =~= before + pua_restored(rest));
            i += 2;
        } else {
            out.push(ch);
            assert(rest.skip(1) =~= v@.skip(i + 1));
            assert(out@ + pua_restored(v@.skip(i + 1)) =~= before + pua_restored(rest));
            i += 1;
        }
    }
    assert(pua_restored(v@.skip(i as int)) =~= Seq::<char>::empty());
    assert(out@ + Seq::<char>::empty() =~= out@);
    string_of(&out)
}

/// Restoring the placeholders of a line gives back the line, when every
/// escapable char is ASCII and the line has no placeholder scalar of its
/// own.
pub proof fn lemma_restore_inverts_replace(s: Seq<char>, set: Seq<char>)
    requires
        forall|i: int| 0 <= i < set.len() ==> (set[i] as u32) < 0x100,
        forall|i: int| 0 <= i < s.len() ==> !in_pua_range(#[trigger] s[i]),
    ensures
        pua_restored(escapes_replaced(s, set)) == s,
    decreases s.len(),
{
    if s.len() > 0 {
        if s[0] == '\\' && s.len() > 1 && set.contains(s[1]) {
            let k = choose|k: int| 0 <= k < set.len() && set[k] == s[1];
            let rest = s.skip(2);
            assert forall|i: int| 0 <= i < rest.len() implies !in_pua_range(#[trigger] rest[i]) by {
                assert(rest[i] == s[i + 2]);
            }
            lemma_restore_inverts_replace(rest, set);
            let x = escapes_replaced(rest, set);
            let p = pua_of(s[1]);
            let whole = seq![p, PUA_FILLER] + x;
            assert(whole[0] == p && whole[1] == PUA_FILLER);
            assert(whole.skip(2) =~= x);
            let v = (s[1] as u32) + 0xE000;
            assert((v as char) as u32 == v);
            assert(in_pua_range(p));
            vstd::utf8::char_u32_cast(s[1], (v - 0xE000) as u32);
            assert(unpua(p) == s[1]);
            assert(seq!['\\', s[1]] + rest =~= s);
        } else {
            let rest = s.skip(1);
            assert forall|i: int| 0 <= i < rest.len() implies !in_pua_range(#[trigger] rest[i]) by {
                assert(rest[i] == s[i + 1]);
            }
            lemma_restore_inverts_replace(rest, set);
            let x = escapes_replaced(rest, set);
            let whole = seq![s[0]] + x;
            assert(whole[0] == s[0]);
            assert(!in_pua_range(s[0]));
            assert(whole.skip(1) =~= x);
            assert(seq![s[0]] + rest =~= s);
        }
    }
}

/// Empty, or ending with a char that is not a placeholder scalar.
pub open spec fn ends_plain(s: Seq<char>) -> bool {
    s.len() == 0 || !in_pua_range(s.last())
}

pub open spec fn no_pua(s: Seq<char>) -> bool {
    forall|i: int| 0 <= i < s.len() ==> !in_pua_range(#[trigger] s[i])
}

proof fn lemma_restore_plain(s: Seq<char>)
    requires
        no_pua(s),
    ensures
        pua_restored(s) == s,
    decreases s.len(),
{
    if s.len() > 0 {
        assert(!in_pua_range(s[0]));
        let rest = s.skip(1);
        assert forall|i: int| 0 <= i < rest.len() implies !in_pua_range(#[trigger] rest[i]) by {
            assert(rest[i] == s[i + 1]);
        }
        lemma_restore_plain(rest);
        assert(seq![s[0]] + rest =~= s);
    }
}

proof fn lemma_restore_concat(a: Seq<char>, b: Seq<char>)
    requires
        ends_plain(a),
    ensures
        pua_restored(a + b) == pua_restored(a) + pua_restored(b),
    decreases a.len(),
{
    if a.len() == 0 {
        assert(a + b =~= b);
        assert(pua_restored(a) =~= Seq::<char>::empty());
        assert(Seq::<char>::empty() + pua_restored(b) =~= pua_restored(b));
    } else {
        let ab = a + b;
        assert(ab[0] == a[0]);
        if in_pua_range(a[0]) && a.len() > 1 && a[1] == PUA_FILLER {
            assert(ab[1] == a[1]);
            assert(ab.skip(2) =~= a.skip(2) + b);
            if a.len() > 2 {
                assert(a.skip(2).last() == a.last());
            }
            lemma_restore_concat(a.skip(2), b);
            assert(pua_restored(ab) =~= seq!['\\', unpua(a[0])] + (pua_restored(a.skip(2)) + pua_restored(b)));
        } else {
            if a.len() == 1 {
                assert(a.last() == a[0]);
                assert(!in_pua_range(a[0]));
            } else {
                assert(ab[1] == a[1]);
            }
            assert(ab.skip(1) =~= a.skip(1) + b);
            if a.len() > 1 {
                assert(a.skip(1).last() == a.last());
            }
            lemma_restore_concat(a.skip(1), b);
            assert(pua_restored(ab) =~= seq![a[0]] + (pua_restored(a.skip(1)) + pua_restored(b)));
        }
    }
}

proof fn lemma_replaced_ends_plain(s: Seq<char>, set: Seq<char>)
    requires
        no_pua(s),
    ensures
        ends_plain(escapes_replaced(s, set)),
    decreases s.len(),
{
    if s.len() > 0 {
        if s[0] == '\\' && s.len() > 1 && set.contains(s[1]) {
            let rest = s.skip(2);
            assert forall|i: int| 0 <= i < rest.len() implies !in_pua_range(#[trigger] rest[i]) by {
                assert(rest[i] == s[i + 2]);
            }
            lemma_replaced_ends_plain(rest, set);
            let r = escapes_replaced(rest, set);
            let w = seq![pua_of(s[1]), PUA_FILLER] + r;
            if r.len() == 0 {
                assert(w.last() == PUA_FILLER);
            } else {
                assert(w.last() == r.last());
            }
        } else {
            let rest = s.skip(1);
            assert forall|i: int| 0 <= i < rest.len() implies !in_pua_range(#[trigger] rest[i]) by {
                assert(rest[i] == s[i + 1]);
            }
            lemma_replaced_ends_plain(rest, set);
            let r = escapes_replaced(rest, set);
            let w = seq![s[0]] + r;
            if r.len() == 0 {
                assert(w.last() == s[0]);
            } else {
                assert(w.last() == r.last());
            }
        }
    }
}

proof fn lemma_restore_join(parts: Seq<Seq<char>>, targets: Seq<Seq<char>>)
    requires
        parts.len() == targets.len(),
        forall|i: int| 0 <= i < parts.len() ==> ends_plain(#[trigger] parts[i]),
        forall|i: int| 0 <= i < parts.len() ==> pua_restored(#[trigger] parts[i]) == targets[i],
    ensures
        pua_restored(join(parts, seq!['\n'])) == join(targets, seq!['\n']),
        ends_plain(join(parts, seq!['\n'])),
    decreases parts.len(),
{
    if parts.len() == 0 {
        assert(pua_restored(Seq::<char>::empty()) =~= Seq::<char>::empty());
    } else if parts.len() == 1 {
        assert(parts[0] == parts[0]);
    } else {
        let dl = parts.drop_last();
        let tl = targets.drop_last();
        assert forall|i: int| 0 <= i < dl.len() implies ends_plain(#[trigger] dl[i]) by {
            assert(dl[i] == parts[i]);
        }
        assert forall|i: int| 0 <= i < dl.len() implies pua_restored(#[trigger] dl[i]) == tl[i] by {
            assert(dl[i] == parts[i]);
            assert(tl[i] == targets[i]);
        }
        lemma_restore_join(dl, tl);
        let j = join(dl, seq!['\n']);
        let last = parts.last();
        assert(join(parts, seq!['\n']) == j + seq!['\n'] + last);
        assert(join(targets, seq!['\n']) == join(tl, seq!['\n']) + seq!['\n'] + targets.last());
        lemma_restore_concat(j, seq!['\n'] + last);
        let nl_last = seq!['\n'] + last;
        assert(nl_last[0] == '\n');
        assert(nl_last.skip(1) =~= last);
        assert(pua_restored(nl_last) =~= seq!['\n'] + pua_restored(last));
        assert(j + seq!['\n'] + last =~= j + nl_last);
        assert(ends_plain(parts[parts.len() - 1]));
        let whole = j + nl_last;
        if last.len() > 0 {
            assert(whole.last() == last.last());
        } else {
            assert(whole.last() == '\n');
        }
    }
}

proof fn lemma_parts_without_cr(s: Seq<char>)
    requires
        !contains_seq(s, seq!['\r', '\n']),
    ensures
        forall|i: int| 0 <= i < split_on(s, '\n').len() - 1 ==> strip_cr(#[trigger] split_on(s, '\n')[i]) == split_on(
            s,
            '\n',
        )[i],
    decreases s.len(),
{
    if s.len() > 0 {
        let d = s.drop_last();
        assert(!contains_seq(d, seq!['\r', '\n'])) by {
            if contains_seq(d, seq!['\r', '\n']) {
                let i = choose|i: int| occurs_at(d, i, seq!['\r', '\n']);
                assert(d.subrange(i, i + 2) == s.subrange(i, i + 2));
                assert(occurs_at(s, i, seq!['\r', '\n']));
            }
        }
        lemma_parts_without_cr(d);
        lemma_split_on(d, '\n');
        let prev = split_on(d, '\n');
        let cur = split_on(s, '\n');
        if s.last() == '\n' {
            assert forall|i: int| 0 <= i < cur.len() - 1 implies strip_cr(#[trigger] cur[i]) == cur[i] by {
                assert(cur[i] == prev[i]);
                if i == prev.len() - 1 {
                    let p = prev.last();
                    if p.len() > 0 && p.last() == '\r' {
                        lemma_split_on(s, '\n');
                        assert(d.len() > 0 && d.last() == '\r') by {
                            lemma_last_part_suffix(d);
                        }
                        assert(s.subrange(s.len() - 2, s.len() as int) =~= seq!['\r', '\n']);
                        assert(occurs_at(s, s.len() - 2, seq!['\r', '\n']));
                    }
                }
            }
        } else {
            assert forall|i: int| 0 <= i < cur.len() - 1 implies strip_cr(#[trigger] cur[i]) == cur[i] by {
                assert(cur[i] == prev[i]);
            }
        }
    }
}

/// The last piece of a split is a suffix of the text.
proof fn lemma_last_part_suffix(s: Seq<char>)
    ensures
        split_on(s, '\n').last().len() <= s.len(),
        split_on(s, '\n').last().len() > 0 ==> s.len() > 0 && split_on(s, '\n').last().last() == s.last(),
    decreases s.len(),
{
    lemma_split_on(s, '\n');
    if s.len() > 0 {
        lemma_last_part_suffix(s.drop_last());
        lemma_split_on(s.drop_last(), '\n');
    }
}

/// Joining the lines of a text without `\r\n` gives it back.
proof fn lemma_relined_lines(t: Seq<char>)
    requires
        !contains_seq(t, seq!['\r', '\n']),
    ensures
        relined(text_lines(t), t) == t,
{
    let parts = split_on(t, '\n');
    lemma_split_on(t, '\n');
    lemma_parts_without_cr(t);
    let n = parts.len() as int;
    let ls = text_lines(t);
    if t.len() == 0 {
        assert(ls =~= Seq::<Seq<char>>::empty());
        assert(parts =~= seq![Seq::<char>::empty()]);
    } else if t.last() == '\n' {
        assert(parts.last() =~= Seq::<char>::empty());
        assert(ls =~= parts.drop_last()) by {
            assert forall|i: int| 0 <= i < ls.len() implies ls[i] == parts.drop_last()[i] by {
                assert(strip_cr(parts[i]) == parts[i]);
            }
        }
        if n == 1 {
            assert(false) by {
                assert(t =~= parts[0]);
                assert(t.contains('\n')) by {
                    assert(t[t.len() - 1] == '\n');
                }
            }
        }
        assert(join(parts, seq!['\n']) == join(parts.drop_last(), seq!['\n']) + seq!['\n'] + parts.last());
        assert(join(parts.drop_last(), seq!['\n']).push('\n') =~= t);
    } else {
        assert(ls =~= parts) by {
            assert forall|i: int| 0 <= i < ls.len() implies ls[i] == parts[i] by {
                if i < n - 1 {
                    assert(strip_cr(parts[i]) == parts[i]);
                }
            }
        }
    }
}

/// Restoring the placeholders of a text with its escapes protected gives
/// back the text, when every escapable char is ASCII and the text has no
/// placeholder scalar and no `\r\n` of its own.
pub proof fn lemma_restore_inverts_protect(text: Seq<char>, set: Seq<char>)
    requires
        forall|i: int| 0 <= i < set.len() ==> (set[i] as u32) < 0x100,
        no_pua(text),
        !contains_seq(text, seq!['\r', '\n']),
    ensures
        pua_restored(escapes_protected(text, set)) == text,
{
    let lines = text_lines(text);
    let parts = split_on(text, '\n');
    lemma_split_on(text, '\n');
    let out = Seq::new(
        lines.len(),
        |i: int|
            if outside_code(lines, i) {
                escapes_replaced(lines[i], set)
            } else {
                lines[i]
            },
    );
    assert forall|i: int| 0 <= i < lines.len() implies no_pua(#[trigger] lines[i]) by {
        assert forall|k: int| 0 <= k < lines[i].len() implies !in_pua_range(#[trigger] lines[i][k]) by {
            lemma_line_chars(text, i, k);
        }
    }
    assert forall|i: int| 0 <= i < out.len() implies ends_plain(#[trigger] out[i]) && pua_restored(out[i])
        == lines[i] by {
        assert(no_pua(lines[i]));
        if outside_code(lines, i) {
            lemma_replaced_ends_plain(lines[i], set);
            lemma_restore_inverts_replace(lines[i], set);
        } else {
            lemma_restore_plain(lines[i]);
            let l = lines[i];
            if l.len() > 0 {
                assert(!in_pua_range(l[l.len() - 1]));
            }
        }
    }
    lemma_restore_join(out, lines);
    let j = join(out, seq!['\n']);
    lemma_relined_lines(text);
    if text.len() > 0 && text.last() == '\n' {
        lemma_restore_concat(j, seq!['\n']);
        assert(pua_restored(seq!['\n']) =~= seq!['\n']) by {
            let nl = seq!['\n'];
            assert(nl.skip(1) =~= Seq::<char>::empty());
            assert(pua_restored(nl.skip(1)) =~= Seq::<char>::empty());
            assert(!in_pua_range(nl[0]));
        }
        assert(j.push('\n') =~= j + seq!['\n']);
    }
}

/// Every char of a line of the text is a char of the text.
proof fn lemma_line_chars(text: Seq<char>, i: int, k: int)
    requires
        0 <= i < text_lines(text).len(),
        0 <= k < text_lines(text)[i].len(),
    ensures
        text.contains(text_lines(text)[i][k]),
{
    let parts = split_on(text, '\n');
    lemma_split_on(text, '\n');
    lemma_part_chars(text, i);
    let p = parts[i];
    let l = text_lines(text)[i];
    assert(l[k] == p[k]);
}

proof fn lemma_part_chars(s: Seq<char>, i: int)
    requires
        0 <= i < split_on(s, '\n').len(),
    ensures
        forall|k: int| 0 <= k < split_on(s, '\n')[i].len() ==> s.contains(#[trigger] split_on(s, '\n')[i][k]),
    decreases s.len(),
{
    if s.len() > 0 {
        let d = s.drop_last();
        let prev = split_on(d, '\n');
        lemma_split_on(d, '\n');
        let cur = split_on(s, '\n');
        assert forall|k: int| 0 <= k < cur[i].len() implies s.contains(#[trigger] cur[i][k]) by {
            if i < prev.len() && (s.last() == '\n' || i < prev.len() - 1) {
                assert(cur[i] == prev[i]);
                lemma_part_chars(d, i);
                let c = cur[i][k];
                assert(d.contains(c));
                let j = choose|j: int| 0 <= j < d.len() && d[j] == c;
                assert(s[j] == c);
            } else if s.last() != '\n' && i == prev.len() - 1 {
                if k < prev.last().len() {
                    lemma_part_chars(d, i);
                    let c = cur[i][k];
                    assert(cur[i][k] == prev[i][k]);
                    assert(d.contains(c));
                    let j = choose|j: int| 0 <= j < d.len() && d[j] == c;
                    assert(s[j] == c);
                } else {
                    assert(cur[i][k] == s.last());
                    assert(s[s.len() - 1] == s.last());
                }
            }
        }
    }
}

/// The escapable characters of [`ESCAPE_CHARS`], in the same order.
pub open spec fn escape_set() -> Seq<char> {
    seq!['\\', '~', '*', '#', '-', '+', '>', '.', '!', '[', ']', '(', ')', '{', '}', '$', '_', '|', '`', '"', '%', '&', '\'', ',', '/', ':', ';', '<', '=', '?', '@', '^']
}

/// The escapable characters as a vector.
pub fn escape_chars() -> (r: Vec<char>)
    ensures
        r@ == escape_set(),
        escapable_set(r@),
{
    let mut r: Vec<char> = Vec::new();
    r.push('\\');
    r.push('~');
    r.push('*');
    r.push('#');
    r.push('-');
    r.push('+');
    r.push('>');
    r.push('.');
    r.push('!');
    r.push('[');
    r.push(']');
    r.push('(');
    r.push(')');
    r.push('{');
    r.push('}');
    r.push('$');
    r.push('_');
    r.push('|');
    r.push('`');
    r.push('"');
    r.push('%');
    r.push('&');
    r.push('\'');
    r.push(',');
    r.push('/');
    r.push(':');
    r.push(';');
    r.push('<');
    r.push('=');
    r.push('?');
    r.push('@');
    r.push('^');
    assert(r@ =~= escape_set());
    r
}

} // verus!

