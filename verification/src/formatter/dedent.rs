//! Removal of the indentation common to all lines of a text.

use vstd::prelude::*;

use crate::formatter::filling::string_from_utf8;
use crate::formatter::render::lines_of;
use crate::text::{buf_views, chars_of, join, string_of, trim, trim_start};

verus! {

/// Bytes of leading white space of a line.
pub open spec fn lead_bytes(l: Seq<char>) -> int {
    vstd::utf8::encode_utf8(l).len() - vstd::utf8::encode_utf8(trim_start(l)).len()
}

/// The least leading white space, in bytes, over the non-blank lines (0
/// when every line is blank).
pub open spec fn min_indent(lines: Seq<Seq<char>>) -> int
    decreases lines.len(),
{
    if lines.len() == 0 {
        0
    } else {
        let rest = min_indent(lines.drop_last());
        let l = lines.last();
        if trim(l).len() == 0 {
            rest
        } else if !has_nonblank(lines.drop_last()) || lead_bytes(l) < rest {
            lead_bytes(l)
        } else {
            rest
        }
    }
}

pub open spec fn has_nonblank(lines: Seq<Seq<char>>) -> bool {
    exists|i: int| 0 <= i < lines.len() && trim(#[trigger] lines[i]).len() > 0
}

/// A line with its first `m` bytes cut off, when it has that many.
pub open spec fn cut_line(l: Seq<char>, m: int) -> Seq<char> {
    let b = vstd::utf8::encode_utf8(l);
    if b.len() >= m {
        vstd::utf8::decode_utf8(b.skip(m))
    } else {
        l
    }
}

/// The text with the indentation common to its non-blank lines removed
/// (lines joined by newlines); unchanged when there is none.
pub open spec fn dedented(text: Seq<char>) -> Seq<char> {
    let lines = lines_of(text);
    let m = min_indent(lines);
    if lines.len() == 0 || m == 0 {
        text
    } else {
        join(lines.map_values(|l: Seq<char>| cut_line(l, m)), seq!['\n'])
    }
}

/// Every cut falls between two characters.
pub open spec fn dedent_cuts_whole(text: Seq<char>) -> bool {
    let lines = lines_of(text);
    let m = min_indent(lines);
    forall|i: int|
        0 <= i < lines.len() && vstd::utf8::encode_utf8(#[trigger] lines[i]).len() >= m ==> vstd::utf8::valid_utf8(
            vstd::utf8::encode_utf8(lines[i]).skip(m),
        )
}

proof fn lemma_encode_append(a: Seq<char>, b: Seq<char>)
    ensures
        vstd::utf8::encode_utf8(a + b) == vstd::utf8::encode_utf8(a) + vstd::utf8::encode_utf8(b),
    decreases a.len(),
{
    if a.len() > 0 {
        assert((a + b).drop_first() =~= a.drop_first() + b);
        assert((a + b)[0] == a[0]);
        lemma_encode_append(a.drop_first(), b);
        assert(vstd::utf8::encode_utf8(a + b) =~= vstd::utf8::encode_utf8(a) + vstd::utf8::encode_utf8(b));
    } else {
        assert(a + b =~= b);
        assert(vstd::utf8::encode_utf8(a) =~= Seq::<u8>::empty());
        assert(vstd::utf8::encode_utf8(a + b) =~= vstd::utf8::encode_utf8(a) + vstd::utf8::encode_utf8(b));
    }
}

fn byte_len(v: &Vec<char>) -> (n: usize)
    ensures
        n == vstd::utf8::encode_utf8(v@).len(),
{
    let s = string_of(v);
    s.as_str().as_bytes().len()
}

fn common_indent(lines: &Vec<Vec<char>>) -> (m: usize)
    ensures
        m == min_indent(buf_views(lines@)),
{
    let ghost ls = buf_views(lines@);
    let mut m: usize = 0;
    let mut seen = false;
    let mut i: usize = 0;
    while i < lines.len()
        invariant
            i <= lines.len(),
            ls == buf_views(lines@),
            m == min_indent(ls.take(i as int)),
            seen == has_nonblank(ls.take(i as int)),
        decreases lines.len() - i,
    {
        let ghost pre = ls.take(i + 1);
        assert(pre.drop_last() =~= ls.take(i as int));
        assert(pre.last() == lines@[i as int]@);
        let t = crate::text::trim_chars(&lines[i]);
        if t.len() > 0 {
            let all = byte_len(&lines[i]);
            let rest = byte_len(&crate::text::trim_start_chars(&lines[i]));
            proof {
                assert(vstd::utf8::encode_utf8(lines@[i as int]@).len() >= vstd::utf8::encode_utf8(
                    trim_start(lines@[i as int]@),
                ).len()) by {
                    crate::text::lemma_lead_ws(lines@[i as int]@);
                    let l = lines@[i as int]@;
                    let k = crate::text::lead_ws(l) as int;
                    assert(l =~= l.take(k) + trim_start(l));
                    lemma_encode_append(l.take(k), trim_start(l));
                }
            }
            let lead = all - rest;
            if !seen || lead < m {
                m = lead;
            }
            seen = true;
            assert(has_nonblank(pre)) by {
                assert(trim(pre[i as int]).len() > 0);
            }
        } else {
            assert(has_nonblank(pre) == has_nonblank(ls.take(i as int))) by {
                if has_nonblank(pre) {
                    let j = choose|j: int| 0 <= j < pre.len() && trim(#[trigger] pre[j]).len() > 0;
                    assert(j != i);
                    assert(ls.take(i as int)[j] == pre[j]);
                }
            }
        }
        i += 1;
    }
    assert(ls.take(lines.len() as int) =~= ls);
    m
}

/// Whether `dedent` may cut the text: every cut of the common indentation
/// falls between two characters.
pub fn dedent_cuts_are_whole(text: &str) -> (b: bool)
    ensures
        b == dedent_cuts_whole(text@),
{
    let v = chars_of(text);
    let lines = crate::formatter::render::lines_exec(&v);
    let ghost ls = buf_views(lines@);
    let m = common_indent(&lines);
    let mut k: usize = 0;
    while k < lines.len()
        invariant
            k <= lines.len(),
            ls == buf_views(lines@),
            ls == lines_of(text@),
            m == min_indent(ls),
            forall|i: int|
                0 <= i < k && vstd::utf8::encode_utf8(#[trigger] ls[i]).len() >= m ==> vstd::utf8::valid_utf8(
                    vstd::utf8::encode_utf8(ls[i]).skip(m as int),
                ),
        decreases lines.len() - k,
    {
        assert(ls[k as int] == lines@[k as int]@);
        let s = string_of(&lines[k]);
        let b = s.as_str().as_bytes();
        if b.len() >= m {
            let mut tail: Vec<u8> = Vec::new();
            let mut j: usize = m;
            while j < b.len()
                invariant
                    m <= j <= b.len(),
                    tail@ == b@.subrange(m as int, j as int),
                decreases b.len() - j,
            {
                tail.push(b[j]);
                j += 1;
                assert(tail@ =~= b@.subrange(m as int, j as int));
            }
            assert(tail@ =~= b@.skip(m as int));
            if string_from_utf8(tail).is_none() {
                return false;
            }
        }
        k += 1;
    }
    true
}

/// Remove the white space common to the start of all non-blank lines.
pub fn dedent(text: &str) -> (r: String)
    requires
        dedent_cuts_whole(text@),
    ensures
        r@ == dedented(text@),
{
    let v = chars_of(text);
    let lines = crate::formatter::render::lines_exec(&v);
    let ghost ls = buf_views(lines@);
    if lines.len() == 0 {
        return string_of(&v);
    }
    let m = common_indent(&lines);
    if m == 0 {
        return string_of(&v);
    }
    let mut out: Vec<Vec<char>> = Vec::new();
    let mut k: usize = 0;
    while k < lines.len()
        invariant
            k <= lines.len(),
            ls == buf_views(lines@),
            ls == lines_of(text@),
            m == min_indent(ls),
            m > 0,
            dedent_cuts_whole(text@),
            buf_views(out@) == ls.take(k as int).map_values(|l: Seq<char>| cut_line(l, m as int)),
        decreases lines.len() - k,
    {
        let l = &lines[k];
        assert(ls[k as int] == l@);
        let s = string_of(l);
        let b = s.as_str().as_bytes();
        let cut: Vec<char> = if b.len() >= m {
            let mut tail: Vec<u8> = Vec::new();
            let mut j: usize = m;
            while j < b.len()
                invariant
                    m <= j <= b.len(),
                    tail@ == b@.subrange(m as int, j as int),
                decreases b.len() - j,
            {
                tail.push(b[j]);
                j += 1;
                assert(tail@ =~= b@.subrange(m as int, j as int));
            }
            assert(tail@ =~= b@.skip(m as int));
            match string_from_utf8(tail) {
                Some(t) => chars_of(t.as_str()),
                None => {
                    proof {
                        assert(vstd::utf8::encode_utf8(lines_of(text@)[k as int]).len() >= m);
                    }
                    chars_of(s.as_str())
                },
            }
        } else {
            chars_of(s.as_str())
        };
        let ghost before = out@;
        out.push(cut);
        assert(buf_views(out@) =~= buf_views(before).push(cut@));
        assert(ls.take(k + 1).map_values(|l: Seq<char>| cut_line(l, m as int)) =~= buf_views(out@));
        k += 1;
    }
    assert(ls.take(lines.len() as int) =~= ls);
    let mut nl: Vec<char> = Vec::new();
    nl.push('\n');
    assert(nl@ =~= seq!['\n']);
    let j = crate::text::join_bufs(&out, &nl);
    string_of(&j)
}

} // verus!
