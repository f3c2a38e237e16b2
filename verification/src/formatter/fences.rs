//! Fenced code blocks seen line by line: which lines of a text lie outside
//! them.

use vstd::prelude::*;
use crate::text::{
    buf_views, chars_eq, is_white_space, is_ws, occurs_at, slice_of, starts_with, starts_with_str,
    string_of, trim, trim_chars,
};

verus! {

/// A trimmed line that closes a block opened by `fence`: it starts with the
/// fence and the rest is the fence character or white space.
pub open spec fn closing_fence(trimmed: Seq<char>, fence: Seq<char>) -> bool {
    &&& fence.len() > 0
    &&& starts_with(trimmed, fence)
    &&& forall|i: int| fence.len() <= i < trimmed.len() ==> (#[trigger] trimmed[i] == fence[0] || is_ws(trimmed[i]))
}

/// Number of leading characters equal to `c`.
pub open spec fn run_of(s: Seq<char>, c: char) -> nat
    decreases s.len(),
{
    if s.len() > 0 && s[0] == c {
        1 + run_of(s.drop_first(), c)
    } else {
        0
    }
}

/// The fence a trimmed line opens: its leading run of backticks or tildes,
/// when there are at least three.
pub open spec fn opening_fence(trimmed: Seq<char>) -> Option<Seq<char>> {
    if starts_with(trimmed, seq!['`', '`', '`']) {
        Some(Seq::new(run_of(trimmed, '`'), |i: int| '`'))
    } else if starts_with(trimmed, seq!['~', '~', '~']) {
        Some(Seq::new(run_of(trimmed, '~'), |i: int| '~'))
    } else {
        None
    }
}

/// Whether the block before line `n` is open, and its fence.
pub open spec fn fence_state(lines: Seq<Seq<char>>, n: int) -> (bool, Seq<char>)
    decreases n,
{
    if n <= 0 {
        (false, Seq::empty())
    } else {
        let st = fence_state(lines, n - 1);
        let t = trim(lines[n - 1]);
        if st.0 {
            (!closing_fence(t, st.1), st.1)
        } else {
            match opening_fence(t) {
                Some(fs) => (true, fs),
                None => st,
            }
        }
    }
}

/// Line `i` is outside fenced code: not inside a block and not a fence that
/// opens one.
pub open spec fn outside_code(lines: Seq<Seq<char>>, i: int) -> bool {
    !fence_state(lines, i).0 && opening_fence(trim(lines[i])) is None
}

/// Whether a trimmed line closes the block opened by `fence_str`.
pub fn is_closing_fence(trimmed: &Vec<char>, fence_str: &Vec<char>) -> (b: bool)
    ensures
        b == closing_fence(trimmed@, fence_str@),
{
    if fence_str.len() == 0 || fence_str.len() > trimmed.len() {
        return false;
    }
    let mut i: usize = 0;
    while i < fence_str.len()
        invariant
            i <= fence_str.len() <= trimmed.len(),
            forall|j: int| 0 <= j < i ==> trimmed@[j] == fence_str@[j],
        decreases fence_str.len() - i,
    {
        if trimmed[i] != fence_str[i] {
            return false;
        }
        i += 1;
    }
    assert(trimmed@.subrange(0, fence_str@.len() as int) =~= fence_str@);
    let c = fence_str[0];
    let mut k: usize = fence_str.len();
    while k < trimmed.len()
        invariant
            fence_str.len() <= k <= trimmed.len(),
            c == fence_str@[0],
            forall|j: int| fence_str.len() <= j < k ==> (#[trigger] trimmed@[j] == c || is_ws(trimmed@[j])),
        decreases trimmed.len() - k,
    {
        if !(trimmed[k] == c || is_white_space(trimmed[k])) {
            return false;
        }
        k += 1;
    }
    true
}

fn run_len(t: &Vec<char>, c: char) -> (n: usize)
    ensures
        n == run_of(t@, c),
{
    let mut n: usize = 0;
    assert(t@.skip(0) =~= t@);
    while n < t.len() && t[n] == c
        invariant
            n <= t.len(),
            forall|j: int| 0 <= j < n ==> t@[j] == c,
            run_of(t@, c) == n + run_of(t@.skip(n as int), c),
        decreases t.len() - n,
    {
        proof {
            let s = t@.skip(n as int);
            assert(s[0] == c);
            assert(s.drop_first() =~= t@.skip(n + 1));
        }
        n += 1;
    }
    if n < t.len() {
        assert(t@.skip(n as int)[0] == t@[n as int]);
    }
    n
}

/// The fence a trimmed line opens, if any.
pub fn detect_opening_fence(trimmed: &Vec<char>) -> (r: Option<Vec<char>>)
    ensures
        match opening_fence(trimmed@) {
            Some(f) => r matches Some(v) && v@ == f,
            None => r is None,
        },
{
    proof {
        assert(seq!['`', '`', '`'] =~= "```"@) by {
            reveal_strlit("```");
        }
        assert(seq!['~', '~', '~'] =~= "~~~"@) by {
            reveal_strlit("~~~");
        }
    }
    let is_backtick = starts_with_str(trimmed, "```");
    let is_tilde = starts_with_str(trimmed, "~~~");
    if is_backtick || is_tilde {
        let c = if is_backtick { '`' } else { '~' };
        let n = run_len(trimmed, c);
        let mut v: Vec<char> = Vec::new();
        let mut i: usize = 0;
        while i < n
            invariant
                i <= n,
                v@ == Seq::new(i as nat, |j: int| c),
            decreases n - i,
        {
            v.push(c);
            assert(v@ =~= Seq::new((i + 1) as nat, |j: int| c));
            i += 1;
        }
        Some(v)
    } else {
        None
    }
}

/// For every line, whether it lies outside fenced code.
pub fn outside_code_flags(lines: &Vec<Vec<char>>) -> (r: Vec<bool>)
    ensures
        r.len() == lines.len(),
        forall|i: int| 0 <= i < lines.len() ==> r@[i] == outside_code(buf_views(lines@), i),
{
    let ghost ls = buf_views(lines@);
    let mut in_code = false;
    let mut fence: Vec<char> = Vec::new();
    let mut r: Vec<bool> = Vec::new();
    let mut i: usize = 0;
    while i < lines.len()
        invariant
            i <= lines.len(),
            ls == buf_views(lines@),
            r.len() == i,
            (in_code, fence@) == fence_state(ls, i as int),
            forall|j: int| 0 <= j < i ==> r@[j] == outside_code(ls, j),
        decreases lines.len() - i,
    {
        assert(ls[i as int] == lines@[i as int]@);
        let t = trim_chars(&lines[i]);
        if in_code {
            r.push(false);
            if is_closing_fence(&t, &fence) {
                in_code = false;
            }
        } else {
            match detect_opening_fence(&t) {
                Some(fs) => {
                    r.push(false);
                    fence = fs;
                    in_code = true;
                },
                None => {
                    r.push(true);
                },
            }
        }
        i += 1;
    }
    r
}

} // verus!
