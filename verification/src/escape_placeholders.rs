//! Escape placeholders: a backslash escape `\<c>` is carried through parsing as
//! the pair `U+E000 + c` followed by a filler scalar. Line wrapping measures a
//! pair at the width it has after post-render cleanup: every escape keeps its
//! backslash except the period, which renders as a bare `.`.

use vstd::prelude::*;
use crate::text::chars_of;

verus! {

/// First scalar of an escape placeholder pair: `U+E000 + <escaped ASCII char>`.
pub const ESCAPE_PLACEHOLDER_BASE: u32 = 0xE000;

/// Second scalar of every escape placeholder pair.
pub const ESCAPE_PLACEHOLDER_FILLER: char = '\u{E100}';

/// Placeholder for `\.` (`U+E000 + '.'`).
pub const PERIOD_ESCAPE_PLACEHOLDER: char = '\u{E02E}';

pub open spec fn pair_width(placeholder: char) -> nat {
    if placeholder == '\u{E02E}' {
        1
    } else {
        2
    }
}

pub open spec fn opens_pair(c: char) -> bool {
    '\u{E000}' <= c && c <= '\u{E0FF}'
}

/// Rendered width: a placeholder followed by the filler counts as its pair
/// width, every other scalar as one column.
pub open spec fn rendered_width_of(s: Seq<char>) -> nat
    decreases s.len(),
{
    if s.len() == 0 {
        0
    } else if s.len() >= 2 && opens_pair(s[0]) && s[1] == '\u{E100}' {
        pair_width(s[0]) + rendered_width_of(s.skip(2))
    } else {
        1 + rendered_width_of(s.skip(1))
    }
}

/// Columns a placeholder pair beginning with `placeholder` occupies once rendered.
pub fn placeholder_pair_width(placeholder: char) -> (w: usize)
    ensures
        w == pair_width(placeholder),
{
    if placeholder == PERIOD_ESCAPE_PLACEHOLDER {
        1
    } else {
        2
    }
}

/// Whether `scalar` opens an escape placeholder pair.
pub fn is_escape_placeholder(scalar: char) -> (b: bool)
    ensures
        b == opens_pair(scalar),
{
    '\u{E000}' <= scalar && scalar <= '\u{E0FF}'
}

/// The rendered width never exceeds the scalar count.
pub proof fn lemma_rendered_width_bound(s: Seq<char>)
    ensures
        rendered_width_of(s) <= s.len(),
    decreases s.len(),
{
    if s.len() >= 2 && opens_pair(s[0]) && s[1] == '\u{E100}' {
        lemma_rendered_width_bound(s.skip(2));
    } else if s.len() > 0 {
        lemma_rendered_width_bound(s.skip(1));
    }
}

/// Column width of `text` as it will appear after post-render escape cleanup.
pub fn rendered_width(text: &str) -> (w: usize)
    ensures
        w == rendered_width_of(text@),
{
    let v = chars_of(text);
    let mut w: usize = 0;
    let mut i: usize = 0;
    assert(v@.skip(0) =~= v@);
    while i < v.len()
        invariant
            i <= v.len(),
            w + rendered_width_of(v@.skip(i as int)) == rendered_width_of(v@),
            w <= i,
        decreases v.len() - i,
    {
        let ghost rest = v@.skip(i as int);
        if i + 1 < v.len() && is_escape_placeholder(v[i]) && v[i + 1] == ESCAPE_PLACEHOLDER_FILLER {
            assert(rest[0] == v@[i as int] && rest[1] == v@[i + 1]);
            assert(rest.skip(2) =~= v@.skip(i + 2));
            w = w + placeholder_pair_width(v[i]);
            i += 2;
        } else {
            assert(rest.skip(1) =~= v@.skip(i + 1));
            w = w + 1;
            i += 1;
        }
    }
    w
}

} // verus!
