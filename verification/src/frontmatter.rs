//! YAML frontmatter: a block delimited by `---` lines at the front of a document.

use vstd::prelude::*;
use crate::text::{buf_views, chars_eq, chars_of, join, lemma_join_append, lemma_split_on, join_bufs, split_char, split_on, string_of, sub_bufs, trim, trim_chars};

verus! {

pub open spec fn delimiter() -> Seq<char> {
    seq!['-', '-', '-']
}

pub open spec fn blank(line: Seq<char>) -> bool {
    trim(line).len() == 0
}

/// First line at or after `i` that is not blank.
pub open spec fn first_nonblank(lines: Seq<Seq<char>>, i: int) -> int
    decreases lines.len() - i,
{
    if i >= lines.len() {
        lines.len() as int
    } else if !blank(lines[i]) {
        i
    } else {
        first_nonblank(lines, i + 1)
    }
}

/// First line at or after `i` whose trimmed text is `---`.
pub open spec fn first_delimiter(lines: Seq<Seq<char>>, i: int) -> int
    decreases lines.len() - i,
{
    if i >= lines.len() {
        lines.len() as int
    } else if trim(lines[i]) == delimiter() {
        i
    } else {
        first_delimiter(lines, i + 1)
    }
}

/// The split of `text` into frontmatter and content.
pub open spec fn frontmatter_split(text: Seq<char>) -> (Seq<char>, Seq<char>) {
    let lines = split_on(text, '\n');
    let s = first_nonblank(lines, 0);
    if s >= lines.len() || trim(lines[s]) != delimiter() {
        (Seq::empty(), text)
    } else {
        let e = first_delimiter(lines, s + 1);
        if e >= lines.len() {
            (text, Seq::empty())
        } else {
            (
                join(lines.subrange(s, e + 1), seq!['\n']) + seq!['\n'],
                join(lines.subrange(e + 1, lines.len() as int), seq!['\n']),
            )
        }
    }
}

/// The first delimiter line at or after `i`: every line from `i` up to it
/// is not a delimiter.
proof fn lemma_first_delimiter_is_first(lines: Seq<Seq<char>>, i: int)
    requires
        0 <= i <= lines.len(),
    ensures
        i <= first_delimiter(lines, i) <= lines.len(),
        first_delimiter(lines, i) < lines.len() ==> trim(lines[first_delimiter(lines, i)]) == delimiter(),
        forall|j: int| i <= j < first_delimiter(lines, i) ==> trim(#[trigger] lines[j]) != delimiter(),
    decreases lines.len() - i,
{
    if i < lines.len() && trim(lines[i]) != delimiter() {
        lemma_first_delimiter_is_first(lines, i + 1);
    }
}

/// The frontmatter closes at the first `---` line after the opening one.
/// Either there is no frontmatter (the text does not start, after blank
/// lines, with a `---` line) and the content is the whole text; or no later
/// line is `---` and the whole text is frontmatter; or the frontmatter is
/// the lines from the opening `---` through a closing `---` line with no
/// `---` line between them, and the content is the lines after it.
pub proof fn lemma_frontmatter_closes_at_first_delimiter(text: Seq<char>)
    ensures
        ({
            let lines = split_on(text, '\n');
            let (fm, content) = frontmatter_split(text);
            let s = first_nonblank(lines, 0);
            ||| fm.len() == 0 && content == text && (s >= lines.len() || trim(lines[s]) != delimiter())
            ||| fm == text && content.len() == 0 && s < lines.len() && trim(lines[s]) == delimiter()
                && forall|j: int| s < j < lines.len() ==> trim(#[trigger] lines[j]) != delimiter()
            ||| exists|e: int|
                #![trigger lines[e]]
                s < e < lines.len() && trim(lines[s]) == delimiter() && trim(lines[e]) == delimiter()
                    && (forall|j: int| s < j < e ==> trim(#[trigger] lines[j]) != delimiter())
                    && fm == join(lines.subrange(s, e + 1), seq!['\n']) + seq!['\n']
                    && content == join(lines.subrange(e + 1, lines.len() as int), seq!['\n'])
        }),
{
    let lines = split_on(text, '\n');
    let s = first_nonblank(lines, 0);
    lemma_first_nonblank_range(lines, 0);
    if s < lines.len() && trim(lines[s]) == delimiter() {
        lemma_first_delimiter_is_first(lines, s + 1);
        let e = first_delimiter(lines, s + 1);
        if e < lines.len() {
            assert(trim(lines[e]) == delimiter());
        }
    } else {
        assert(Seq::<char>::empty().len() == 0);
    }
}

proof fn lemma_first_nonblank_range(lines: Seq<Seq<char>>, i: int)
    requires
        0 <= i <= lines.len(),
    ensures
        i <= first_nonblank(lines, i) <= lines.len(),
    decreases lines.len() - i,
{
    if i < lines.len() && blank(lines[i]) {
        lemma_first_nonblank_range(lines, i + 1);
    }
}

fn is_delimiter(v: &Vec<char>) -> (b: bool)
    ensures
        b == (trim(v@) == delimiter()),
{
    let t = trim_chars(v);
    let d = chars_of("---");
    proof {
        reveal_strlit("---");
        assert(d@ =~= delimiter());
    }
    chars_eq(&t, &d)
}

fn is_blank(v: &Vec<char>) -> (b: bool)
    ensures
        b == blank(v@),
{
    let t = trim_chars(v);
    t.len() == 0
}

/// Split a text document into frontmatter and content parts.
///
/// When the first non-blank line is `---`, the frontmatter runs from it through
/// the next `---` line (with a final LF) and the content is the rest; with no
/// closing delimiter the whole text is frontmatter. Otherwise the frontmatter
/// is empty and the content is the whole text.
pub fn split_frontmatter(text: &str) -> (r: (String, String))
    ensures
        (r.0@, r.1@) == frontmatter_split(text@),
{
    let v = chars_of(text);
    let lines = split_char(&v, '\n');
    let ghost ls = split_on(v@, '\n');
    proof {
        lemma_split_on(v@, '\n');
    }
    let mut s: usize = 0;
    while s < lines.len() && is_blank(&lines[s])
        invariant
            s <= lines.len(),
            buf_views(lines@) == ls,
            first_nonblank(ls, s as int) == first_nonblank(ls, 0),
        decreases lines.len() - s,
    {
        assert(lines@[s as int]@ == ls[s as int]);
        s += 1;
    }
    if s >= lines.len() || !is_delimiter(&lines[s]) {
        assert(s < lines.len() ==> lines@[s as int]@ == ls[s as int]);
        return (String::new(), text.to_string());
    }
    assert(lines@[s as int]@ == ls[s as int]);
    assert(first_nonblank(ls, s as int) == s);
    let mut e: usize = s + 1;
    while e < lines.len()
        invariant
            s < e <= lines.len(),
            buf_views(lines@) == ls,
            first_delimiter(ls, e as int) == first_delimiter(ls, s + 1),
            first_nonblank(ls, 0) == s,
            trim(ls[s as int]) == delimiter(),
            ls == split_on(text@, '\n'),
        decreases lines.len() - e,
    {
        assert(lines@[e as int]@ == ls[e as int]);
        if is_delimiter(&lines[e]) {
            let head = sub_bufs(&lines, s, e + 1);
            let tail = sub_bufs(&lines, e + 1, lines.len());
            let nl = chars_of("\n");
            proof {
                reveal_strlit("\n");
                assert(nl@ =~= seq!['\n']);
                assert(first_delimiter(ls, e as int) == e);
            }
            let mut fm = join_bufs(&head, &nl);
            fm.push('\n');
            let content = join_bufs(&tail, &nl);
            return (string_of(&fm), string_of(&content));
        }
        e += 1;
    }
    (text.to_string(), String::new())
}

/// Check if the text starts with YAML frontmatter.
pub fn has_frontmatter(text: &str) -> (b: bool)
    ensures
        b == (frontmatter_split(text@).0.len() > 0),
{
    let (fm, _) = split_frontmatter(text);
    let v = chars_of(fm.as_str());
    v.len() > 0
}

/// Splitting loses nothing when the text does not begin with a blank line and
/// the closing delimiter is not the last line: frontmatter followed by content
/// is the original text. Without a frontmatter block, or without a closing
/// delimiter, the text is kept whole on one side.
pub proof fn lemma_split_frontmatter_lossless(text: Seq<char>)
    requires
        !blank(split_on(text, '\n')[0]),
        ({
            let lines = split_on(text, '\n');
            first_delimiter(lines, 1) != lines.len() - 1
        }),
    ensures
        frontmatter_split(text).0 + frontmatter_split(text).1 == text,
{
    let lines = split_on(text, '\n');
    lemma_split_on(text, '\n');
    let s = first_nonblank(lines, 0);
    assert(s == 0);
    if s < lines.len() && trim(lines[s]) == delimiter() {
        let e = first_delimiter(lines, s + 1);
        if e < lines.len() {
            lemma_first_delimiter_range(lines, 1);
            let a = lines.subrange(0, e + 1);
            let b = lines.subrange(e + 1, lines.len() as int);
            assert(a + b =~= lines);
            lemma_join_append(a, b, seq!['\n']);
            assert(join(a, seq!['\n']) + seq!['\n'] + join(b, seq!['\n']) == text);
        }
    } else {
        assert(Seq::<char>::empty() + text =~= text);
    }
}

proof fn lemma_first_delimiter_range(lines: Seq<Seq<char>>, i: int)
    requires
        0 <= i,
    ensures
        i <= first_delimiter(lines, i) || i > lines.len(),
        first_delimiter(lines, i) <= lines.len(),
    decreases lines.len() - i,
{
    if i < lines.len() && trim(lines[i]) != delimiter() {
        lemma_first_delimiter_range(lines, i + 1);
    }
}

} // verus!
