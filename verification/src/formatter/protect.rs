//! Constructs a Markdown parser would rewrite, shielded before parsing and
//! restored after rendering: angle-bracket autolinks (`<url>`), whose
//! brackets become private-use scalars, and HTML entities (`&amp;`), whose
//! `&` becomes a private-use scalar.

use vstd::prelude::*;
use crate::formatter::fences::{
    closing_fence, detect_opening_fence, is_closing_fence, opening_fence, outside_code, outside_code_flags,
};
use crate::formatter::filling::{
    FNDEF_MARKER_START, REFDEF_MARKER_PREFIX, copy_buf, ends_with_newline, lines_of, newline, relined,
};
use crate::formatter::rewrites::{Rewrite, rewrite_all, rewritten};
use crate::text::{
    append_chars, buf_views, chars_of, concat, contains_seq, contains_str, join, join_bufs, push_buf, slice_of,
    starts_with, starts_with_str, string_of, trim, trim_chars, views,
};
use crate::wrapping::text_filling::text_lines;

verus! {

/// Stands for `<` of an autolink.
pub const AUTOLINK_OPEN: char = '\u{F003}';

/// Stands for `>` of an autolink.
pub const AUTOLINK_CLOSE: char = '\u{F004}';

/// Stands for the `&` of an HTML entity.
pub const ENTITY_AMP: char = '\u{F005}';

// ---------------------------------------------------------------------------
// Autolinks
// ---------------------------------------------------------------------------

/// A trimmed line that starts a footnote or reference definition marker.
pub open spec fn marker_line(t: Seq<char>) -> bool {
    starts_with(t, FNDEF_MARKER_START@) || starts_with(t, REFDEF_MARKER_PREFIX@)
}

/// Inside fenced code, the open fence, and inside a marker's comment.
pub type AutolinkState = (bool, Seq<char>, bool);

/// The state after a line.
pub open spec fn autolink_next(st: AutolinkState, line: Seq<char>) -> AutolinkState {
    let t = trim(line);
    if st.0 {
        (!closing_fence(t, st.1), st.1, st.2)
    } else if st.2 {
        (false, st.1, !contains_seq(line, "-->"@))
    } else {
        match opening_fence(t) {
            Some(fs) => (true, fs, false),
            None => if marker_line(t) {
                (false, st.1, !contains_seq(line, "-->"@))
            } else {
                st
            },
        }
    }
}

/// What a line becomes: autolinks shielded, except in fenced code, on
/// fence lines and in definition markers.
pub open spec fn autolink_out(st: AutolinkState, line: Seq<char>) -> Seq<char> {
    let t = trim(line);
    if st.0 || st.2 || opening_fence(t) is Some || marker_line(t) {
        line
    } else {
        rewritten(Rewrite::Autolink, line)
    }
}

pub open spec fn autolink_state(lines: Seq<Seq<char>>, n: int) -> AutolinkState
    decreases n,
{
    if n <= 0 {
        (false, Seq::empty(), false)
    } else {
        autolink_next(autolink_state(lines, n - 1), lines[n - 1])
    }
}

/// The text `protect_autolinks` returns: the lines rewritten and joined;
/// a final line break is added back when the text had one and the joined
/// lines do not end with one.
pub open spec fn autolinks_protected(text: Seq<char>) -> Seq<char> {
    let lines = text_lines(text);
    let out = join(Seq::new(lines.len(), |i: int| autolink_out(autolink_state(lines, i), lines[i])), seq!['\n']);
    if text.len() > 0 && text.last() == '\n' && !(out.len() > 0 && out.last() == '\n') {
        out.push('\n')
    } else {
        out
    }
}

/// Replaces `<url>` autolinks by their text between two private-use
/// markers, outside fenced code and definition markers (see
/// [`autolinks_protected`]).
#[verifier::rlimit(60)]
pub fn protect_autolinks(text: &str) -> (r: String)
    ensures
        r@ == autolinks_protected(text@),
{
    let lines = lines_of(text);
    let ghost ls = buf_views(lines@);
    let ghost target = Seq::new(ls.len(), |i: int| autolink_out(autolink_state(ls, i), ls[i]));
    let mut out: Vec<Vec<char>> = Vec::new();
    let mut in_code = false;
    let mut fence: Vec<char> = Vec::new();
    let mut in_comment = false;
    let mut i: usize = 0;
    while i < lines.len()
        invariant
            i <= lines.len(),
            ls == buf_views(lines@),
            target == Seq::new(ls.len(), |i: int| autolink_out(autolink_state(ls, i), ls[i])),
            (in_code, fence@, in_comment) == autolink_state(ls, i as int),
            buf_views(out@) == target.take(i as int),
        decreases lines.len() - i,
    {
        assert(ls[i as int] == lines@[i as int]@);
        let ghost st = autolink_state(ls, i as int);
        assert(autolink_state(ls, i + 1) == autolink_next(st, ls[i as int]));
        assert(target[i as int] == autolink_out(st, ls[i as int]));
        let line = &lines[i];
        let t = trim_chars(line);
        let new_line: Vec<char>;
        if in_code {
            new_line = copy_buf(line);
            if is_closing_fence(&t, &fence) {
                in_code = false;
            }
        } else if in_comment {
            new_line = copy_buf(line);
            if contains_str(line, "-->") {
                in_comment = false;
            }
        } else {
            match detect_opening_fence(&t) {
                Some(fs) => {
                    new_line = copy_buf(line);
                    fence = fs;
                    in_code = true;
                },
                None => {
                    if starts_with_str(&t, FNDEF_MARKER_START) || starts_with_str(&t, REFDEF_MARKER_PREFIX) {
                        new_line = copy_buf(line);
                        if !contains_str(line, "-->") {
                            in_comment = true;
                        }
                    } else {
                        new_line = rewrite_all(Rewrite::Autolink, line);
                    }
                },
            }
        }
        push_buf(&mut out, new_line);
        assert(buf_views(out@) =~= target.take(i + 1));
        i += 1;
    }
    assert(target.take(lines.len() as int) =~= target);
    let nl = newline();
    let mut joined = join_bufs(&out, &nl);
    let v = chars_of(text);
    if ends_with_newline(&v) && !ends_with_newline(&joined) {
        joined.push('\n');
    }
    string_of(&joined)
}

/// The text with each marked autolink turned back into `<text>`: from an
/// opening marker to the next closing marker (or the end).
pub open spec fn autolinks_restored(s: Seq<char>) -> Seq<char>
    decreases s.len(),
{
    if s.len() == 0 {
        Seq::empty()
    } else if s[0] == AUTOLINK_OPEN {
        let rest = s.skip(1);
        let k = crate::formatter::filling::first_index_of(rest, AUTOLINK_CLOSE);
        if k < rest.len() {
            proof {
                crate::formatter::filling::lemma_first_index_found(rest, AUTOLINK_CLOSE);
            }
            seq!['<'] + rest.take(k) + seq!['>'] + autolinks_restored(rest.skip(k + 1))
        } else {
            seq!['<'] + rest + seq!['>']
        }
    } else {
        seq![s[0]] + autolinks_restored(s.skip(1))
    }
}

/// Turns marked autolinks back into angle-bracket form (see
/// [`autolinks_restored`]).
pub fn restore_autolinks(text: &str) -> (r: String)
    ensures
        r@ == autolinks_restored(text@),
{
    let v = chars_of(text);
    let mut out: Vec<char> = Vec::new();
    let mut i: usize = 0;
    assert(v@.skip(0) =~= v@);
    while i < v.len()
        invariant
            i <= v.len(),
            out@ + autolinks_restored(v@.skip(i as int)) == autolinks_restored(v@),
        decreases v.len() - i,
    {
        let ghost s = v@.skip(i as int);
        let ghost before = out@;
        assert(s[0] == v@[i as int]);
        if v[i] == AUTOLINK_OPEN {
            let ghost rest = s.skip(1);
            assert(rest =~= v@.skip(i + 1));
            let mut j = i + 1;
            assert(v@.skip(j as int) =~= rest.skip(0));
            while j < v.len() && v[j] != AUTOLINK_CLOSE
                invariant
                    i + 1 <= j <= v.len(),
                    rest == v@.skip(i + 1),
                    crate::formatter::filling::first_index_of(rest, AUTOLINK_CLOSE) == (j - i - 1)
                        + crate::formatter::filling::first_index_of(v@.skip(j as int), AUTOLINK_CLOSE),
                decreases v.len() - j,
            {
                assert(v@.skip(j as int)[0] == v@[j as int]);
                assert(v@.skip(j as int).drop_first() =~= v@.skip(j + 1));
                j += 1;
            }
            let ghost k = crate::formatter::filling::first_index_of(rest, AUTOLINK_CLOSE);
            out.push('<');
            let url = slice_of(&v, i + 1, j);
            append_chars(&mut out, &url);
            out.push('>');
            if j < v.len() {
                assert(v@.skip(j as int)[0] == AUTOLINK_CLOSE);
                assert(k == j - i - 1);
                assert(url@ =~= rest.take(k));
                assert(rest.skip(k + 1) =~= v@.skip(j + 1));
                assert(out@ + autolinks_restored(v@.skip(j + 1)) =~= before + autolinks_restored(s));
                i = j + 1;
            } else {
                assert(k == j - i - 1);
                assert(url@ =~= rest);
                assert(v@.skip(j as int) =~= Seq::<char>::empty());
                assert(out@ + autolinks_restored(v@.skip(j as int)) =~= before + autolinks_restored(s));
                i = j;
            }
        } else {
            out.push(v[i]);
            assert(s.skip(1) =~= v@.skip(i + 1));
            assert(out@ + autolinks_restored(v@.skip(i + 1)) =~= before + autolinks_restored(s));
            i += 1;
        }
    }
    assert(autolinks_restored(v@.skip(i as int)) =~= Seq::<char>::empty());
    assert(out@ + Seq::<char>::empty() =~= out@);
    string_of(&out)
}

// ---------------------------------------------------------------------------
// HTML entities
// ---------------------------------------------------------------------------

/// The text `protect_html_entities` returns: entities shielded on every
/// line outside fenced code.
pub open spec fn entities_protected(text: Seq<char>) -> Seq<char> {
    let lines = text_lines(text);
    relined(
        Seq::new(
            lines.len(),
            |i: int|
                if outside_code(lines, i) {
                    rewritten(Rewrite::Entity, lines[i])
                } else {
                    lines[i]
                },
        ),
        text,
    )
}

/// Replaces the `&` of each HTML entity by a private-use marker outside
/// fenced code (see [`entities_protected`]).
pub fn protect_html_entities(text: &str) -> (r: String)
    ensures
        r@ == entities_protected(text@),
{
    let lines = lines_of(text);
    let ghost ls = buf_views(lines@);
    let flags = outside_code_flags(&lines);
    let ghost target = Seq::new(
        ls.len(),
        |i: int|
            if outside_code(ls, i) {
                rewritten(Rewrite::Entity, ls[i])
            } else {
                ls[i]
            },
    );
    let mut out: Vec<Vec<char>> = Vec::new();
    let mut i: usize = 0;
    while i < lines.len()
        invariant
            i <= lines.len() == flags.len(),
            ls == buf_views(lines@),
            forall|j: int| 0 <= j < lines.len() ==> flags@[j] == outside_code(ls, j),
            target == Seq::new(
                ls.len(),
                |i: int|
                    if outside_code(ls, i) {
                        rewritten(Rewrite::Entity, ls[i])
                    } else {
                        ls[i]
                    },
            ),
            buf_views(out@) == target.take(i as int),
        decreases lines.len() - i,
    {
        assert(ls[i as int] == lines@[i as int]@);
        let new_line = if flags[i] {
            rewrite_all(Rewrite::Entity, &lines[i])
        } else {
            copy_buf(&lines[i])
        };
        push_buf(&mut out, new_line);
        assert(buf_views(out@) =~= target.take(i + 1));
        i += 1;
    }
    assert(target.take(lines.len() as int) =~= target);
    let nl = newline();
    let mut joined = join_bufs(&out, &nl);
    let v = chars_of(text);
    if ends_with_newline(&v) {
        joined.push('\n');
    }
    string_of(&joined)
}

/// The text with every entity marker turned back into `&`.
pub open spec fn entities_restored(text: Seq<char>) -> Seq<char> {
    text.map_values(|c: char| if c == ENTITY_AMP { '&' } else { c })
}

/// Turns entity markers back into `&`.
pub fn restore_html_entities(text: &str) -> (r: String)
    ensures
        r@ == entities_restored(text@),
{
    let v = chars_of(text);
    let mut out: Vec<char> = Vec::new();
    let mut i: usize = 0;
    while i < v.len()
        invariant
            i <= v.len(),
            out@ == entities_restored(v@).take(i as int),
        decreases v.len() - i,
    {
        let c = if v[i] == ENTITY_AMP { '&' } else { v[i] };
        out.push(c);
        assert(out@ =~= entities_restored(v@).take(i + 1));
        i += 1;
    }
    assert(entities_restored(v@).take(i as int) =~= entities_restored(v@));
    string_of(&out)
}

} // verus!
