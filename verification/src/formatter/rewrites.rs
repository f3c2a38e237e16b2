//! Regular-expression rewrites of a text: every match of a pattern
//! replaced by what the match becomes.

use vstd::prelude::*;
use crate::formatter::filling::copy_buf;
use crate::formatter::protect::{AUTOLINK_CLOSE, AUTOLINK_OPEN, ENTITY_AMP};
use crate::regex_scan::{RegexScan, gap, group_or_empty, group_text, group_views, regex_scan_of, scan, well_formed_scan, whole};
use crate::text::{append_chars, concat, slice_of, string_of, views};

verus! {

/// Named, decimal and hexadecimal HTML entities.
pub const HTML_ENTITY_PATTERN: &'static str = r"&(?:[a-zA-Z][a-zA-Z0-9]*|#[0-9]+|#x[0-9a-fA-F]+);";

/// Angle-bracket autolinks: `<scheme:...>` (http, https, ftp, mailto) or
/// `<user@host.tld>`; group 1 is the text inside the brackets.
pub const ANGLE_AUTOLINK_PATTERN: &'static str =
    r"<((?:https?|ftp|mailto):[^\s>]+|[a-zA-Z0-9._%+\-]+@[a-zA-Z0-9.\-]+\.[a-zA-Z]{2,})>";

/// Blank lines made only of spaces and tabs (multi-line mode).
pub const BLANK_LINE_WS_PATTERN: &'static str = r"(?m)^[ \t]+$";

/// A code fence followed by horizontal white space and a word character;
/// group 1 is the fence with its indent, group 2 the word character.
pub const CODE_FENCE_SPACE_PATTERN: &'static str = r"(?m)^([ \t]*```)[^\S\n]+(\w)";

/// The regex rewrites of a whole text or line.
#[derive(Debug, Clone, Copy, PartialEq, Eq, Structural)]
pub enum Rewrite {
    Autolink,
    Entity,
    BlankLineSpace,
    FenceInfoSpace,
}

pub open spec fn rewrite_pattern(k: Rewrite) -> Seq<char> {
    match k {
        Rewrite::Autolink => ANGLE_AUTOLINK_PATTERN@,
        Rewrite::Entity => HTML_ENTITY_PATTERN@,
        Rewrite::BlankLineSpace => BLANK_LINE_WS_PATTERN@,
        Rewrite::FenceInfoSpace => CODE_FENCE_SPACE_PATTERN@,
    }
}

/// What one match becomes: an autolink's text between the two markers; an
/// entity with its `&` replaced by the marker; nothing (a blank line's
/// white space); the fence right before the word (a fence's info string).
pub open spec fn rewrite_piece(k: Rewrite, caps: Seq<Option<Seq<char>>>) -> Seq<char> {
    match k {
        Rewrite::Autolink => seq![AUTOLINK_OPEN] + group_text(caps, 1) + seq![AUTOLINK_CLOSE],
        Rewrite::Entity => if whole(caps).len() > 0 {
            seq![ENTITY_AMP] + whole(caps).skip(1)
        } else {
            whole(caps)
        },
        Rewrite::BlankLineSpace => Seq::empty(),
        Rewrite::FenceInfoSpace => group_text(caps, 1) + group_text(caps, 2),
    }
}

/// Every match of the rewrite's pattern replaced (`Regex::replace_all`).
pub open spec fn rewritten(k: Rewrite, text: Seq<char>) -> Seq<char> {
    match regex_scan_of(rewrite_pattern(k), text) {
        Some(sc) => concat(Seq::new(sc.1.len(), |j: int| sc.0[j] + rewrite_piece(k, sc.1[j]))) + sc.0.last(),
        None => text,
    }
}

fn rewrite_pattern_exec(k: Rewrite) -> (p: &'static str)
    ensures
        p@ == rewrite_pattern(k),
{
    match k {
        Rewrite::Autolink => ANGLE_AUTOLINK_PATTERN,
        Rewrite::Entity => HTML_ENTITY_PATTERN,
        Rewrite::BlankLineSpace => BLANK_LINE_WS_PATTERN,
        Rewrite::FenceInfoSpace => CODE_FENCE_SPACE_PATTERN,
    }
}

fn rewrite_piece_exec(k: Rewrite, sc: &RegexScan, j: usize) -> (out: Vec<char>)
    requires
        j < sc.groups.len(),
        well_formed_scan(views(sc.gaps@), group_views(sc.groups@)),
    ensures
        out@ == rewrite_piece(k, group_views(sc.groups@)[j as int]),
{
    let ghost caps = group_views(sc.groups@)[j as int];
    match k {
        Rewrite::Autolink => {
            let g1 = group_or_empty(sc, j, 1);
            let mut out: Vec<char> = Vec::new();
            out.push(AUTOLINK_OPEN);
            append_chars(&mut out, &g1);
            out.push(AUTOLINK_CLOSE);
            assert(out@ =~= rewrite_piece(k, caps));
            out
        },
        Rewrite::Entity => {
            assert(caps.len() >= 1 && caps[0] is Some);
            let w = group_or_empty(sc, j, 0);
            if w.len() > 0 {
                let mut out: Vec<char> = Vec::new();
                out.push(ENTITY_AMP);
                let rest = slice_of(&w, 1, w.len());
                append_chars(&mut out, &rest);
                assert(out@ =~= rewrite_piece(k, caps));
                out
            } else {
                w
            }
        },
        Rewrite::BlankLineSpace => {
            let out: Vec<char> = Vec::new();
            assert(out@ =~= rewrite_piece(k, caps));
            out
        },
        Rewrite::FenceInfoSpace => {
            let mut out = group_or_empty(sc, j, 1);
            let g2 = group_or_empty(sc, j, 2);
            append_chars(&mut out, &g2);
            out
        },
    }
}

/// Replaces every match (see [`rewritten`]).
pub fn rewrite_all(k: Rewrite, line: &Vec<char>) -> (out: Vec<char>)
    ensures
        out@ == rewritten(k, line@),
{
    let s = string_of(line);
    match scan(rewrite_pattern_exec(k), s.as_str()) {
        None => copy_buf(line),
        Some(sc) => {
            let ghost gs = views(sc.gaps@);
            let ghost ms = group_views(sc.groups@);
            let ghost pieces = Seq::new(ms.len(), |j: int| gs[j] + rewrite_piece(k, ms[j]));
            let mut out: Vec<char> = Vec::new();
            let mut j: usize = 0;
            while j < sc.groups.len()
                invariant
                    j <= sc.groups.len(),
                    gs == views(sc.gaps@),
                    ms == group_views(sc.groups@),
                    well_formed_scan(gs, ms),
                    pieces == Seq::new(ms.len(), |j: int| gs[j] + rewrite_piece(k, ms[j])),
                    out@ == concat(pieces.take(j as int)),
                decreases sc.groups.len() - j,
            {
                let g = gap(&sc, j);
                let rep = rewrite_piece_exec(k, &sc, j);
                let ghost before = out@;
                append_chars(&mut out, &g);
                append_chars(&mut out, &rep);
                proof {
                    assert(out@ =~= before + pieces[j as int]);
                    assert(pieces.take(j + 1).drop_last() =~= pieces.take(j as int));
                }
                j += 1;
            }
            let g = gap(&sc, j);
            assert(gs.last() == gs[j as int]);
            append_chars(&mut out, &g);
            assert(pieces.take(ms.len() as int) =~= pieces);
            out
        },
    }
}

} // verus!
