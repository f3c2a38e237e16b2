//! Reference links and images before parsing.
//!
//! Reference images (`![alt][label]`, `![alt][]`, `![alt]`) whose label has
//! a definition are inlined as `![alt](destination)`. Reference links
//! (`[text][label]`, `[text][]`, `[text]`, and badges `[![alt](url)][label]`)
//! whose label has a definition become inline links whose destination holds
//! the hex-encoded lowercase label between two private-use markers, so that
//! rendering can write the reference form back. Fenced code is left alone.

use vstd::prelude::*;
use crate::formatter::fences::{outside_code, outside_code_flags};
use crate::formatter::filling::{
    badge_alt, badge_alt_lowercase, copy_buf, encode_hex_label, ends_with_newline, hex_of,
    lines_of, lowercase_of, newline, relined, to_lowercase,
};
use crate::formatter::ref_defs::LinkRefDefs;
use crate::regex_scan::{
    RegexScan, gap, group_or_empty, group_text, group_views, lemma_scan_text_prefix, regex_scan_of,
    scan, scan_prefix, scan_text, well_formed_scan, whole,
};
use crate::text::{
    append_chars, append_str, buf_views, chars_eq, chars_of, concat, join_bufs, push_buf,
    slice_of, string_of, views,
};
use crate::wrapping::text_filling::text_lines;

verus! {

/// Start of an encoded reference label in a link destination.
pub const REF_LABEL_START: char = '\u{F000}';

/// End of an encoded reference label in a link destination.
pub const REF_LABEL_SEP: char = '\u{F001}';

/// Full reference links: `[text][label]`.
pub const FULL_REF_LINK_PATTERN: &'static str = r"\[([^\]]+)\]\[([^\]]+)\]";

/// Badge full reference links: `[![alt](url)][label]`.
pub const BADGE_FULL_REF_LINK_PATTERN: &'static str = r"\[(!\[[^\]]*\]\([^)]*\))\]\[([^\]]+)\]";

/// Badge collapsed reference links: `[![alt](url)][]`.
pub const BADGE_COLLAPSED_REF_LINK_PATTERN: &'static str = r"\[(!\[[^\]]*\]\([^)]*\))\]\[\]";

/// Badge shortcut reference links: `[![alt](url)]` not followed by `[`,
/// `(` or `:`; group 2 is the character after (or nothing at the end).
pub const BADGE_SHORTCUT_REF_LINK_PATTERN: &'static str = r"\[(!\[[^\]]*\]\([^)]*\))\]([^\[(:]|$)";

/// Collapsed reference links: `[text][]`.
pub const COLLAPSED_REF_LINK_PATTERN: &'static str = r"\[([^\]]+)\]\[\]";

/// Shortcut reference links: `[text]` not followed by `[`, `(` or `:`;
/// group 2 is the character after (or nothing at the end).
pub const SHORTCUT_REF_LINK_PATTERN: &'static str = r"\[([^\]]+)\]([^\[(:]|$)";

/// Full reference images: `![alt][label]`.
pub const IMAGE_FULL_REF_PATTERN: &'static str = r"!\[([^\]]*)\]\[([^\]]+)\]";

/// Collapsed reference images: `![alt][]`.
pub const IMAGE_COLLAPSED_REF_PATTERN: &'static str = r"!\[([^\]]+)\]\[\]";

/// Shortcut reference images: `![alt]` not followed by `[`, `(` or `:`.
pub const IMAGE_SHORTCUT_REF_PATTERN: &'static str = r"!\[([^\]]+)\]([^\[(:]|$)";

/// The forms of reference this module rewrites.
#[derive(Debug, Clone, Copy, PartialEq, Eq, Structural)]
pub enum RefForm {
    ImageFull,
    ImageCollapsed,
    ImageShortcut,
    BadgeFull,
    BadgeCollapsed,
    BadgeShortcut,
    LinkFull,
    LinkCollapsed,
    LinkShortcut,
}

pub open spec fn form_pattern(f: RefForm) -> Seq<char> {
    match f {
        RefForm::ImageFull => IMAGE_FULL_REF_PATTERN@,
        RefForm::ImageCollapsed => IMAGE_COLLAPSED_REF_PATTERN@,
        RefForm::ImageShortcut => IMAGE_SHORTCUT_REF_PATTERN@,
        RefForm::BadgeFull => BADGE_FULL_REF_LINK_PATTERN@,
        RefForm::BadgeCollapsed => BADGE_COLLAPSED_REF_LINK_PATTERN@,
        RefForm::BadgeShortcut => BADGE_SHORTCUT_REF_LINK_PATTERN@,
        RefForm::LinkFull => FULL_REF_LINK_PATTERN@,
        RefForm::LinkCollapsed => COLLAPSED_REF_LINK_PATTERN@,
        RefForm::LinkShortcut => SHORTCUT_REF_LINK_PATTERN@,
    }
}

fn form_pattern_exec(f: RefForm) -> (p: &'static str)
    ensures
        p@ == form_pattern(f),
{
    match f {
        RefForm::ImageFull => IMAGE_FULL_REF_PATTERN,
        RefForm::ImageCollapsed => IMAGE_COLLAPSED_REF_PATTERN,
        RefForm::ImageShortcut => IMAGE_SHORTCUT_REF_PATTERN,
        RefForm::BadgeFull => BADGE_FULL_REF_LINK_PATTERN,
        RefForm::BadgeCollapsed => BADGE_COLLAPSED_REF_LINK_PATTERN,
        RefForm::BadgeShortcut => BADGE_SHORTCUT_REF_LINK_PATTERN,
        RefForm::LinkFull => FULL_REF_LINK_PATTERN,
        RefForm::LinkCollapsed => COLLAPSED_REF_LINK_PATTERN,
        RefForm::LinkShortcut => SHORTCUT_REF_LINK_PATTERN,
    }
}

/// The label a match refers to: the lowercase label of a full reference,
/// the lowercase badge alt text of a badge collapsed or shortcut reference,
/// else the lowercase text.
pub open spec fn form_label(f: RefForm, caps: Seq<Option<Seq<char>>>) -> Option<Seq<char>> {
    match f {
        RefForm::ImageFull | RefForm::BadgeFull | RefForm::LinkFull => Some(
            lowercase_of(group_text(caps, 2)),
        ),
        RefForm::BadgeCollapsed | RefForm::BadgeShortcut => badge_alt(group_text(caps, 1)),
        _ => Some(lowercase_of(group_text(caps, 1))),
    }
}

/// What a shortcut match keeps after the reference: the character after it.
pub open spec fn form_trailing(f: RefForm, caps: Seq<Option<Seq<char>>>) -> Seq<char> {
    match f {
        RefForm::ImageShortcut | RefForm::BadgeShortcut | RefForm::LinkShortcut => group_text(caps, 2),
        _ => Seq::empty(),
    }
}

pub open spec fn is_image_form(f: RefForm) -> bool {
    f is ImageFull || f is ImageCollapsed || f is ImageShortcut
}

/// The destination that carries an encoded label.
pub open spec fn encoded_target(label: Seq<char>) -> Seq<char> {
    seq![REF_LABEL_START] + hex_of(vstd::utf8::encode_utf8(label)) + seq![REF_LABEL_SEP]
}

/// What one match becomes: when its label has a definition, an inline
/// image with the definition's destination, or an inline link carrying the
/// encoded label; otherwise the match itself.
pub open spec fn form_replacement(
    f: RefForm,
    caps: Seq<Option<Seq<char>>>,
    defs: Map<Seq<char>, Seq<char>>,
) -> Seq<char> {
    let label = form_label(f, caps);
    if label is Some && defs.dom().contains(label->Some_0) {
        if is_image_form(f) {
            "!["@ + group_text(caps, 1) + "]("@ + defs[label->Some_0] + ")"@ + form_trailing(f, caps)
        } else {
            "["@ + group_text(caps, 1) + "]("@ + encoded_target(label->Some_0) + ")"@ + form_trailing(
                f,
                caps,
            )
        }
    } else {
        whole(caps)
    }
}

/// Every match replaced (`Regex::replace_all`).
pub open spec fn replaced_all(f: RefForm, text: Seq<char>, defs: Map<Seq<char>, Seq<char>>) -> Seq<char> {
    match regex_scan_of(form_pattern(f), text) {
        Some(sc) => concat(Seq::new(sc.1.len(), |k: int| sc.0[k] + form_replacement(f, sc.1[k], defs)))
            + sc.0.last(),
        None => text,
    }
}

/// The first match replaced (`Regex::replace`).
pub open spec fn replaced_first(f: RefForm, text: Seq<char>, defs: Map<Seq<char>, Seq<char>>) -> Seq<char> {
    match regex_scan_of(form_pattern(f), text) {
        Some(sc) => if sc.1.len() == 0 {
            text
        } else {
            sc.0[0] + form_replacement(f, sc.1[0], defs) + text.skip(
                (sc.0[0].len() + whole(sc.1[0]).len()) as int,
            )
        },
        None => text,
    }
}

/// The first match replaced again and again until a pass changes nothing,
/// with at most `fuel` more passes after the first. (Each pass that changes
/// the text removes a `[` from it, so the text's length is enough fuel.)
pub open spec fn replaced_until_stable(
    f: RefForm,
    text: Seq<char>,
    defs: Map<Seq<char>, Seq<char>>,
    fuel: nat,
) -> Seq<char>
    decreases fuel,
{
    let next = replaced_first(f, text, defs);
    if next == text {
        text
    } else if fuel == 0 {
        next
    } else {
        replaced_until_stable(f, next, defs, (fuel - 1) as nat)
    }
}

/// The prefix of the scan up to match `a` starts the prefix up to `b`.
proof fn lemma_scan_prefix_prefix(
    gaps: Seq<Seq<char>>,
    groups: Seq<Seq<Option<Seq<char>>>>,
    a: int,
    b: int,
)
    requires
        0 <= a <= b,
    ensures
        scan_prefix(gaps, groups, a).len() <= scan_prefix(gaps, groups, b).len(),
        scan_prefix(gaps, groups, b).take(scan_prefix(gaps, groups, a).len() as int)
            == scan_prefix(gaps, groups, a),
    decreases b - a,
{
    if a < b {
        lemma_scan_prefix_prefix(gaps, groups, a, b - 1);
        let pa = scan_prefix(gaps, groups, a);
        let pb1 = scan_prefix(gaps, groups, b - 1);
        let pb = scan_prefix(gaps, groups, b);
        assert(pb == pb1 + gaps[b - 1] + whole(groups[b - 1]));
        assert(pb.take(pa.len() as int) =~= pb1.take(pa.len() as int));
    } else {
        let pa = scan_prefix(gaps, groups, a);
        assert(pa.take(pa.len() as int) =~= pa);
    }
}

/// What one match becomes (see [`form_replacement`]).
fn replacement_exec(f: RefForm, sc: &RegexScan, k: usize, defs: &LinkRefDefs) -> (out: Vec<char>)
    requires
        k < sc.groups.len(),
        well_formed_scan(views(sc.gaps@), group_views(sc.groups@)),
        defs.wf(),
    ensures
        out@ == form_replacement(f, group_views(sc.groups@)[k as int], defs.view()),
{
    let ghost caps = group_views(sc.groups@)[k as int];
    let g1 = group_or_empty(sc, k, 1);
    let label: Option<String> = match f {
        RefForm::ImageFull | RefForm::BadgeFull | RefForm::LinkFull => {
            let g2 = group_or_empty(sc, k, 2);
            let g2s = string_of(&g2);
            Some(to_lowercase(g2s.as_str()))
        },
        RefForm::BadgeCollapsed | RefForm::BadgeShortcut => {
            let g1s = string_of(&g1);
            badge_alt_lowercase(g1s.as_str())
        },
        _ => {
            let g1s = string_of(&g1);
            Some(to_lowercase(g1s.as_str()))
        },
    };
    let trailing: Vec<char> = match f {
        RefForm::ImageShortcut | RefForm::BadgeShortcut | RefForm::LinkShortcut => group_or_empty(
            sc,
            k,
            2,
        ),
        _ => Vec::new(),
    };
    assert(trailing@ == form_trailing(f, caps));
    match label {
        Some(l) => {
            assert(form_label(f, caps) == Some(l@));
            match defs.get(l.as_str()) {
                Some(dest) => {
                    let is_image = match f {
                        RefForm::ImageFull | RefForm::ImageCollapsed | RefForm::ImageShortcut => true,
                        _ => false,
                    };
                    let mut out: Vec<char> = Vec::new();
                    if is_image {
                        append_str(&mut out, "![");
                        append_chars(&mut out, &g1);
                        append_str(&mut out, "](");
                        append_str(&mut out, dest.as_str());
                        append_str(&mut out, ")");
                    } else {
                        let hex = encode_hex_label(l.as_str());
                        append_str(&mut out, "[");
                        append_chars(&mut out, &g1);
                        append_str(&mut out, "](");
                        out.push(REF_LABEL_START);
                        append_str(&mut out, hex.as_str());
                        out.push(REF_LABEL_SEP);
                        append_str(&mut out, ")");
                    }
                    append_chars(&mut out, &trailing);
                    assert(out@ =~= form_replacement(f, caps, defs.view()));
                    out
                },
                None => {
                    assert(caps.len() >= 1 && caps[0] is Some);
                    group_or_empty(sc, k, 0)
                },
            }
        },
        None => {
            assert(caps.len() >= 1 && caps[0] is Some);
            group_or_empty(sc, k, 0)
        },
    }
}

/// Replaces every match of a form's pattern (see [`replaced_all`]).
fn replace_all_form(f: RefForm, text: &Vec<char>, defs: &LinkRefDefs) -> (out: Vec<char>)
    requires
        defs.wf(),
    ensures
        out@ == replaced_all(f, text@, defs.view()),
{
    let s = string_of(text);
    match scan(form_pattern_exec(f), s.as_str()) {
        None => copy_buf(text),
        Some(sc) => {
            let ghost gs = views(sc.gaps@);
            let ghost ms = group_views(sc.groups@);
            let ghost pieces = Seq::new(ms.len(), |k: int| gs[k] + form_replacement(f, ms[k], defs.view()));
            let mut out: Vec<char> = Vec::new();
            let mut k: usize = 0;
            while k < sc.groups.len()
                invariant
                    k <= sc.groups.len(),
                    gs == views(sc.gaps@),
                    ms == group_views(sc.groups@),
                    well_formed_scan(gs, ms),
                    defs.wf(),
                    pieces == Seq::new(ms.len(), |k: int| gs[k] + form_replacement(f, ms[k], defs.view())),
                    out@ == concat(pieces.take(k as int)),
                decreases sc.groups.len() - k,
            {
                let g = gap(&sc, k);
                let rep = replacement_exec(f, &sc, k, defs);
                let ghost before = out@;
                append_chars(&mut out, &g);
                append_chars(&mut out, &rep);
                proof {
                    assert(out@ =~= before + pieces[k as int]);
                    assert(pieces.take(k + 1).drop_last() =~= pieces.take(k as int));
                }
                k += 1;
            }
            let g = gap(&sc, k);
            assert(gs.last() == gs[k as int]);
            append_chars(&mut out, &g);
            assert(pieces.take(ms.len() as int) =~= pieces);
            out
        },
    }
}

/// Replaces the first match of a form's pattern (see [`replaced_first`]).
fn replace_first_form(f: RefForm, text: &Vec<char>, defs: &LinkRefDefs) -> (out: Vec<char>)
    requires
        defs.wf(),
    ensures
        out@ == replaced_first(f, text@, defs.view()),
{
    let s = string_of(text);
    match scan(form_pattern_exec(f), s.as_str()) {
        None => copy_buf(text),
        Some(sc) => {
            if sc.groups.len() == 0 {
                return copy_buf(text);
            }
            let ghost gs = views(sc.gaps@);
            let ghost ms = group_views(sc.groups@);
            let g = gap(&sc, 0);
            let m = group_or_empty(&sc, 0, 0);
            assert(ms[0].len() >= 1 && ms[0][0] is Some);
            assert(m@ == whole(ms[0]));
            proof {
                lemma_scan_text_prefix(gs, ms);
                lemma_scan_prefix_prefix(gs, ms, 1, ms.len() as int);
                assert(scan_prefix(gs, ms, 0) == Seq::<char>::empty());
                assert(scan_prefix(gs, ms, 1) =~= gs[0] + whole(ms[0]));
                assert(scan_text(gs, ms) == text@);
                assert(g@.len() + m@.len() <= text@.len());
                assert(text@.take(scan_prefix(gs, ms, 1).len() as int) =~= scan_prefix(gs, ms, 1));
            }
            let rep = replacement_exec(f, &sc, 0, defs);
            let tl = text.len();
            assert(g.len() + m.len() <= tl);
            let pos = g.len() + m.len();
            let rest = slice_of(text, pos, text.len());
            let mut out: Vec<char> = Vec::new();
            append_chars(&mut out, &g);
            append_chars(&mut out, &rep);
            append_chars(&mut out, &rest);
            assert(rest@ =~= text@.skip(pos as int));
            out
        },
    }
}

/// Replaces the first match until a pass changes nothing (see
/// [`replaced_until_stable`], with the text's length as fuel).
fn replace_until_stable_form(f: RefForm, text: &Vec<char>, defs: &LinkRefDefs) -> (out: Vec<char>)
    requires
        defs.wf(),
    ensures
        out@ == replaced_until_stable(f, text@, defs.view(), text@.len()),
{
    let mut cur = copy_buf(text);
    let mut fuel: usize = text.len();
    loop
        invariant
            defs.wf(),
            replaced_until_stable(f, text@, defs.view(), text@.len()) == replaced_until_stable(
                f,
                cur@,
                defs.view(),
                fuel as nat,
            ),
        decreases fuel,
    {
        let next = replace_first_form(f, &cur, defs);
        if chars_eq(&next, &cur) {
            return cur;
        }
        if fuel == 0 {
            return next;
        }
        cur = next;
        fuel -= 1;
    }
}

/// A line with its reference images inlined.
pub open spec fn images_inlined_line(line: Seq<char>, defs: Map<Seq<char>, Seq<char>>) -> Seq<char> {
    replaced_all(
        RefForm::ImageShortcut,
        replaced_all(RefForm::ImageCollapsed, replaced_all(RefForm::ImageFull, line, defs), defs),
        defs,
    )
}

/// A line with its reference links encoded: badges first (their text holds
/// a `]` that the plain patterns cannot span), then full and collapsed links
/// (each until stable), then shortcut links.
pub open spec fn links_encoded_line(line: Seq<char>, defs: Map<Seq<char>, Seq<char>>) -> Seq<char> {
    let badges = replaced_all(
        RefForm::BadgeShortcut,
        replaced_all(RefForm::BadgeCollapsed, replaced_all(RefForm::BadgeFull, line, defs), defs),
        defs,
    );
    let full = replaced_until_stable(RefForm::LinkFull, badges, defs, badges.len());
    let collapsed = replaced_until_stable(RefForm::LinkCollapsed, full, defs, full.len());
    replaced_all(RefForm::LinkShortcut, collapsed, defs)
}

/// The text with each line outside fenced code rewritten, joined by `\n`
/// with a final newline kept.
pub open spec fn rewritten_outside_code(
    text: Seq<char>,
    defs: Map<Seq<char>, Seq<char>>,
    images: bool,
) -> Seq<char> {
    let lines = text_lines(text);
    relined(
        Seq::new(
            lines.len(),
            |i: int|
                if !outside_code(lines, i) {
                    lines[i]
                } else if images {
                    images_inlined_line(lines[i], defs)
                } else {
                    links_encoded_line(lines[i], defs)
                },
        ),
        text,
    )
}

fn rewrite_line(line: &Vec<char>, defs: &LinkRefDefs, images: bool) -> (out: Vec<char>)
    requires
        defs.wf(),
    ensures
        out@ == if images {
            images_inlined_line(line@, defs.view())
        } else {
            links_encoded_line(line@, defs.view())
        },
{
    if images {
        let a = replace_all_form(RefForm::ImageFull, line, defs);
        let b = replace_all_form(RefForm::ImageCollapsed, &a, defs);
        replace_all_form(RefForm::ImageShortcut, &b, defs)
    } else {
        let a = replace_all_form(RefForm::BadgeFull, line, defs);
        let b = replace_all_form(RefForm::BadgeCollapsed, &a, defs);
        let c = replace_all_form(RefForm::BadgeShortcut, &b, defs);
        let d = replace_until_stable_form(RefForm::LinkFull, &c, defs);
        let e = replace_until_stable_form(RefForm::LinkCollapsed, &d, defs);
        replace_all_form(RefForm::LinkShortcut, &e, defs)
    }
}

fn rewrite_outside_code(text: &str, defs: &LinkRefDefs, images: bool) -> (r: String)
    requires
        defs.wf(),
    ensures
        r@ == rewritten_outside_code(text@, defs.view(), images),
{
    let lines = lines_of(text);
    let ghost ls = buf_views(lines@);
    let flags = outside_code_flags(&lines);
    let ghost target = Seq::new(
        ls.len(),
        |i: int|
            if !outside_code(ls, i) {
                ls[i]
            } else if images {
                images_inlined_line(ls[i], defs.view())
            } else {
                links_encoded_line(ls[i], defs.view())
            },
    );
    let mut out: Vec<Vec<char>> = Vec::new();
    let mut i: usize = 0;
    while i < lines.len()
        invariant
            i <= lines.len() == flags.len(),
            ls == buf_views(lines@),
            forall|j: int| 0 <= j < lines.len() ==> flags@[j] == outside_code(ls, j),
            defs.wf(),
            target == Seq::new(
                ls.len(),
                |i: int|
                    if !outside_code(ls, i) {
                        ls[i]
                    } else if images {
                        images_inlined_line(ls[i], defs.view())
                    } else {
                        links_encoded_line(ls[i], defs.view())
                    },
            ),
            buf_views(out@) == target.take(i as int),
        decreases lines.len() - i,
    {
        assert(ls[i as int] == lines@[i as int]@);
        let new_line = if flags[i] {
            rewrite_line(&lines[i], defs, images)
        } else {
            copy_buf(&lines[i])
        };
        push_buf(&mut out, new_line);
        assert(buf_views(out@) =~= target.take(i + 1));
        i += 1;
    }
    assert(target.take(lines.len() as int) =~= target);
    let nl = newline();
    let mut joined = join_bufs(&out, &nl);
    let v = chars_of(text);
    if ends_with_newline(&v) {
        joined.push('\n');
    }
    string_of(&joined)
}

/// The text `inline_image_refs` returns: unchanged without definitions.
pub open spec fn images_inlined(text: Seq<char>, defs: Map<Seq<char>, Seq<char>>) -> Seq<char> {
    if defs.dom().len() == 0 {
        text
    } else {
        rewritten_outside_code(text, defs, true)
    }
}

/// The text `encode_ref_links` returns: unchanged without definitions.
pub open spec fn links_encoded(text: Seq<char>, defs: Map<Seq<char>, Seq<char>>) -> Seq<char> {
    if defs.dom().len() == 0 {
        text
    } else {
        rewritten_outside_code(text, defs, false)
    }
}

/// Inlines reference images (`![alt][label]`, `![alt][]`, `![alt]`) whose
/// label has a definition: `![alt](destination)`, keeping the character
/// after a shortcut image. Fenced code is left alone.
pub fn inline_image_refs(text: &str, defs: &LinkRefDefs) -> (r: String)
    requires
        defs.wf(),
    ensures
        r@ == images_inlined(text@, defs.view()),
{
    if defs.is_empty() {
        return text.to_owned();
    }
    rewrite_outside_code(text, defs, true)
}

/// Encodes reference links whose label has a definition as inline links
/// whose destination carries the hex-encoded lowercase label between
/// [`REF_LABEL_START`] and [`REF_LABEL_SEP`]. Fenced code is left alone.
pub fn encode_ref_links(text: &str, defs: &LinkRefDefs) -> (r: String)
    requires
        defs.wf(),
    ensures
        r@ == links_encoded(text@, defs.view()),
{
    if defs.is_empty() {
        return text.to_owned();
    }
    rewrite_outside_code(text, defs, false)
}

} // verus!
