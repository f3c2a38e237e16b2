//! Ellipsis conversion: `...` to `…`.

use vstd::prelude::*;
use crate::regex_scan::{
    RegexScan, gap, group_or_empty, group_text, group_views, is_match, lemma_scan_prefix_mono,
    lemma_scan_text_prefix, regex_finds, regex_scan_of, scan, scan_prefix, scan_text,
    well_formed_scan, whole,
};
use crate::text::{append_chars, chars_of, concat, string_of, views};

verus! {

/// Three dots with what surrounds them: a line start or a word character or
/// quote before, white space on both sides, and an optional punctuation mark
/// after.
pub const ELLIPSIS_PATTERN: &'static str = r"(?m)(^|[\w\x22\x27\u{2018}\u{2019}])(\s*)(\.\.\.)([\.,;:\?!\)\-\u{2014}\x22\x27\u{2018}\u{2019}]?)(\s*)";

/// A text that starts with a word character.
pub const WORD_START_PATTERN: &'static str = r"^\w";

pub open spec fn starts_word(s: Seq<char>) -> bool {
    regex_finds(WORD_START_PATTERN@, s)
}

/// The replacement of one match: the ellipsis character, with a space added
/// before it after a word character and after it before a word character
/// (when no space or punctuation is there already).
pub open spec fn ellipsis_replacement(caps: Seq<Option<Seq<char>>>, next: Option<char>) -> Seq<char> {
    let prefix = group_text(caps, 1);
    let before = group_text(caps, 2);
    let punct = group_text(caps, 4);
    let after = group_text(caps, 5);
    prefix + (if prefix.len() > 0 && starts_word(prefix) && before.len() == 0 {
        seq![' ']
    } else {
        before
    }) + seq!['\u{2026}'] + punct + (if next is Some && starts_word(seq![next->Some_0])
        && after.len() == 0 && punct.len() == 0 {
        seq![' ']
    } else {
        after
    })
}

/// Match `k` with the gap before it. A match followed by a character that
/// is not a word character is kept as it is.
pub open spec fn ellipsis_piece(
    text: Seq<char>,
    gaps: Seq<Seq<char>>,
    groups: Seq<Seq<Option<Seq<char>>>>,
    k: int,
) -> Seq<char> {
    let end = scan_prefix(gaps, groups, k + 1).len() as int;
    let next: Option<char> = if end < text.len() {
        Some(text[end])
    } else {
        None
    };
    gaps[k] + if next is Some && !starts_word(seq![next->Some_0]) {
        whole(groups[k])
    } else {
        ellipsis_replacement(groups[k], next)
    }
}

/// The text `ellipses` returns. (If the pattern did not compile, the text
/// would be unchanged.)
pub open spec fn ellipsized(text: Seq<char>) -> Seq<char> {
    match regex_scan_of(ELLIPSIS_PATTERN@, text) {
        Some(sc) => concat(Seq::new(sc.1.len(), |k: int| ellipsis_piece(text, sc.0, sc.1, k)))
            + sc.0.last(),
        None => text,
    }
}

/// The character after match `k` of a scan of `text`, if any.
pub open spec fn follower(text: Seq<char>, gaps: Seq<Seq<char>>, groups: Seq<Seq<Option<Seq<char>>>>, k: int) -> Option<char> {
    let end = scan_prefix(gaps, groups, k + 1).len() as int;
    if end < text.len() {
        Some(text[end])
    } else {
        None
    }
}

/// Every match of the ellipsis pattern is rewritten on its own, the second
/// and later ones as well as the first: the result is the text between the
/// matches, unchanged, with each match replaced by a piece; the piece of a
/// match followed by a word character or by the end of the text holds an
/// ellipsis character, and a match followed by anything else is kept as it
/// is.
pub proof fn lemma_every_ellipsis_converted(text: Seq<char>)
    requires
        regex_scan_of(ELLIPSIS_PATTERN@, text) is Some,
    ensures
        ({
            let sc = regex_scan_of(ELLIPSIS_PATTERN@, text)->Some_0;
            exists|pieces: Seq<Seq<char>>|
                #![trigger pieces.len()]
                pieces.len() == sc.1.len() && ellipsized(text) == concat(
                    Seq::new(sc.1.len(), |k: int| sc.0[k] + pieces[k]),
                ) + sc.0.last() && (forall|k: int|
                    0 <= k < sc.1.len() ==> {
                        let next = follower(text, sc.0, sc.1, k);
                        &&& (next is None || starts_word(seq![next->Some_0])) ==> (#[trigger] pieces[k]).contains(
                            '\u{2026}',
                        )
                        &&& (next is Some && !starts_word(seq![next->Some_0])) ==> pieces[k] == whole(sc.1[k])
                    })
        }),
{
    let sc = regex_scan_of(ELLIPSIS_PATTERN@, text)->Some_0;
    let pieces = Seq::new(
        sc.1.len(),
        |k: int|
            {
                let next = follower(text, sc.0, sc.1, k);
                if next is Some && !starts_word(seq![next->Some_0]) {
                    whole(sc.1[k])
                } else {
                    ellipsis_replacement(sc.1[k], next)
                }
            },
    );
    assert(Seq::new(sc.1.len(), |k: int| sc.0[k] + pieces[k]) =~= Seq::new(
        sc.1.len(),
        |k: int| ellipsis_piece(text, sc.0, sc.1, k),
    ));
    assert forall|k: int| 0 <= k < sc.1.len() implies {
        let next = follower(text, sc.0, sc.1, k);
        &&& (next is None || starts_word(seq![next->Some_0])) ==> (#[trigger] pieces[k]).contains('\u{2026}')
        &&& (next is Some && !starts_word(seq![next->Some_0])) ==> pieces[k] == whole(sc.1[k])
    } by {
        let next = follower(text, sc.0, sc.1, k);
        if next is None || starts_word(seq![next->Some_0]) {
            let caps = sc.1[k];
            let prefix = group_text(caps, 1);
            let before = group_text(caps, 2);
            let mid = if prefix.len() > 0 && starts_word(prefix) && before.len() == 0 {
                seq![' ']
            } else {
                before
            };
            let r = ellipsis_replacement(caps, next);
            assert(r[(prefix.len() + mid.len()) as int] == '\u{2026}');
        }
    }
    assert(pieces.len() == sc.1.len());
}

fn starts_word_exec(s: &Vec<char>) -> (b: bool)
    ensures
        b == starts_word(s@),
{
    let st = string_of(s);
    is_match(WORD_START_PATTERN, st.as_str())
}

fn one_char(c: char) -> (r: Vec<char>)
    ensures
        r@ == seq![c],
{
    let mut r: Vec<char> = Vec::new();
    r.push(c);
    assert(r@ =~= seq![c]);
    r
}

/// What match `k` becomes, given the character after it.
fn match_replacement(sc: &RegexScan, k: usize, next: Option<char>) -> (r: Vec<char>)
    requires
        k < sc.groups.len(),
        well_formed_scan(views(sc.gaps@), group_views(sc.groups@)),
    ensures
        r@ == if next is Some && !starts_word(seq![next->Some_0]) {
            whole(group_views(sc.groups@)[k as int])
        } else {
            ellipsis_replacement(group_views(sc.groups@)[k as int], next)
        },
{
    let ghost caps = group_views(sc.groups@)[k as int];
    let skip = match next {
        Some(nc) => !starts_word_exec(&one_char(nc)),
        None => false,
    };
    if skip {
        assert(caps.len() >= 1 && caps[0] is Some);
        return group_or_empty(sc, k, 0);
    }
    let prefix = group_or_empty(sc, k, 1);
    let spaces_before = group_or_empty(sc, k, 2);
    let punct = group_or_empty(sc, k, 4);
    let spaces_after = group_or_empty(sc, k, 5);
    let mut out: Vec<char> = Vec::new();
    append_chars(&mut out, &prefix);
    if prefix.len() > 0 && starts_word_exec(&prefix) && spaces_before.len() == 0 {
        out.push(' ');
    } else {
        append_chars(&mut out, &spaces_before);
    }
    out.push('\u{2026}');
    append_chars(&mut out, &punct);
    let space_after = match next {
        Some(nc) => starts_word_exec(&one_char(nc)) && spaces_after.len() == 0 && punct.len() == 0,
        None => false,
    };
    if space_after {
        out.push(' ');
    } else {
        append_chars(&mut out, &spaces_after);
    }
    assert(out@ =~= ellipsis_replacement(caps, next));
    out
}

/// Replace three consecutive dots with an ellipsis character (`…`).
pub fn ellipses(text: &str) -> (r: String)
    ensures
        r@ == ellipsized(text@),
{
    let v = chars_of(text);
    match scan(ELLIPSIS_PATTERN, text) {
        None => string_of(&v),
        Some(sc) => {
            let ghost gs = views(sc.gaps@);
            let ghost ms = group_views(sc.groups@);
            let ghost pieces = Seq::new(ms.len(), |k: int| ellipsis_piece(text@, gs, ms, k));
            proof {
                lemma_scan_text_prefix(gs, ms);
            }
            let mut out: Vec<char> = Vec::new();
            let mut pos: usize = 0;
            let mut k: usize = 0;
            while k < sc.groups.len()
                invariant
                    k <= sc.groups.len(),
                    gs == views(sc.gaps@),
                    ms == group_views(sc.groups@),
                    well_formed_scan(gs, ms),
                    v@ == text@,
                    scan_text(gs, ms) == text@,
                    scan_text(gs, ms) == scan_prefix(gs, ms, ms.len() as int) + gs.last(),
                    pieces == Seq::new(ms.len(), |k: int| ellipsis_piece(text@, gs, ms, k)),
                    pos as int == scan_prefix(gs, ms, k as int).len(),
                    out@ == concat(pieces.take(k as int)),
                decreases sc.groups.len() - k,
            {
                let g = gap(&sc, k);
                let m = group_or_empty(&sc, k, 0);
                assert(ms[k as int].len() >= 1 && ms[k as int][0] is Some);
                assert(m@ == whole(ms[k as int]));
                proof {
                    lemma_scan_prefix_mono(gs, ms, k + 1, ms.len() as int);
                    assert(scan_prefix(gs, ms, k + 1) == scan_prefix(gs, ms, k as int) + gs[k as int]
                        + whole(ms[k as int]));
                    assert(scan_prefix(gs, ms, k + 1).len() <= v@.len());
                    assert(v@.len() == v.len());
                    assert(g@ == gs[k as int]);
                    assert(pos + g@.len() + m@.len() == scan_prefix(gs, ms, k + 1).len());
                }
                let end = pos + g.len() + m.len();
                let next: Option<char> = if end < v.len() { Some(v[end]) } else { None };
                let ghost before = out@;
                append_chars(&mut out, &g);
                let rep = match_replacement(&sc, k, next);
                append_chars(&mut out, &rep);
                proof {
                    assert(out@ =~= before + pieces[k as int]);
                    assert(pieces.take(k + 1).drop_last() =~= pieces.take(k as int));
                }
                pos = end;
                k += 1;
            }
            let g = gap(&sc, k);
            assert(gs.last() == gs[k as int]);
            append_chars(&mut out, &g);
            assert(pieces.take(ms.len() as int) =~= pieces);
            string_of(&out)
        },
    }
}

} // verus!
