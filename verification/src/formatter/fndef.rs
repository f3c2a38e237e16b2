//! Re-emission of footnote definitions from the markers that carry them
//! through the parser.

use vstd::prelude::*;

use crate::config::ListSpacing;
use crate::formatter::filling::{first_index_exec, first_index_of, FOOTNOTE_DEF_START_PATTERN};
use crate::formatter::render::{lines_exec, lines_of};
use crate::formatter::text_passes::{rfind, rfind_buf};
use crate::regex_scan::{regex_scan_of, scan, whole};
use crate::text::{
    append_chars, append_str, buf_views, chars_of, concat, join, join_bufs, slice_of, starts_with,
    starts_with_str, string_of, trim, trim_chars, trim_end,
};
use crate::wrapping::line_wrappers::{line_wrapped, LineWrapper};

verus! {

/// The footnote text inside a marker block: what follows its first line up
/// to the last `-->`, without trailing white space.
pub open spec fn fn_text_of(literal: Seq<char>) -> Option<Seq<char>> {
    let nl = first_index_of(literal, '\n');
    if nl < literal.len() {
        let rest = literal.skip(nl + 1);
        let e = rfind(rest, "-->"@);
        if e >= 0 {
            Some(trim_end(rest.take(e)))
        } else {
            None
        }
    } else {
        None
    }
}

/// The label and the end of the `[^label]: ` that starts a footnote text.
pub open spec fn fn_def_start(t: Seq<char>) -> Option<(Seq<char>, int)> {
    match regex_scan_of(FOOTNOTE_DEF_START_PATTERN@, t) {
        Some(sc) => if sc.1.len() > 0 && sc.1[0].len() > 1 && sc.1[0][1] is Some {
            Some((sc.1[0][1]->Some_0, (sc.0[0].len() + whole(sc.1[0]).len()) as int))
        } else {
            None
        },
        None => None,
    }
}

/// A continuation line without its four-space or tab indent.
pub open spec fn unindented(l: Seq<char>) -> Seq<char> {
    if starts_with(l, "    "@) {
        l.skip("    "@.len() as int)
    } else if starts_with(l, "\t"@) {
        l.skip("\t"@.len() as int)
    } else {
        l
    }
}

/// The body lines: the first line after the label, the others unindented.
pub open spec fn body_lines(t: Seq<char>, m: int) -> Seq<Seq<char>> {
    let ls = lines_of(t);
    Seq::new(
        ls.len(),
        |i: int|
            if i == 0 {
                ls[0].skip(if m <= ls[0].len() {
                    m
                } else {
                    ls[0].len() as int
                })
            } else {
                unindented(ls[i])
            },
    )
}

/// A block-quote line without its `> ` or `>`.
pub open spec fn unquoted(l: Seq<char>) -> Seq<char> {
    if starts_with(l, "> "@) {
        l.skip("> "@.len() as int)
    } else if starts_with(l, ">"@) {
        l.skip(">"@.len() as int)
    } else {
        l
    }
}

pub open spec fn item_start(l: Seq<char>) -> bool {
    starts_with(l, "- "@) || starts_with(l, "* "@) || starts_with(l, "+ "@)
}

/// Runs of non-blank lines, as `paragraphs` grows them: a blank line after
/// a non-empty run starts a new one.
pub open spec fn para_groups(ls: Seq<Seq<char>>) -> Seq<Seq<Seq<char>>>
    decreases ls.len(),
{
    if ls.len() == 0 {
        seq![Seq::empty()]
    } else {
        let g = para_groups(ls.drop_last());
        let l = ls.last();
        if trim(l).len() == 0 {
            if g.last().len() > 0 {
                g.push(Seq::empty())
            } else {
                g
            }
        } else {
            g.update(g.len() - 1, g.last().push(l))
        }
    }
}

pub open spec fn paragraphs(ls: Seq<Seq<char>>) -> Seq<Seq<Seq<char>>> {
    let g = para_groups(ls);
    if g.last().len() == 0 {
        g.drop_last()
    } else {
        g
    }
}

/// One paragraph of a multi-paragraph footnote: a quoted one is unquoted and
/// wrapped after `> `.
pub open spec fn para_out(para: Seq<Seq<char>>, first: bool, w: LineWrapper, fp: Seq<char>, fs: Seq<char>) -> Seq<char> {
    let lead = if first {
        fp
    } else {
        fs
    };
    if forall|i: int| 0 <= i < para.len() ==> starts_with(#[trigger] para[i], ">"@) {
        line_wrapped(
            w,
            trim(join(para.map_values(|l: Seq<char>| unquoted(l)), seq![' '])),
            lead + seq!['>', ' '],
            fs + seq!['>', ' '],
        )
    } else {
        line_wrapped(w, trim(join(para, seq![' '])), lead, fs)
    }
}

pub open spec fn multi_out(ps: Seq<Seq<Seq<char>>>, w: LineWrapper, fp: Seq<char>, fs: Seq<char>) -> Seq<char>
    decreases ps.len(),
{
    if ps.len() == 0 {
        Seq::empty()
    } else {
        multi_out(ps.drop_last(), w, fp, fs) + para_out(ps.last(), ps.len() == 1, w, fp, fs) + seq!['\n', '\n']
    }
}

/// The first index from 1 on whose line satisfies `p` (the length if none).
pub open spec fn first_from_one(b: Seq<Seq<char>>, p: spec_fn(Seq<char>) -> bool) -> int {
    if exists|i: int| 1 <= i < b.len() && p(b[i]) {
        choose|i: int| 1 <= i < b.len() && p(b[i]) && forall|j: int| 1 <= j < i ==> !p(b[j])
    } else {
        b.len() as int
    }
}

pub open spec fn quote_start() -> spec_fn(Seq<char>) -> bool {
    |l: Seq<char>| starts_with(l, ">"@)
}

pub open spec fn list_start() -> spec_fn(Seq<char>) -> bool {
    |l: Seq<char>| item_start(l)
}

/// Items of an embedded list: output so far, marker and text of the item
/// being read.
pub open spec fn items_scan(ls: Seq<Seq<char>>, w: LineWrapper, fs: Seq<char>) -> (Seq<char>, Seq<char>, Seq<char>)
    decreases ls.len(),
{
    if ls.len() == 0 {
        (Seq::empty(), Seq::empty(), Seq::empty())
    } else {
        let (out, marker, cur) = items_scan(ls.drop_last(), w, fs);
        let l = ls.last();
        if item_start(l) {
            let flushed = if cur.len() > 0 {
                out + line_wrapped(w, trim(cur), fs + marker, fs + seq![' ', ' ']) + seq!['\n']
            } else {
                out
            };
            (flushed, l.take(2), l.skip(2))
        } else {
            (out, marker, cur + seq![' '] + l)
        }
    }
}

pub open spec fn items_out(ls: Seq<Seq<char>>, w: LineWrapper, fs: Seq<char>) -> Seq<char> {
    let (out, marker, cur) = items_scan(ls, w, fs);
    out + if cur.len() > 0 {
        line_wrapped(w, trim(cur), fs + marker, fs + seq![' ', ' '])
    } else {
        Seq::empty()
    }
}

pub open spec fn quoted_lines_out(ls: Seq<Seq<char>>, w: LineWrapper, fs: Seq<char>) -> Seq<char> {
    concat(ls.map_values(|l: Seq<char>| line_wrapped(w, trim(unquoted(l)), fs + seq!['>', ' '], fs + seq!['>', ' '])))
}

/// A single-paragraph footnote, with a block quote or list that follows its
/// first lines kept on lines of their own.
pub open spec fn single_out(b: Seq<Seq<char>>, w: LineWrapper, sp: ListSpacing, fp: Seq<char>, fs: Seq<char>) -> Seq<char> {
    let q = first_from_one(b, quote_start());
    let li = first_from_one(b, list_start());
    if q < b.len() {
        line_wrapped(w, trim(join(b.take(q), seq![' '])), fp, fs) + seq!['\n'] + quoted_lines_out(b.skip(q), w, fs)
            + seq!['\n', '\n']
    } else if li < b.len() {
        line_wrapped(w, trim(join(b.take(li), seq![' '])), fp, fs) + (if sp == ListSpacing::Loose {
            seq!['\n', '\n']
        } else {
            seq!['\n']
        }) + items_out(b.skip(li), w, fs) + seq!['\n', '\n']
    } else {
        line_wrapped(w, trim(join(b, seq![' '])), fp, fs) + seq!['\n', '\n']
    }
}

/// The footnote definition a marker block holds, rendered after prefix `p`;
/// `None` when the block holds no footnote text.
pub open spec fn fndef_rendered(literal: Seq<char>, w: LineWrapper, sp: ListSpacing, p: Seq<char>) -> Option<Seq<char>> {
    match fn_text_of(literal) {
        Some(t) => Some(
            match fn_def_start(t) {
                Some((label, m)) => {
                    let b = body_lines(t, m);
                    let fp = p + seq!['[', '^'] + label + seq![']', ':', ' '];
                    let fs = p + seq![' ', ' ', ' ', ' '];
                    if exists|i: int| 1 <= i < b.len() && trim(#[trigger] b[i]).len() == 0 {
                        multi_out(paragraphs(b), w, fp, fs)
                    } else {
                        single_out(b, w, sp, fp, fs)
                    }
                },
                None => concat(lines_of(t).map_values(|l: Seq<char>| p + l + seq!['\n'])),
            },
        ),
        None => None,
    }
}

// ---------------------------------------------------------------------------
// Executable
// ---------------------------------------------------------------------------

pub open spec fn nested_views(v: Seq<Vec<Vec<char>>>) -> Seq<Seq<Seq<char>>> {
    v.map_values(|g: Vec<Vec<char>>| buf_views(g@))
}

fn wrap_buf(w: &LineWrapper, text: &Vec<char>, ii: &Vec<char>, si: &Vec<char>) -> (r: Vec<char>)
    ensures
        r@ == line_wrapped(*w, text@, ii@, si@),
{
    let t = string_of(text);
    let a = string_of(ii);
    let b = string_of(si);
    let out = w.wrap(t.as_str(), a.as_str(), b.as_str());
    chars_of(out.as_str())
}

fn with_suffix(v: &Vec<char>, suffix: &str) -> (r: Vec<char>)
    ensures
        r@ == v@ + suffix@,
{
    let mut r = slice_of(v, 0, v.len());
    assert(r@ =~= v@);
    append_str(&mut r, suffix);
    r
}

fn fn_text_exec(lit: &Vec<char>) -> (r: Option<Vec<char>>)
    ensures
        match fn_text_of(lit@) {
            Some(t) => r matches Some(x) && x@ == t,
            None => r is None,
        },
{
    let nl = first_index_exec(lit, '\n');
    if nl >= lit.len() {
        return None;
    }
    let rest = slice_of(lit, nl + 1, lit.len());
    assert(rest@ =~= lit@.skip(nl + 1));
    let close = chars_of("-->");
    match rfind_buf(&rest, &close) {
        Some(e) => {
            proof {
                crate::formatter::text_passes::lemma_find_last(rest@, close@, rest@.len() - close@.len());
            }
            let head = slice_of(&rest, 0, e);
            assert(head@ =~= rest@.take(e as int));
            Some(crate::text::trim_end_chars(&head))
        },
        None => None,
    }
}

proof fn lemma_scan_head(gaps: Seq<Seq<char>>, groups: Seq<Seq<Option<Seq<char>>>>)
    requires
        gaps.len() == groups.len() + 1,
        groups.len() >= 1,
    ensures
        crate::regex_scan::scan_text(gaps, groups).len() >= gaps[0].len() + whole(groups[0]).len(),
    decreases groups.len(),
{
    reveal_with_fuel(crate::regex_scan::scan_text, 2);
    assert(gaps.drop_last()[0] == gaps[0]);
    if groups.len() > 1 {
        assert(groups.drop_last()[0] == groups[0]);
        lemma_scan_head(gaps.drop_last(), groups.drop_last());
    } else {
        assert(groups.last() == groups[0]);
        assert(groups.drop_last().len() == 0);
        assert(crate::regex_scan::scan_text(gaps.drop_last(), groups.drop_last()) == gaps[0]);
    }
}

fn fn_def_start_exec(t: &Vec<char>) -> (r: Option<(Vec<char>, usize)>)
    ensures
        match fn_def_start(t@) {
            Some((label, m)) => r matches Some(x) && x.0@ == label && x.1 as int == m,
            None => r is None,
        },
{
    let ts = string_of(t);
    match scan(FOOTNOTE_DEF_START_PATTERN, ts.as_str()) {
        None => None,
        Some(sc) => {
            if sc.groups.len() == 0 || sc.groups[0].len() <= 1 {
                return None;
            }
            proof {
                assert(crate::regex_scan::group_views(sc.groups@)[0] == sc.groups@[0]@.map_values(
                    |o: Option<String>| crate::regex_scan::opt_view(o),
                ));
            }
            match (&sc.groups[0][0], &sc.groups[0][1]) {
                (Some(g0), Some(label)) => {
                    let gap = chars_of(sc.gaps[0].as_str());
                    let m = chars_of(g0.as_str());
                    proof {
                        assert(crate::text::views(sc.gaps@)[0] == sc.gaps@[0]@);
                    }
                    proof {
                        let gv = crate::regex_scan::group_views(sc.groups@);
                        lemma_scan_head(crate::text::views(sc.gaps@), gv);
                        assert(gv[0][0] == crate::regex_scan::opt_view(sc.groups@[0]@[0]));
                        assert(whole(gv[0]) == m@);
                        assert(ts@.len() == t@.len());
                        assert(crate::regex_scan::scan_text(crate::text::views(sc.gaps@), gv) == ts@);
                        assert(gap@ == crate::text::views(sc.gaps@)[0]);
                        assert(t@.len() == t.len());
                    }
                    Some((chars_of(label.as_str()), gap.len() + m.len()))
                },
                _ => None,
            }
        },
    }
}

fn cut_prefix(l: &Vec<char>, pat: &str) -> (r: Vec<char>)
    requires
        starts_with(l@, pat@),
    ensures
        r@ == l@.skip(pat@.len() as int),
{
    let k = chars_of(pat).len();
    slice_of(l, k, l.len())
}

fn copy_buf(l: &Vec<char>) -> (r: Vec<char>)
    ensures
        r@ == l@,
{
    let r = slice_of(l, 0, l.len());
    assert(r@ =~= l@);
    r
}

fn unindented_exec(l: &Vec<char>) -> (r: Vec<char>)
    ensures
        r@ == unindented(l@),
{
    if starts_with_str(l, "    ") {
        cut_prefix(l, "    ")
    } else if starts_with_str(l, "\t") {
        cut_prefix(l, "\t")
    } else {
        copy_buf(l)
    }
}

fn unquoted_exec(l: &Vec<char>) -> (r: Vec<char>)
    ensures
        r@ == unquoted(l@),
{
    if starts_with_str(l, "> ") {
        cut_prefix(l, "> ")
    } else if starts_with_str(l, ">") {
        cut_prefix(l, ">")
    } else {
        copy_buf(l)
    }
}

fn item_start_exec(l: &Vec<char>) -> (r: bool)
    ensures
        r == item_start(l@),
{
    starts_with_str(l, "- ") || starts_with_str(l, "* ") || starts_with_str(l, "+ ")
}

fn body_lines_exec(t: &Vec<char>, m: usize) -> (r: Vec<Vec<char>>)
    ensures
        buf_views(r@) == body_lines(t@, m as int),
{
    let ls = lines_exec(t);
    let ghost lv = buf_views(ls@);
    let mut r: Vec<Vec<char>> = Vec::new();
    let mut i: usize = 0;
    while i < ls.len()
        invariant
            i <= ls.len(),
            lv == buf_views(ls@),
            lv == lines_of(t@),
            buf_views(r@) == body_lines(t@, m as int).take(i as int),
        decreases ls.len() - i,
    {
        assert(lv[i as int] == ls@[i as int]@);
        let x = if i == 0 {
            let k = if m <= ls[0].len() {
                m
            } else {
                ls[0].len()
            };
            slice_of(&ls[0], k, ls[0].len())
        } else {
            unindented_exec(&ls[i])
        };
        let ghost before = r@;
        r.push(x);
        assert(buf_views(r@) =~= buf_views(before).push(x@));
        assert(body_lines(t@, m as int).take(i + 1) =~= body_lines(t@, m as int).take(i as int).push(x@));
        i += 1;
    }
    assert(body_lines(t@, m as int).take(ls.len() as int) =~= body_lines(t@, m as int));
    r
}

fn paragraphs_exec(b: &Vec<Vec<char>>) -> (r: Vec<Vec<Vec<char>>>)
    ensures
        nested_views(r@) == paragraphs(buf_views(b@)),
{
    let ghost bv = buf_views(b@);
    let mut g: Vec<Vec<Vec<char>>> = Vec::new();
    g.push(Vec::new());
    assert(nested_views(g@) =~= seq![Seq::<Seq<char>>::empty()]) by {
        assert(buf_views(g@[0]@) =~= Seq::<Seq<char>>::empty());
    }
    let mut i: usize = 0;
    while i < b.len()
        invariant
            i <= b.len(),
            bv == buf_views(b@),
            g.len() >= 1,
            nested_views(g@) == para_groups(bv.take(i as int)),
        decreases b.len() - i,
    {
        assert(bv.take(i + 1).drop_last() =~= bv.take(i as int));
        assert(bv[i as int] == b@[i as int]@);
        let t = trim_chars(&b[i]);
        let n = g.len();
        if t.len() == 0 {
            if g[n - 1].len() > 0 {
                let ghost before = g@;
                g.push(Vec::new());
                assert(nested_views(g@) =~= nested_views(before).push(Seq::<Seq<char>>::empty())) by {
                    assert(buf_views(g@[n as int]@) =~= Seq::<Seq<char>>::empty());
                }
            }
        } else {
            let ghost before = g@;
            let mut last = g.pop().unwrap();
            let ghost lb = last@;
            last.push(copy_buf(&b[i]));
            g.push(last);
            assert(nested_views(g@) =~= nested_views(before).update(n - 1, nested_views(before)[n - 1].push(bv[i as int]))) by {
                assert(buf_views(g@[n - 1]@) =~= buf_views(lb).push(bv[i as int]));
            }
        }
        i += 1;
    }
    assert(bv.take(b.len() as int) =~= bv);
    let n = g.len();
    if g[n - 1].len() == 0 {
        let ghost before = g@;
        g.pop();
        assert(nested_views(g@) =~= nested_views(before).drop_last());
    }
    g
}

fn join_space(v: &Vec<Vec<char>>) -> (r: Vec<char>)
    ensures
        r@ == join(buf_views(v@), seq![' ']),
{
    let mut sp: Vec<char> = Vec::new();
    sp.push(' ');
    assert(sp@ =~= seq![' ']);
    join_bufs(v, &sp)
}

fn para_out_exec(para: &Vec<Vec<char>>, first: bool, w: &LineWrapper, fp: &Vec<char>, fs: &Vec<char>) -> (r: Vec<char>)
    ensures
        r@ == para_out(buf_views(para@), first, *w, fp@, fs@),
{
    let ghost pv = buf_views(para@);
    let lead = if first {
        copy_buf(fp)
    } else {
        copy_buf(fs)
    };
    let mut all_quoted = true;
    let mut i: usize = 0;
    while i < para.len()
        invariant
            i <= para.len(),
            pv == buf_views(para@),
            all_quoted == forall|j: int| 0 <= j < i ==> starts_with(#[trigger] pv[j], ">"@),
        decreases para.len() - i,
    {
        assert(pv[i as int] == para@[i as int]@);
        let q = starts_with_str(&para[i], ">");
        all_quoted = all_quoted && q;
        i += 1;
    }
    if all_quoted {
        let mut un: Vec<Vec<char>> = Vec::new();
        let mut k: usize = 0;
        while k < para.len()
            invariant
                k <= para.len(),
                pv == buf_views(para@),
                buf_views(un@) == pv.take(k as int).map_values(|l: Seq<char>| unquoted(l)),
            decreases para.len() - k,
        {
            assert(pv[k as int] == para@[k as int]@);
            let x = unquoted_exec(&para[k]);
            let ghost before = un@;
            un.push(x);
            assert(buf_views(un@) =~= buf_views(before).push(x@));
            assert(pv.take(k + 1).map_values(|l: Seq<char>| unquoted(l)) =~= buf_views(un@));
            k += 1;
        }
        assert(pv.take(para.len() as int) =~= pv);
        let joined = trim_chars(&join_space(&un));
        let ii = with_suffix(&lead, "> ");
        let si = with_suffix(fs, "> ");
        proof {
            reveal_strlit("> ");
            assert("> "@ =~= seq!['>', ' ']);
            assert(buf_views(un@) =~= pv.map_values(|l: Seq<char>| unquoted(l)));
        }
        wrap_buf(w, &joined, &ii, &si)
    } else {
        let joined = trim_chars(&join_space(para));
        wrap_buf(w, &joined, &lead, fs)
    }
}

fn first_from_one_exec(b: &Vec<Vec<char>>, quote: bool) -> (r: usize)
    ensures
        r as int == first_from_one(buf_views(b@), if quote {
            quote_start()
        } else {
            list_start()
        }),
{
    let ghost bv = buf_views(b@);
    let ghost p = if quote {
        quote_start()
    } else {
        list_start()
    };
    let mut i: usize = 1;
    while i < b.len()
        invariant
            1 <= i,
            bv == buf_views(b@),
            p == (if quote { quote_start() } else { list_start() }),
            forall|j: int| 1 <= j < i && j < bv.len() ==> !p(bv[j]),
        decreases b.len() - i,
    {
        assert(bv[i as int] == b@[i as int]@);
        let hit = if quote {
            starts_with_str(&b[i], ">")
        } else {
            item_start_exec(&b[i])
        };
        assert(hit == p(bv[i as int]));
        if hit {
            proof {
                let c = choose|c: int| 1 <= c < bv.len() && p(bv[c]) && forall|j: int| 1 <= j < c ==> !p(bv[j]);
                assert(p(bv[i as int]));
                if c < i {
                    assert(!p(bv[c]));
                }
                if c > i {
                }
            }
            return i;
        }
        i += 1;
    }
    b.len()
}

fn items_out_exec(ls: &Vec<Vec<char>>, w: &LineWrapper, fs: &Vec<char>) -> (r: Vec<char>)
    ensures
        r@ == items_out(buf_views(ls@), *w, fs@),
{
    let ghost lv = buf_views(ls@);
    proof {
        reveal_strlit("  ");
        reveal_strlit("- ");
        reveal_strlit("* ");
        reveal_strlit("+ ");
        assert("  "@ =~= seq![' ', ' ']);
        assert("- "@ =~= seq!['-', ' ']);
        assert("* "@ =~= seq!['*', ' ']);
        assert("+ "@ =~= seq!['+', ' ']);
    }
    let mut out: Vec<char> = Vec::new();
    let mut marker: Vec<char> = Vec::new();
    let mut cur: Vec<char> = Vec::new();
    let mut i: usize = 0;
    while i < ls.len()
        invariant
            i <= ls.len(),
            lv == buf_views(ls@),
            (out@, marker@, cur@) == items_scan(lv.take(i as int), *w, fs@),
            "  "@ == seq![' ', ' '],
            "- "@ == seq!['-', ' '],
            "* "@ == seq!['*', ' '],
            "+ "@ == seq!['+', ' '],
        decreases ls.len() - i,
    {
        assert(lv.take(i + 1).drop_last() =~= lv.take(i as int));
        assert(lv[i as int] == ls@[i as int]@);
        let l = &ls[i];
        let ghost prev = items_scan(lv.take(i as int), *w, fs@);
        if item_start_exec(l) {
            let ghost flushed = if prev.2.len() > 0 {
                prev.0 + line_wrapped(*w, trim(prev.2), fs@ + prev.1, fs@ + seq![' ', ' ']) + seq!['\n']
            } else {
                prev.0
            };
            if cur.len() > 0 {
                let t = trim_chars(&cur);
                let mut ii = copy_buf(fs);
                append_chars(&mut ii, &marker);
                let si = with_suffix(fs, "  ");
                proof {
                    reveal_strlit("  ");
                }
                let wr = wrap_buf(w, &t, &ii, &si);
                append_chars(&mut out, &wr);
                out.push('\n');
            }
            proof {
                reveal_strlit("- ");
                reveal_strlit("* ");
                reveal_strlit("+ ");
            }
            marker = slice_of(l, 0, 2);
            cur = slice_of(l, 2, l.len());
            assert(marker@ =~= l@.take(2));
            assert(cur@ =~= l@.skip(2));
            assert(out@ == flushed);
        } else {
            cur.push(' ');
            append_chars(&mut cur, l);
        }
        i += 1;
    }
    assert(lv.take(ls.len() as int) =~= lv);
    if cur.len() > 0 {
        let t = trim_chars(&cur);
        let mut ii = copy_buf(fs);
        append_chars(&mut ii, &marker);
        let si = with_suffix(fs, "  ");
        proof {
            reveal_strlit("  ");
        }
        let wr = wrap_buf(w, &t, &ii, &si);
        append_chars(&mut out, &wr);
    }
    out
}

fn quoted_lines_exec(ls: &Vec<Vec<char>>, w: &LineWrapper, fs: &Vec<char>) -> (r: Vec<char>)
    ensures
        r@ == quoted_lines_out(buf_views(ls@), *w, fs@),
{
    let ghost lv = buf_views(ls@);
    let ghost f = |l: Seq<char>| line_wrapped(*w, trim(unquoted(l)), fs@ + seq!['>', ' '], fs@ + seq!['>', ' ']);
    let pre = with_suffix(fs, "> ");
    proof {
        reveal_strlit("> ");
    }
    let mut out: Vec<char> = Vec::new();
    let mut i: usize = 0;
    while i < ls.len()
        invariant
            i <= ls.len(),
            lv == buf_views(ls@),
            pre@ == fs@ + seq!['>', ' '],
            f == (|l: Seq<char>| line_wrapped(*w, trim(unquoted(l)), fs@ + seq!['>', ' '], fs@ + seq!['>', ' '])),
            out@ == concat(lv.take(i as int).map_values(f)),
        decreases ls.len() - i,
    {
        assert(lv[i as int] == ls@[i as int]@);
        assert(lv.take(i + 1).map_values(f).drop_last() =~= lv.take(i as int).map_values(f));
        let u = trim_chars(&unquoted_exec(&ls[i]));
        let wr = wrap_buf(w, &u, &pre, &pre);
        append_chars(&mut out, &wr);
        i += 1;
    }
    assert(lv.take(ls.len() as int) =~= lv);
    out
}

fn multi_out_exec(ps: &Vec<Vec<Vec<char>>>, w: &LineWrapper, fp: &Vec<char>, fs: &Vec<char>) -> (r: Vec<char>)
    ensures
        r@ == multi_out(nested_views(ps@), *w, fp@, fs@),
{
    let ghost pv = nested_views(ps@);
    let mut out: Vec<char> = Vec::new();
    let mut i: usize = 0;
    while i < ps.len()
        invariant
            i <= ps.len(),
            pv == nested_views(ps@),
            out@ == multi_out(pv.take(i as int), *w, fp@, fs@),
        decreases ps.len() - i,
    {
        assert(pv.take(i + 1).drop_last() =~= pv.take(i as int));
        assert(pv[i as int] == buf_views(ps@[i as int]@));
        let one = para_out_exec(&ps[i], i == 0, w, fp, fs);
        append_chars(&mut out, &one);
        out.push('\n');
        out.push('\n');
        i += 1;
    }
    assert(pv.take(ps.len() as int) =~= pv);
    out
}

fn take_lines(b: &Vec<Vec<char>>, lo: usize, hi: usize) -> (r: Vec<Vec<char>>)
    requires
        lo <= hi <= b.len(),
    ensures
        buf_views(r@) == buf_views(b@).subrange(lo as int, hi as int),
{
    let mut r: Vec<Vec<char>> = Vec::new();
    let mut i: usize = lo;
    while i < hi
        invariant
            lo <= i <= hi <= b.len(),
            buf_views(r@) == buf_views(b@).subrange(lo as int, i as int),
        decreases hi - i,
    {
        let x = copy_buf(&b[i]);
        let ghost before = r@;
        r.push(x);
        assert(buf_views(r@) =~= buf_views(before).push(x@));
        assert(buf_views(b@).subrange(lo as int, i + 1) =~= buf_views(b@).subrange(lo as int, i as int).push(b@[i as int]@));
        i += 1;
    }
    r
}

#[verifier::spinoff_prover]
#[verifier::rlimit(60)]
fn single_out_exec(b: &Vec<Vec<char>>, w: &LineWrapper, sp: ListSpacing, fp: &Vec<char>, fs: &Vec<char>) -> (r: Vec<char>)
    ensures
        r@ == single_out(buf_views(b@), *w, sp, fp@, fs@),
{
    let ghost bv = buf_views(b@);
    let q = first_from_one_exec(b, true);
    let li = first_from_one_exec(b, false);
    let mut out: Vec<char> = Vec::new();
    if q < b.len() {
        let head = take_lines(b, 0, q);
        let tail = take_lines(b, q, b.len());
        assert(bv.subrange(0, q as int) =~= bv.take(q as int));
        assert(bv.subrange(q as int, b.len() as int) =~= bv.skip(q as int));
        let t = trim_chars(&join_space(&head));
        out = wrap_buf(w, &t, fp, fs);
        out.push('\n');
        let ql = quoted_lines_exec(&tail, w, fs);
        append_chars(&mut out, &ql);
        out.push('\n');
        out.push('\n');
    } else if li < b.len() {
        let head = take_lines(b, 0, li);
        let tail = take_lines(b, li, b.len());
        assert(bv.subrange(0, li as int) =~= bv.take(li as int));
        assert(bv.subrange(li as int, b.len() as int) =~= bv.skip(li as int));
        let t = trim_chars(&join_space(&head));
        out = wrap_buf(w, &t, fp, fs);
        out.push('\n');
        if sp == ListSpacing::Loose {
            out.push('\n');
        }
        let items = items_out_exec(&tail, w, fs);
        append_chars(&mut out, &items);
        out.push('\n');
        out.push('\n');
    } else {
        let t = trim_chars(&join_space(b));
        out = wrap_buf(w, &t, fp, fs);
        out.push('\n');
        out.push('\n');
    }
    out
}

/// The footnote definition a marker block holds, rendered after `prefix`
/// (see [`fndef_rendered`]).
pub fn render_fndef(literal: &str, w: &LineWrapper, list_spacing: ListSpacing, prefix: &str) -> (r: Option<String>)
    ensures
        match fndef_rendered(literal@, *w, list_spacing, prefix@) {
            Some(x) => r matches Some(y) && y@ == x,
            None => r is None,
        },
{
    let lit = chars_of(literal);
    let t = match fn_text_exec(&lit) {
        Some(t) => t,
        None => {
            return None;
        },
    };
    let out: Vec<char> = match fn_def_start_exec(&t) {
        Some((label, m)) => {
            let b = body_lines_exec(&t, m);
            let ghost bv = buf_views(b@);
            let mut fp = chars_of(prefix);
            fp.push('[');
            fp.push('^');
            append_chars(&mut fp, &label);
            fp.push(']');
            fp.push(':');
            fp.push(' ');
            let mut fs = chars_of(prefix);
            fs.push(' ');
            fs.push(' ');
            fs.push(' ');
            fs.push(' ');
            assert(fp@ =~= prefix@ + seq!['[', '^'] + label@ + seq![']', ':', ' ']);
            assert(fs@ =~= prefix@ + seq![' ', ' ', ' ', ' ']);
            let mut blank = false;
            let mut i: usize = 1;
            while i < b.len()
                invariant
                    1 <= i,
                    bv == buf_views(b@),
                    blank == exists|j: int| 1 <= j < i && j < bv.len() && trim(#[trigger] bv[j]).len() == 0,
                decreases b.len() - i,
            {
                assert(bv[i as int] == b@[i as int]@);
                if trim_chars(&b[i]).len() == 0 {
                    blank = true;
                }
                i += 1;
            }
            if blank {
                let ps = paragraphs_exec(&b);
                multi_out_exec(&ps, w, &fp, &fs)
            } else {
                single_out_exec(&b, w, list_spacing, &fp, &fs)
            }
        },
        None => {
            let ls = lines_exec(&t);
            let ghost lv = buf_views(ls@);
            let ghost f = |l: Seq<char>| prefix@ + l + seq!['\n'];
            let mut out: Vec<char> = Vec::new();
            let mut i: usize = 0;
            while i < ls.len()
                invariant
                    i <= ls.len(),
                    lv == buf_views(ls@),
                    f == (|l: Seq<char>| prefix@ + l + seq!['\n']),
                    out@ == concat(lv.take(i as int).map_values(f)),
                decreases ls.len() - i,
            {
                assert(lv[i as int] == ls@[i as int]@);
                assert(lv.take(i + 1).map_values(f).drop_last() =~= lv.take(i as int).map_values(f));
                append_str(&mut out, prefix);
                append_chars(&mut out, &ls[i]);
                out.push('\n');
                i += 1;
            }
            assert(lv.take(ls.len() as int) =~= lv);
            out
        },
    };
    Some(string_of(&out))
}

} // verus!
