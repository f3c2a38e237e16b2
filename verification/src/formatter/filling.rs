//! Text-level preparation of Markdown before parsing: link reference and
//! footnote definitions are wrapped in HTML comment markers (so that a
//! parser keeps them where they are), labels are hex-encoded, and runs of
//! blank lines outside code are collapsed.

use vstd::prelude::*;
use crate::formatter::fences::{outside_code, outside_code_flags};
use crate::formatter::ref_defs::LinkRefDefs;
use crate::regex_scan::{
    RegexScan, group_or_empty, group_present, group_text, group_views, has_group, is_match,
    regex_finds, regex_scan_of, scan, well_formed_scan,
};
use crate::text::{
    append_chars, append_str, buf_views, chars_of, join, join_bufs, push_buf, slice_of, starts_with,
    starts_with_str, string_of, trim, trim_chars, views,
};
use crate::wrapping::text_filling::text_lines;

verus! {

/// Start of the marker that wraps a link reference definition. The private
/// use character keeps it apart from comments an author writes.
pub const REFDEF_MARKER_PREFIX: &'static str = "<!-- \u{F002}REFDEF:";

/// First line of the marker block that wraps a footnote definition.
pub const FNDEF_MARKER_START: &'static str = "<!-- \u{F002}FNDEF";

/// End of a marker.
pub const MARKER_END: &'static str = "-->";

/// A link reference definition line: `[label]: url`, optionally with a
/// title in double quotes, single quotes or parentheses.
pub const LINK_REF_DEF_PATTERN: &'static str = "(?m)^[ \\t]{0,3}\\[([^\\]]+)\\]:[ \\t]+<?([^\\s>]+)>?(?:[ \\t]+(?:\"([^\"]*)\"|'([^']*)'|\\(([^)]*)\\)))?[ \\t]*$";

/// The start of a footnote definition: `[^label]: `.
pub const FOOTNOTE_DEF_START_PATTERN: &'static str = r"^[ \t]{0,3}\[\^([^\]]+)\]:[ \t]+";

// ---------------------------------------------------------------------------
// Outside calls
// ---------------------------------------------------------------------------

/// What `str::to_lowercase` returns for a text.
pub uninterp spec fn lowercase_of(s: Seq<char>) -> Seq<char>;

/// `str::to_lowercase`: the lowercase equivalent of the text under the
/// Unicode `Lowercase` mapping.
///
/// Claimed of std: the result is a function of the text alone.
#[verifier::external_body]
pub(crate) fn to_lowercase(s: &str) -> (r: String)
    ensures
        r@ == lowercase_of(s@),
{
    s.to_lowercase()
}

/// `String::from_utf8`: the text the bytes encode, when they are valid
/// UTF-8.
///
/// Claimed of std: `Some` exactly for valid UTF-8, and then the decoded
/// scalar values (as `vstd::utf8` defines validity and decoding).
#[verifier::external_body]
pub(crate) fn string_from_utf8(bytes: Vec<u8>) -> (r: Option<String>)
    ensures
        r is Some <==> vstd::utf8::valid_utf8(bytes@),
        r matches Some(s) ==> s@ == vstd::utf8::decode_utf8(bytes@),
{
    String::from_utf8(bytes).ok()
}

/// The first match of a pattern (the capture groups), if any.
pub open spec fn first_captures(pattern: Seq<char>, text: Seq<char>) -> Option<Seq<Option<Seq<char>>>> {
    match regex_scan_of(pattern, text) {
        Some(sc) => if sc.1.len() > 0 {
            Some(sc.1[0])
        } else {
            None
        },
        None => None,
    }
}

/// Output text of a line-by-line rewrite: the lines joined with newlines,
/// with a final newline when the input had one.
pub open spec fn relined(lines: Seq<Seq<char>>, text: Seq<char>) -> Seq<char> {
    let out = join(lines, seq!['\n']);
    if text.len() > 0 && text.last() == '\n' {
        out.push('\n')
    } else {
        out
    }
}

pub(crate) fn newline() -> (r: Vec<char>)
    ensures
        r@ == seq!['\n'],
{
    let mut r: Vec<char> = Vec::new();
    r.push('\n');
    assert(r@ =~= seq!['\n']);
    r
}

pub(crate) fn ends_with_newline(v: &Vec<char>) -> (b: bool)
    ensures
        b == (v@.len() > 0 && v@.last() == '\n'),
{
    v.len() > 0 && v[v.len() - 1] == '\n'
}

pub(crate) fn copy_buf(v: &Vec<char>) -> (r: Vec<char>)
    ensures
        r@ == v@,
{
    let r = slice_of(v, 0, v.len());
    assert(v@.subrange(0, v@.len() as int) =~= v@);
    r
}

pub(crate) fn lines_of(text: &str) -> (r: Vec<Vec<char>>)
    ensures
        buf_views(r@) == text_lines(text@),
{
    let v = chars_of(text);
    let lines = crate::wrapping::text_filling::text_lines_chars(&v);
    lines
}

// ---------------------------------------------------------------------------
// Link reference definitions
// ---------------------------------------------------------------------------

/// The match of a line as a link reference definition whose label is not a
/// footnote label (`^...`).
pub open spec fn refdef_match(line: Seq<char>) -> Option<Seq<Option<Seq<char>>>> {
    match first_captures(LINK_REF_DEF_PATTERN@, line) {
        Some(caps) => {
            let label = group_text(caps, 1);
            if label.len() > 0 && label[0] == '^' {
                None
            } else {
                Some(caps)
            }
        },
        None => None,
    }
}

/// The destination of a definition: its URL, then its title in double
/// quotes when it has a non-empty one.
pub open spec fn refdef_destination(caps: Seq<Option<Seq<char>>>) -> Seq<char> {
    let url = group_text(caps, 2);
    let title = if group_present(caps, 3) {
        group_text(caps, 3)
    } else if group_present(caps, 4) {
        group_text(caps, 4)
    } else {
        group_text(caps, 5)
    };
    if title.len() == 0 {
        url
    } else {
        url + seq![' ', '"'] + title + seq!['"']
    }
}

/// A definition line wrapped in a marker; other lines unchanged.
pub open spec fn refdef_line(line: Seq<char>) -> Seq<char> {
    if refdef_match(line) is Some {
        REFDEF_MARKER_PREFIX@ + line + seq![' '] + MARKER_END@
    } else {
        line
    }
}

/// The definitions found among the first `n` lines outside fenced code, a
/// later definition of a label replacing an earlier one.
pub open spec fn refdefs_upto(lines: Seq<Seq<char>>, n: int) -> Map<Seq<char>, Seq<char>>
    decreases n,
{
    if n <= 0 {
        Map::empty()
    } else {
        let m = refdefs_upto(lines, n - 1);
        let line = lines[n - 1];
        if outside_code(lines, n - 1) && refdef_match(line) is Some {
            let caps = refdef_match(line)->Some_0;
            m.insert(lowercase_of(group_text(caps, 1)), refdef_destination(caps))
        } else {
            m
        }
    }
}

/// The text `extract_link_ref_defs` returns.
pub open spec fn refdefs_marked(text: Seq<char>) -> Seq<char> {
    let lines = text_lines(text);
    relined(
        Seq::new(lines.len(), |i: int| if outside_code(lines, i) { refdef_line(lines[i]) } else { lines[i] }),
        text,
    )
}

fn first_match(pattern: &str, text: &str) -> (r: Option<RegexScan>)
    ensures
        match r {
            Some(sc) => {
                &&& sc.groups.len() > 0
                &&& well_formed_scan(views(sc.gaps@), group_views(sc.groups@))
                &&& first_captures(pattern@, text@) == Some(group_views(sc.groups@)[0])
                &&& regex_scan_of(pattern@, text@) == Some((views(sc.gaps@), group_views(sc.groups@)))
            },
            None => first_captures(pattern@, text@) is None,
        },
{
    match scan(pattern, text) {
        Some(sc) => if sc.groups.len() > 0 {
            Some(sc)
        } else {
            None
        },
        None => None,
    }
}

fn refdef_destination_exec(sc: &RegexScan) -> (r: Vec<char>)
    requires
        sc.groups.len() > 0,
    ensures
        r@ == refdef_destination(group_views(sc.groups@)[0]),
{
    let url = group_or_empty(sc, 0, 2);
    let title = if has_group(sc, 0, 3) {
        group_or_empty(sc, 0, 3)
    } else if has_group(sc, 0, 4) {
        group_or_empty(sc, 0, 4)
    } else {
        group_or_empty(sc, 0, 5)
    };
    if title.len() == 0 {
        return url;
    }
    let mut r = url;
    r.push(' ');
    r.push('"');
    append_chars(&mut r, &title);
    r.push('"');
    assert(r@ =~= refdef_destination(group_views(sc.groups@)[0]));
    r
}

/// One line outside code: a definition is recorded and wrapped in a marker.
fn process_refdef_line(line: &Vec<char>, defs: &mut LinkRefDefs) -> (r: Vec<char>)
    requires
        old(defs).wf(),
    ensures
        final(defs).wf(),
        r@ == refdef_line(line@),
        final(defs).view() == match refdef_match(line@) {
            Some(caps) => old(defs).view().insert(lowercase_of(group_text(caps, 1)), refdef_destination(caps)),
            None => old(defs).view(),
        },
{
    let ls_str = string_of(line);
    match first_match(LINK_REF_DEF_PATTERN, ls_str.as_str()) {
        Some(sc) => {
            let label = group_or_empty(&sc, 0, 1);
            if !(label.len() > 0 && label[0] == '^') {
                let ls2 = string_of(&label);
                let key = to_lowercase(ls2.as_str());
                let dest = refdef_destination_exec(&sc);
                defs.insert(key, string_of(&dest));
                let mut marked = chars_of(REFDEF_MARKER_PREFIX);
                append_chars(&mut marked, line);
                append_str(&mut marked, " -->");
                assert(marked@ =~= REFDEF_MARKER_PREFIX@ + line@ + seq![' '] + MARKER_END@) by {
                    reveal_strlit("-->");
                    reveal_strlit(" -->");
                }
                return marked;
            }
            copy_buf(line)
        },
        None => copy_buf(line),
    }
}

/// Wrap the link reference definitions outside fenced code in markers and
/// collect them: lowercase label to destination.
pub fn extract_link_ref_defs(text: &str) -> (r: (LinkRefDefs, String))
    ensures
        r.0.wf(),
        r.0.view() == refdefs_upto(text_lines(text@), text_lines(text@).len() as int),
        r.1@ == refdefs_marked(text@),
{
    let lines = lines_of(text);
    let ghost ls = buf_views(lines@);
    let flags = outside_code_flags(&lines);
    let ghost target = Seq::new(ls.len(), |i: int| if outside_code(ls, i) { refdef_line(ls[i]) } else { ls[i] });
    let mut defs = LinkRefDefs::new();
    let mut out: Vec<Vec<char>> = Vec::new();
    let mut i: usize = 0;
    while i < lines.len()
        invariant
            i <= lines.len() == flags.len(),
            ls == buf_views(lines@),
            forall|j: int| 0 <= j < lines.len() ==> flags@[j] == outside_code(ls, j),
            target == Seq::new(ls.len(), |i: int| if outside_code(ls, i) { refdef_line(ls[i]) } else { ls[i] }),
            defs.wf(),
            defs.view() == refdefs_upto(ls, i as int),
            buf_views(out@) == target.take(i as int),
        decreases lines.len() - i,
    {
        assert(ls[i as int] == lines@[i as int]@);
        let new_line = if flags[i] {
            process_refdef_line(&lines[i], &mut defs)
        } else {
            copy_buf(&lines[i])
        };
        push_buf(&mut out, new_line);
        assert(buf_views(out@) =~= target.take(i + 1));
        i += 1;
    }
    assert(target.take(lines.len() as int) =~= target);
    let nl = newline();
    let mut joined = join_bufs(&out, &nl);
    let v = chars_of(text);
    if ends_with_newline(&v) {
        joined.push('\n');
    }
    (defs, string_of(&joined))
}

/// Index of the first `c` in `s` (its length when there is none).
pub open spec fn first_index_of(s: Seq<char>, c: char) -> int
    decreases s.len(),
{
    if s.len() == 0 {
        0
    } else if s[0] == c {
        0
    } else {
        1 + first_index_of(s.drop_first(), c)
    }
}

/// The text `lowercase_refdef_label` returns: the label of the first
/// definition match (the text after the match's first `[`) lowercased, the
/// rest unchanged.
pub open spec fn refdef_label_lowered(def: Seq<char>) -> Seq<char> {
    match regex_scan_of(LINK_REF_DEF_PATTERN@, def) {
        Some(sc) => if sc.1.len() > 0 && group_present(sc.1[0], 1) {
            let label = group_text(sc.1[0], 1);
            let start = sc.0[0].len() + first_index_of(group_text(sc.1[0], 0), '[') + 1;
            if start + label.len() <= def.len() {
                def.take(start) + lowercase_of(label) + def.skip(start + label.len())
            } else {
                def
            }
        } else {
            def
        },
        None => def,
    }
}

pub(crate) fn first_index_exec(s: &Vec<char>, c: char) -> (r: usize)
    ensures
        r == first_index_of(s@, c),
        r <= s.len(),
{
    let mut i: usize = 0;
    assert(s@.skip(0) =~= s@);
    while i < s.len() && s[i] != c
        invariant
            i <= s.len(),
            first_index_of(s@, c) == i + first_index_of(s@.skip(i as int), c),
        decreases s.len() - i,
    {
        assert(s@.skip(i as int)[0] == s@[i as int]);
        assert(s@.skip(i as int).drop_first() =~= s@.skip(i + 1));
        i += 1;
    }
    if i < s.len() {
        assert(s@.skip(i as int)[0] == s@[i as int]);
    }
    i
}

/// Lowercase the label of a link reference definition line, keeping the
/// URL, the title and the white space as they are. A text that is not a
/// definition is returned unchanged.
pub fn lowercase_refdef_label(def: &str) -> (r: String)
    ensures
        r@ == refdef_label_lowered(def@),
{
    let d = chars_of(def);
    match scan(LINK_REF_DEF_PATTERN, def) {
        Some(sc) => {
            if sc.groups.len() > 0 && has_group(&sc, 0, 1) {
                let label = group_or_empty(&sc, 0, 1);
                let whole = group_or_empty(&sc, 0, 0);
                let g0 = crate::regex_scan::gap(&sc, 0);
                let idx = first_index_exec(&whole, '[');
                let start: u128 = g0.len() as u128 + idx as u128 + 1;
                if start + (label.len() as u128) <= d.len() as u128 {
                    let s = start as usize;
                    let e = s + label.len();
                    let mut out = slice_of(&d, 0, s);
                    let ls = string_of(&label);
                    let low = to_lowercase(ls.as_str());
                    append_str(&mut out, low.as_str());
                    let tail = slice_of(&d, e, d.len());
                    append_chars(&mut out, &tail);
                    assert(out@ =~= refdef_label_lowered(def@));
                    return string_of(&out);
                }
            }
            string_of(&d)
        },
        None => string_of(&d),
    }
}

// ---------------------------------------------------------------------------
// Footnote definitions
// ---------------------------------------------------------------------------

/// A line that continues a footnote definition: indented by two spaces or a
/// tab, or blank.
pub open spec fn continues_footnote(line: Seq<char>) -> bool {
    starts_with(line, seq![' ', ' ']) || starts_with(line, seq!['\t']) || trim(line).len() == 0
}

/// The first index from `j` on whose line does not continue a definition.
pub open spec fn continuation_end(lines: Seq<Seq<char>>, j: int) -> int
    decreases lines.len() - j,
{
    if 0 <= j < lines.len() && continues_footnote(lines[j]) {
        continuation_end(lines, j + 1)
    } else {
        j
    }
}

pub proof fn lemma_continuation_end(lines: Seq<Seq<char>>, j: int)
    requires
        0 <= j,
    ensures
        j <= continuation_end(lines, j),
        j <= lines.len() ==> continuation_end(lines, j) <= lines.len(),
    decreases lines.len() - j,
{
    if 0 <= j < lines.len() && continues_footnote(lines[j]) {
        lemma_continuation_end(lines, j + 1);
    }
}

/// Number of blank lines at the end.
pub open spec fn trailing_blank_count(d: Seq<Seq<char>>) -> nat
    decreases d.len(),
{
    if d.len() > 0 && trim(d.last()).len() == 0 {
        1 + trailing_blank_count(d.drop_last())
    } else {
        0
    }
}

/// The output lines for the input lines from `i` on, given the fence state.
/// A definition (its first line and the lines that continue it, without
/// the blank ones at its end) is wrapped in a marker block; the blank lines
/// follow the block.
pub open spec fn footnote_lines(lines: Seq<Seq<char>>, i: int, in_code: bool, fence: Seq<char>) -> Seq<Seq<char>>
    decreases lines.len() - i,
{
    if i < 0 || i >= lines.len() {
        Seq::empty()
    } else {
        let line = lines[i];
        let t = trim(line);
        if in_code {
            seq![line] + footnote_lines(lines, i + 1, !crate::formatter::fences::closing_fence(t, fence), fence)
        } else if crate::formatter::fences::opening_fence(t) is Some {
            seq![line] + footnote_lines(
                lines,
                i + 1,
                true,
                crate::formatter::fences::opening_fence(t)->Some_0,
            )
        } else if regex_finds(FOOTNOTE_DEF_START_PATTERN@, line) {
            let j = continuation_end(lines, i + 1);
            proof {
                lemma_continuation_end(lines, i + 1);
            }
            let def = lines.subrange(i, j);
            let blanks = trailing_blank_count(def);
            let kept = def.take(def.len() - blanks);
            seq![FNDEF_MARKER_START@] + kept + seq![MARKER_END@] + Seq::new(blanks, |k: int| Seq::<char>::empty())
                + footnote_lines(lines, j, false, fence)
        } else {
            seq![line] + footnote_lines(lines, i + 1, false, fence)
        }
    }
}

/// The text `extract_footnote_defs` returns.
pub open spec fn footnotes_marked(text: Seq<char>) -> Seq<char> {
    let out = join(footnote_lines(text_lines(text), 0, false, Seq::empty()), seq!['\n']);
    if text.len() > 0 && text.last() == '\n' && !(out.len() > 0 && out.last() == '\n') {
        out.push('\n')
    } else {
        out
    }
}

fn continues_footnote_exec(line: &Vec<char>) -> (b: bool)
    ensures
        b == continues_footnote(line@),
{
    proof {
        assert(seq![' ', ' '] =~= "  "@) by {
            reveal_strlit("  ");
        }
        assert(seq!['\t'] =~= "\t"@) by {
            reveal_strlit("\t");
        }
    }
    starts_with_str(line, "  ") || starts_with_str(line, "\t") || trim_chars(line).len() == 0
}

/// Wrap each footnote definition outside fenced code (with its continuation
/// lines) in a marker block.
pub fn extract_footnote_defs(text: &str) -> (r: String)
    ensures
        r@ == footnotes_marked(text@),
{
    let lines = lines_of(text);
    let ghost ls = buf_views(lines@);
    let n = lines.len();
    let mut out: Vec<Vec<char>> = Vec::new();
    let mut in_code = false;
    let mut fence: Vec<char> = Vec::new();
    let mut i: usize = 0;
    assert(buf_views(out@) =~= Seq::<Seq<char>>::empty());
    while i < n
        invariant
            i <= n == lines.len(),
            ls == buf_views(lines@),
            buf_views(out@) + footnote_lines(ls, i as int, in_code, fence@) == footnote_lines(
                ls,
                0,
                false,
                Seq::empty(),
            ),
        decreases n - i,
    {
        let ghost before = buf_views(out@);
        let ghost rest = footnote_lines(ls, i as int, in_code, fence@);
        assert(ls[i as int] == lines@[i as int]@);
        let line = copy_buf(&lines[i]);
        let t = trim_chars(&line);
        if in_code {
            if crate::formatter::fences::is_closing_fence(&t, &fence) {
                in_code = false;
            }
            push_buf(&mut out, line);
            assert(buf_views(out@) + footnote_lines(ls, i + 1, in_code, fence@) =~= before + rest);
            i += 1;
        } else {
            match crate::formatter::fences::detect_opening_fence(&t) {
                Some(fs) => {
                    fence = fs;
                    in_code = true;
                    push_buf(&mut out, line);
                    assert(buf_views(out@) + footnote_lines(ls, i + 1, in_code, fence@) =~= before + rest);
                    i += 1;
                },
                None => {
                    let line_str = string_of(&line);
                    if is_match(FOOTNOTE_DEF_START_PATTERN, line_str.as_str()) {
                        let mut j = i + 1;
                        proof {
                            lemma_continuation_end(ls, i + 1);
                        }
                        while j < n && continues_footnote_exec(&lines[j])
                            invariant
                                i + 1 <= j <= n == lines.len(),
                                ls == buf_views(lines@),
                                continuation_end(ls, i + 1) == continuation_end(ls, j as int),
                            decreases n - j,
                        {
                            assert(ls[j as int] == lines@[j as int]@);
                            j += 1;
                        }
                        if j < n {
                            assert(ls[j as int] == lines@[j as int]@);
                        }
                        assert(continuation_end(ls, j as int) == j);
                        let ghost def = ls.subrange(i as int, j as int);
                        let mut k = j;
                        assert(def.take(j - i) =~= def);
                        while k > i && trim_chars(&lines[k - 1]).len() == 0
                            invariant
                                i <= k <= j <= n == lines.len(),
                                ls == buf_views(lines@),
                                def == ls.subrange(i as int, j as int),
                                trailing_blank_count(def) == (j - k) + trailing_blank_count(
                                    def.take(k - i),
                                ),
                            decreases k,
                        {
                            assert(ls[k - 1] == lines@[k - 1]@);
                            assert(def.take(k - i).last() == ls[k - 1]);
                            assert(def.take(k - i).drop_last() =~= def.take(k - 1 - i));
                            k -= 1;
                        }
                        proof {
                            assert(def.take(j - i) =~= def);
                            if k > i {
                                assert(ls[k - 1] == lines@[k - 1]@);
                                assert(def.take(k - i).last() == ls[k - 1]);
                            }
                        }
                        let ghost blanks = trailing_blank_count(def);
                        assert(blanks == j - k);
                        push_buf(&mut out, chars_of(FNDEF_MARKER_START));
                        let mut m = i;
                        while m < k
                            invariant
                                i <= m <= k <= n == lines.len(),
                                ls == buf_views(lines@),
                                buf_views(out@) == before.push(FNDEF_MARKER_START@) + ls.subrange(i as int, m as int),
                            decreases k - m,
                        {
                            assert(ls[m as int] == lines@[m as int]@);
                            push_buf(&mut out, copy_buf(&lines[m]));
                            assert(buf_views(out@) =~= before.push(FNDEF_MARKER_START@) + ls.subrange(i as int, m + 1));
                            m += 1;
                        }
                        push_buf(&mut out, chars_of(MARKER_END));
                        let mut b = k;
                        let ghost mid = buf_views(out@);
                        while b < j
                            invariant
                                k <= b <= j,
                                buf_views(out@) == mid + Seq::new((b - k) as nat, |q: int| Seq::<char>::empty()),
                            decreases j - b,
                        {
                            push_buf(&mut out, Vec::new());
                            assert(buf_views(out@) =~= mid + Seq::new((b + 1 - k) as nat, |q: int| Seq::<char>::empty()));
                            b += 1;
                        }
                        proof {
                            assert(def.take(def.len() - blanks) =~= ls.subrange(i as int, k as int));
                            assert(buf_views(out@) + footnote_lines(ls, j as int, false, fence@) =~= before + rest);
                        }
                        i = j;
                    } else {
                        push_buf(&mut out, line);
                        assert(buf_views(out@) + footnote_lines(ls, i + 1, false, fence@) =~= before + rest);
                        i += 1;
                    }
                },
            }
        }
    }
    assert(buf_views(out@) =~= buf_views(out@) + Seq::<Seq<char>>::empty());
    let nl = newline();
    let mut joined = join_bufs(&out, &nl);
    let v = chars_of(text);
    if ends_with_newline(&v) && !ends_with_newline(&joined) {
        joined.push('\n');
    }
    string_of(&joined)
}

} // verus!

verus! {

// ---------------------------------------------------------------------------
// Hex-encoded labels
// ---------------------------------------------------------------------------

/// The lowercase hex digit for a value below 16.
pub open spec fn hex_digit(d: u8) -> char {
    if d < 10 {
        (d + 48) as char
    } else {
        (d + 87) as char
    }
}

/// Two lowercase hex digits per byte.
pub open spec fn hex_of(bytes: Seq<u8>) -> Seq<char>
    decreases bytes.len(),
{
    if bytes.len() == 0 {
        Seq::empty()
    } else {
        seq![hex_digit(bytes[0] / 16), hex_digit(bytes[0] % 16)] + hex_of(bytes.drop_first())
    }
}

/// The value of a hex digit byte (either case).
pub open spec fn hex_value(b: u8) -> Option<int> {
    if 48 <= b <= 57 {
        Some(b - 48)
    } else if 97 <= b <= 102 {
        Some(b - 87)
    } else if 65 <= b <= 70 {
        Some(b - 55)
    } else {
        None
    }
}

/// The bytes a sequence of hex digit pairs stands for.
pub open spec fn unhex(bs: Seq<u8>) -> Option<Seq<u8>>
    decreases bs.len(),
{
    if bs.len() == 0 {
        Some(Seq::empty())
    } else if bs.len() == 1 {
        None
    } else {
        match (hex_value(bs[0]), hex_value(bs[1]), unhex(bs.skip(2))) {
            (Some(h), Some(l), Some(rest)) => Some(seq![(h * 16 + l) as u8] + rest),
            _ => None,
        }
    }
}

/// The label a hex payload encodes: `None` unless it is a non-empty, even
/// number of hex digits encoding valid UTF-8.
pub open spec fn decoded_label(hex: Seq<char>) -> Option<Seq<char>> {
    let bs = vstd::utf8::encode_utf8(hex);
    if bs.len() == 0 || bs.len() % 2 != 0 {
        None
    } else {
        match unhex(bs) {
            Some(raw) => if vstd::utf8::valid_utf8(raw) {
                Some(vstd::utf8::decode_utf8(raw))
            } else {
                None
            },
            None => None,
        }
    }
}

fn hex_digit_exec(d: u8) -> (c: char)
    requires
        d < 16,
    ensures
        c == hex_digit(d),
{
    if d < 10 {
        (d + 48) as char
    } else {
        (d + 87) as char
    }
}

/// Hex-encode a label (the UTF-8 bytes, two lowercase digits each) so that
/// it only holds URL-safe characters.
pub fn encode_hex_label(label: &str) -> (r: String)
    ensures
        r@ == hex_of(vstd::utf8::encode_utf8(label@)),
{
    let bytes = label.as_bytes();
    let ghost bs = bytes@;
    let mut out: Vec<char> = Vec::new();
    let mut i: usize = 0;
    assert(bs.skip(0) =~= bs);
    while i < bytes.len()
        invariant
            i <= bytes.len(),
            bs == bytes@,
            out@ + hex_of(bs.skip(i as int)) == hex_of(bs),
        decreases bytes.len() - i,
    {
        let b = bytes[i];
        let ghost before = out@;
        out.push(hex_digit_exec(b / 16));
        out.push(hex_digit_exec(b % 16));
        proof {
            let s = bs.skip(i as int);
            assert(s[0] == b);
            assert(s.drop_first() =~= bs.skip(i + 1));
            assert(out@ + hex_of(bs.skip(i + 1)) =~= before + hex_of(s));
        }
        i += 1;
    }
    assert(hex_of(bs.skip(bytes.len() as int)) =~= Seq::<char>::empty());
    assert(out@ =~= out@ + Seq::<char>::empty());
    string_of(&out)
}

fn hex_value_exec(b: u8) -> (r: Option<u8>)
    ensures
        match hex_value(b) {
            Some(v) => r matches Some(x) && x == v && x < 16,
            None => r is None,
        },
{
    if 48 <= b && b <= 57 {
        Some(b - 48)
    } else if 97 <= b && b <= 102 {
        Some(b - 87)
    } else if 65 <= b && b <= 70 {
        Some(b - 55)
    } else {
        None
    }
}

/// The label a hex payload encodes (see `decoded_label`).
pub fn decode_hex_label(hex: &str) -> (r: Option<String>)
    ensures
        match decoded_label(hex@) {
            Some(s) => r matches Some(x) && x@ == s,
            None => r is None,
        },
{
    let bytes = hex.as_bytes();
    let ghost bs = bytes@;
    if bytes.len() == 0 || bytes.len() % 2 != 0 {
        return None;
    }
    let mut raw: Vec<u8> = Vec::new();
    let mut i: usize = 0;
    assert(bs.skip(0) =~= bs);
    assert(raw@ =~= Seq::<u8>::empty());
    while i < bytes.len()
        invariant
            i <= bytes.len(),
            bs == bytes@,
            bs == vstd::utf8::encode_utf8(hex@),
            bytes.len() % 2 == 0,
            i % 2 == 0,
            unhex(bs) == match unhex(bs.skip(i as int)) {
                Some(rest) => Some(raw@ + rest),
                None => None::<Seq<u8>>,
            },
        decreases bytes.len() - i,
    {
        let s = Ghost(bs.skip(i as int));
        assert(s@.len() >= 2);
        assert(s@[0] == bytes@[i as int] && s@[1] == bytes@[i + 1]);
        assert(s@.skip(2) =~= bs.skip(i + 2));
        let hi = hex_value_exec(bytes[i]);
        let lo = hex_value_exec(bytes[i + 1]);
        match (hi, lo) {
            (Some(h), Some(l)) => {
                let ghost before = raw@;
                raw.push(h * 16 + l);
                proof {
                    match unhex(bs.skip(i + 2)) {
                        Some(rest) => {
                            assert(before + (seq![(h * 16 + l) as u8] + rest) =~= raw@ + rest);
                        },
                        None => {},
                    }
                }
            },
            _ => {
                assert(unhex(s@) is None);
                return None;
            },
        }
        i += 2;
    }
    assert(bs.skip(bytes.len() as int) =~= Seq::<u8>::empty());
    assert(raw@ + Seq::<u8>::empty() =~= raw@);
    string_from_utf8(raw)
}

/// The lowercase alt text of a badge image (`![alt](url)`), or `None` when
/// the text does not start with `![` or has no `]` after it.
pub open spec fn badge_alt(image: Seq<char>) -> Option<Seq<char>> {
    if starts_with(image, seq!['!', '[']) && image.skip(2).contains(']') {
        Some(lowercase_of(image.skip(2).take(first_index_of(image.skip(2), ']'))))
    } else {
        None
    }
}

/// The lowercase alt text of a badge image segment `![alt](url)`.
pub fn badge_alt_lowercase(image_markdown: &str) -> (r: Option<String>)
    ensures
        match badge_alt(image_markdown@) {
            Some(a) => r matches Some(x) && x@ == a,
            None => r is None,
        },
{
    let v = chars_of(image_markdown);
    proof {
        assert(seq!['!', '['] =~= "!["@) by {
            reveal_strlit("![");
        }
    }
    if !starts_with_str(&v, "![") {
        return None;
    }
    let rest = slice_of(&v, 2, v.len());
    assert(rest@ =~= v@.skip(2));
    let end = first_index_exec(&rest, ']');
    if end == rest.len() {
        proof {
            if rest@.contains(']') {
                lemma_first_index_found(rest@, ']');
            }
        }
        return None;
    }
    proof {
        lemma_first_index_found(rest@, ']');
    }
    let alt = slice_of(&rest, 0, end);
    let alt_s = string_of(&alt);
    assert(alt@ =~= rest@.take(end as int));
    Some(to_lowercase(alt_s.as_str()))
}

/// `first_index_of` finds `c` exactly when `c` occurs.
pub proof fn lemma_first_index_found(s: Seq<char>, c: char)
    ensures
        s.contains(c) <==> first_index_of(s, c) < s.len(),
        0 <= first_index_of(s, c) <= s.len(),
        first_index_of(s, c) < s.len() ==> s[first_index_of(s, c)] == c,
    decreases s.len(),
{
    if s.len() > 0 && s[0] != c {
        lemma_first_index_found(s.drop_first(), c);
        let k = first_index_of(s.drop_first(), c);
        if k < s.drop_first().len() {
            assert(s[k + 1] == s.drop_first()[k]);
        }
        if s.contains(c) {
            let k = choose|k: int| 0 <= k < s.len() && s[k] == c;
            assert(s.drop_first()[k - 1] == c);
        }
        if s.drop_first().contains(c) {
            let k = choose|k: int| 0 <= k < s.drop_first().len() && s.drop_first()[k] == c;
            assert(s[k + 1] == c);
        }
    } else if s.len() > 0 {
        assert(s[0] == c);
    }
}

} // verus!

verus! {

/// The byte of a hex digit.
proof fn lemma_hex_digit_byte(d: u8)
    requires
        d < 16,
    ensures
        vstd::utf8::encode_scalar(hex_digit(d) as u32) == seq![(if d < 10 { d + 48 } else { d + 87 }) as u8],
        hex_value((if d < 10 { d + 48 } else { d + 87 }) as u8) == Some(d as int),
{
    let x: u32 = if d < 10 { (d + 48) as u32 } else { (d + 87) as u32 };
    assert(hex_digit(d) as u32 == x);
    assert((x & 0x7F) == x) by (bit_vector)
        requires
            x < 128,
    ;
}

/// The UTF-8 bytes of hex digits, and the bytes they stand for.
proof fn lemma_hex_bytes(bs: Seq<u8>)
    ensures
        vstd::utf8::encode_utf8(hex_of(bs)).len() == 2 * bs.len(),
        unhex(vstd::utf8::encode_utf8(hex_of(bs))) == Some(bs),
    decreases bs.len(),
{
    if bs.len() > 0 {
        let b = bs[0];
        lemma_hex_bytes(bs.drop_first());
        lemma_hex_digit_byte(b / 16);
        lemma_hex_digit_byte(b % 16);
        let h = hex_of(bs);
        let rest = hex_of(bs.drop_first());
        assert(h.drop_first().drop_first() =~= rest);
        assert(h.drop_first()[0] == hex_digit(b % 16));
        let e = vstd::utf8::encode_utf8(h);
        let er = vstd::utf8::encode_utf8(rest);
        assert(vstd::utf8::encode_utf8(h.drop_first()) == vstd::utf8::encode_scalar(hex_digit(b % 16) as u32) + er);
        assert(e.skip(2) =~= er);
        assert(((b / 16) * 16 + b % 16) as u8 == b);
        assert(seq![b] + bs.drop_first() =~= bs);
    }
}

/// Hex-encoding a non-empty label and decoding the result gives the label
/// back.
pub proof fn lemma_hex_label_round_trip(label: Seq<char>)
    requires
        label.len() > 0,
    ensures
        decoded_label(hex_of(vstd::utf8::encode_utf8(label))) == Some(label),
{
    let bs = vstd::utf8::encode_utf8(label);
    lemma_hex_bytes(bs);
    vstd::utf8::encode_utf8_valid_utf8(label);
    vstd::utf8::encode_utf8_decode_utf8(label);
    vstd::utf8::encode_utf8_first_scalar(label);
    assert(bs.len() > 0);
}

} // verus!

verus! {

// ---------------------------------------------------------------------------
// Blank lines
// ---------------------------------------------------------------------------

pub open spec fn blank_line(l: Seq<char>) -> bool {
    trim(l).len() == 0
}

/// A blank line outside code right after another one.
pub open spec fn repeated_blank(lines: Seq<Seq<char>>, i: int) -> bool {
    &&& i > 0
    &&& outside_code(lines, i) && blank_line(lines[i])
    &&& outside_code(lines, i - 1) && blank_line(lines[i - 1])
}

/// The text `collapse_blank_lines_outside_code` returns: runs of blank lines
/// outside fenced code reduced to one.
pub open spec fn blank_lines_collapsed(text: Seq<char>) -> Seq<char> {
    let lines = text_lines(text);
    relined(
        crate::wrapping::tag_handling::gather(
            |i: int| if repeated_blank(lines, i) { Seq::empty() } else { seq![lines[i]] },
            lines.len() as int,
        ),
        text,
    )
}

/// Collapse runs of blank lines to a single blank line, except inside fenced
/// code.
pub fn collapse_blank_lines_outside_code(text: &str) -> (r: String)
    ensures
        r@ == blank_lines_collapsed(text@),
{
    let lines = lines_of(text);
    let ghost ls = buf_views(lines@);
    let flags = outside_code_flags(&lines);
    let ghost f = |i: int| if repeated_blank(ls, i) { Seq::<Seq<char>>::empty() } else { seq![ls[i]] };
    let mut out: Vec<Vec<char>> = Vec::new();
    let mut prev_blank_outside = false;
    let mut i: usize = 0;
    assert(buf_views(out@) =~= crate::wrapping::tag_handling::gather(f, 0));
    while i < lines.len()
        invariant
            i <= lines.len() == flags.len(),
            ls == buf_views(lines@),
            forall|j: int| 0 <= j < lines.len() ==> flags@[j] == outside_code(ls, j),
            f == (|i: int| if repeated_blank(ls, i) { Seq::<Seq<char>>::empty() } else { seq![ls[i]] }),
            i > 0 ==> prev_blank_outside == (outside_code(ls, i - 1) && blank_line(ls[i - 1])),
            buf_views(out@) == crate::wrapping::tag_handling::gather(f, i as int),
        decreases lines.len() - i,
    {
        assert(ls[i as int] == lines@[i as int]@);
        let blank_outside = flags[i] && trim_chars(&lines[i]).len() == 0;
        if !(i > 0 && blank_outside && prev_blank_outside) {
            push_buf(&mut out, copy_buf(&lines[i]));
        }
        assert(buf_views(out@) =~= crate::wrapping::tag_handling::gather(f, i + 1));
        prev_blank_outside = blank_outside;
        i += 1;
    }
    let nl = newline();
    let mut joined = join_bufs(&out, &nl);
    let v = chars_of(text);
    if ends_with_newline(&v) {
        joined.push('\n');
    }
    string_of(&joined)
}

} // verus!
