//! Smart quotes: straight quotes and apostrophes to typographic ones.

use vstd::prelude::*;
use crate::regex_scan::{
    RegexScan, gap, group_or_empty, group_present, group_text, group_views, has_group, is_match,
    regex_finds, regex_scan_of, scan, well_formed_scan, whole,
};
use crate::text::{
    append_chars, chars_of, concat, is_white_space, is_ws, lead_ws, lemma_lead_ws_char, slice_of,
    string_of, trim_end, trim_end_chars, views,
};

verus! {

/// Template tags and HTML comments, inside which nothing is converted.
pub const TEMPLATE_TAG_PATTERN: &'static str = r"(?s)\{%.*?%\}|\{#.*?#\}|\{\{.*?\}\}|<!--.*?-->";

/// A blank line: two newlines with only white space between them.
pub const BLANK_LINE_PATTERN: &'static str = r"\n\s*\n";

/// Quoted text: a double- or single-quoted run without quotes of its kind,
/// after a line start, white space or an em dash, and before white space, a
/// line end, punctuation, an em dash or a closing parenthesis.
pub const QUOTE_PATTERN: &'static str = "(?m)(^|\\s|\u{2014})(?:\"([^\"\u{201c}\u{201d}]*)\"|'([^'\u{2018}\u{2019}]*)')(\\s|$|\\.|,|;|:|\\?|!|\u{2014}|\\))";

/// An apostrophe between word characters.
pub const APOSTROPHE_PATTERN: &'static str = r"(\w)'(\w)";

/// A possessive apostrophe after a final `s` or `S`.
pub const POSSESSIVE_PATTERN: &'static str = r"^\w*[sS]'$";

pub open spec fn multi_paragraph(s: Seq<char>) -> bool {
    regex_finds(BLANK_LINE_PATTERN@, s)
}

/// A quoted match with curly quotes, unless its content spans paragraphs.
pub open spec fn quote_replacement(caps: Seq<Option<Seq<char>>>) -> Seq<char> {
    let prefix = group_text(caps, 1);
    let suffix = group_text(caps, 4);
    let content = if group_present(caps, 2) {
        group_text(caps, 2)
    } else {
        group_text(caps, 3)
    };
    if multi_paragraph(content) {
        whole(caps)
    } else if group_present(caps, 2) {
        prefix + seq!['\u{201c}'] + content + seq!['\u{201d}'] + suffix
    } else {
        prefix + seq!['\u{2018}'] + content + seq!['\u{2019}'] + suffix
    }
}

/// Every quoted match replaced. (If the pattern did not compile, the text
/// would be unchanged.)
pub open spec fn quotes_replaced(text: Seq<char>) -> Seq<char> {
    match regex_scan_of(QUOTE_PATTERN@, text) {
        Some(sc) => concat(Seq::new(sc.1.len(), |k: int| sc.0[k] + quote_replacement(sc.1[k])))
            + sc.0.last(),
        None => text,
    }
}

/// The text inside a quoted match (double or single quoted).
pub open spec fn quoted_content(caps: Seq<Option<Seq<char>>>) -> Seq<char> {
    if group_present(caps, 2) {
        group_text(caps, 2)
    } else {
        group_text(caps, 3)
    }
}

/// Every quoted match is converted on its own, the second and later ones as
/// well as the first: the result is the text between the matches, unchanged,
/// with each match replaced by a piece; the piece of a match whose content
/// has no blank line holds the opening and the closing curly quote of its
/// kind (double or single), and a match whose content spans a blank line is
/// kept as it is.
pub proof fn lemma_every_quote_converted(text: Seq<char>)
    requires
        regex_scan_of(QUOTE_PATTERN@, text) is Some,
    ensures
        ({
            let sc = regex_scan_of(QUOTE_PATTERN@, text)->Some_0;
            exists|pieces: Seq<Seq<char>>|
                #![trigger pieces.len()]
                pieces.len() == sc.1.len() && quotes_replaced(text) == concat(
                    Seq::new(sc.1.len(), |k: int| sc.0[k] + pieces[k]),
                ) + sc.0.last() && (forall|k: int|
                    0 <= k < sc.1.len() ==> {
                        let caps = sc.1[k];
                        let double = group_present(caps, 2);
                        &&& !multi_paragraph(quoted_content(caps)) ==> (#[trigger] pieces[k]).contains(
                            if double {
                                '\u{201c}'
                            } else {
                                '\u{2018}'
                            },
                        ) && pieces[k].contains(
                            if double {
                                '\u{201d}'
                            } else {
                                '\u{2019}'
                            },
                        )
                        &&& multi_paragraph(quoted_content(caps)) ==> pieces[k] == whole(caps)
                    })
        }),
{
    let sc = regex_scan_of(QUOTE_PATTERN@, text)->Some_0;
    let pieces = Seq::new(sc.1.len(), |k: int| quote_replacement(sc.1[k]));
    assert(Seq::new(sc.1.len(), |k: int| sc.0[k] + pieces[k]) =~= Seq::new(
        sc.1.len(),
        |k: int| sc.0[k] + quote_replacement(sc.1[k]),
    ));
    assert forall|k: int| 0 <= k < sc.1.len() implies {
        let caps = sc.1[k];
        let double = group_present(caps, 2);
        &&& !multi_paragraph(quoted_content(caps)) ==> (#[trigger] pieces[k]).contains(
            if double {
                '\u{201c}'
            } else {
                '\u{2018}'
            },
        ) && pieces[k].contains(
            if double {
                '\u{201d}'
            } else {
                '\u{2019}'
            },
        )
        &&& multi_paragraph(quoted_content(caps)) ==> pieces[k] == whole(caps)
    } by {
        let caps = sc.1[k];
        let prefix = group_text(caps, 1);
        let content = quoted_content(caps);
        let r = quote_replacement(caps);
        if !multi_paragraph(content) {
            assert(r[prefix.len() as int] == if group_present(caps, 2) {
                '\u{201c}'
            } else {
                '\u{2018}'
            });
            assert(r[(prefix.len() + 1 + content.len()) as int] == if group_present(caps, 2) {
                '\u{201d}'
            } else {
                '\u{2019}'
            });
        }
    }
    assert(pieces.len() == sc.1.len());
}

/// Number of leading characters that are not white space.
pub open spec fn lead_word(s: Seq<char>) -> nat
    decreases s.len(),
{
    if s.len() > 0 && !is_ws(s[0]) {
        1 + lead_word(s.drop_first())
    } else {
        0
    }
}

pub open spec fn quote_count(s: Seq<char>) -> nat {
    s.filter(|c: char| c == '\'').len()
}

pub open spec fn curl_apostrophes(s: Seq<char>) -> Seq<char> {
    s.map_values(|c: char| if c == '\'' { '\u{2019}' } else { c })
}

/// A word (with the white space after it): its one straight quote becomes an
/// apostrophe when it sits between word characters or ends a possessive.
pub open spec fn apostrophe_word(word: Seq<char>) -> Seq<char> {
    let t = trim_end(word);
    let tail = word.skip(t.len() as int);
    if quote_count(t) != 1 {
        word
    } else if regex_finds(APOSTROPHE_PATTERN@, t) || regex_finds(POSSESSIVE_PATTERN@, t) {
        curl_apostrophes(t) + tail
    } else {
        word
    }
}

/// Length of the first chunk: a run of non-space characters and the white
/// space after it.
pub open spec fn chunk_len(s: Seq<char>) -> int {
    (lead_word(s) + lead_ws(s.skip(lead_word(s) as int))) as int
}

/// The text with `apostrophe_word` applied to each chunk.
pub open spec fn apostrophes(s: Seq<char>) -> Seq<char>
    decreases s.len(),
{
    let n = chunk_len(s);
    if s.len() == 0 || !(0 < n <= s.len()) {
        Seq::empty()
    } else {
        apostrophe_word(s.take(n)) + apostrophes(s.skip(n))
    }
}

/// Smart quotes on a piece of text outside template tags.
pub open spec fn smart_quoted_text(text: Seq<char>) -> Seq<char> {
    apostrophes(quotes_replaced(text))
}

pub open spec fn quoted_if_nonempty(s: Seq<char>) -> Seq<char> {
    if s.len() > 0 {
        smart_quoted_text(s)
    } else {
        Seq::empty()
    }
}

/// The text `smart_quotes` returns: smart quotes between template tags, the
/// tags themselves unchanged. (If the pattern did not compile, the text
/// would count as having no tags.)
pub open spec fn smart_quoted(text: Seq<char>) -> Seq<char> {
    match regex_scan_of(TEMPLATE_TAG_PATTERN@, text) {
        Some(sc) => concat(Seq::new(sc.1.len(), |k: int| quoted_if_nonempty(sc.0[k]) + whole(sc.1[k])))
            + quoted_if_nonempty(sc.0.last()),
        None => quoted_if_nonempty(text),
    }
}

proof fn lemma_lead_word_char(s: Seq<char>, k: int)
    requires
        0 <= k <= s.len(),
        forall|i: int| 0 <= i < k ==> !is_ws(#[trigger] s[i]),
        k < s.len() ==> is_ws(s[k]),
    ensures
        lead_word(s) == k,
    decreases k,
{
    if k > 0 {
        assert(!is_ws(s[0]));
        assert forall|i: int| 0 <= i < k - 1 implies !is_ws(#[trigger] s.drop_first()[i]) by {
            assert(s.drop_first()[i] == s[i + 1]);
        }
        if k < s.len() {
            assert(s.drop_first()[k - 1] == s[k]);
        }
        lemma_lead_word_char(s.drop_first(), k - 1);
    }
}

/// Whether the text has a blank line.
pub fn is_multi_paragraph(text: &str) -> (b: bool)
    ensures
        b == multi_paragraph(text@),
{
    is_match(BLANK_LINE_PATTERN, text)
}

fn quote_replacement_exec(sc: &RegexScan, k: usize) -> (r: Vec<char>)
    requires
        k < sc.groups.len(),
        well_formed_scan(views(sc.gaps@), group_views(sc.groups@)),
    ensures
        r@ == quote_replacement(group_views(sc.groups@)[k as int]),
{
    let ghost caps = group_views(sc.groups@)[k as int];
    let prefix = group_or_empty(sc, k, 1);
    let suffix = group_or_empty(sc, k, 4);
    let double = has_group(sc, k, 2);
    let content = if double {
        group_or_empty(sc, k, 2)
    } else {
        group_or_empty(sc, k, 3)
    };
    let cs = string_of(&content);
    if is_multi_paragraph(cs.as_str()) {
        assert(caps.len() >= 1 && caps[0] is Some);
        return group_or_empty(sc, k, 0);
    }
    let mut out: Vec<char> = Vec::new();
    append_chars(&mut out, &prefix);
    out.push(if double { '\u{201c}' } else { '\u{2018}' });
    append_chars(&mut out, &content);
    out.push(if double { '\u{201d}' } else { '\u{2019}' });
    append_chars(&mut out, &suffix);
    assert(out@ =~= quote_replacement(caps));
    out
}

fn quotes_replaced_exec(v: &Vec<char>) -> (r: Vec<char>)
    ensures
        r@ == quotes_replaced(v@),
{
    let text = string_of(v);
    match scan(QUOTE_PATTERN, text.as_str()) {
        None => slice_of(v, 0, v.len()),
        Some(sc) => {
            let ghost gs = views(sc.gaps@);
            let ghost ms = group_views(sc.groups@);
            let ghost pieces = Seq::new(ms.len(), |k: int| gs[k] + quote_replacement(ms[k]));
            let mut out: Vec<char> = Vec::new();
            let mut k: usize = 0;
            while k < sc.groups.len()
                invariant
                    k <= sc.groups.len(),
                    gs == views(sc.gaps@),
                    ms == group_views(sc.groups@),
                    well_formed_scan(gs, ms),
                    pieces == Seq::new(ms.len(), |k: int| gs[k] + quote_replacement(ms[k])),
                    out@ == concat(pieces.take(k as int)),
                decreases sc.groups.len() - k,
            {
                let ghost before = out@;
                let g = gap(&sc, k);
                append_chars(&mut out, &g);
                let rep = quote_replacement_exec(&sc, k);
                append_chars(&mut out, &rep);
                assert(out@ =~= before + pieces[k as int]);
                assert(pieces.take(k + 1).drop_last() =~= pieces.take(k as int));
                k += 1;
            }
            let g = gap(&sc, k);
            assert(gs.last() == gs[k as int]);
            append_chars(&mut out, &g);
            assert(pieces.take(ms.len() as int) =~= pieces);
            out
        },
    }
}

/// Converts the straight quote of a word (with the white space after it)
/// to an apostrophe when it is a contraction or a possessive.
pub fn process_word_apostrophe(word: &str) -> (r: String)
    ensures
        r@ == apostrophe_word(word@),
{
    let w = chars_of(word);
    let t = trim_end_chars(&w);
    proof {
        crate::text::lemma_trail_ws(w@);
    }
    let mut count: usize = 0;
    let mut i: usize = 0;
    while i < t.len()
        invariant
            i <= t.len(),
            count == t@.take(i as int).filter(|c: char| c == '\'').len(),
            count <= i,
        decreases t.len() - i,
    {
        proof {
            assert(t@.take(i + 1) =~= t@.take(i as int).push(t@[i as int]));
            t@.take(i as int).lemma_filter_push(t@[i as int], |c: char| c == '\'');
        }
        if t[i] == '\'' {
            count += 1;
        }
        i += 1;
    }
    assert(t@.take(t.len() as int) =~= t@);
    if count != 1 {
        return string_of(&w);
    }
    let ts = string_of(&t);
    if is_match(APOSTROPHE_PATTERN, ts.as_str()) || is_match(POSSESSIVE_PATTERN, ts.as_str()) {
        let mut out: Vec<char> = Vec::new();
        let mut j: usize = 0;
        while j < t.len()
            invariant
                j <= t.len(),
                out@ == curl_apostrophes(t@).take(j as int),
            decreases t.len() - j,
        {
            out.push(if t[j] == '\'' { '\u{2019}' } else { t[j] });
            assert(out@ =~= curl_apostrophes(t@).take(j + 1));
            j += 1;
        }
        assert(curl_apostrophes(t@).take(t.len() as int) =~= curl_apostrophes(t@));
        let tail = slice_of(&w, t.len(), w.len());
        append_chars(&mut out, &tail);
        assert(w@.subrange(t@.len() as int, w@.len() as int) =~= w@.skip(t@.len() as int));
        return string_of(&out);
    }
    string_of(&w)
}

fn apostrophes_exec(v: &Vec<char>) -> (r: Vec<char>)
    ensures
        r@ == apostrophes(v@),
{
    let n = v.len();
    let mut out: Vec<char> = Vec::new();
    let mut i: usize = 0;
    assert(v@.skip(0) =~= v@);
    while i < n
        invariant
            i <= n == v.len(),
            out@ + apostrophes(v@.skip(i as int)) == apostrophes(v@),
        decreases n - i,
    {
        let mut j: usize = i;
        while j < n && !is_white_space(v[j])
            invariant
                i <= j <= n == v.len(),
                forall|m: int| i <= m < j ==> !is_ws(#[trigger] v@[m]),
            decreases n - j,
        {
            j += 1;
        }
        let mut k: usize = j;
        while k < n && is_white_space(v[k])
            invariant
                j <= k <= n == v.len(),
                forall|m: int| j <= m < k ==> is_ws(#[trigger] v@[m]),
            decreases n - k,
        {
            k += 1;
        }
        proof {
            let s = v@.skip(i as int);
            assert forall|m: int| 0 <= m < j - i implies !is_ws(#[trigger] s[m]) by {
                assert(s[m] == v@[i + m]);
            }
            if j < n {
                assert(s[j - i] == v@[j as int]);
            }
            lemma_lead_word_char(s, j - i);
            let s2 = s.skip(j - i);
            assert forall|m: int| 0 <= m < k - j implies is_ws(#[trigger] s2[m]) by {
                assert(s2[m] == v@[j + m]);
            }
            if k < n {
                assert(s2[k - j] == v@[k as int]);
            }
            lemma_lead_ws_char(s2, k - j);
            assert(chunk_len(s) == k - i);
            assert(k > i);
            assert(s.take(k - i) =~= v@.subrange(i as int, k as int));
            assert(s.skip(k - i) =~= v@.skip(k as int));
        }
        let chunk = slice_of(v, i, k);
        let cs = string_of(&chunk);
        let p = process_word_apostrophe(cs.as_str());
        let pv = chars_of(p.as_str());
        let ghost before = out@;
        append_chars(&mut out, &pv);
        assert(out@ + apostrophes(v@.skip(k as int)) =~= before + apostrophes(v@.skip(i as int)));
        i = k;
    }
    assert(apostrophes(v@.skip(n as int)) =~= Seq::<char>::empty()) by {
        assert(v@.skip(n as int).len() == 0);
    }
    assert(out@ =~= out@ + Seq::<char>::empty());
    out
}

/// Smart quotes on a piece of text: quoted runs first, then apostrophes word
/// by word.
pub fn apply_smart_quotes_to_text(text: &str) -> (r: String)
    ensures
        r@ == smart_quoted_text(text@),
{
    let v = chars_of(text);
    let q = quotes_replaced_exec(&v);
    let a = apostrophes_exec(&q);
    string_of(&a)
}

fn quoted_if_nonempty_exec(v: &Vec<char>) -> (r: Vec<char>)
    ensures
        r@ == quoted_if_nonempty(v@),
{
    if v.len() > 0 {
        let s = string_of(v);
        let q = apply_smart_quotes_to_text(s.as_str());
        chars_of(q.as_str())
    } else {
        Vec::new()
    }
}

/// Replace straight quotes and apostrophes with typographic ones, leaving
/// template tags and HTML comments unchanged.
pub fn smart_quotes(text: &str) -> (r: String)
    ensures
        r@ == smart_quoted(text@),
{
    match scan(TEMPLATE_TAG_PATTERN, text) {
        None => {
            let v = chars_of(text);
            let q = quoted_if_nonempty_exec(&v);
            string_of(&q)
        },
        Some(sc) => {
            let ghost gs = views(sc.gaps@);
            let ghost ms = group_views(sc.groups@);
            let ghost pieces = Seq::new(ms.len(), |k: int| quoted_if_nonempty(gs[k]) + whole(ms[k]));
            let mut out: Vec<char> = Vec::new();
            let mut k: usize = 0;
            while k < sc.groups.len()
                invariant
                    k <= sc.groups.len(),
                    gs == views(sc.gaps@),
                    ms == group_views(sc.groups@),
                    well_formed_scan(gs, ms),
                    pieces == Seq::new(ms.len(), |k: int| quoted_if_nonempty(gs[k]) + whole(ms[k])),
                    out@ == concat(pieces.take(k as int)),
                decreases sc.groups.len() - k,
            {
                let ghost before = out@;
                let g = gap(&sc, k);
                let q = quoted_if_nonempty_exec(&g);
                append_chars(&mut out, &q);
                let m = group_or_empty(&sc, k, 0);
                assert(ms[k as int].len() >= 1 && ms[k as int][0] is Some);
                append_chars(&mut out, &m);
                assert(out@ =~= before + pieces[k as int]);
                assert(pieces.take(k + 1).drop_last() =~= pieces.take(k as int));
                k += 1;
            }
            let g = gap(&sc, k);
            assert(gs.last() == gs[k as int]);
            let q = quoted_if_nonempty_exec(&g);
            append_chars(&mut out, &q);
            assert(pieces.take(ms.len() as int) =~= pieces);
            string_of(&out)
        },
    }
}

} // verus!
