//! Character-level text primitives shared by the wrapping, typography and
//! preservation modules.
//!
//! Text is modelled as `Seq<char>` (the view of `str` and `String`). The
//! executable helpers work on `Vec<char>` buffers and convert at the edges.

use vstd::prelude::*;

verus! {

/// `String::push` appends one scalar value to the string.
pub assume_specification[ String::push ](s: &mut String, ch: char)
    ensures
        final(s)@ == old(s)@.push(ch),
;

/// Unicode `White_Space` property: the class matched by `char::is_whitespace`,
/// `str::trim`, `str::split_whitespace` and the regex class `\s`.
pub open spec fn is_ws(c: char) -> bool {
    ||| ('\u{9}' <= c && c <= '\u{d}')
    ||| c == ' '
    ||| c == '\u{85}'
    ||| c == '\u{a0}'
    ||| c == '\u{1680}'
    ||| ('\u{2000}' <= c && c <= '\u{200a}')
    ||| c == '\u{2028}'
    ||| c == '\u{2029}'
    ||| c == '\u{202f}'
    ||| c == '\u{205f}'
    ||| c == '\u{3000}'
}

pub fn is_white_space(c: char) -> (b: bool)
    ensures
        b == is_ws(c),
{
    ('\u{9}' <= c && c <= '\u{d}') || c == ' ' || c == '\u{85}' || c == '\u{a0}' || c == '\u{1680}'
        || ('\u{2000}' <= c && c <= '\u{200a}') || c == '\u{2028}' || c == '\u{2029}' || c
        == '\u{202f}' || c == '\u{205f}' || c == '\u{3000}'
}

pub open spec fn all_ws(s: Seq<char>) -> bool {
    forall|i: int| 0 <= i < s.len() ==> is_ws(#[trigger] s[i])
}

pub open spec fn no_ws(s: Seq<char>) -> bool {
    forall|i: int| 0 <= i < s.len() ==> !is_ws(#[trigger] s[i])
}

/// The views of a sequence of strings.
pub open spec fn views(v: Seq<String>) -> Seq<Seq<char>> {
    v.map_values(|s: String| s@)
}

/// The views of a sequence of character buffers.
pub open spec fn buf_views(v: Seq<Vec<char>>) -> Seq<Seq<char>> {
    v.map_values(|b: Vec<char>| b@)
}

/// Converts a string slice to a buffer of its scalar values.
pub fn chars_of(s: &str) -> (v: Vec<char>)
    ensures
        v@ == s@,
{
    let mut v: Vec<char> = Vec::new();
    for c in it: s.chars()
        invariant
            v@ == it.seq().take(it.index() as int),
            it.seq() == s@,
    {
        v.push(c);
    }
    v
}

/// Builds a string from a buffer of scalar values.
pub fn string_of(v: &Vec<char>) -> (s: String)
    ensures
        s@ == v@,
{
    let mut s = String::new();
    let mut i: usize = 0;
    while i < v.len()
        invariant
            i <= v.len(),
            s@ == v@.take(i as int),
        decreases v.len() - i,
    {
        s.push(v[i]);
        i += 1;
        assert(s@ == v@.take(i as int));
    }
    assert(v@.take(v.len() as int) == v@);
    s
}

/// Builds one string per buffer.
pub fn strings_of(parts: &Vec<Vec<char>>) -> (r: Vec<String>)
    ensures
        views(r@) == buf_views(parts@),
{
    let mut r: Vec<String> = Vec::new();
    let mut i: usize = 0;
    while i < parts.len()
        invariant
            i <= parts.len(),
            views(r@) == buf_views(parts@).take(i as int),
        decreases parts.len() - i,
    {
        let s = string_of(&parts[i]);
        assert(views(r@).len() == r@.len());
        let ghost old_r = r@;
        r.push(s);
        proof {
            assert forall|j: int| 0 <= j < i + 1 implies views(r@)[j] == buf_views(parts@).take(
                i + 1,
            )[j] by {
                if j < i {
                    assert(r@[j] == old_r[j]);
                    assert(views(old_r)[j] == buf_views(parts@).take(i as int)[j]);
                }
            }
        }
        i += 1;
        assert(views(r@) =~= buf_views(parts@).take(i as int));
    }
    assert(buf_views(parts@).take(parts.len() as int) =~= buf_views(parts@));
    r
}

/// Converts strings to buffers of scalar values.
pub fn bufs_of(parts: &Vec<String>) -> (r: Vec<Vec<char>>)
    ensures
        buf_views(r@) == views(parts@),
{
    let mut r: Vec<Vec<char>> = Vec::new();
    let mut i: usize = 0;
    while i < parts.len()
        invariant
            i <= parts.len(),
            buf_views(r@) == views(parts@).take(i as int),
        decreases parts.len() - i,
    {
        let b = chars_of(parts[i].as_str());
        assert(buf_views(r@).len() == r@.len());
        let ghost old_r = r@;
        r.push(b);
        proof {
            assert forall|j: int| 0 <= j < i + 1 implies buf_views(r@)[j] == views(parts@).take(
                i + 1,
            )[j] by {
                if j < i {
                    assert(r@[j] == old_r[j]);
                    assert(buf_views(old_r)[j] == views(parts@).take(i as int)[j]);
                }
            }
        }
        i += 1;
        assert(buf_views(r@) =~= views(parts@).take(i as int));
    }
    assert(views(parts@).take(parts.len() as int) =~= views(parts@));
    r
}

/// Copies `v[lo..hi]`.
pub fn slice_of(v: &Vec<char>, lo: usize, hi: usize) -> (r: Vec<char>)
    requires
        lo <= hi <= v.len(),
    ensures
        r@ == v@.subrange(lo as int, hi as int),
{
    let mut r: Vec<char> = Vec::new();
    let mut i = lo;
    while i < hi
        invariant
            lo <= i <= hi <= v.len(),
            r@ == v@.subrange(lo as int, i as int),
        decreases hi - i,
    {
        r.push(v[i]);
        i += 1;
        assert(r@ =~= v@.subrange(lo as int, i as int));
    }
    r
}

/// Appends `src` to `dst`.
pub fn append_chars(dst: &mut Vec<char>, src: &Vec<char>)
    ensures
        final(dst)@ == old(dst)@ + src@,
{
    let ghost start = dst@;
    let mut i: usize = 0;
    while i < src.len()
        invariant
            i <= src.len(),
            dst@ == start + src@.take(i as int),
        decreases src.len() - i,
    {
        dst.push(src[i]);
        i += 1;
        assert(dst@ =~= start + src@.take(i as int));
    }
    assert(src@.take(src.len() as int) =~= src@);
}

/// Appends the characters of `src` to `dst`.
pub fn append_str(dst: &mut Vec<char>, src: &str)
    ensures
        final(dst)@ == old(dst)@ + src@,
{
    let b = chars_of(src);
    append_chars(dst, &b);
}

/// Equality of two buffers.
pub fn chars_eq(a: &Vec<char>, b: &Vec<char>) -> (r: bool)
    ensures
        r == (a@ == b@),
{
    if a.len() != b.len() {
        return false;
    }
    let mut i: usize = 0;
    while i < a.len()
        invariant
            i <= a.len() == b.len(),
            forall|j: int| 0 <= j < i ==> a@[j] == b@[j],
        decreases a.len() - i,
    {
        if a[i] != b[i] {
            return false;
        }
        i += 1;
    }
    assert(a@ =~= b@);
    true
}

/// Equality of two texts.
pub fn str_equals(a: &str, b: &str) -> (r: bool)
    ensures
        r == (a@ == b@),
{
    let va = chars_of(a);
    let vb = chars_of(b);
    chars_eq(&va, &vb)
}

/// `pat` occurs in `s` at position `at`.
pub open spec fn occurs_at(s: Seq<char>, at: int, pat: Seq<char>) -> bool {
    0 <= at && at + pat.len() <= s.len() && s.subrange(at, at + pat.len()) == pat
}

pub open spec fn starts_with(s: Seq<char>, pat: Seq<char>) -> bool {
    occurs_at(s, 0, pat)
}

pub open spec fn ends_with(s: Seq<char>, pat: Seq<char>) -> bool {
    occurs_at(s, s.len() - pat.len(), pat)
}

pub open spec fn contains_seq(s: Seq<char>, pat: Seq<char>) -> bool {
    exists|i: int| occurs_at(s, i, pat)
}

/// Whether `pat` occurs in `v` at position `at`.
pub fn matches_at(v: &Vec<char>, at: usize, pat: &str) -> (r: bool)
    ensures
        r == occurs_at(v@, at as int, pat@),
{
    let p = chars_of(pat);
    if at > v.len() || p.len() > v.len() - at {
        return false;
    }
    let mut i: usize = 0;
    while i < p.len()
        invariant
            at + p.len() <= v.len(),
            p@ == pat@,
            i <= p.len(),
            forall|j: int| 0 <= j < i ==> v@[at + j] == p@[j],
        decreases p.len() - i,
    {
        if v[at + i] != p[i] {
            assert(v@.subrange(at as int, at + p.len())[i as int] != p@[i as int]);
            return false;
        }
        i += 1;
    }
    assert(v@.subrange(at as int, at + p.len()) =~= p@);
    true
}

/// Whether `pat` occurs anywhere in `v`.
pub fn contains_str(v: &Vec<char>, pat: &str) -> (r: bool)
    ensures
        r == contains_seq(v@, pat@),
{
    let mut at: usize = 0;
    loop
        invariant
            at <= v.len(),
            forall|j: int| 0 <= j < at ==> !occurs_at(v@, j, pat@),
        decreases v.len() - at,
    {
        if matches_at(v, at, pat) {
            return true;
        }
        if at == v.len() {
            assert forall|j: int| !occurs_at(v@, j, pat@) by {
                if j == at as int {
                }
            }
            return false;
        }
        at += 1;
    }
}

pub fn starts_with_str(v: &Vec<char>, pat: &str) -> (r: bool)
    ensures
        r == starts_with(v@, pat@),
{
    matches_at(v, 0, pat)
}

pub fn ends_with_str(v: &Vec<char>, pat: &str) -> (r: bool)
    ensures
        r == ends_with(v@, pat@),
{
    let p = chars_of(pat);
    if p.len() > v.len() {
        return false;
    }
    matches_at(v, v.len() - p.len(), pat)
}

/// Whether `c` occurs in `v`.
pub fn contains_char(v: &Vec<char>, c: char) -> (r: bool)
    ensures
        r == v@.contains(c),
{
    let mut i: usize = 0;
    while i < v.len()
        invariant
            i <= v.len(),
            forall|j: int| 0 <= j < i ==> v@[j] != c,
        decreases v.len() - i,
    {
        if v[i] == c {
            return true;
        }
        i += 1;
    }
    false
}

// ---------------------------------------------------------------------------
// Trimming
// ---------------------------------------------------------------------------

/// Number of leading white-space characters.
pub open spec fn lead_ws(s: Seq<char>) -> nat
    decreases s.len(),
{
    if s.len() > 0 && is_ws(s[0]) {
        1 + lead_ws(s.drop_first())
    } else {
        0
    }
}

/// Number of trailing white-space characters.
pub open spec fn trail_ws(s: Seq<char>) -> nat
    decreases s.len(),
{
    if s.len() > 0 && is_ws(s.last()) {
        1 + trail_ws(s.drop_last())
    } else {
        0
    }
}

pub open spec fn trim_start(s: Seq<char>) -> Seq<char> {
    s.skip(lead_ws(s) as int)
}

pub open spec fn trim_end(s: Seq<char>) -> Seq<char> {
    s.take(s.len() - trail_ws(s))
}

/// `str::trim`: both ends stripped of white space.
pub open spec fn trim(s: Seq<char>) -> Seq<char> {
    trim_end(trim_start(s))
}

pub proof fn lemma_lead_ws(s: Seq<char>)
    ensures
        lead_ws(s) <= s.len(),
        forall|i: int| 0 <= i < lead_ws(s) ==> is_ws(#[trigger] s[i]),
        lead_ws(s) < s.len() ==> !is_ws(s[lead_ws(s) as int]),
    decreases s.len(),
{
    if s.len() > 0 && is_ws(s[0]) {
        lemma_lead_ws(s.drop_first());
        assert forall|i: int| 0 <= i < lead_ws(s) implies is_ws(#[trigger] s[i]) by {
            if i > 0 {
                assert(s[i] == s.drop_first()[i - 1]);
            }
        }
    }
}

pub proof fn lemma_trail_ws(s: Seq<char>)
    ensures
        trail_ws(s) <= s.len(),
        forall|i: int| s.len() - trail_ws(s) <= i < s.len() ==> is_ws(#[trigger] s[i]),
        trail_ws(s) < s.len() ==> !is_ws(s[s.len() - trail_ws(s) - 1]),
    decreases s.len(),
{
    if s.len() > 0 && is_ws(s.last()) {
        lemma_trail_ws(s.drop_last());
        assert forall|i: int| s.len() - trail_ws(s) <= i < s.len() implies is_ws(#[trigger] s[i]) by {
            if i < s.len() - 1 {
                assert(s[i] == s.drop_last()[i]);
            }
        }
    }
}

/// `lead_ws` is determined by the first non-white-space position.
pub proof fn lemma_lead_ws_char(s: Seq<char>, k: int)
    requires
        0 <= k <= s.len(),
        forall|i: int| 0 <= i < k ==> is_ws(#[trigger] s[i]),
        k < s.len() ==> !is_ws(s[k]),
    ensures
        lead_ws(s) == k,
    decreases k,
{
    if k > 0 {
        assert(is_ws(s[0]));
        assert forall|i: int| 0 <= i < k - 1 implies is_ws(#[trigger] s.drop_first()[i]) by {
            assert(s.drop_first()[i] == s[i + 1]);
        }
        if k < s.len() {
            assert(s.drop_first()[k - 1] == s[k]);
        }
        lemma_lead_ws_char(s.drop_first(), k - 1);
    }
}

/// `trail_ws` is determined by the last non-white-space position.
pub proof fn lemma_trail_ws_char(s: Seq<char>, k: int)
    requires
        0 <= k <= s.len(),
        forall|i: int| s.len() - k <= i < s.len() ==> is_ws(#[trigger] s[i]),
        k < s.len() ==> !is_ws(s[s.len() - k - 1]),
    ensures
        trail_ws(s) == k,
    decreases k,
{
    if k > 0 {
        assert(is_ws(s[s.len() - 1]));
        assert forall|i: int| s.drop_last().len() - (k - 1) <= i < s.drop_last().len() implies is_ws(
            #[trigger] s.drop_last()[i],
        ) by {
            assert(s.drop_last()[i] == s[i]);
        }
        if k < s.len() {
            assert(s.drop_last()[s.drop_last().len() - (k - 1) - 1] == s[s.len() - k - 1]);
        }
        lemma_trail_ws_char(s.drop_last(), k - 1);
    }
}

/// Index of the first non-white-space character of `v[lo..hi]`.
pub fn skip_ws_forward(v: &Vec<char>, lo: usize, hi: usize) -> (k: usize)
    requires
        lo <= hi <= v.len(),
    ensures
        lo <= k <= hi,
        k - lo == lead_ws(v@.subrange(lo as int, hi as int)),
{
    let mut k = lo;
    while k < hi && is_white_space(v[k])
        invariant
            lo <= k <= hi <= v.len(),
            forall|i: int| lo <= i < k ==> is_ws(#[trigger] v@[i]),
        decreases hi - k,
    {
        k += 1;
    }
    let ghost s = v@.subrange(lo as int, hi as int);
    proof {
        assert forall|i: int| 0 <= i < k - lo implies is_ws(#[trigger] s[i]) by {
            assert(s[i] == v@[lo + i]);
        }
        if k < hi {
            assert(s[k - lo] == v@[k as int]);
        }
        lemma_lead_ws_char(s, k - lo);
    }
    k
}

/// One past the last non-white-space character of `v[lo..hi]`.
pub fn skip_ws_backward(v: &Vec<char>, lo: usize, hi: usize) -> (k: usize)
    requires
        lo <= hi <= v.len(),
    ensures
        lo <= k <= hi,
        hi - k == trail_ws(v@.subrange(lo as int, hi as int)),
{
    let mut k = hi;
    while k > lo && is_white_space(v[k - 1])
        invariant
            lo <= k <= hi <= v.len(),
            forall|i: int| k <= i < hi ==> is_ws(#[trigger] v@[i]),
        decreases k - lo,
    {
        k -= 1;
    }
    let ghost s = v@.subrange(lo as int, hi as int);
    proof {
        assert forall|i: int| s.len() - (hi - k) <= i < s.len() implies is_ws(#[trigger] s[i]) by {
            assert(s[i] == v@[lo + i]);
        }
        if k > lo {
            assert(s[s.len() - (hi - k) - 1] == v@[k - 1]);
        }
        lemma_trail_ws_char(s, (hi - k) as int);
    }
    k
}

/// Bounds of `trim(v[lo..hi])` inside `v`.
pub fn trim_bounds(v: &Vec<char>, lo: usize, hi: usize) -> (r: (usize, usize))
    requires
        lo <= hi <= v.len(),
    ensures
        lo <= r.0 <= r.1 <= hi,
        v@.subrange(r.0 as int, r.1 as int) == trim(v@.subrange(lo as int, hi as int)),
{
    let a = skip_ws_forward(v, lo, hi);
    let b = skip_ws_backward(v, a, hi);
    proof {
        let s = v@.subrange(lo as int, hi as int);
        assert(trim_start(s) =~= v@.subrange(a as int, hi as int));
        assert(trim_end(trim_start(s)) =~= v@.subrange(a as int, b as int));
    }
    (a, b)
}

/// `str::trim` on a buffer.
pub fn trim_chars(v: &Vec<char>) -> (r: Vec<char>)
    ensures
        r@ == trim(v@),
{
    let (a, b) = trim_bounds(v, 0, v.len());
    assert(v@.subrange(0, v.len() as int) =~= v@);
    slice_of(v, a, b)
}

/// `str::trim_start` on a buffer.
pub fn trim_start_chars(v: &Vec<char>) -> (r: Vec<char>)
    ensures
        r@ == trim_start(v@),
{
    let a = skip_ws_forward(v, 0, v.len());
    assert(v@.subrange(0, v.len() as int) =~= v@);
    slice_of(v, a, v.len())
}

/// `str::trim_end` on a buffer.
pub fn trim_end_chars(v: &Vec<char>) -> (r: Vec<char>)
    ensures
        r@ == trim_end(v@),
{
    let b = skip_ws_backward(v, 0, v.len());
    assert(v@.subrange(0, v.len() as int) =~= v@);
    slice_of(v, 0, b)
}

/// The trimmed text is empty exactly when the text is all white space.
pub proof fn lemma_trim_empty(s: Seq<char>)
    ensures
        (trim(s).len() == 0) == all_ws(s),
        (trim_start(s).len() == 0) == all_ws(s),
        (trim_end(s).len() == 0) == all_ws(s),
{
    lemma_lead_ws(s);
    lemma_trail_ws(s);
    lemma_trail_ws(trim_start(s));
    if !all_ws(s) {
        let i = choose|i: int| 0 <= i < s.len() && !is_ws(s[i]);
        assert(i >= lead_ws(s));
        assert(trim_start(s)[i - lead_ws(s)] == s[i]);
        assert(i < s.len() - trail_ws(s));
    }
}

// ---------------------------------------------------------------------------
// Joining and splitting
// ---------------------------------------------------------------------------

/// `parts` joined with `sep` between consecutive parts.
pub open spec fn join(parts: Seq<Seq<char>>, sep: Seq<char>) -> Seq<char>
    decreases parts.len(),
{
    if parts.len() == 0 {
        Seq::empty()
    } else if parts.len() == 1 {
        parts[0]
    } else {
        join(parts.drop_last(), sep) + sep + parts.last()
    }
}

pub proof fn lemma_join_push(parts: Seq<Seq<char>>, sep: Seq<char>, p: Seq<char>)
    ensures
        join(parts.push(p), sep) == if parts.len() == 0 {
            p
        } else {
            join(parts, sep) + sep + p
        },
{
    assert(parts.push(p).drop_last() =~= parts);
}

/// Concatenation of all parts.
pub open spec fn concat(parts: Seq<Seq<char>>) -> Seq<char>
    decreases parts.len(),
{
    if parts.len() == 0 {
        Seq::empty()
    } else {
        concat(parts.drop_last()) + parts.last()
    }
}

/// Joins buffers with a separator.
pub fn join_bufs(parts: &Vec<Vec<char>>, sep: &Vec<char>) -> (r: Vec<char>)
    ensures
        r@ == join(buf_views(parts@), sep@),
{
    let mut r: Vec<char> = Vec::new();
    let mut i: usize = 0;
    while i < parts.len()
        invariant
            i <= parts.len(),
            r@ == join(buf_views(parts@).take(i as int), sep@),
        decreases parts.len() - i,
    {
        proof {
            lemma_join_push(buf_views(parts@).take(i as int), sep@, parts@[i as int]@);
            assert(buf_views(parts@).take(i as int).push(parts@[i as int]@) =~= buf_views(
                parts@,
            ).take(i + 1));
        }
        if i > 0 {
            append_chars(&mut r, sep);
        }
        append_chars(&mut r, &parts[i]);
        i += 1;
    }
    assert(buf_views(parts@).take(parts.len() as int) =~= buf_views(parts@));
    r
}

/// Joins strings with a separator.
pub fn join_strings(parts: &Vec<String>, sep: &str) -> (r: String)
    ensures
        r@ == join(views(parts@), sep@),
{
    let bufs = bufs_of(parts);
    let s = chars_of(sep);
    let j = join_bufs(&bufs, &s);
    string_of(&j)
}

/// Pieces of `s` between occurrences of `c` (`str::split(c)`).
pub open spec fn split_on(s: Seq<char>, c: char) -> Seq<Seq<char>>
    decreases s.len(),
{
    if s.len() == 0 {
        seq![Seq::empty()]
    } else {
        let prev = split_on(s.drop_last(), c);
        if s.last() == c {
            prev.push(Seq::empty())
        } else {
            prev.update(prev.len() - 1, prev.last().push(s.last()))
        }
    }
}

pub proof fn lemma_split_on(s: Seq<char>, c: char)
    ensures
        split_on(s, c).len() >= 1,
        join(split_on(s, c), seq![c]) == s,
        forall|i: int| 0 <= i < split_on(s, c).len() ==> !(#[trigger] split_on(s, c)[i]).contains(c),
    decreases s.len(),
{
    if s.len() > 0 {
        let prev = split_on(s.drop_last(), c);
        lemma_split_on(s.drop_last(), c);
        if s.last() == c {
            lemma_join_push(prev, seq![c], Seq::empty());
            assert(s =~= s.drop_last() + seq![c] + Seq::<char>::empty());
        } else {
            let n = prev.len();
            let cur = split_on(s, c);
            assert(cur.drop_last() =~= prev.drop_last());
            assert(s =~= s.drop_last().push(s.last()));
            if n == 1 {
                assert(s =~= prev[0].push(s.last()));
            } else {
                assert(join(prev, seq![c]) == join(prev.drop_last(), seq![c]) + seq![c] + prev.last());
                assert(join(cur, seq![c]) == join(cur.drop_last(), seq![c]) + seq![c] + cur.last());
                assert(cur.last() == prev.last().push(s.last()));
                assert(s =~= join(prev.drop_last(), seq![c]) + seq![c] + prev.last().push(s.last()));
            }
            assert forall|i: int| 0 <= i < cur.len() implies !(#[trigger] cur[i]).contains(c) by {
                if i == n - 1 {
                    if cur[i].contains(c) {
                        let k = choose|k: int| 0 <= k < cur[i].len() && cur[i][k] == c;
                        if k < prev.last().len() {
                            assert(prev[n - 1][k] == c);
                        }
                    }
                } else {
                    assert(cur[i] == prev[i]);
                }
            }
        }
    }
}

/// Splits a buffer at every occurrence of `c`.
pub fn split_char(v: &Vec<char>, c: char) -> (r: Vec<Vec<char>>)
    ensures
        buf_views(r@) == split_on(v@, c),
{
    let mut r: Vec<Vec<char>> = Vec::new();
    let mut cur: Vec<char> = Vec::new();
    let mut i: usize = 0;
    while i < v.len()
        invariant
            i <= v.len(),
            buf_views(r@).push(cur@) == split_on(v@.take(i as int), c),
        decreases v.len() - i,
    {
        proof {
            assert(v@.take(i + 1).drop_last() =~= v@.take(i as int));
        }
        if v[i] == c {
            let done = cur;
            r.push(done);
            cur = Vec::new();
            assert(buf_views(r@).push(cur@) =~= split_on(v@.take(i + 1), c));
        } else {
            cur.push(v[i]);
            assert(buf_views(r@).push(cur@) =~= split_on(v@.take(i + 1), c));
        }
        i += 1;
    }
    assert(v@.take(v.len() as int) =~= v@);
    r.push(cur);
    assert(buf_views(r@) =~= split_on(v@, c));
    r
}

/// One step of the white-space word scan: the state is the completed words and
/// the word being read.
pub open spec fn ws_step(st: (Seq<Seq<char>>, Seq<char>), c: char) -> (Seq<Seq<char>>, Seq<char>) {
    if is_ws(c) {
        if st.1.len() > 0 {
            (st.0.push(st.1), Seq::empty())
        } else {
            (st.0, Seq::empty())
        }
    } else {
        (st.0, st.1.push(c))
    }
}

/// The word scan continued from state `st` over the characters of `s`.
pub open spec fn ws_scan_from(st: (Seq<Seq<char>>, Seq<char>), s: Seq<char>) -> (
    Seq<Seq<char>>,
    Seq<char>,
)
    decreases s.len(),
{
    if s.len() == 0 {
        st
    } else {
        ws_step(ws_scan_from(st, s.drop_last()), s.last())
    }
}

/// The completed words of a scan state, with the word being read appended.
pub open spec fn ws_finish(st: (Seq<Seq<char>>, Seq<char>)) -> Seq<Seq<char>> {
    if st.1.len() > 0 {
        st.0.push(st.1)
    } else {
        st.0
    }
}

/// `str::split_whitespace`: the maximal runs of non-white-space characters.
pub open spec fn split_ws(s: Seq<char>) -> Seq<Seq<char>> {
    ws_finish(ws_scan_from((Seq::empty(), Seq::empty()), s))
}

/// The words of a text are non-empty and contain no white space.
pub open spec fn proper_words(words: Seq<Seq<char>>) -> bool {
    forall|i: int| 0 <= i < words.len() ==> (#[trigger] words[i]).len() > 0 && no_ws(words[i])
}

pub proof fn lemma_ws_scan_from(st: (Seq<Seq<char>>, Seq<char>), s: Seq<char>)
    requires
        proper_words(st.0),
        no_ws(st.1),
    ensures
        proper_words(ws_scan_from(st, s).0),
        no_ws(ws_scan_from(st, s).1),
        proper_words(ws_finish(ws_scan_from(st, s))),
    decreases s.len(),
{
    if s.len() > 0 {
        lemma_ws_scan_from(st, s.drop_last());
        let prev = ws_scan_from(st, s.drop_last());
        if is_ws(s.last()) && prev.1.len() > 0 {
            assert forall|i: int| 0 <= i < prev.0.push(prev.1).len() implies (
            #[trigger] prev.0.push(prev.1)[i]).len() > 0 && no_ws(prev.0.push(prev.1)[i]) by {
                if i < prev.0.len() {
                    assert(prev.0.push(prev.1)[i] == prev.0[i]);
                }
            }
        }
        if !is_ws(s.last()) {
            assert forall|i: int| 0 <= i < prev.1.push(s.last()).len() implies !is_ws(
                #[trigger] prev.1.push(s.last())[i],
            ) by {
                if i < prev.1.len() {
                    assert(prev.1.push(s.last())[i] == prev.1[i]);
                }
            }
        }
    }
    let (words, cur) = ws_scan_from(st, s);
    if cur.len() > 0 {
        assert forall|i: int| 0 <= i < words.push(cur).len() implies (
        #[trigger] words.push(cur)[i]).len() > 0 && no_ws(words.push(cur)[i]) by {
            if i < words.len() {
                assert(words.push(cur)[i] == words[i]);
            }
        }
    }
}

pub proof fn lemma_split_ws_proper(s: Seq<char>)
    ensures
        proper_words(split_ws(s)),
{
    lemma_ws_scan_from((Seq::empty(), Seq::empty()), s);
}

/// Continues a word scan over the characters of `v`.
pub fn ws_scan_buf(words: &mut Vec<Vec<char>>, cur: &mut Vec<char>, v: &Vec<char>)
    ensures
        (buf_views(final(words)@), final(cur)@) == ws_scan_from(
            (buf_views(old(words)@), old(cur)@),
            v@,
        ),
{
    let ghost st0 = (buf_views(words@), cur@);
    let mut i: usize = 0;
    while i < v.len()
        invariant
            i <= v.len(),
            (buf_views(words@), cur@) == ws_scan_from(st0, v@.take(i as int)),
        decreases v.len() - i,
    {
        proof {
            assert(v@.take(i + 1).drop_last() =~= v@.take(i as int));
        }
        if is_white_space(v[i]) {
            if cur.len() > 0 {
                let mut done: Vec<char> = Vec::new();
                std::mem::swap(&mut done, cur);
                words.push(done);
                assert(buf_views(words@) =~= ws_scan_from(st0, v@.take(i + 1)).0);
            }
        } else {
            cur.push(v[i]);
        }
        i += 1;
    }
    assert(v@.take(v.len() as int) =~= v@);
}

/// Appends the word being read, if any, to the completed words.
pub fn ws_finish_buf(words: &mut Vec<Vec<char>>, cur: Vec<char>)
    ensures
        buf_views(final(words)@) == ws_finish((buf_views(old(words)@), cur@)),
{
    if cur.len() > 0 {
        words.push(cur);
        assert(buf_views(words@) =~= buf_views(old(words)@).push(cur@));
    }
}

/// Splits a buffer into its white-space separated words.
pub fn split_whitespace_chars(v: &Vec<char>) -> (r: Vec<Vec<char>>)
    ensures
        buf_views(r@) == split_ws(v@),
{
    let mut words: Vec<Vec<char>> = Vec::new();
    let mut cur: Vec<char> = Vec::new();
    assert(buf_views(words@) =~= Seq::<Seq<char>>::empty());
    ws_scan_buf(&mut words, &mut cur, v);
    ws_finish_buf(&mut words, cur);
    words
}

/// The regex replacement of `\s+` by a single space, as a left-to-right scan.
/// The state is the output so far and whether the scan is inside a run of
/// white space.
pub open spec fn collapse_scan(s: Seq<char>) -> (Seq<char>, bool)
    decreases s.len(),
{
    if s.len() == 0 {
        (Seq::empty(), false)
    } else {
        let (out, in_run) = collapse_scan(s.drop_last());
        if is_ws(s.last()) {
            if in_run {
                (out, true)
            } else {
                (out.push(' '), true)
            }
        } else {
            (out.push(s.last()), false)
        }
    }
}

pub open spec fn collapse_ws(s: Seq<char>) -> Seq<char> {
    collapse_scan(s).0
}

/// Replaces every run of white space with one space.
pub fn collapse_whitespace(v: &Vec<char>) -> (r: Vec<char>)
    ensures
        r@ == collapse_ws(v@),
{
    let mut out: Vec<char> = Vec::new();
    let mut in_run = false;
    let mut i: usize = 0;
    while i < v.len()
        invariant
            i <= v.len(),
            (out@, in_run) == collapse_scan(v@.take(i as int)),
        decreases v.len() - i,
    {
        proof {
            assert(v@.take(i + 1).drop_last() =~= v@.take(i as int));
        }
        if is_white_space(v[i]) {
            if !in_run {
                out.push(' ');
            }
            in_run = true;
        } else {
            out.push(v[i]);
            in_run = false;
        }
        i += 1;
    }
    assert(v@.take(v.len() as int) =~= v@);
    out
}

/// Number of scalar values (`str::chars().count()`).
pub fn char_count(s: &str) -> (n: usize)
    ensures
        n == s@.len(),
{
    let v = chars_of(s);
    v.len()
}

} // verus!

verus! {

/// Copies `v[lo..hi]` of a buffer list.
pub fn sub_bufs(v: &Vec<Vec<char>>, lo: usize, hi: usize) -> (r: Vec<Vec<char>>)
    requires
        lo <= hi <= v.len(),
    ensures
        buf_views(r@) == buf_views(v@).subrange(lo as int, hi as int),
{
    let mut r: Vec<Vec<char>> = Vec::new();
    let mut i = lo;
    while i < hi
        invariant
            lo <= i <= hi <= v.len(),
            buf_views(r@) == buf_views(v@).subrange(lo as int, i as int),
        decreases hi - i,
    {
        let b = slice_of(&v[i], 0, v[i].len());
        assert(v@[i as int]@.subrange(0, v@[i as int]@.len() as int) =~= v@[i as int]@);
        assert(buf_views(r@).len() == r@.len());
        let ghost old_r = r@;
        r.push(b);
        proof {
            assert forall|j: int| 0 <= j < i + 1 - lo implies buf_views(r@)[j] == buf_views(
                v@,
            ).subrange(lo as int, i + 1)[j] by {
                if j < i - lo {
                    assert(r@[j] == old_r[j]);
                    assert(buf_views(old_r)[j] == buf_views(v@).subrange(lo as int, i as int)[j]);
                }
            }
        }
        i += 1;
        assert(buf_views(r@) =~= buf_views(v@).subrange(lo as int, i as int));
    }
    r
}

/// Joining two non-empty lists of parts.
pub proof fn lemma_join_append(a: Seq<Seq<char>>, b: Seq<Seq<char>>, sep: Seq<char>)
    requires
        a.len() > 0,
        b.len() > 0,
    ensures
        join(a + b, sep) == join(a, sep) + sep + join(b, sep),
    decreases b.len(),
{
    if b.len() == 1 {
        assert((a + b).drop_last() =~= a);
    } else {
        lemma_join_append(a, b.drop_last(), sep);
        assert((a + b).drop_last() =~= a + b.drop_last());
        assert(join(a + b, sep) == join(a + b.drop_last(), sep) + sep + b.last());
        assert(join(b, sep) == join(b.drop_last(), sep) + sep + b.last());
    }
}

} // verus!

verus! {

/// Whether the buffer `pat` occurs in `v` at position `at`.
pub fn matches_at_buf(v: &Vec<char>, at: usize, pat: &Vec<char>) -> (r: bool)
    ensures
        r == occurs_at(v@, at as int, pat@),
{
    if at > v.len() || pat.len() > v.len() - at {
        return false;
    }
    let mut i: usize = 0;
    while i < pat.len()
        invariant
            at + pat.len() <= v.len(),
            i <= pat.len(),
            forall|j: int| 0 <= j < i ==> v@[at + j] == pat@[j],
        decreases pat.len() - i,
    {
        if v[at + i] != pat[i] {
            assert(v@.subrange(at as int, at + pat.len())[i as int] != pat@[i as int]);
            return false;
        }
        i += 1;
    }
    assert(v@.subrange(at as int, at + pat.len()) =~= pat@);
    true
}

/// Trimming leaves text alone when it is empty or starts and ends with
/// non-white-space characters.
pub proof fn lemma_trim_noop(s: Seq<char>)
    requires
        s.len() == 0 || (!is_ws(s[0]) && !is_ws(s.last())),
    ensures
        trim(s) == s,
{
    if s.len() > 0 {
        lemma_lead_ws_char(s, 0);
        assert(trim_start(s) =~= s);
        lemma_trail_ws_char(s, 0);
        assert(trim_end(s) =~= s);
    } else {
        assert(s.skip(0) =~= s);
        assert(s.take(0) =~= s);
    }
}

/// A join of non-empty parts starts with the first part's first character and
/// ends with the last part's last character.
pub proof fn lemma_join_ends(parts: Seq<Seq<char>>, sep: Seq<char>)
    requires
        parts.len() > 0,
        forall|i: int| 0 <= i < parts.len() ==> (#[trigger] parts[i]).len() > 0,
    ensures
        join(parts, sep).len() > 0,
        join(parts, sep)[0] == parts[0][0],
        join(parts, sep).last() == parts.last().last(),
    decreases parts.len(),
{
    if parts.len() > 1 {
        assert(parts.drop_last()[0] == parts[0]);
        lemma_join_ends(parts.drop_last(), sep);
    }
}

} // verus!

verus! {

/// Appends a buffer to a list of buffers.
pub fn push_buf(out: &mut Vec<Vec<char>>, line: Vec<char>)
    ensures
        buf_views(final(out)@) == buf_views(old(out)@).push(line@),
{
    out.push(line);
    assert(buf_views(out@) =~= buf_views(old(out)@).push(line@));
}

} // verus!
