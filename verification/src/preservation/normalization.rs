//! Source normalization shared by every formatter boundary: line endings
//! become LF, the text ends with exactly one LF, and a byte order mark is
//! set aside and put back on output.

use vstd::prelude::*;
use crate::preservation::model::NormalizedSource;
use crate::text::{chars_of, string_of};

verus! {

pub const BOM: char = '\u{feff}';

/// CRLF and lone CR become LF.
pub open spec fn lf_endings(s: Seq<char>) -> Seq<char>
    decreases s.len(),
{
    if s.len() == 0 {
        Seq::empty()
    } else if s[0] == '\r' && s.len() > 1 && s[1] == '\n' {
        seq!['\n'] + lf_endings(s.skip(2))
    } else if s[0] == '\r' {
        seq!['\n'] + lf_endings(s.skip(1))
    } else {
        seq![s[0]] + lf_endings(s.skip(1))
    }
}

/// Number of trailing LFs.
pub open spec fn trailing_lfs(s: Seq<char>) -> nat
    decreases s.len(),
{
    if s.len() > 0 && s.last() == '\n' {
        1 + trailing_lfs(s.drop_last())
    } else {
        0
    }
}

/// The text with its trailing LFs replaced by exactly one.
pub open spec fn one_terminal_lf(s: Seq<char>) -> Seq<char> {
    s.take(s.len() - trailing_lfs(s)).push('\n')
}

pub open spec fn strip_bom(s: Seq<char>) -> Seq<char> {
    if s.len() > 0 && s[0] == BOM {
        s.skip(1)
    } else {
        s
    }
}

/// A text in normal form: no CR, and exactly one LF at the end.
pub open spec fn is_normal(s: Seq<char>) -> bool {
    &&& !s.contains('\r')
    &&& s.len() > 0 && s.last() == '\n'
    &&& (s.len() < 2 || s[s.len() - 2] != '\n')
}

proof fn lemma_trailing_lfs(s: Seq<char>)
    ensures
        trailing_lfs(s) <= s.len(),
        forall|i: int| s.len() - trailing_lfs(s) <= i < s.len() ==> s[i] == '\n',
        trailing_lfs(s) < s.len() ==> s[s.len() - trailing_lfs(s) - 1] != '\n',
    decreases s.len(),
{
    if s.len() > 0 && s.last() == '\n' {
        lemma_trailing_lfs(s.drop_last());
        assert forall|i: int| s.len() - trailing_lfs(s) <= i < s.len() implies s[i] == '\n' by {
            if i < s.len() - 1 {
                assert(s[i] == s.drop_last()[i]);
            }
        }
        if trailing_lfs(s) < s.len() {
            assert(s[s.len() - trailing_lfs(s) - 1] == s.drop_last()[s.drop_last().len() - trailing_lfs(s.drop_last()) - 1]);
        }
    }
}

proof fn lemma_lf_endings(s: Seq<char>)
    ensures
        !lf_endings(s).contains('\r'),
        s.len() > 0 && s.last() == '\n' ==> lf_endings(s).len() > 0 && lf_endings(s).last() == '\n',
        !s.contains('\r') ==> lf_endings(s) == s,
    decreases s.len(),
{
    if s.len() > 0 {
        let k: int = if s[0] == '\r' && s.len() > 1 && s[1] == '\n' { 2 } else { 1 };
        lemma_lf_endings(s.skip(k));
        let head: Seq<char> = if s[0] == '\r' { seq!['\n'] } else { seq![s[0]] };
        assert(lf_endings(s) == head + lf_endings(s.skip(k)));
        if lf_endings(s).contains('\r') {
            let i = choose|i: int| 0 <= i < lf_endings(s).len() && lf_endings(s)[i] == '\r';
            if i >= 1 {
                assert(lf_endings(s.skip(k))[i - 1] == '\r');
            }
        }
        if s.last() == '\n' {
            if s.skip(k).len() > 0 {
                assert(s.skip(k).last() == s.last());
            }
        }
        if !s.contains('\r') {
            assert(s[0] != '\r');
            assert(!s.skip(1).contains('\r')) by {
                if s.skip(1).contains('\r') {
                    let i = choose|i: int| 0 <= i < s.skip(1).len() && s.skip(1)[i] == '\r';
                    assert(s[i + 1] == '\r');
                }
            }
            assert(s =~= seq![s[0]] + s.skip(1));
        }
    }
}

proof fn lemma_one_terminal_lf(s: Seq<char>)
    ensures
        is_normal(one_terminal_lf(s)) || s.contains('\r'),
        !s.contains('\r') ==> is_normal(one_terminal_lf(s)),
        is_normal(s) ==> one_terminal_lf(s) == s,
{
    lemma_trailing_lfs(s);
    let t = one_terminal_lf(s);
    let n = s.len() - trailing_lfs(s);
    if !s.contains('\r') {
        if t.contains('\r') {
            let i = choose|i: int| 0 <= i < t.len() && t[i] == '\r';
            assert(s[i] == '\r');
        }
    }
    if is_normal(s) {
        assert(trailing_lfs(s.drop_last()) == 0);
        assert(trailing_lfs(s) == 1);
        assert(t =~= s);
    }
}

fn lf_endings_exec(v: &Vec<char>) -> (r: Vec<char>)
    ensures
        r@ == lf_endings(v@),
{
    let mut r: Vec<char> = Vec::new();
    let mut i: usize = 0;
    assert(v@.skip(0) =~= v@);
    while i < v.len()
        invariant
            i <= v.len(),
            r@ + lf_endings(v@.skip(i as int)) == lf_endings(v@),
        decreases v.len() - i,
    {
        let ghost before = r@;
        let s = Ghost(v@.skip(i as int));
        assert(s@[0] == v@[i as int]);
        if v[i] == '\r' && i + 1 < v.len() && v[i + 1] == '\n' {
            assert(s@[1] == v@[i + 1]);
            assert(s@.skip(2) =~= v@.skip(i + 2));
            r.push('\n');
            assert(r@ + lf_endings(v@.skip(i + 2)) =~= before + lf_endings(s@));
            i += 2;
        } else {
            assert(s@.skip(1) =~= v@.skip(i + 1));
            r.push(if v[i] == '\r' { '\n' } else { v[i] });
            assert(r@ + lf_endings(v@.skip(i + 1)) =~= before + lf_endings(s@));
            i += 1;
        }
    }
    assert(lf_endings(v@.skip(v.len() as int)) =~= Seq::<char>::empty());
    assert(r@ =~= r@ + Seq::<char>::empty());
    r
}

fn one_terminal_lf_exec(v: Vec<char>) -> (r: Vec<char>)
    ensures
        r@ == one_terminal_lf(v@),
{
    let ghost s = v@;
    let mut v = v;
    let mut k: usize = v.len();
    assert(s.take(k as int) =~= s);
    while k > 0 && v[k - 1] == '\n'
        invariant
            k <= v.len(),
            v@ == s,
            trailing_lfs(s) == (v.len() - k) + trailing_lfs(s.take(k as int)),
        decreases k,
    {
        assert(s.take(k as int).last() == s[k - 1]);
        assert(s.take(k as int).drop_last() =~= s.take(k - 1));
        k -= 1;
    }
    if k > 0 {
        assert(s.take(k as int).last() == s[k - 1]);
    }
    assert(s.take(v.len() as int) =~= s);
    while v.len() > k
        invariant
            k <= v.len() <= s.len(),
            v@ == s.take(v.len() as int),
        decreases v.len(),
    {
        v.pop();
        assert(v@ =~= s.take(v.len() as int));
    }
    v.push('\n');
    v
}

fn strip_bom_exec(v: &Vec<char>) -> (r: (Vec<char>, bool))
    ensures
        r.0@ == strip_bom(v@),
        r.1 == (v@.len() > 0 && v@[0] == BOM),
{
    if v.len() > 0 && v[0] == BOM {
        let r = crate::text::slice_of(v, 1, v.len());
        assert(r@ =~= v@.skip(1));
        (r, true)
    } else {
        let r = crate::text::slice_of(v, 0, v.len());
        assert(r@ =~= v@);
        (r, false)
    }
}

/// CRLF and lone CR become LF.
pub fn normalize_line_endings(text: &str) -> (r: String)
    ensures
        r@ == lf_endings(text@),
{
    let v = chars_of(text);
    let r = lf_endings_exec(&v);
    string_of(&r)
}

/// The text with its trailing LFs replaced by exactly one.
pub fn canonical_terminal_lf(text: String) -> (r: String)
    ensures
        r@ == one_terminal_lf(text@),
{
    let v = chars_of(text.as_str());
    let r = one_terminal_lf_exec(v);
    string_of(&r)
}

/// Normalize a source: the byte order mark set aside, LF line endings, and
/// exactly one LF at the end.
pub fn normalize_source(source: &str) -> (r: NormalizedSource)
    ensures
        r.had_bom == (source@.len() > 0 && source@[0] == BOM),
        r.text@ == one_terminal_lf(lf_endings(strip_bom(source@))),
        is_normal(r.text@),
{
    let v = chars_of(source);
    let (payload, had_bom) = strip_bom_exec(&v);
    let lf = lf_endings_exec(&payload);
    proof {
        lemma_lf_endings(payload@);
        lemma_one_terminal_lf(lf@);
    }
    let t = one_terminal_lf_exec(lf);
    NormalizedSource { text: string_of(&t), had_bom }
}

/// The formatter's output put in the source's form: normal line endings and
/// the source's byte order mark, if it had one.
pub fn finalize_output(source: &NormalizedSource, output: &str) -> (r: String)
    ensures
        r@ == (if source.had_bom {
            seq![BOM]
        } else {
            Seq::empty()
        }) + one_terminal_lf(lf_endings(strip_bom(output@))),
{
    let v = chars_of(output);
    let (payload, _) = strip_bom_exec(&v);
    let lf = lf_endings_exec(&payload);
    let t = one_terminal_lf_exec(lf);
    let mut r: Vec<char> = Vec::new();
    if source.had_bom {
        r.push(BOM);
    }
    crate::text::append_chars(&mut r, &t);
    string_of(&r)
}

/// Normalizing a normalized text changes nothing (unless the text starts with
/// a second byte order mark, which the first pass left in place).
pub proof fn lemma_normalize_idempotent(source: Seq<char>)
    requires
        !(strip_bom(source).len() > 0 && strip_bom(source)[0] == BOM),
    ensures
        one_terminal_lf(lf_endings(strip_bom(one_terminal_lf(lf_endings(strip_bom(source))))))
            == one_terminal_lf(lf_endings(strip_bom(source))),
{
    let p = strip_bom(source);
    lemma_lf_endings(p);
    let n = one_terminal_lf(lf_endings(p));
    lemma_one_terminal_lf(lf_endings(p));
    lemma_trailing_lfs(lf_endings(p));
    let m = lf_endings(p).len() - trailing_lfs(lf_endings(p));
    if m > 0 {
        assert(n[0] == lf_endings(p)[0]);
        if lf_endings(p)[0] == BOM {
            lemma_lf_first(p);
        }
    }
    assert(strip_bom(n) == n);
    lemma_lf_endings(n);
    lemma_one_terminal_lf(n);
}

/// The first scalar of `lf_endings(s)` is LF or the first scalar of `s`.
proof fn lemma_lf_first(s: Seq<char>)
    requires
        s.len() > 0,
    ensures
        lf_endings(s)[0] == if s[0] == '\r' {
            '\n'
        } else {
            s[0]
        },
{
}

/// Finalizing the normalized text of a source gives back that text, with the
/// source's byte order mark (if any) in front.
pub proof fn lemma_finalize_normalized(source: Seq<char>, had_bom: bool)
    requires
        !(strip_bom(source).len() > 0 && strip_bom(source)[0] == BOM),
    ensures
        ({
            let text = one_terminal_lf(lf_endings(strip_bom(source)));
            (if had_bom {
                seq![BOM]
            } else {
                Seq::empty()
            }) + one_terminal_lf(lf_endings(strip_bom(text))) == (if had_bom {
                seq![BOM]
            } else {
                Seq::empty()
            }) + text
        }),
{
    lemma_normalize_idempotent(source);
}

} // verus!
