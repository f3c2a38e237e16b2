//! Substituting tokens for protected regions before parsing, and restoring
//! the regions verbatim after rendering, failing closed on any token that is
//! missing, duplicated, reordered or malformed.

use vstd::prelude::*;
use crate::preservation::model::{
    NormalizedSource, PreservationError, ProtectedRegion, RegionForm, regions_check, slice_result,
    validate_regions,
};
use crate::preservation::tokens::{
    encode_token, escape_authored_markers, escaped, line_number_of_last_line, parse_rendered_stream,
    parse_token, stream_parts, token_index, token_of, usize_nat_views,
};
use crate::text::{append_chars, append_str, chars_of, ends_with, slice_of, string_of, views};

verus! {

pub const SIDE_TABLE_LENGTHS: &'static str = "protected side-table lengths do not match";
pub const SIDE_TABLE_NOT_CANONICAL: &'static str = "protected side table is not canonical";
pub const TOKENS_BROKEN: &'static str = "preservation tokens are missing, duplicated, reordered, or malformed";
pub const BLOCK_LOST_LF: &'static str = "protected block token lost its structural LF";

/// Parser-facing text with tokens in place of regions, and the side tables
/// restoration needs.
#[derive(Debug)]
pub struct ProtectedSource {
    pub text: String,
    pub regions: Vec<ProtectedRegion>,
    pub tokens: Vec<String>,
    pub synthetic_block_prefixes: Vec<bool>,
    pub synthetic_block_suffixes: Vec<bool>,
    /// 1-based line numbers in `text` holding a blank line inserted here.
    pub synthetic_blank_lines: Vec<usize>,
}

// ---------------------------------------------------------------------------
// Protection
// ---------------------------------------------------------------------------

/// A block region preceded by a single line break (not a blank line).
pub open spec fn synthetic_prefix(text: Seq<char>, r: ProtectedRegion) -> bool {
    &&& r.form is Block
    &&& r.start > 0
    &&& text[r.start - 1] == '\n'
    &&& (r.start < 2 || text[r.start - 2] != '\n')
}

/// A block region followed by something other than a line break.
pub open spec fn synthetic_suffix(text: Seq<char>, r: ProtectedRegion) -> bool {
    &&& r.form is Block
    &&& r.end < text.len()
    &&& text[r.end as int] != '\n'
}

pub open spec fn count_lf(s: Seq<char>) -> nat {
    s.filter(|c: char| c == '\n').len()
}

/// Where the gap before region `k` starts.
pub open spec fn gap_start(regions: Seq<ProtectedRegion>, k: int) -> int {
    if k <= 0 {
        0
    } else {
        regions[k - 1].end as int
    }
}

/// One region: the escaped gap before it, then its token. A block token
/// stands on a line of its own (after its scaffold prefix) with a blank line
/// before it unless one is there already, and a blank line after it when
/// other text follows directly.
pub open spec fn protect_step(
    st: (Seq<char>, Seq<nat>),
    text: Seq<char>,
    r: ProtectedRegion,
    prev_end: int,
) -> (Seq<char>, Seq<nat>) {
    let out0 = st.0 + escaped(text.subrange(prev_end, r.start as int));
    if r.form is Block {
        let needs_break = out0.len() > 0 && !ends_with(out0, seq!['\n', '\n']);
        let out1 = if needs_break {
            out0.push('\n')
        } else {
            out0
        };
        let bl1 = if needs_break {
            st.1.push(count_lf(out1))
        } else {
            st.1
        };
        let out2 = out1 + r.scaffold_prefix@ + token_of(r.index as nat) + seq!['\n'];
        if synthetic_suffix(text, r) {
            (out2.push('\n'), bl1.push(count_lf(out2.push('\n'))))
        } else {
            (out2, bl1)
        }
    } else {
        (out0 + token_of(r.index as nat), st.1)
    }
}

pub open spec fn protect_scan(text: Seq<char>, regions: Seq<ProtectedRegion>, k: int) -> (Seq<char>, Seq<nat>)
    decreases k,
{
    if k <= 0 {
        (Seq::empty(), Seq::empty())
    } else {
        protect_step(protect_scan(text, regions, k - 1), text, regions[k - 1], gap_start(regions, k - 1))
    }
}

/// The parser-facing text.
pub open spec fn protected_text(text: Seq<char>, regions: Seq<ProtectedRegion>) -> Seq<char> {
    let n = regions.len() as int;
    protect_scan(text, regions, n).0 + escaped(text.subrange(gap_start(regions, n), text.len() as int))
}

/// The facts a successful validation gives about every region.
pub open spec fn regions_canonical(text: Seq<char>, regions: Seq<ProtectedRegion>) -> bool {
    &&& forall|k: int| 0 <= k < regions.len() ==> (#[trigger] regions[k]).index == k
    &&& forall|k: int|
        0 <= k < regions.len() ==> gap_start(regions, k) <= (#[trigger] regions[k]).start < regions[k].end
            <= text.len()
    &&& forall|k: int|
        0 <= k < regions.len() ==> (#[trigger] regions[k]).source@ == text.subrange(
            regions[k].start as int,
            regions[k].end as int,
        )
}

pub(crate) proof fn lemma_regions_check_ok(text: Seq<char>, regions: Seq<ProtectedRegion>, n: int)
    requires
        0 <= n <= regions.len(),
        regions_check(text, regions, n) is Ok,
    ensures
        regions_check(text, regions, n) == Ok::<int, &'static str>(gap_start(regions, n)),
        forall|k: int| 0 <= k < n ==> (#[trigger] regions[k]).index == k,
        forall|k: int| 0 <= k < n ==> gap_start(regions, k) <= (#[trigger] regions[k]).start < regions[k].end <= text.len(),
        forall|k: int|
            0 <= k < n ==> (#[trigger] regions[k]).source@ == text.subrange(
                regions[k].start as int,
                regions[k].end as int,
            ),
    decreases n,
{
    if n > 0 {
        lemma_regions_check_ok(text, regions, n - 1);
    }
}

fn gap_start_exec(regions: &Vec<ProtectedRegion>, k: usize) -> (r: usize)
    requires
        k <= regions.len(),
    ensures
        r == gap_start(regions@, k as int),
{
    if k == 0 {
        0
    } else {
        regions[k - 1].end
    }
}

fn ends_with_blank_line(out: &Vec<char>) -> (b: bool)
    ensures
        b == ends_with(out@, seq!['\n', '\n']),
{
    let n = out.len();
    if n >= 2 {
        assert(out@.subrange(n - 2, n as int) =~= seq![out@[n - 2], out@[n - 1]]);
    }
    n >= 2 && out[n - 1] == '\n' && out[n - 2] == '\n'
}

fn push_blank_line_number(out: &Vec<char>, blank_lines: &mut Vec<usize>)
    ensures
        usize_nat_views(final(blank_lines)@) == usize_nat_views(old(blank_lines)@).push(count_lf(out@)),
{
    let os = string_of(out);
    let ln = line_number_of_last_line(os.as_str());
    let ghost bl = usize_nat_views(blank_lines@);
    blank_lines.push(ln);
    assert(usize_nat_views(blank_lines@) =~= bl.push(ln as nat));
}

/// One step of protection (see `protect_step`).
#[verifier::spinoff_prover]
#[verifier::rlimit(40)]
fn protect_one(
    v: &Vec<char>,
    region: &ProtectedRegion,
    prev: usize,
    out: &mut Vec<char>,
    blank_lines: &mut Vec<usize>,
)
    requires
        prev <= region.start <= v.len(),
        region.end <= v.len(),
    ensures
        (final(out)@, usize_nat_views(final(blank_lines)@)) == protect_step(
            (old(out)@, usize_nat_views(old(blank_lines)@)),
            v@,
            *region,
            prev as int,
        ),
{
    let tok = encode_token(region.index);
    let gap = slice_of(v, prev, region.start);
    let gs = string_of(&gap);
    let eg = escape_authored_markers(gs.as_str());
    append_str(out, eg.as_str());
    if region.form == RegionForm::Block {
        if out.len() > 0 && !ends_with_blank_line(out) {
            out.push('\n');
            push_blank_line_number(out, blank_lines);
        }
        append_str(out, region.scaffold_prefix.as_str());
        append_str(out, tok.as_str());
        out.push('\n');
        let suf = region.end < v.len() && v[region.end] != '\n';
        if suf {
            out.push('\n');
            push_blank_line_number(out, blank_lines);
        }
    } else {
        append_str(out, tok.as_str());
    }
}

/// Replace each protected region by its token and escape authored marker
/// scalars, after checking the regions against the source.
#[verifier::rlimit(60)]
pub fn protect_source(source: &NormalizedSource, regions: Vec<ProtectedRegion>) -> (r: Result<
    ProtectedSource,
    PreservationError,
>)
    ensures
        match regions_check(source.text@, regions@, regions.len() as int) {
            Err(m) => r matches Err(e) && e.0@ == m@,
            Ok(_) => r matches Ok(ps) && {
                &&& ps.text@ == protected_text(source.text@, regions@)
                &&& ps.regions@ == regions@
                &&& ps.tokens.len() == regions.len()
                &&& forall|k: int| 0 <= k < regions.len() ==> (#[trigger] ps.tokens@[k])@ == token_of(k as nat)
                &&& ps.synthetic_block_prefixes@ == regions@.map_values(
                    |r: ProtectedRegion| synthetic_prefix(source.text@, r),
                )
                &&& ps.synthetic_block_suffixes@ == regions@.map_values(
                    |r: ProtectedRegion| synthetic_suffix(source.text@, r),
                )
                &&& usize_nat_views(ps.synthetic_blank_lines@) == protect_scan(
                    source.text@,
                    regions@,
                    regions.len() as int,
                ).1
            },
        },
{
    match validate_regions(source, &regions) {
        Err(e) => {
            return Err(e);
        },
        Ok(_) => {},
    }
    let ghost text = source.text@;
    let ghost rs = regions@;
    let n = regions.len();
    proof {
        lemma_regions_check_ok(text, rs, n as int);
    }
    let v = chars_of(source.text.as_str());
    let mut tokens: Vec<String> = Vec::new();
    let mut prefixes: Vec<bool> = Vec::new();
    let mut suffixes: Vec<bool> = Vec::new();
    let mut out: Vec<char> = Vec::new();
    let mut blank_lines: Vec<usize> = Vec::new();
    let mut i: usize = 0;
    assert(usize_nat_views(blank_lines@) =~= Seq::<nat>::empty());
    while i < n
        invariant
            i <= n == regions.len(),
            v@ == text,
            text == source.text@,
            rs == regions@,
            regions_canonical(text, rs),
            tokens.len() == i,
            forall|k: int| 0 <= k < i ==> (#[trigger] tokens@[k])@ == token_of(k as nat),
            prefixes@ == rs.take(i as int).map_values(|r: ProtectedRegion| synthetic_prefix(text, r)),
            suffixes@ == rs.take(i as int).map_values(|r: ProtectedRegion| synthetic_suffix(text, r)),
            (out@, usize_nat_views(blank_lines@)) == protect_scan(text, rs, i as int),
        decreases n - i,
    {
        let region = &regions[i];
        assert(rs[i as int] == *region);
        let tok = encode_token(region.index);
        assert(tok@ == token_of(i as nat));
        let pre = region.form == RegionForm::Block && region.start > 0 && v[region.start - 1] == '\n'
            && (region.start < 2 || v[region.start - 2] != '\n');
        let suf = region.form == RegionForm::Block && region.end < v.len() && v[region.end] != '\n';
        let prev = gap_start_exec(&regions, i);
        protect_one(&v, region, prev, &mut out, &mut blank_lines);
        proof {
            assert(rs.take(i + 1) =~= rs.take(i as int).push(rs[i as int]));
        }
        tokens.push(tok);
        prefixes.push(pre);
        suffixes.push(suf);
        assert(prefixes@ =~= rs.take(i + 1).map_values(|r: ProtectedRegion| synthetic_prefix(text, r)));
        assert(suffixes@ =~= rs.take(i + 1).map_values(|r: ProtectedRegion| synthetic_suffix(text, r)));
        i += 1;
    }
    let prev = gap_start_exec(&regions, n);
    proof {
        if n > 0 {
            assert(gap_start(rs, n as int) <= text.len());
        }
    }
    let gap = slice_of(&v, prev, v.len());
    let gs = string_of(&gap);
    let eg = escape_authored_markers(gs.as_str());
    append_str(&mut out, eg.as_str());
    assert(rs.take(n as int) =~= rs);
    Ok(ProtectedSource {
        text: string_of(&out),
        regions,
        tokens,
        synthetic_block_prefixes: prefixes,
        synthetic_block_suffixes: suffixes,
        synthetic_blank_lines: blank_lines,
    })
}

} // verus!

verus! {

// ---------------------------------------------------------------------------
// Restoration
// ---------------------------------------------------------------------------

/// Every side-table entry is canonical: region `k` has index `k` and token
/// `k` parses to `k` (the first failure decides).
pub open spec fn side_table_check(regions: Seq<ProtectedRegion>, tokens: Seq<Seq<char>>, k: int) -> Result<
    (),
    &'static str,
>
    decreases k,
{
    if k <= 0 {
        Ok(())
    } else {
        match side_table_check(regions, tokens, k - 1) {
            Err(m) => Err(m),
            Ok(_) => if regions[k - 1].index != k - 1 {
                Err(SIDE_TABLE_NOT_CANONICAL)
            } else {
                match token_index(tokens[k - 1]) {
                    Err(m) => Err(m),
                    Ok(v) => if v != k - 1 {
                        Err(SIDE_TABLE_NOT_CANONICAL)
                    } else {
                        Ok(())
                    },
                }
            },
        }
    }
}

/// Length of a text up to and including its last LF (0 without one).
pub open spec fn last_lf_end(g: Seq<char>) -> nat
    decreases g.len(),
{
    if g.len() == 0 {
        0
    } else if g.last() == '\n' {
        g.len()
    } else {
        last_lf_end(g.drop_last())
    }
}

/// The gaps around block tokens with what the parser and renderer added
/// taken back: the rest of the token's line before it, a blank line the
/// protection added before it, the LF that ends its line, and a blank line
/// the protection added after it.
pub open spec fn fix_block_gaps(
    gaps: Seq<Seq<char>>,
    regions: Seq<ProtectedRegion>,
    pre: Seq<bool>,
    suf: Seq<bool>,
    k: int,
) -> Result<Seq<Seq<char>>, &'static str>
    decreases k,
{
    if k <= 0 {
        Ok(gaps)
    } else {
        match fix_block_gaps(gaps, regions, pre, suf, k - 1) {
            Err(m) => Err(m),
            Ok(g) => {
                let i = k - 1;
                if regions[i].form is Block {
                    let gi = g[i].take(last_lf_end(g[i]) as int);
                    let gi2 = if pre[i] && ends_with(gi, seq!['\n', '\n']) {
                        gi.drop_last()
                    } else {
                        gi
                    };
                    let next = g[i + 1];
                    if !(next.len() > 0 && next[0] == '\n') {
                        Err(BLOCK_LOST_LF)
                    } else {
                        let n1 = next.drop_first();
                        let n2 = if suf[i] && n1.len() > 0 && n1[0] == '\n' {
                            n1.drop_first()
                        } else {
                            n1
                        };
                        Ok(g.update(i, gi2).update(i + 1, n2))
                    }
                } else {
                    Ok(g)
                }
            },
        }
    }
}

/// The first gap, then each region's source followed by the next gap.
pub open spec fn assemble(gaps: Seq<Seq<char>>, regions: Seq<ProtectedRegion>, k: int) -> Seq<char>
    decreases k,
{
    if k <= 0 {
        gaps[0]
    } else {
        assemble(gaps, regions, k - 1) + regions[k - 1].source@ + gaps[k]
    }
}

pub open spec fn index_range(n: nat) -> Seq<nat> {
    Seq::new(n, |i: int| i as nat)
}

/// What `restore_source` returns (the text, or the failing check's message).
pub open spec fn restored(rendered: Seq<char>, ps: ProtectedSource) -> Result<Seq<char>, &'static str> {
    let n = ps.regions.len() as int;
    if n != ps.tokens.len() || n != ps.synthetic_block_prefixes.len() || n != ps.synthetic_block_suffixes.len() {
        Err(SIDE_TABLE_LENGTHS)
    } else {
        match side_table_check(ps.regions@, views(ps.tokens@), n) {
            Err(m) => Err(m),
            Ok(_) => match stream_parts(rendered) {
                Err(m) => Err(m),
                Ok(p) => if p.1 != index_range(n as nat) {
                    Err(TOKENS_BROKEN)
                } else {
                    match fix_block_gaps(
                        p.0,
                        ps.regions@,
                        ps.synthetic_block_prefixes@,
                        ps.synthetic_block_suffixes@,
                        n,
                    ) {
                        Err(m) => Err(m),
                        Ok(g) => Ok(assemble(g, ps.regions@, n)),
                    }
                },
            },
        }
    }
}

proof fn lemma_side_table_err(regions: Seq<ProtectedRegion>, tokens: Seq<Seq<char>>, k: int, m: &'static str)
    requires
        0 <= k <= regions.len(),
        side_table_check(regions, tokens, k) == Err::<(), &'static str>(m),
    ensures
        side_table_check(regions, tokens, regions.len() as int) == Err::<(), &'static str>(m),
    decreases regions.len() - k,
{
    if k < regions.len() {
        lemma_side_table_err(regions, tokens, k + 1, m);
    }
}

proof fn lemma_fix_err(
    gaps: Seq<Seq<char>>,
    regions: Seq<ProtectedRegion>,
    pre: Seq<bool>,
    suf: Seq<bool>,
    k: int,
    m: &'static str,
)
    requires
        0 <= k <= regions.len(),
        fix_block_gaps(gaps, regions, pre, suf, k) == Err::<Seq<Seq<char>>, &'static str>(m),
    ensures
        fix_block_gaps(gaps, regions, pre, suf, regions.len() as int) == Err::<Seq<Seq<char>>, &'static str>(m),
    decreases regions.len() - k,
{
    if k < regions.len() {
        lemma_fix_err(gaps, regions, pre, suf, k + 1, m);
    }
}

proof fn lemma_fix_len(gaps: Seq<Seq<char>>, regions: Seq<ProtectedRegion>, pre: Seq<bool>, suf: Seq<bool>, k: int)
    requires
        0 <= k,
        k < gaps.len(),
    ensures
        fix_block_gaps(gaps, regions, pre, suf, k) matches Ok(g) ==> g.len() == gaps.len(),
    decreases k,
{
    if k > 0 {
        lemma_fix_len(gaps, regions, pre, suf, k - 1);
    }
}

fn last_lf_end_exec(g: &Vec<char>) -> (r: usize)
    ensures
        r == last_lf_end(g@),
        r <= g.len(),
{
    let mut k: usize = g.len();
    assert(g@.take(k as int) =~= g@);
    while k > 0 && g[k - 1] != '\n'
        invariant
            k <= g.len(),
            last_lf_end(g@) == last_lf_end(g@.take(k as int)),
        decreases k,
    {
        assert(g@.take(k as int).last() == g@[k - 1]);
        assert(g@.take(k as int).drop_last() =~= g@.take(k - 1));
        k -= 1;
    }
    if k > 0 {
        assert(g@.take(k as int).last() == g@[k - 1]);
    }
    k
}

/// Restore the protected regions into rendered text, taking back what the
/// protection and the renderer added around block tokens. Fails unless the
/// side tables are canonical and the rendered text holds every token once,
/// in order.
#[verifier::rlimit(60)]
pub fn restore_source(rendered: &str, protected: &ProtectedSource) -> (r: Result<String, PreservationError>)
    ensures
        match restored(rendered@, *protected) {
            Ok(t) => r matches Ok(x) && x@ == t,
            Err(m) => r matches Err(e) && e.0@ == m@,
        },
{
    let n = protected.regions.len();
    if n != protected.tokens.len() || n != protected.synthetic_block_prefixes.len()
        || n != protected.synthetic_block_suffixes.len() {
        return Err(PreservationError(SIDE_TABLE_LENGTHS));
    }
    let ghost rs = protected.regions@;
    let ghost ts = views(protected.tokens@);
    let mut i: usize = 0;
    while i < n
        invariant
            i <= n == protected.regions.len() == protected.tokens.len(),
            n == protected.synthetic_block_prefixes.len() == protected.synthetic_block_suffixes.len(),
            rs == protected.regions@,
            ts == views(protected.tokens@),
            side_table_check(rs, ts, i as int) == Ok::<(), &'static str>(()),
        decreases n - i,
    {
        if protected.regions[i].index != i {
            proof {
                lemma_side_table_err(rs, ts, i + 1, SIDE_TABLE_NOT_CANONICAL);
            }
            return Err(PreservationError(SIDE_TABLE_NOT_CANONICAL));
        }
        assert(ts[i as int] == protected.tokens@[i as int]@);
        match parse_token(protected.tokens[i].as_str()) {
            Err(e) => {
                proof {
                    lemma_side_table_err(rs, ts, i + 1, token_index(ts[i as int])->Err_0);
                }
                return Err(e);
            },
            Ok(v) => {
                if v != i {
                    proof {
                        lemma_side_table_err(rs, ts, i + 1, SIDE_TABLE_NOT_CANONICAL);
                    }
                    return Err(PreservationError(SIDE_TABLE_NOT_CANONICAL));
                }
            },
        }
        i += 1;
    }
    let (gap_strings, indexes) = match parse_rendered_stream(rendered) {
        Ok(x) => x,
        Err(e) => {
            return Err(e);
        },
    };
    proof {
        crate::preservation::tokens::lemma_stream_gaps_nonempty_pub(rendered@);
    }
    let ghost p = stream_parts(rendered@)->Ok_0;
    if indexes.len() != n {
        return Err(PreservationError(TOKENS_BROKEN));
    }
    let mut j: usize = 0;
    while j < n
        invariant
            j <= n == indexes.len(),
            n == protected.regions.len() == protected.tokens.len(),
            n == protected.synthetic_block_prefixes.len() == protected.synthetic_block_suffixes.len(),
            rs == protected.regions@,
            ts == views(protected.tokens@),
            side_table_check(rs, ts, n as int) == Ok::<(), &'static str>(()),
            stream_parts(rendered@) == Ok::<(Seq<Seq<char>>, Seq<nat>), &'static str>(p),
            usize_nat_views(indexes@) == p.1,
            forall|q: int| 0 <= q < j ==> p.1[q] == q,
        decreases n - j,
    {
        assert(p.1[j as int] == indexes@[j as int] as nat);
        if indexes[j] != j {
            assert(p.1 != index_range(n as nat)) by {
                assert(index_range(n as nat)[j as int] == j);
            }
            return Err(PreservationError(TOKENS_BROKEN));
        }
        j += 1;
    }
    assert(p.1 =~= index_range(n as nat));
    let mut gaps: Vec<Vec<char>> = Vec::new();
    let mut q: usize = 0;
    while q < gap_strings.len()
        invariant
            q <= gap_strings.len(),
            crate::text::buf_views(gaps@) == views(gap_strings@).take(q as int),
        decreases gap_strings.len() - q,
    {
        crate::text::push_buf(&mut gaps, chars_of(gap_strings[q].as_str()));
        assert(crate::text::buf_views(gaps@) =~= views(gap_strings@).take(q + 1));
        q += 1;
    }
    assert(views(gap_strings@).take(gap_strings.len() as int) =~= views(gap_strings@));
    let ghost pre = protected.synthetic_block_prefixes@;
    let ghost suf = protected.synthetic_block_suffixes@;
    let mut k: usize = 0;
    while k < n
        invariant
            k <= n == protected.regions.len() == protected.synthetic_block_prefixes.len()
                == protected.synthetic_block_suffixes.len(),
            gaps.len() == n + 1,
            n == protected.tokens.len(),
            rs == protected.regions@,
            ts == views(protected.tokens@),
            side_table_check(rs, ts, n as int) == Ok::<(), &'static str>(()),
            stream_parts(rendered@) == Ok::<(Seq<Seq<char>>, Seq<nat>), &'static str>(p),
            p.1 == index_range(n as nat),
            pre == protected.synthetic_block_prefixes@,
            suf == protected.synthetic_block_suffixes@,
            fix_block_gaps(p.0, rs, pre, suf, k as int) == Ok::<Seq<Seq<char>>, &'static str>(
                crate::text::buf_views(gaps@),
            ),
        decreases n - k,
    {
        let ghost g = crate::text::buf_views(gaps@);
        if protected.regions[k].form == RegionForm::Block {
            let e = last_lf_end_exec(&gaps[k]);
            let mut gi = slice_of(&gaps[k], 0, e);
            if protected.synthetic_block_prefixes[k] && gi.len() >= 2 && gi[gi.len() - 1] == '\n'
                && gi[gi.len() - 2] == '\n' {
                gi.pop();
            }
            proof {
                let t = g[k as int].take(last_lf_end(g[k as int]) as int);
                assert(gaps@[k as int]@ == g[k as int]);
                if t.len() >= 2 {
                    assert(t.subrange(t.len() - 2, t.len() as int) =~= seq![t[t.len() - 2], t[t.len() - 1]]);
                }
                assert(gi@ =~= if pre[k as int] && ends_with(t, seq!['\n', '\n']) { t.drop_last() } else { t });
            }
            let next_ok = gaps[k + 1].len() > 0 && gaps[k + 1][0] == '\n';
            assert(gaps@[k + 1]@ == g[k + 1]);
            if !next_ok {
                proof {
                    lemma_fix_err(p.0, rs, pre, suf, k + 1, BLOCK_LOST_LF);
                }
                return Err(PreservationError(BLOCK_LOST_LF));
            }
            let mut n1 = slice_of(&gaps[k + 1], 1, gaps[k + 1].len());
            assert(n1@ =~= g[k + 1].drop_first());
            if protected.synthetic_block_suffixes[k] && n1.len() > 0 && n1[0] == '\n' {
                let l = n1.len();
                n1 = slice_of(&n1, 1, l);
                assert(n1@ =~= g[k + 1].drop_first().drop_first());
            }
            gaps.set(k, gi);
            gaps.set(k + 1, n1);
            assert(crate::text::buf_views(gaps@) =~= fix_block_gaps(p.0, rs, pre, suf, k + 1)->Ok_0);
        }
        k += 1;
    }
    let mut out: Vec<char> = Vec::new();
    append_chars(&mut out, &gaps[0]);
    let mut m: usize = 0;
    while m < n
        invariant
            m <= n == protected.regions.len(),
            gaps.len() == n + 1,
            rs == protected.regions@,
            out@ == assemble(crate::text::buf_views(gaps@), rs, m as int),
        decreases n - m,
    {
        append_str(&mut out, protected.regions[m].source.as_str());
        append_chars(&mut out, &gaps[m + 1]);
        assert(crate::text::buf_views(gaps@)[m + 1] == gaps@[m + 1]@);
        m += 1;
    }
    Ok(string_of(&out))
}

} // verus!

verus! {

// ---------------------------------------------------------------------------
// Restoring what was protected
// ---------------------------------------------------------------------------

/// Where gap `k` ends: at region `k`, or at the end of the text.
pub open spec fn gap_end(text: Seq<char>, regions: Seq<ProtectedRegion>, k: int) -> int {
    if k < regions.len() {
        regions[k].start as int
    } else {
        text.len() as int
    }
}

pub open spec fn source_gap(text: Seq<char>, regions: Seq<ProtectedRegion>, k: int) -> Seq<char> {
    text.subrange(gap_start(regions, k), gap_end(text, regions, k))
}

pub(crate) proof fn lemma_side_table_ok(regions: Seq<ProtectedRegion>, tokens: Seq<Seq<char>>, k: int)
    requires
        0 <= k <= regions.len() <= tokens.len(),
        regions.len() <= usize::MAX,
        forall|j: int| 0 <= j < regions.len() ==> (#[trigger] regions[j]).index == j,
        forall|j: int| 0 <= j < regions.len() ==> #[trigger] tokens[j] == token_of(j as nat),
    ensures
        side_table_check(regions, tokens, k) == Ok::<(), &'static str>(()),
    decreases k,
{
    if k > 0 {
        lemma_side_table_ok(regions, tokens, k - 1);
        crate::preservation::tokens::lemma_token_round_trip((k - 1) as usize);
        assert(tokens[k - 1] == token_of((k - 1) as nat));
    }
}

pub(crate) proof fn lemma_assemble_text(text: Seq<char>, regions: Seq<ProtectedRegion>, k: int)
    requires
        0 <= k <= regions.len(),
        regions_canonical(text, regions),
    ensures
        assemble(
            Seq::new((regions.len() + 1) as nat, |j: int| source_gap(text, regions, j)),
            regions,
            k,
        ) == text.subrange(0, gap_end(text, regions, k)),
    decreases k,
{
    let gaps = Seq::new((regions.len() + 1) as nat, |j: int| source_gap(text, regions, j));
    if k == 0 {
        if regions.len() > 0 {
            assert(gap_start(regions, 0) <= regions[0].start);
        }
        assert(gaps[0] =~= text.subrange(0, gap_end(text, regions, 0)));
    } else {
        lemma_assemble_text(text, regions, k - 1);
        let r = regions[k - 1];
        assert(gap_start(regions, k - 1) <= r.start < r.end <= text.len());
        assert(gap_start(regions, k) == r.end);
        if k < regions.len() {
            assert(gap_start(regions, k) <= regions[k].start);
        }
        assert(text.subrange(0, r.start as int) + r.source@ + gaps[k] =~= text.subrange(0, gap_end(text, regions, k)));
    }
}

} // verus!

verus! {

// ---------------------------------------------------------------------------
// Inline rewriting
// ---------------------------------------------------------------------------

pub const MALFORMED_CODE_SPAN: &'static str = "protected code span has malformed delimiters";
pub const MALFORMED_TOKEN_REWRITE: &'static str = "malformed preservation token during rewrite";
pub const UNKNOWN_TOKEN_REWRITE: &'static str = "unknown preservation token during rewrite";
pub const UNKNOWN_TOKEN_REACHED_REWRITE: &'static str = "unknown token reached inline rewrite";

/// Number of leading backticks.
pub open spec fn backtick_run(s: Seq<char>) -> nat
    decreases s.len(),
{
    if s.len() > 0 && s[0] == '`' {
        1 + backtick_run(s.drop_first())
    } else {
        0
    }
}

/// The text a code span contributes as rewrite context: its body with line
/// breaks as spaces and one space stripped from each end when both ends
/// have one (and the body is not all white space).
pub open spec fn code_span_context(source: Seq<char>) -> Result<Seq<char>, &'static str> {
    let w = backtick_run(source) as int;
    if w == 0 || source.len() < 2 * w || !(forall|i: int| source.len() - w <= i < source.len() ==> #[trigger] source[i] == '`') {
        Err(MALFORMED_CODE_SPAN)
    } else {
        let body = source.subrange(w, source.len() - w).map_values(|c: char| if c == '\n' { ' ' } else { c });
        if crate::text::trim(body).len() > 0 && body[0] == ' ' && body.last() == ' ' {
            Ok(body.subrange(1, body.len() - 1))
        } else {
            Ok(body)
        }
    }
}

/// The rewrite context of a protected code span.
pub fn code_span_rewrite_context(source: &str) -> (r: Result<String, PreservationError>)
    ensures
        match code_span_context(source@) {
            Ok(b) => r matches Ok(x) && x@ == b,
            Err(m) => r matches Err(e) && e.0@ == m@,
        },
{
    let v = chars_of(source);
    let mut w: usize = 0;
    assert(v@.skip(0) =~= v@);
    while w < v.len() && v[w] == '`'
        invariant
            w <= v.len(),
            backtick_run(v@) == w + backtick_run(v@.skip(w as int)),
        decreases v.len() - w,
    {
        assert(v@.skip(w as int)[0] == v@[w as int]);
        assert(v@.skip(w as int).drop_first() =~= v@.skip(w + 1));
        w += 1;
    }
    if w < v.len() {
        assert(v@.skip(w as int)[0] == v@[w as int]);
    }
    if w == 0 || v.len() - w < w {
        return Err(PreservationError(MALFORMED_CODE_SPAN));
    }
    let n = v.len();
    let mut i: usize = n - w;
    while i < n
        invariant
            n - w <= i <= n == v.len(),
            v@ == source@,
            w == backtick_run(v@),
            w > 0,
            n >= 2 * w,
            forall|j: int| n - w <= j < i ==> v@[j] == '`',
        decreases n - i,
    {
        if v[i] != '`' {
            return Err(PreservationError(MALFORMED_CODE_SPAN));
        }
        i += 1;
    }
    let ghost target = v@.subrange(w as int, n - w).map_values(|c: char| if c == '\n' { ' ' } else { c });
    let mut body: Vec<char> = Vec::new();
    let mut k: usize = w;
    while k < n - w
        invariant
            w <= k <= n - w,
            n == v.len(),
            target == v@.subrange(w as int, n - w).map_values(|c: char| if c == '\n' { ' ' } else { c }),
            body@ == target.take(k - w),
        decreases n - w - k,
    {
        body.push(if v[k] == '\n' { ' ' } else { v[k] });
        assert(body@ =~= target.take(k + 1 - w));
        k += 1;
    }
    assert(target.take(n - w - w) =~= target);
    let t = crate::text::trim_chars(&body);
    if t.len() > 0 && body[0] == ' ' && body[body.len() - 1] == ' ' {
        proof {
            crate::text::lemma_trim_empty(body@);
            if body.len() < 2 {
                assert(crate::text::all_ws(body@));
            }
        }
        let inner = slice_of(&body, 1, body.len() - 1);
        return Ok(string_of(&inner));
    }
    Ok(string_of(&body))
}

/// A piece of parser-facing inline text: text that may be rewritten, or a
/// token that may not, with the text rewriting may take as its context.
#[derive(Debug, PartialEq, Eq)]
pub enum InlineRewriteSegment {
    Mutable(String),
    Immutable { source: String, context: String },
}

pub enum SegmentView {
    Mutable(Seq<char>),
    Immutable(Seq<char>, Seq<char>),
}

pub open spec fn segment_view(s: InlineRewriteSegment) -> SegmentView {
    match s {
        InlineRewriteSegment::Mutable(t) => SegmentView::Mutable(t@),
        InlineRewriteSegment::Immutable { source, context } => SegmentView::Immutable(source@, context@),
    }
}

pub open spec fn segment_views(v: Seq<InlineRewriteSegment>) -> Seq<SegmentView> {
    v.map_values(|s: InlineRewriteSegment| segment_view(s))
}

/// The context a token's region gives: a code span's body, otherwise the
/// token itself.
pub open spec fn token_context(region: ProtectedRegion, token: Seq<char>) -> Result<Seq<char>, &'static str> {
    if region.kind is CodeSpan {
        code_span_context(region.source@)
    } else {
        Ok(token)
    }
}

/// The segments of `text` from position `p` on, the current mutable run
/// starting at `gap`.
pub open spec fn segments_from(
    text: Seq<char>,
    regions: Seq<ProtectedRegion>,
    tokens: Seq<Seq<char>>,
    p: int,
    gap: int,
) -> Result<Seq<SegmentView>, &'static str>
    decreases text.len() - p,
{
    if p >= text.len() || p < 0 {
        Ok(
            if gap < text.len() {
                seq![SegmentView::Mutable(text.subrange(gap, text.len() as int))]
            } else {
                Seq::empty()
            },
        )
    } else if text[p] != crate::preservation::tokens::TOKEN_START {
        segments_from(text, regions, tokens, p + 1, gap)
    } else if text.len() - p < 10 {
        Err(MALFORMED_TOKEN_REWRITE)
    } else {
        let token = text.subrange(p, p + 10);
        let pre = if p > gap {
            seq![SegmentView::Mutable(text.subrange(gap, p))]
        } else {
            Seq::empty()
        };
        match token_index(token) {
            Err(m) => Err(m),
            Ok(i) => if i >= regions.len() {
                Err(UNKNOWN_TOKEN_REWRITE)
            } else if i >= tokens.len() || tokens[i as int] != token {
                Err(UNKNOWN_TOKEN_REACHED_REWRITE)
            } else {
                match token_context(regions[i as int], token) {
                    Err(m) => Err(m),
                    Ok(ctx) => match segments_from(text, regions, tokens, p + 10, p + 10) {
                        Err(m) => Err(m),
                        Ok(rest) => Ok(pre + seq![SegmentView::Immutable(token, ctx)] + rest),
                    },
                }
            },
        }
    }
}

impl ProtectedSource {
    /// 1-based lines of `text` holding a blank line the protection inserted.
    pub fn synthetic_blank_lines(&self) -> (r: &Vec<usize>)
        ensures
            r@ == self.synthetic_blank_lines@,
    {
        &self.synthetic_blank_lines
    }

    /// Split parser-facing text into text that may be rewritten and tokens
    /// that may not (with their rewrite context).
    pub fn inline_rewrite_segments(&self, text: &str) -> (r: Result<Vec<InlineRewriteSegment>, PreservationError>)
        ensures
            match segments_from(text@, self.regions@, views(self.tokens@), 0, 0) {
                Ok(s) => r matches Ok(x) && segment_views(x@) == s,
                Err(m) => r matches Err(e) && e.0@ == m@,
            },
    {
        let v = chars_of(text);
        let n = v.len();
        let ghost rs = self.regions@;
        let ghost ts = views(self.tokens@);
        let mut out: Vec<InlineRewriteSegment> = Vec::new();
        let mut gap: usize = 0;
        let mut p: usize = 0;
        assert(segment_views(out@) =~= Seq::<SegmentView>::empty());
        while p < n
            invariant
                gap <= p <= n == v.len(),
                v@ == text@,
                rs == self.regions@,
                ts == views(self.tokens@),
                segments_from(text@, rs, ts, 0, 0) == match segments_from(text@, rs, ts, p as int, gap as int) {
                    Err(m) => Err(m),
                    Ok(rest) => Ok::<Seq<SegmentView>, &'static str>(segment_views(out@) + rest),
                },
            decreases n - p,
        {
            if v[p] != crate::preservation::tokens::TOKEN_START {
                p += 1;
            } else {
                if n - p < 10 {
                    return Err(PreservationError(MALFORMED_TOKEN_REWRITE));
                }
                let tok = slice_of(&v, p, p + 10);
                let tok_s = string_of(&tok);
                let index = match parse_token(tok_s.as_str()) {
                    Ok(i) => i,
                    Err(e) => {
                        return Err(e);
                    },
                };
                if index >= self.regions.len() {
                    return Err(PreservationError(UNKNOWN_TOKEN_REWRITE));
                }
                let known = index < self.tokens.len() && {
                    let kt = chars_of(self.tokens[index].as_str());
                    crate::text::chars_eq(&kt, &tok)
                };
                if !known {
                    proof {
                        if index < self.tokens.len() {
                            assert(ts[index as int] == self.tokens@[index as int]@);
                        }
                    }
                    return Err(PreservationError(UNKNOWN_TOKEN_REACHED_REWRITE));
                }
                proof {
                    assert(ts[index as int] == self.tokens@[index as int]@);
                }
                let region = &self.regions[index];
                let context = if region.kind == crate::preservation::model::RegionKind::CodeSpan {
                    match code_span_rewrite_context(region.source.as_str()) {
                        Ok(c) => c,
                        Err(e) => {
                            return Err(e);
                        },
                    }
                } else {
                    string_of(&tok)
                };
                let ghost before = segment_views(out@);
                if p > gap {
                    let g = slice_of(&v, gap, p);
                    out.push(InlineRewriteSegment::Mutable(string_of(&g)));
                }
                out.push(InlineRewriteSegment::Immutable { source: tok_s, context });
                proof {
                    let pre = if p > gap {
                        seq![SegmentView::Mutable(text@.subrange(gap as int, p as int))]
                    } else {
                        Seq::<SegmentView>::empty()
                    };
                    assert(segment_views(out@) =~= before + pre + seq![SegmentView::Immutable(tok@, token_context(rs[index as int], tok@)->Ok_0)]);
                    if segments_from(text@, rs, ts, p + 10, p + 10) is Ok {
                        let rest = segments_from(text@, rs, ts, p + 10, p + 10)->Ok_0;
                        assert(before + (pre + seq![SegmentView::Immutable(tok@, token_context(rs[index as int], tok@)->Ok_0)] + rest)
                            =~= segment_views(out@) + rest);
                    }
                }
                p += 10;
                gap = p;
            }
        }
        let ghost before = segment_views(out@);
        if gap < n {
            let g = slice_of(&v, gap, n);
            out.push(InlineRewriteSegment::Mutable(string_of(&g)));
        }
        assert(segment_views(out@) =~= before + (if gap < n {
            seq![SegmentView::Mutable(text@.subrange(gap as int, n as int))]
        } else {
            Seq::<SegmentView>::empty()
        }));
        Ok(out)
    }
}


// ---------------------------------------------------------------------------
// Measuring protected text for wrapping
// ---------------------------------------------------------------------------

pub const INVALID_WRAPPING_POSITION: &'static str = "invalid wrapping position";
pub const MALFORMED_TOKEN_WRAP: &'static str = "malformed preservation token during wrapping";
pub const UNKNOWN_TOKEN_WRAP: &'static str = "unknown preservation token during wrapping";
pub const UNKNOWN_TOKEN_REACHED_WRAP: &'static str = "unknown token reached inline wrapping";
pub const NO_WIDTH_METADATA: &'static str = "protected inline token has no width metadata";

/// Stands for a column past `usize::MAX` in [`measure_from`]; no input that
/// [`ProtectedSource::measure_inline_text`] accepts reaches it.
pub const COLUMN_OVERFLOW: &'static str = "column overflow";

/// The widths a line of protected text occupies once rendered.
#[derive(Debug, Clone, Copy, PartialEq, Eq, Structural)]
pub struct ProtectedMetrics {
    /// Width up to the first line break inside a protected region (the
    /// whole width when there is none).
    pub first_width: usize,
    /// Width after the last such line break (the whole width when none).
    pub final_width: usize,
    /// Whether a protected region holds an authored line break.
    pub has_authored_break: bool,
}

/// Measures `text` from position `p`, at `column`, with the width before the
/// first authored break (once seen) and whether one was seen. An escaped
/// marker counts one column, a period escape placeholder pair its rendered
/// width, a block token one column, an inline token its first line's width
/// (and, when it spans lines, the column restarts at its last line's width),
/// every other scalar one column.
pub open spec fn measure_from(
    text: Seq<char>,
    regions: Seq<ProtectedRegion>,
    tokens: Seq<Seq<char>>,
    p: int,
    column: int,
    first: Option<int>,
    broke: bool,
) -> Result<(int, Option<int>, bool), &'static str>
    decreases text.len() - p,
{
    if p >= text.len() || p < 0 {
        Ok((column, first, broke))
    } else {
        let c = text[p];
        if c == crate::preservation::tokens::ESCAPE_MARKER {
            if p + 1 >= text.len() || !crate::preservation::tokens::is_escape_code(text[p + 1]) {
                Err(crate::preservation::tokens::MALFORMED_ESCAPE)
            } else if column + 1 > usize::MAX {
                Err(COLUMN_OVERFLOW)
            } else {
                measure_from(text, regions, tokens, p + 2, column + 1, first, broke)
            }
        } else if c == crate::escape_placeholders::PERIOD_ESCAPE_PLACEHOLDER && p + 1 < text.len()
            && text[p + 1] == crate::escape_placeholders::ESCAPE_PLACEHOLDER_FILLER {
            if column + crate::escape_placeholders::pair_width(c) > usize::MAX {
                Err(COLUMN_OVERFLOW)
            } else {
                measure_from(
                    text,
                    regions,
                    tokens,
                    p + 2,
                    column + crate::escape_placeholders::pair_width(c),
                    first,
                    broke,
                )
            }
        } else if c != crate::preservation::tokens::TOKEN_START {
            if column + 1 > usize::MAX {
                Err(COLUMN_OVERFLOW)
            } else {
                measure_from(text, regions, tokens, p + 1, column + 1, first, broke)
            }
        } else if text.len() - p < 10 {
            Err(MALFORMED_TOKEN_WRAP)
        } else {
            let token = text.subrange(p, p + 10);
            match token_index(token) {
                Err(m) => Err(m),
                Ok(i) => if i >= regions.len() {
                    Err(UNKNOWN_TOKEN_WRAP)
                } else if tokens[i as int] != token {
                    Err(UNKNOWN_TOKEN_REACHED_WRAP)
                } else if regions[i as int].form is Block {
                    if column + 1 > usize::MAX {
                        Err(COLUMN_OVERFLOW)
                    } else {
                        measure_from(text, regions, tokens, p + 10, column + 1, first, broke)
                    }
                } else {
                    let widths = regions[i as int].logical_widths@;
                    if widths.len() == 0 {
                        Err(NO_WIDTH_METADATA)
                    } else if column + widths[0] > usize::MAX {
                        Err(COLUMN_OVERFLOW)
                    } else if widths.len() > 1 {
                        measure_from(
                            text,
                            regions,
                            tokens,
                            p + 10,
                            widths.last() as int,
                            if first is Some {
                                first
                            } else {
                                Some(column + widths[0])
                            },
                            true,
                        )
                    } else {
                        measure_from(text, regions, tokens, p + 10, column + widths[0], first, broke)
                    }
                },
            }
        }
    }
}

/// The metrics of a measuring outcome.
pub open spec fn metrics_of(m: (int, Option<int>, bool)) -> (int, int, bool) {
    (
        match m.1 {
            Some(f) => f,
            None => m.0,
        },
        m.0,
        m.2,
    )
}

impl ProtectedSource {
    /// Measures a line of parser-facing text for wrapping (see
    /// [`measure_from`]): its width up to the first authored break inside a
    /// protected region, after the last one, and whether there is one.
    /// Fails on a malformed escape or token, or a token this source did not
    /// issue.
    pub fn measure_inline_text(&self, text: &str) -> (r: Result<ProtectedMetrics, PreservationError>)
        requires
            self.regions.len() <= self.tokens.len(),
            measure_from(text@, self.regions@, views(self.tokens@), 0, 0, None, false) != Err::<
                (int, Option<int>, bool),
                &'static str,
            >(COLUMN_OVERFLOW),
        ensures
            match measure_from(text@, self.regions@, views(self.tokens@), 0, 0, None, false) {
                Ok(m) => r matches Ok(x) && (x.first_width as int, x.final_width as int, x.has_authored_break)
                    == metrics_of(m),
                Err(msg) => r matches Err(e) && e.0@ == msg@,
            },
    {
        let v = chars_of(text);
        let n = v.len();
        let ghost rs = self.regions@;
        let ghost ts = views(self.tokens@);
        let ghost total = measure_from(text@, rs, ts, 0, 0, None, false);
        let mut column: usize = 0;
        let mut first: Option<usize> = None;
        let mut broke = false;
        let mut p: usize = 0;
        while p < n
            invariant
                p <= n == v.len(),
                v@ == text@,
                rs == self.regions@,
                ts == views(self.tokens@),
                rs.len() <= ts.len(),
                total == measure_from(text@, rs, ts, 0, 0, None, false),
                total != Err::<(int, Option<int>, bool), &'static str>(COLUMN_OVERFLOW),
                total == measure_from(
                    text@,
                    rs,
                    ts,
                    p as int,
                    column as int,
                    match first {
                        Some(f) => Some(f as int),
                        None => None,
                    },
                    broke,
                ),
            decreases n - p,
        {
            let c = v[p];
            if c == crate::preservation::tokens::ESCAPE_MARKER {
                if p + 1 >= n {
                    return Err(PreservationError(crate::preservation::tokens::MALFORMED_ESCAPE));
                }
                let code = v[p + 1];
                if !(code == crate::preservation::tokens::ESCAPED_ESCAPE || code
                    == crate::preservation::tokens::ESCAPED_START || code
                    == crate::preservation::tokens::ESCAPED_END) {
                    return Err(PreservationError(crate::preservation::tokens::MALFORMED_ESCAPE));
                }
                column = column + 1;
                p = p + 2;
            } else if c == crate::escape_placeholders::PERIOD_ESCAPE_PLACEHOLDER && p + 1 < n && v[p + 1]
                == crate::escape_placeholders::ESCAPE_PLACEHOLDER_FILLER {
                column = column + crate::escape_placeholders::placeholder_pair_width(c);
                p = p + 2;
            } else if c != crate::preservation::tokens::TOKEN_START {
                column = column + 1;
                p = p + 1;
            } else {
                if n - p < 10 {
                    return Err(PreservationError(MALFORMED_TOKEN_WRAP));
                }
                let tok = slice_of(&v, p, p + 10);
                let tok_s = string_of(&tok);
                let index = match parse_token(tok_s.as_str()) {
                    Ok(i) => i,
                    Err(e) => {
                        return Err(e);
                    },
                };
                if index >= self.regions.len() {
                    return Err(PreservationError(UNKNOWN_TOKEN_WRAP));
                }
                let kt = chars_of(self.tokens[index].as_str());
                proof {
                    assert(ts[index as int] == self.tokens@[index as int]@);
                }
                if !crate::text::chars_eq(&kt, &tok) {
                    return Err(PreservationError(UNKNOWN_TOKEN_REACHED_WRAP));
                }
                let region = &self.regions[index];
                if region.form == RegionForm::Block {
                    column = column + 1;
                } else {
                    let widths = &region.logical_widths;
                    if widths.len() == 0 {
                        return Err(PreservationError(NO_WIDTH_METADATA));
                    }
                    column = column + widths[0];
                    if widths.len() > 1 {
                        if first.is_none() {
                            first = Some(column);
                        }
                        broke = true;
                        column = widths[widths.len() - 1];
                    }
                }
                p = p + 10;
            }
        }
        let first_width = match first {
            Some(f) => f,
            None => column,
        };
        Ok(ProtectedMetrics { first_width, final_width: column, has_authored_break: broke })
    }
}

} // verus!
