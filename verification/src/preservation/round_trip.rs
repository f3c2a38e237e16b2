//! What protection hides, restoration gives back: the parser-facing text,
//! read back through restoration unchanged (as an identity renderer would
//! hand it over), yields the source text, block regions included.

use vstd::prelude::*;
use crate::preservation::bridge::{
    ProtectedSource, assemble, fix_block_gaps, gap_start, index_range, last_lf_end,
    lemma_assemble_text, lemma_regions_check_ok, lemma_side_table_ok, protect_scan, protect_step,
    protected_text, regions_canonical, restored, source_gap, synthetic_prefix, synthetic_suffix,
};
use crate::preservation::model::{ProtectedRegion, RegionForm, regions_check};
use crate::preservation::tokens::{
    ESCAPE_MARKER, escape_code, escaped, is_marker, lemma_stream_escaped, lemma_stream_token, stream_parts,
    token_of,
};
use crate::text::{ends_with, views};

verus! {

// ---------------------------------------------------------------------------
// Escaping
// ---------------------------------------------------------------------------

pub open spec fn marker_free(s: Seq<char>) -> bool {
    forall|i: int| 0 <= i < s.len() ==> !is_marker(#[trigger] s[i])
}

pub proof fn lemma_escaped_concat(a: Seq<char>, b: Seq<char>)
    ensures
        escaped(a + b) == escaped(a) + escaped(b),
    decreases a.len(),
{
    if a.len() == 0 {
        assert(a + b =~= b);
        assert(escaped(a) + escaped(b) =~= escaped(b));
    } else {
        lemma_escaped_concat(a.skip(1), b);
        assert((a + b).skip(1) =~= a.skip(1) + b);
        assert((a + b)[0] == a[0]);
        if is_marker(a[0]) {
            assert(escaped(a + b) =~= seq![ESCAPE_MARKER, escape_code(a[0])] + (escaped(a.skip(1)) + escaped(b)));
        } else {
            assert(escaped(a + b) =~= seq![a[0]] + (escaped(a.skip(1)) + escaped(b)));
        }
    }
}

pub proof fn lemma_escaped_plain(s: Seq<char>)
    requires
        marker_free(s),
    ensures
        escaped(s) == s,
    decreases s.len(),
{
    if s.len() > 0 {
        assert(!is_marker(s[0]));
        assert forall|i: int| 0 <= i < s.skip(1).len() implies !is_marker(#[trigger] s.skip(1)[i]) by {
            assert(s.skip(1)[i] == s[i + 1]);
        }
        lemma_escaped_plain(s.skip(1));
        assert(seq![s[0]] + s.skip(1) =~= s);
    }
}

proof fn lemma_escaped_len(s: Seq<char>)
    ensures
        escaped(s).len() >= s.len(),
    decreases s.len(),
{
    if s.len() > 0 {
        lemma_escaped_len(s.skip(1));
    }
}

proof fn lemma_escaped_one(c: char)
    ensures
        escaped(seq![c]) == if is_marker(c) {
            seq![ESCAPE_MARKER, escape_code(c)]
        } else {
            seq![c]
        },
{
    let s = seq![c];
    assert(s.skip(1) =~= Seq::<char>::empty());
    assert(escaped(s.skip(1)) =~= Seq::<char>::empty());
    if is_marker(c) {
        assert(escaped(s) =~= seq![ESCAPE_MARKER, escape_code(c)]);
    } else {
        assert(escaped(s) =~= seq![c]);
    }
}

/// Escaping keeps a text's trailing line breaks: its last char is a line
/// break exactly when the text's is, and its last two are exactly when the
/// text's are.
pub proof fn lemma_escaped_tail(s: Seq<char>)
    ensures
        s.len() == 0 ==> escaped(s).len() == 0,
        s.len() > 0 ==> escaped(s).len() > 0 && (escaped(s).last() == '\n' <==> s.last() == '\n'),
        s.len() >= 2 ==> (ends_with(escaped(s), seq!['\n', '\n']) <==> ends_with(s, seq!['\n', '\n'])),
        s.len() == 1 && s[0] == '\n' ==> escaped(s) == seq!['\n'],
{
    if s.len() == 0 {
        assert(escaped(s) =~= Seq::<char>::empty());
    } else {
        let b = s.last();
        let front = s.drop_last();
        assert(front + seq![b] =~= s);
        lemma_escaped_concat(front, seq![b]);
        lemma_escaped_one(b);
        let eb = escaped(seq![b]);
        assert(escaped(s) == escaped(front) + eb);
        assert(escaped(s).last() == eb.last());
        if s.len() == 1 {
            assert(front =~= Seq::<char>::empty());
            assert(escaped(front) =~= Seq::<char>::empty());
            if b == '\n' {
                assert(escaped(s) =~= seq!['\n']);
            }
        }
        if s.len() >= 2 {
            let a = front.last();
            let ff = front.drop_last();
            assert(ff + seq![a] =~= front);
            lemma_escaped_concat(ff, seq![a]);
            lemma_escaped_one(a);
            let ea = escaped(seq![a]);
            let es = escaped(s);
            assert(es == escaped(ff) + ea + eb);
            let n = es.len();
            if ends_with(s, seq!['\n', '\n']) {
                assert(s[s.len() - 2] == a && s[s.len() - 1] == b);
                assert(s.subrange(s.len() - 2, s.len() as int)[0] == a);
                assert(s.subrange(s.len() - 2, s.len() as int)[1] == b);
                assert(a == '\n' && b == '\n');
                assert(es.subrange(n - 2, n as int) =~= seq!['\n', '\n']);
            } else {
                if ends_with(es, seq!['\n', '\n']) {
                    assert(es.subrange(n - 2, n as int)[1] == es[n - 1]);
                    assert(es.subrange(n - 2, n as int)[0] == es[n - 2]);
                    assert(b == '\n');
                    assert(eb =~= seq!['\n']);
                    assert(es[n - 2] == ea.last());
                    assert(a == '\n');
                    assert(s.subrange(s.len() - 2, s.len() as int) =~= seq!['\n', '\n']);
                }
            }
        }
    }
}

// ---------------------------------------------------------------------------
// The parser-facing text, gap by gap
// ---------------------------------------------------------------------------

/// What protection adds after a block token: the line break that ends its
/// line, and a blank line when other text follows directly.
pub open spec fn block_lead(t: Seq<char>, rs: Seq<ProtectedRegion>, k: int) -> Seq<char> {
    if 0 < k && k - 1 < rs.len() && rs[k - 1].form is Block {
        if synthetic_suffix(t, rs[k - 1]) {
            seq!['\n', '\n']
        } else {
            seq!['\n']
        }
    } else {
        Seq::empty()
    }
}

/// Whether protection puts a blank line before block `k`.
#[verifier::opaque]
pub open spec fn break_before(t: Seq<char>, rs: Seq<ProtectedRegion>, k: int) -> bool {
    let out0 = protect_scan(t, rs, k).0 + escaped(t.subrange(gap_start(rs, k), rs[k].start as int));
    out0.len() > 0 && !ends_with(out0, seq!['\n', '\n'])
}

/// What protection adds before a block token: that blank line, and the
/// block's scaffold prefix.
pub open spec fn block_mid(t: Seq<char>, rs: Seq<ProtectedRegion>, k: int) -> Seq<char> {
    if 0 <= k < rs.len() && rs[k].form is Block {
        (if break_before(t, rs, k) {
            seq!['\n']
        } else {
            Seq::empty()
        }) + rs[k].scaffold_prefix@
    } else {
        Seq::empty()
    }
}

/// Gap `k` of the parser-facing text, unescaped.
pub open spec fn parser_gap(t: Seq<char>, rs: Seq<ProtectedRegion>, k: int) -> Seq<char> {
    block_lead(t, rs, k) + source_gap(t, rs, k) + block_mid(t, rs, k)
}

/// The parser-facing text from gap `k` on, without what the previous block
/// token added after itself.
pub open spec fn protected_suffix(t: Seq<char>, rs: Seq<ProtectedRegion>, k: int) -> Seq<char>
    decreases rs.len() - k,
{
    if k >= rs.len() || k < 0 {
        escaped(source_gap(t, rs, k))
    } else {
        escaped(source_gap(t, rs, k)) + block_mid(t, rs, k) + token_of(k as nat) + block_lead(t, rs, k + 1)
            + protected_suffix(t, rs, k + 1)
    }
}

proof fn lemma_scan_step(t: Seq<char>, rs: Seq<ProtectedRegion>, k: int)
    requires
        0 <= k < rs.len(),
        regions_canonical(t, rs),
    ensures
        protect_scan(t, rs, k + 1).0 == protect_scan(t, rs, k).0 + escaped(source_gap(t, rs, k)) + block_mid(
            t,
            rs,
            k,
        ) + token_of(k as nat) + block_lead(t, rs, k + 1),
{
    let r = rs[k];
    assert(r.index == k);
    assert(source_gap(t, rs, k) == t.subrange(gap_start(rs, k), r.start as int));
    let st = protect_scan(t, rs, k);
    assert(protect_scan(t, rs, k + 1) == protect_step(st, t, r, gap_start(rs, k)));
    let out0 = st.0 + escaped(t.subrange(gap_start(rs, k), r.start as int));
    reveal(break_before);
    if r.form is Block {
        let out1 = if break_before(t, rs, k) {
            out0.push('\n')
        } else {
            out0
        };
        let out2 = out1 + r.scaffold_prefix@ + token_of(r.index as nat) + seq!['\n'];
        if synthetic_suffix(t, r) {
            assert(out2.push('\n') =~= out0 + block_mid(t, rs, k) + token_of(k as nat) + block_lead(t, rs, k + 1));
        } else {
            assert(out2 =~= out0 + block_mid(t, rs, k) + token_of(k as nat) + block_lead(t, rs, k + 1));
        }
    } else {
        assert(block_mid(t, rs, k) =~= Seq::<char>::empty());
        assert(block_lead(t, rs, k + 1) =~= Seq::<char>::empty());
        assert(out0 + token_of(k as nat) =~= out0 + block_mid(t, rs, k) + token_of(k as nat) + block_lead(
            t,
            rs,
            k + 1,
        ));
    }
}

proof fn lemma_protected_suffix(t: Seq<char>, rs: Seq<ProtectedRegion>, k: int)
    requires
        0 <= k <= rs.len(),
        regions_canonical(t, rs),
    ensures
        protect_scan(t, rs, k).0 + protected_suffix(t, rs, k) == protected_text(t, rs),
    decreases rs.len() - k,
{
    if k < rs.len() {
        lemma_protected_suffix(t, rs, k + 1);
        lemma_scan_step(t, rs, k);
        let a = protect_scan(t, rs, k).0;
        assert(a + protected_suffix(t, rs, k) =~= protect_scan(t, rs, k + 1).0 + protected_suffix(t, rs, k + 1));
    } else {
        assert(source_gap(t, rs, k) == t.subrange(gap_start(rs, k), t.len() as int));
    }
}

/// Every block's scaffold prefix is free of marker scalars.
pub open spec fn scaffolds_plain(rs: Seq<ProtectedRegion>) -> bool {
    forall|k: int| 0 <= k < rs.len() && (#[trigger] rs[k]).form is Block ==> marker_free(rs[k].scaffold_prefix@)
}

proof fn lemma_gap_escaped(t: Seq<char>, rs: Seq<ProtectedRegion>, k: int)
    requires
        0 <= k <= rs.len(),
        scaffolds_plain(rs),
    ensures
        escaped(parser_gap(t, rs, k)) == block_lead(t, rs, k) + escaped(source_gap(t, rs, k)) + block_mid(t, rs, k),
{
    let lead = block_lead(t, rs, k);
    let mid = block_mid(t, rs, k);
    let g = source_gap(t, rs, k);
    assert(marker_free(lead));
    if 0 <= k < rs.len() && rs[k].form is Block {
        let b: Seq<char> = if break_before(t, rs, k) {
            seq!['\n']
        } else {
            Seq::empty()
        };
        let sc = rs[k].scaffold_prefix@;
        assert(marker_free(sc));
        assert forall|i: int| 0 <= i < mid.len() implies !is_marker(#[trigger] mid[i]) by {
            if i >= b.len() {
                assert(mid[i] == sc[i - b.len()]);
            }
        }
    }
    assert(marker_free(mid));
    lemma_escaped_plain(lead);
    lemma_escaped_plain(mid);
    lemma_escaped_concat(lead + g, mid);
    lemma_escaped_concat(lead, g);
}

#[verifier::rlimit(40)]
proof fn lemma_stream_gaps(t: Seq<char>, rs: Seq<ProtectedRegion>, k: int)
    requires
        0 <= k <= rs.len(),
        rs.len() <= usize::MAX,
        scaffolds_plain(rs),
    ensures
        stream_parts(block_lead(t, rs, k) + protected_suffix(t, rs, k)) == Ok::<
            (Seq<Seq<char>>, Seq<nat>),
            &'static str,
        >(
            (
                Seq::new((rs.len() - k + 1) as nat, |j: int| parser_gap(t, rs, k + j)),
                Seq::new((rs.len() - k) as nat, |j: int| (k + j) as nat),
            ),
        ),
    decreases rs.len() - k,
{
    let n = rs.len() as int;
    let g = parser_gap(t, rs, k);
    lemma_gap_escaped(t, rs, k);
    if k == n {
        assert(block_mid(t, rs, k) =~= Seq::<char>::empty());
        assert(block_lead(t, rs, k) + protected_suffix(t, rs, k) =~= escaped(g) + Seq::<char>::empty());
        lemma_stream_escaped(g, Seq::empty());
        let p0: Seq<Seq<char>> = seq![Seq::<char>::empty()];
        assert(p0.update(0, g + p0[0]) =~= Seq::new(1, |j: int| parser_gap(t, rs, k + j)));
        assert(Seq::<nat>::empty() =~= Seq::new(0, |j: int| (k + j) as nat));
    } else {
        lemma_stream_gaps(t, rs, k + 1);
        let rest = block_lead(t, rs, k + 1) + protected_suffix(t, rs, k + 1);
        lemma_stream_token(k as usize, rest);
        lemma_stream_escaped(g, token_of(k as nat) + rest);
        assert(block_lead(t, rs, k) + protected_suffix(t, rs, k) =~= escaped(g) + (token_of(k as nat) + rest));
        let gaps1 = Seq::new((n - k) as nat, |j: int| parser_gap(t, rs, k + 1 + j));
        let idx1 = Seq::new((n - k - 1) as nat, |j: int| (k + 1 + j) as nat);
        let q = seq![Seq::<char>::empty()] + gaps1;
        assert(q.update(0, g + q[0]) =~= Seq::new((n - k + 1) as nat, |j: int| parser_gap(t, rs, k + j)));
        assert(seq![k as nat] + idx1 =~= Seq::new((n - k) as nat, |j: int| (k + j) as nat));
    }
}

// ---------------------------------------------------------------------------
// Taking back what protection added
// ---------------------------------------------------------------------------

/// Block regions start a line, do not start with a line break, and have a
/// one-line scaffold prefix.
pub open spec fn blocks_well_placed(t: Seq<char>, rs: Seq<ProtectedRegion>) -> bool {
    forall|k: int|
        0 <= k < rs.len() && (#[trigger] rs[k]).form is Block ==> {
            &&& (rs[k].start == 0 || t[rs[k].start - 1] == '\n')
            &&& t[rs[k].start as int] != '\n'
            &&& !rs[k].scaffold_prefix@.contains('\n')
        }
}

/// Inline regions do not end with a line break.
pub open spec fn inline_ends_plain(t: Seq<char>, rs: Seq<ProtectedRegion>) -> bool {
    forall|k: int| 0 <= k < rs.len() && (#[trigger] rs[k]).form is Inline ==> t[rs[k].end - 1] != '\n'
}

proof fn lemma_ends2(s: Seq<char>)
    ensures
        ends_with(s, seq!['\n', '\n']) <==> (s.len() >= 2 && s[s.len() - 2] == '\n' && s[s.len() - 1] == '\n'),
{
    if s.len() >= 2 {
        let tail = s.subrange(s.len() - 2, s.len() as int);
        assert(tail[0] == s[s.len() - 2]);
        assert(tail[1] == s[s.len() - 1]);
        if s[s.len() - 2] == '\n' && s[s.len() - 1] == '\n' {
            assert(tail =~= seq!['\n', '\n']);
        }
    }
}

proof fn lemma_last_lf_end_plain(x: Seq<char>, y: Seq<char>)
    requires
        !y.contains('\n'),
        x.len() == 0 || x.last() == '\n',
    ensures
        last_lf_end(x + y) == x.len(),
    decreases y.len(),
{
    if y.len() == 0 {
        assert(x + y =~= x);
        if x.len() > 0 {
            assert(last_lf_end(x) == x.len());
        }
    } else {
        assert((x + y).last() == y.last());
        assert(y.last() != '\n') by {
            if y.last() == '\n' {
                assert(y.contains('\n')) by {
                    assert(y[y.len() - 1] == '\n');
                }
            }
        }
        assert((x + y).drop_last() =~= x + y.drop_last());
        assert(!y.drop_last().contains('\n')) by {
            if y.drop_last().contains('\n') {
                let i = choose|i: int| 0 <= i < y.drop_last().len() && y.drop_last()[i] == '\n';
                assert(y[i] == '\n');
            }
        }
        lemma_last_lf_end_plain(x, y.drop_last());
    }
}

/// Gap `k` before block `k`, with the scaffold prefix cut at the last line
/// break and a blank line protection added dropped, is the source gap.
#[verifier::rlimit(60)]
proof fn lemma_block_gap_fixed(t: Seq<char>, rs: Seq<ProtectedRegion>, k: int)
    requires
        0 <= k < rs.len(),
        rs[k].form is Block,
        regions_canonical(t, rs),
        blocks_well_placed(t, rs),
        inline_ends_plain(t, rs),
    ensures
        ({
            let x = source_gap(t, rs, k) + (if break_before(t, rs, k) {
                seq!['\n']
            } else {
                Seq::empty()
            });
            &&& last_lf_end(x + rs[k].scaffold_prefix@) == x.len()
            &&& (if synthetic_prefix(t, rs[k]) && ends_with(x, seq!['\n', '\n']) {
                x.drop_last()
            } else {
                x
            }) == source_gap(t, rs, k)
        }),
{
    reveal(break_before);
    let r = rs[k];
    let s = r.start as int;
    let gs = gap_start(rs, k);
    assert(gs <= s < r.end <= t.len());
    assert(s == 0 || t[s - 1] == '\n');
    assert(t[s] != '\n');
    let g = source_gap(t, rs, k);
    assert(g == t.subrange(gs, s));
    let e = escaped(g);
    lemma_escaped_tail(g);
    let p = protect_scan(t, rs, k).0;
    let out0 = p + e;
    let brk = break_before(t, rs, k);
    assert(brk == (out0.len() > 0 && !ends_with(out0, seq!['\n', '\n'])));
    let x = g + (if brk {
        seq!['\n']
    } else {
        Seq::empty()
    });
    if g.len() > 0 {
        assert(g.last() == t[s - 1]);
    }
    lemma_ends2(out0);
    lemma_ends2(x);
    lemma_ends2(g);
    if k > 0 {
        lemma_scan_step(t, rs, k - 1);
        assert(gs == rs[k - 1].end);
        assert(rs[k - 1].start < rs[k - 1].end);
    }
    let lead = block_lead(t, rs, k);
    if g.len() >= 2 {
        lemma_escaped_len(g);
        assert(out0.len() >= 2);
        assert(out0[out0.len() - 1] == e[e.len() - 1]);
        assert(out0[out0.len() - 2] == e[e.len() - 2]);
        lemma_ends2(e);
        assert(g[g.len() - 2] == t[s - 2]);
    } else if g.len() == 1 {
        assert(g[0] == '\n');
        assert(e =~= seq!['\n']);
        if k == 0 {
            assert(p =~= Seq::<char>::empty());
            assert(out0 =~= seq!['\n']);
        } else if rs[k - 1].form is Inline {
            assert(lead =~= Seq::<char>::empty());
            let tok = token_of((k - 1) as nat);
            assert(out0[out0.len() - 2] == tok.last());
            assert(t[s - 2] == t[rs[k - 1].end - 1]);
        } else {
            assert(t[rs[k - 1].end as int] == g[0]);
            assert(!synthetic_suffix(t, rs[k - 1]));
            assert(lead =~= seq!['\n']);
            assert(out0[out0.len() - 1] == '\n');
            assert(out0[out0.len() - 2] == '\n');
        }
    } else {
        assert(e =~= Seq::<char>::empty());
        assert(out0 =~= p);
        if k == 0 {
            assert(p =~= Seq::<char>::empty());
        } else if rs[k - 1].form is Inline {
            assert(s == rs[k - 1].end);
            assert(false);
        } else {
            assert(rs[k - 1].end == s);
            assert(synthetic_suffix(t, rs[k - 1]));
            assert(lead =~= seq!['\n', '\n']);
            assert(out0[out0.len() - 1] == '\n');
            assert(out0[out0.len() - 2] == '\n');
        }
    }
    lemma_last_lf_end_plain(x, r.scaffold_prefix@);
    if brk && x.len() >= 1 {
        assert(x.drop_last() =~= g);
    }
}

/// The gaps after blocks `0..k` have been taken back.
pub open spec fn fixed_gaps(t: Seq<char>, rs: Seq<ProtectedRegion>, k: int) -> Seq<Seq<char>> {
    Seq::new(
        (rs.len() + 1) as nat,
        |j: int|
            if j < k {
                source_gap(t, rs, j)
            } else if j == k {
                source_gap(t, rs, j) + block_mid(t, rs, j)
            } else {
                parser_gap(t, rs, j)
            },
    )
}

#[verifier::spinoff_prover]
#[verifier::rlimit(60)]
proof fn lemma_fix_blocks(t: Seq<char>, rs: Seq<ProtectedRegion>, pre: Seq<bool>, suf: Seq<bool>, k: int)
    requires
        0 <= k <= rs.len(),
        regions_canonical(t, rs),
        blocks_well_placed(t, rs),
        inline_ends_plain(t, rs),
        pre == rs.map_values(|r: ProtectedRegion| synthetic_prefix(t, r)),
        suf == rs.map_values(|r: ProtectedRegion| synthetic_suffix(t, r)),
    ensures
        fix_block_gaps(
            Seq::new((rs.len() + 1) as nat, |j: int| parser_gap(t, rs, j)),
            rs,
            pre,
            suf,
            k,
        ) == Ok::<Seq<Seq<char>>, &'static str>(fixed_gaps(t, rs, k)),
    decreases k,
{
    let gaps = Seq::new((rs.len() + 1) as nat, |j: int| parser_gap(t, rs, j));
    if k == 0 {
        assert(block_lead(t, rs, 0) =~= Seq::<char>::empty());
        assert(gaps =~= fixed_gaps(t, rs, 0));
    } else {
        let i = k - 1;
        lemma_fix_blocks(t, rs, pre, suf, i);
        let g = fixed_gaps(t, rs, i);
        let r = rs[i];
        if r.form is Block {
            lemma_block_gap_fixed(t, rs, i);
            let brk: Seq<char> = if break_before(t, rs, i) {
                seq!['\n']
            } else {
                Seq::empty()
            };
            let x = source_gap(t, rs, i) + brk;
            assert(g[i] =~= x + r.scaffold_prefix@);
            let gi = g[i].take(last_lf_end(g[i]) as int);
            assert(gi =~= x);
            assert(pre[i] == synthetic_prefix(t, r));
            assert(suf[i] == synthetic_suffix(t, r));
            let next = g[i + 1];
            let rest = source_gap(t, rs, k) + block_mid(t, rs, k);
            assert(next == block_lead(t, rs, k) + source_gap(t, rs, k) + block_mid(t, rs, k));
            if synthetic_suffix(t, r) {
                assert(next =~= seq!['\n', '\n'] + rest);
                assert(next.drop_first() =~= seq!['\n'] + rest);
                assert(next.drop_first().drop_first() =~= rest);
            } else {
                assert(next =~= seq!['\n'] + rest);
                assert(next.drop_first() =~= rest);
            }
            assert(g.update(i, source_gap(t, rs, i)).update(i + 1, rest) =~= fixed_gaps(t, rs, k));
        } else {
            assert(block_mid(t, rs, i) =~= Seq::<char>::empty());
            assert(block_lead(t, rs, k) =~= Seq::<char>::empty());
            assert(g =~= fixed_gaps(t, rs, k));
        }
    }
}

/// What protection hides, restoration gives back: restoring the
/// parser-facing text itself (as an identity renderer would hand it over)
/// yields the source text. Block regions must start a line and not start
/// with a line break, with a one-line scaffold prefix free of marker
/// scalars; inline regions must not end with a line break.
#[verifier::rlimit(80)]
pub proof fn lemma_restore_after_protect(text: Seq<char>, regions: Seq<ProtectedRegion>, ps: ProtectedSource)
    requires
        regions_check(text, regions, regions.len() as int) is Ok,
        blocks_well_placed(text, regions),
        inline_ends_plain(text, regions),
        scaffolds_plain(regions),
        ps.text@ == protected_text(text, regions),
        ps.regions@ == regions,
        ps.tokens.len() == regions.len(),
        forall|k: int| 0 <= k < regions.len() ==> (#[trigger] ps.tokens@[k])@ == token_of(k as nat),
        ps.synthetic_block_prefixes@ == regions.map_values(|r: ProtectedRegion| synthetic_prefix(text, r)),
        ps.synthetic_block_suffixes@ == regions.map_values(|r: ProtectedRegion| synthetic_suffix(text, r)),
    ensures
        restored(ps.text@, ps) == Ok::<Seq<char>, &'static str>(text),
{
    let n = regions.len() as int;
    assert(regions.len() == ps.regions.len());
    assert(ps.synthetic_block_prefixes.len() == n);
    assert(ps.synthetic_block_suffixes.len() == n);
    lemma_regions_check_ok(text, regions, n);
    assert(regions_canonical(text, regions));
    lemma_side_table_ok(regions, views(ps.tokens@), n);
    lemma_protected_suffix(text, regions, 0);
    assert(protect_scan(text, regions, 0).0 =~= Seq::<char>::empty());
    assert(block_lead(text, regions, 0) =~= Seq::<char>::empty());
    assert(block_lead(text, regions, 0) + protected_suffix(text, regions, 0) =~= ps.text@);
    lemma_stream_gaps(text, regions, 0);
    let gaps = Seq::new((n + 1) as nat, |j: int| parser_gap(text, regions, j));
    assert(Seq::new((n + 1) as nat, |j: int| parser_gap(text, regions, 0 + j)) =~= gaps);
    assert(Seq::new(n as nat, |j: int| (0 + j) as nat) =~= index_range(n as nat));
    lemma_fix_blocks(text, regions, ps.synthetic_block_prefixes@, ps.synthetic_block_suffixes@, n);
    assert(block_mid(text, regions, n) =~= Seq::<char>::empty());
    let src = Seq::new((n + 1) as nat, |j: int| source_gap(text, regions, j));
    assert(fixed_gaps(text, regions, n) =~= src);
    lemma_assemble_text(text, regions, n);
    assert(text.subrange(0, text.len() as int) =~= text);
}

} // verus!
