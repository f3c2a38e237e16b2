//! Recognizers for inline regions (code spans and inline math) within a
//! range of the source, and the arbitration that picks non-overlapping
//! regions among their candidates.
//!
//! Positions are scalar offsets into the normalized source.

use vstd::prelude::*;
use crate::preservation::model::{Candidate, ContainerContext, RegionForm, RegionKind};

verus! {

// ---------------------------------------------------------------------------
// Candidates as values
// ---------------------------------------------------------------------------

/// A candidate region as plain values.
pub struct Cand {
    pub kind: RegionKind,
    pub form: RegionForm,
    pub start: int,
    pub end: int,
    pub container: ContainerContext,
    pub scaffold: Seq<char>,
}

pub open spec fn cand_view(c: Candidate) -> Cand {
    Cand {
        kind: c.kind,
        form: c.form,
        start: c.start as int,
        end: c.end as int,
        container: c.container,
        scaffold: c.scaffold_prefix@,
    }
}

pub open spec fn cand_views(v: Seq<Candidate>) -> Seq<Cand> {
    v.map_values(|c: Candidate| cand_view(c))
}

pub open spec fn no_container() -> ContainerContext {
    ContainerContext { blockquote_depth: 0, list_depth: 0, content_column: 0 }
}

/// An inline candidate.
pub open spec fn inline_cand(kind: RegionKind, start: int, end: int) -> Cand {
    Cand { kind, form: RegionForm::Inline, start, end, container: no_container(), scaffold: Seq::empty() }
}

/// The kinds the recognizers produce: those the precedence registry ranks.
pub open spec fn ranked(k: RegionKind) -> bool {
    !(k is RawHtmlInline || k is AttributeGroupInline || k is DefinitionList || k is PandocGridTable
        || k is RawHtmlBlock || k is AttributeGroupBlock)
}

/// A non-empty range of a ranked kind.
pub open spec fn proper_cand(c: Cand) -> bool {
    c.start < c.end && ranked(c.kind)
}

/// Every candidate is proper.
pub open spec fn proper_cands(s: Seq<Cand>) -> bool {
    forall|i: int| 0 <= i < s.len() ==> proper_cand(#[trigger] s[i])
}

pub fn push_inline(out: &mut Vec<Candidate>, kind: RegionKind, start: usize, end: usize)
    ensures
        cand_views(final(out)@) == cand_views(old(out)@).push(inline_cand(kind, start as int, end as int)),
{
    let c = Candidate::inline(kind, start, end);
    let ghost before = out@;
    out.push(c);
    assert(out@ == before.push(c));
    assert(cand_views(out@) =~= cand_views(before).push(cand_view(c)));
}

// ---------------------------------------------------------------------------
// Escapes and backtick runs
// ---------------------------------------------------------------------------

/// The number of backslashes right before `pos`.
pub open spec fn backslashes_before(t: Seq<char>, pos: int) -> nat
    decreases pos,
{
    if 0 < pos <= t.len() && t[pos - 1] == '\\' {
        1 + backslashes_before(t, pos - 1)
    } else {
        0
    }
}

/// Whether the character at `pos` is not escaped (an even number of
/// backslashes precede it).
pub open spec fn escape_even(t: Seq<char>, pos: int) -> bool {
    backslashes_before(t, pos) % 2 == 0
}

pub fn escape_is_even(t: &Vec<char>, position: usize) -> (b: bool)
    requires
        position <= t.len(),
    ensures
        b == escape_even(t@, position as int),
{
    let mut cursor = position;
    let mut count: usize = 0;
    while cursor > 0 && t[cursor - 1] == '\\'
        invariant
            cursor <= position <= t.len(),
            count + backslashes_before(t@, cursor as int) == backslashes_before(t@, position as int),
            count <= position - cursor,
        decreases cursor,
    {
        cursor -= 1;
        count += 1;
    }
    count % 2 == 0
}

/// Where the run of `c` starting at `i` ends (at most `end`).
pub open spec fn run_end(t: Seq<char>, c: char, i: int, end: int) -> int
    decreases end - i,
{
    if 0 <= i < end && i < t.len() && t[i] == c {
        run_end(t, c, i + 1, end)
    } else {
        i
    }
}

pub proof fn lemma_run_end(t: Seq<char>, c: char, i: int, end: int)
    requires
        0 <= i,
    ensures
        i <= run_end(t, c, i, end),
        i < end && i < t.len() && t[i] == c ==> i < run_end(t, c, i, end),
        run_end(t, c, i, end) <= end || run_end(t, c, i, end) == i,
        forall|k: int| i <= k < run_end(t, c, i, end) ==> t[k] == c,
        run_end(t, c, i, end) <= t.len() || run_end(t, c, i, end) == i,
    decreases end - i,
{
    if 0 <= i < end && i < t.len() && t[i] == c {
        lemma_run_end(t, c, i + 1, end);
    }
}

fn run_end_exec(t: &Vec<char>, c: char, i: usize, end: usize) -> (r: usize)
    requires
        end <= t.len(),
    ensures
        r == run_end(t@, c, i as int, end as int),
        i <= r,
        r <= end || r == i,
{
    proof {
        lemma_run_end(t@, c, i as int, end as int);
    }
    let mut k = i;
    while k < end && t[k] == c
        invariant
            i <= k,
            end <= t.len(),
            run_end(t@, c, i as int, end as int) == run_end(t@, c, k as int, end as int),
        decreases end - k,
    {
        k += 1;
    }
    k
}

/// The runs of backticks in `[i, end)`, as (start, end) pairs.
pub open spec fn runs_from(t: Seq<char>, i: int, end: int) -> Seq<(int, int)>
    decreases end - i,
{
    if i < 0 || i >= end || i >= t.len() {
        Seq::empty()
    } else if t[i] != '`' {
        runs_from(t, i + 1, end)
    } else {
        let j = run_end(t, '`', i, end);
        proof {
            lemma_run_end(t, '`', i, end);
        }
        seq![(i, j)] + runs_from(t, j, end)
    }
}

fn backtick_runs(t: &Vec<char>, start: usize, end: usize) -> (r: Vec<(usize, usize)>)
    requires
        end <= t.len(),
    ensures
        r@.map_values(|p: (usize, usize)| (p.0 as int, p.1 as int)) == runs_from(t@, start as int, end as int),
        forall|k: int| 0 <= k < r@.len() ==> start <= (#[trigger] r@[k]).0 < r@[k].1 <= end,
{
    let mut runs: Vec<(usize, usize)> = Vec::new();
    let mut index = start;
    while index < end
        invariant
            start <= index,
            end <= t.len(),
            runs@.map_values(|p: (usize, usize)| (p.0 as int, p.1 as int)) + runs_from(t@, index as int, end as int)
                == runs_from(t@, start as int, end as int),
            forall|k: int| 0 <= k < runs@.len() ==> start <= (#[trigger] runs@[k]).0 < runs@[k].1 <= index,
            runs@.len() > 0 ==> index <= end,
        decreases end - index,
    {
        if t[index] != '`' {
            index += 1;
        } else {
            let run_start = index;
            let j = run_end_exec(t, '`', index, end);
            proof {
                lemma_run_end(t@, '`', index as int, end as int);
            }
            let ghost before = runs@;
            runs.push((run_start, j));
            assert(runs@.map_values(|p: (usize, usize)| (p.0 as int, p.1 as int)) =~= before.map_values(
                |p: (usize, usize)| (p.0 as int, p.1 as int),
            ).push((run_start as int, j as int)));
            index = j;
        }
    }
    assert(runs_from(t@, index as int, end as int) =~= Seq::<(int, int)>::empty());
    assert(runs@.map_values(|p: (usize, usize)| (p.0 as int, p.1 as int)) + Seq::<(int, int)>::empty()
        =~= runs@.map_values(|p: (usize, usize)| (p.0 as int, p.1 as int)));
    runs
}

// ---------------------------------------------------------------------------
// Pending openers keyed by run length
// ---------------------------------------------------------------------------

/// Openers waiting for a closer, by run length.
pub struct Pending {
    entries: Vec<(usize, usize)>,
}

impl Pending {
    pub closed spec fn map(&self) -> Map<int, int> {
        Map::new(
            |k: int| exists|i: int| 0 <= i < self.entries@.len() && self.entries@[i].0 == k,
            |k: int|
                self.entries@[choose|i: int| 0 <= i < self.entries@.len() && self.entries@[i].0 == k].1 as int,
        )
    }

    pub closed spec fn wf(&self) -> bool {
        forall|i: int, j: int|
            0 <= i < j < self.entries@.len() ==> self.entries@[i].0 != self.entries@[j].0
    }

    pub fn new() -> (r: Self)
        ensures
            r.wf(),
            r.map() == Map::<int, int>::empty(),
    {
        let r = Pending { entries: Vec::new() };
        assert(r.map() =~= Map::<int, int>::empty());
        r
    }

    fn find(&self, key: usize) -> (r: Option<usize>)
        requires
            self.wf(),
        ensures
            match r {
                Some(i) => i < self.entries@.len() && self.entries@[i as int].0 == key,
                None => forall|i: int| 0 <= i < self.entries@.len() ==> self.entries@[i].0 != key,
            },
    {
        let mut i: usize = 0;
        while i < self.entries.len()
            invariant
                i <= self.entries.len(),
                forall|j: int| 0 <= j < i ==> self.entries@[j].0 != key,
            decreases self.entries.len() - i,
        {
            if self.entries[i].0 == key {
                return Some(i);
            }
            i += 1;
        }
        None
    }

    /// The opener waiting for runs of this length.
    pub fn get(&self, key: usize) -> (r: Option<usize>)
        requires
            self.wf(),
        ensures
            match r {
                Some(v) => self.map().dom().contains(key as int) && self.map()[key as int] == v,
                None => !self.map().dom().contains(key as int),
            },
    {
        match self.find(key) {
            Some(i) => {
                let ghost k = key as int;
                assert(self.map().dom().contains(k));
                let ghost c = choose|j: int| 0 <= j < self.entries@.len() && self.entries@[j].0 == k;
                assert(c == i);
                Some(self.entries[i].1)
            },
            None => {
                assert(!self.map().dom().contains(key as int));
                None
            },
        }
    }

    /// Removes and returns the opener waiting for runs of this length.
    pub fn remove(&mut self, key: usize) -> (r: Option<usize>)
        requires
            old(self).wf(),
        ensures
            final(self).wf(),
            match r {
                Some(v) => old(self).map().dom().contains(key as int) && old(self).map()[key as int] == v,
                None => !old(self).map().dom().contains(key as int),
            },
            final(self).map() == old(self).map().remove(key as int),
    {
        match self.find(key) {
            Some(i) => {
                let ghost k = key as int;
                let ghost old_e = self.entries@;
                assert(self.map().dom().contains(k));
                let ghost c = choose|j: int| 0 <= j < old_e.len() && old_e[j].0 == k;
                assert(c == i);
                let v = self.entries[i].1;
                self.entries.remove(i);
                let ghost new_e = self.entries@;
                assert(new_e =~= old_e.take(i as int) + old_e.skip(i + 1));
                assert(self.wf()) by {
                    assert forall|a: int, b: int| 0 <= a < b < new_e.len() implies new_e[a].0 != new_e[b].0 by {
                        let oa = if a < i { a } else { a + 1 };
                        let ob = if b < i { b } else { b + 1 };
                        assert(new_e[a] == old_e[oa]);
                        assert(new_e[b] == old_e[ob]);
                    }
                }
                assert(self.map() =~= old(self).map().remove(k)) by {
                    assert forall|x: int| #[trigger] self.map().dom().contains(x) == old(self).map().remove(
                        k,
                    ).dom().contains(x) by {
                        if self.map().dom().contains(x) {
                            let j = choose|j: int| 0 <= j < new_e.len() && new_e[j].0 == x;
                            let oj = if j < i { j } else { j + 1 };
                            assert(old_e[oj] == new_e[j]);
                        }
                        if old(self).map().remove(k).dom().contains(x) {
                            let j = choose|j: int| 0 <= j < old_e.len() && old_e[j].0 == x;
                            assert(j != i);
                            let nj = if j < i { j } else { j - 1 };
                            assert(new_e[nj] == old_e[j]);
                        }
                    }
                    assert forall|x: int| #[trigger] self.map().dom().contains(x) implies self.map()[x]
                        == old(self).map()[x] by {
                        let j = choose|j: int| 0 <= j < new_e.len() && new_e[j].0 == x;
                        let oj = if j < i { j } else { j + 1 };
                        assert(old_e[oj] == new_e[j]);
                        let oc = choose|j: int| 0 <= j < old_e.len() && old_e[j].0 == x;
                        assert(oc == oj);
                    }
                }
                Some(v)
            },
            None => {
                assert(self.map() =~= old(self).map().remove(key as int));
                None
            },
        }
    }

    /// Records an opener for runs of this length (the length must be free).
    pub fn insert(&mut self, key: usize, value: usize)
        requires
            old(self).wf(),
            !old(self).map().dom().contains(key as int),
        ensures
            final(self).wf(),
            final(self).map() == old(self).map().insert(key as int, value as int),
    {
        let ghost old_e = self.entries@;
        self.entries.push((key, value));
        let ghost new_e = self.entries@;
        assert(new_e == old_e.push((key, value)));
        assert(forall|i: int| 0 <= i < old_e.len() ==> old_e[i].0 != key);
        assert(self.map() =~= old(self).map().insert(key as int, value as int)) by {
            assert forall|x: int| #[trigger] self.map().dom().contains(x) == old(self).map().insert(
                key as int,
                value as int,
            ).dom().contains(x) by {
                if self.map().dom().contains(x) {
                    let j = choose|j: int| 0 <= j < new_e.len() && new_e[j].0 == x;
                    if j < old_e.len() {
                        assert(old_e[j] == new_e[j]);
                    }
                }
                if old(self).map().dom().contains(x) {
                    let j = choose|j: int| 0 <= j < old_e.len() && old_e[j].0 == x;
                    assert(new_e[j] == old_e[j]);
                }
                if x == key as int {
                    assert(new_e[old_e.len() as int].0 == key);
                }
            }
            assert forall|x: int| #[trigger] self.map().dom().contains(x) implies self.map()[x]
                == old(self).map().insert(key as int, value as int)[x] by {
                let j = choose|j: int| 0 <= j < new_e.len() && new_e[j].0 == x;
                if x == key as int {
                    assert(j == old_e.len());
                } else {
                    assert(j < old_e.len());
                    assert(old_e[j] == new_e[j]);
                    let oc = choose|j: int| 0 <= j < old_e.len() && old_e[j].0 == x;
                    assert(oc == j);
                }
            }
        }
    }
}


// ---------------------------------------------------------------------------
// Code spans
// ---------------------------------------------------------------------------

/// Runs ordered and non-empty, within `[start, end]`.
pub open spec fn runs_ordered(runs: Seq<(int, int)>, start: int, end: int) -> bool {
    &&& forall|k: int| 0 <= k < runs.len() ==> start <= (#[trigger] runs[k]).0 < runs[k].1 <= end
    &&& forall|k: int| 0 < k < runs.len() ==> runs[k - 1].1 <= (#[trigger] runs[k]).0
}

proof fn lemma_runs_from_ordered(t: Seq<char>, i: int, end: int)
    requires
        0 <= i,
        end <= t.len(),
    ensures
        runs_ordered(runs_from(t, i, end), i, end),
    decreases end - i,
{
    if i < 0 || i >= end || i >= t.len() {
    } else if t[i] != '`' {
        lemma_runs_from_ordered(t, i + 1, end);
    } else {
        let j = run_end(t, '`', i, end);
        lemma_run_end(t, '`', i, end);
        lemma_runs_from_ordered(t, j, end);
        let rest = runs_from(t, j, end);
        let all = seq![(i, j)] + rest;
        assert(all == runs_from(t, i, end));
        assert forall|k: int| 0 <= k < all.len() implies i <= (#[trigger] all[k]).0 < all[k].1 <= end by {
            if k > 0 {
                assert(all[k] == rest[k - 1]);
            }
        }
        assert forall|k: int| 0 < k < all.len() implies all[k - 1].1 <= (#[trigger] all[k]).0 by {
            assert(all[k] == rest[k - 1]);
            if k > 1 {
                assert(all[k - 1] == rest[k - 2]);
            }
        }
    }
}

/// Pairing runs of equal length into code spans: a run closes the pending
/// run of its length, otherwise it waits for one.
pub open spec fn code_spans(runs: Seq<(int, int)>) -> (Map<int, int>, Seq<Cand>)
    decreases runs.len(),
{
    if runs.len() == 0 {
        (Map::empty(), Seq::empty())
    } else {
        let st = code_spans(runs.drop_last());
        let r = runs.last();
        let len = r.1 - r.0;
        if st.0.dom().contains(len) {
            (st.0.remove(len), st.1.push(inline_cand(RegionKind::CodeSpan, st.0[len], r.1)))
        } else {
            (st.0.insert(len, r.0), st.1)
        }
    }
}

/// The code spans in `[start, end)`.
pub open spec fn backtick_spans(t: Seq<char>, start: int, end: int) -> Seq<Cand> {
    code_spans(runs_from(t, start, end)).1
}

pub open spec fn run_views(r: Seq<(usize, usize)>) -> Seq<(int, int)> {
    r.map_values(|p: (usize, usize)| (p.0 as int, p.1 as int))
}

/// Every pending opener is below `bound`.
pub open spec fn pending_below(m: Map<int, int>, bound: int) -> bool {
    forall|x: int| #[trigger] m.dom().contains(x) ==> m[x] < bound
}

fn code_span_run(pending: &mut Pending, out: &mut Vec<Candidate>, rs: usize, re: usize)
    requires
        rs < re,
        old(pending).wf(),
        pending_below(old(pending).map(), rs as int + 1),
        proper_cands(cand_views(old(out)@)),
    ensures
        final(pending).wf(),
        (final(pending).map(), cand_views(final(out)@)) == ({
            let len = re - rs;
            if old(pending).map().dom().contains(len) {
                (
                    old(pending).map().remove(len),
                    cand_views(old(out)@).push(
                        inline_cand(RegionKind::CodeSpan, old(pending).map()[len], re as int),
                    ),
                )
            } else {
                (old(pending).map().insert(len, rs as int), cand_views(old(out)@))
            }
        }),
        pending_below(final(pending).map(), rs as int + 1),
        proper_cands(cand_views(final(out)@)),
{
    let len = re - rs;
    let ghost before = cand_views(out@);
    match pending.remove(len) {
        Some(opener) => {
            push_inline(out, RegionKind::CodeSpan, opener, re);
        },
        None => {
            pending.insert(len, rs);
        },
    }
    assert(proper_cands(cand_views(out@))) by {
        assert forall|i: int| 0 <= i < cand_views(out@).len() implies proper_cand(#[trigger] cand_views(out@)[i]) by {
            if i < before.len() {
                assert(cand_views(out@)[i] == before[i]);
            }
        }
    }
}

pub fn scan_backticks(t: &Vec<char>, start: usize, end: usize) -> (r: Vec<Candidate>)
    requires
        end <= t.len(),
    ensures
        cand_views(r@) == backtick_spans(t@, start as int, end as int),
        proper_cands(cand_views(r@)),
{
    let runs = backtick_runs(t, start, end);
    let ghost rv = run_views(runs@);
    proof {
        lemma_runs_from_ordered(t@, start as int, end as int);
    }
    let mut pending = Pending::new();
    let mut out: Vec<Candidate> = Vec::new();
    let mut k: usize = 0;
    assert(cand_views(out@) =~= Seq::<Cand>::empty());
    while k < runs.len()
        invariant
            k <= runs.len(),
            rv == run_views(runs@),
            runs_ordered(rv, start as int, end as int),
            pending.wf(),
            (pending.map(), cand_views(out@)) == code_spans(rv.take(k as int)),
            proper_cands(cand_views(out@)),
            k < runs.len() ==> pending_below(pending.map(), rv[k as int].0 + 1),
        decreases runs.len() - k,
    {
        let (rs, re) = runs[k];
        assert(rv[k as int] == (rs as int, re as int));
        assert(rv.take(k + 1).drop_last() =~= rv.take(k as int));
        code_span_run(&mut pending, &mut out, rs, re);
        if k + 1 < runs.len() {
            assert(rv[k + 1].0 >= rv[k as int].1);
        }
        k += 1;
    }
    assert(rv.take(runs.len() as int) =~= rv);
    out
}

// ---------------------------------------------------------------------------
// GitLab and MyST inline math
// ---------------------------------------------------------------------------

pub open spec fn composite_step(
    t: Seq<char>,
    start: int,
    end: int,
    st: (Map<int, int>, Map<int, int>, Seq<Cand>),
    r: (int, int),
) -> (Map<int, int>, Map<int, int>, Seq<Cand>) {
    let len = r.1 - r.0;
    let closes = r.1 < end && t[r.1] == '$' && escape_even(t, r.1);
    let gitlab = st.0;
    let g = if gitlab.dom().contains(len) && closes {
        (gitlab.remove(len), st.2.push(inline_cand(RegionKind::MathGitlabInline, gitlab[len], r.1 + 1)))
    } else if r.0 > start && t[r.0 - 1] == '$' && escape_even(t, r.0 - 1) {
        (if gitlab.dom().contains(len) {
            gitlab
        } else {
            gitlab.insert(len, r.0 - 1)
        }, st.2)
    } else {
        (gitlab, st.2)
    };
    let myst = st.1;
    if myst.dom().contains(len) {
        (g.0, myst.remove(len), g.1.push(inline_cand(RegionKind::MathMystInline, myst[len], r.1)))
    } else if r.0 >= start + 6 && crate::text::occurs_at(t, r.0 - 6, "{math}"@) {
        (g.0, myst.insert(len, r.0 - 6), g.1)
    } else {
        (g.0, myst, g.1)
    }
}

pub open spec fn composite_scan(t: Seq<char>, start: int, end: int, runs: Seq<(int, int)>) -> (
    Map<int, int>,
    Map<int, int>,
    Seq<Cand>,
)
    decreases runs.len(),
{
    if runs.len() == 0 {
        (Map::empty(), Map::empty(), Seq::empty())
    } else {
        composite_step(t, start, end, composite_scan(t, start, end, runs.drop_last()), runs.last())
    }
}

/// GitLab math (`` $`...`$ ``) and MyST math (`` {math}`...` ``) in
/// `[start, end)`.
pub open spec fn composite_math(t: Seq<char>, start: int, end: int) -> Seq<Cand> {
    composite_scan(t, start, end, runs_from(t, start, end)).2
}

fn composite_run(
    t: &Vec<char>,
    start: usize,
    end: usize,
    gitlab: &mut Pending,
    myst: &mut Pending,
    out: &mut Vec<Candidate>,
    rs: usize,
    re: usize,
)
    requires
        end <= t.len(),
        start <= rs < re <= end,
        old(gitlab).wf(),
        old(myst).wf(),
        pending_below(old(gitlab).map(), rs as int),
        pending_below(old(myst).map(), rs as int),
        proper_cands(cand_views(old(out)@)),
    ensures
        final(gitlab).wf(),
        final(myst).wf(),
        (final(gitlab).map(), final(myst).map(), cand_views(final(out)@)) == composite_step(
            t@,
            start as int,
            end as int,
            (old(gitlab).map(), old(myst).map(), cand_views(old(out)@)),
            (rs as int, re as int),
        ),
        pending_below(final(gitlab).map(), rs as int),
        pending_below(final(myst).map(), rs as int),
        proper_cands(cand_views(final(out)@)),
{
    let len = re - rs;
    let ghost before = cand_views(out@);
    let closes = re < end && t[re] == '$' && escape_is_even(t, re);
    let g = gitlab.get(len);
    if g.is_some() && closes {
        let opener = gitlab.remove(len);
        match opener {
            Some(o) => push_inline(out, RegionKind::MathGitlabInline, o, re + 1),
            None => {},
        }
    } else if rs > start && t[rs - 1] == '$' && escape_is_even(t, rs - 1) {
        if g.is_none() {
            gitlab.insert(len, rs - 1);
        }
    }
    let ghost mid = cand_views(out@);
    match myst.remove(len) {
        Some(o) => push_inline(out, RegionKind::MathMystInline, o, re),
        None => {
            if rs >= 6 && rs - 6 >= start && crate::text::matches_at(t, rs - 6, "{math}") {
                myst.insert(len, rs - 6);
            }
        },
    }
    assert(proper_cands(cand_views(out@))) by {
        assert forall|i: int| 0 <= i < cand_views(out@).len() implies proper_cand(#[trigger] cand_views(out@)[i]) by {
            if i < before.len() {
                assert(cand_views(out@)[i] == before[i]);
            } else if i < mid.len() {
                assert(cand_views(out@)[i] == mid[i]);
            }
        }
    }
}

pub fn scan_composite_math(t: &Vec<char>, start: usize, end: usize) -> (r: Vec<Candidate>)
    requires
        end <= t.len(),
    ensures
        cand_views(r@) == composite_math(t@, start as int, end as int),
        proper_cands(cand_views(r@)),
{
    let runs = backtick_runs(t, start, end);
    let ghost rv = run_views(runs@);
    proof {
        lemma_runs_from_ordered(t@, start as int, end as int);
    }
    let mut gitlab = Pending::new();
    let mut myst = Pending::new();
    let mut out: Vec<Candidate> = Vec::new();
    let mut k: usize = 0;
    assert(cand_views(out@) =~= Seq::<Cand>::empty());
    while k < runs.len()
        invariant
            k <= runs.len(),
            end <= t.len(),
            rv == run_views(runs@),
            rv == runs_from(t@, start as int, end as int),
            runs_ordered(rv, start as int, end as int),
            gitlab.wf(),
            myst.wf(),
            (gitlab.map(), myst.map(), cand_views(out@)) == composite_scan(
                t@,
                start as int,
                end as int,
                rv.take(k as int),
            ),
            proper_cands(cand_views(out@)),
            k < runs.len() ==> pending_below(gitlab.map(), rv[k as int].0),
            k < runs.len() ==> pending_below(myst.map(), rv[k as int].0),
        decreases runs.len() - k,
    {
        let (rs, re) = runs[k];
        assert(rv[k as int] == (rs as int, re as int));
        assert(rv.take(k + 1).drop_last() =~= rv.take(k as int));
        composite_run(t, start, end, &mut gitlab, &mut myst, &mut out, rs, re);
        if k + 1 < runs.len() {
            assert(rv[k + 1].0 >= rv[k as int].1);
        }
        k += 1;
    }
    assert(rv.take(runs.len() as int) =~= rv);
    out
}

// ---------------------------------------------------------------------------
// \( ... \) math
// ---------------------------------------------------------------------------

/// `\(` ... `\)` math from `i` on: the first unescaped `\(` opens (later
/// ones are skipped), the next unescaped `\)` closes.
pub open spec fn paren_from(t: Seq<char>, i: int, end: int, opener: Option<int>) -> Seq<Cand>
    decreases end - i,
{
    if i < 0 || i + 1 >= end || i + 1 >= t.len() {
        Seq::empty()
    } else if t[i] == '\\' && t[i + 1] == '(' && escape_even(t, i) {
        paren_from(t, i + 2, end, if opener is Some { opener } else { Some(i) })
    } else if t[i] == '\\' && t[i + 1] == ')' && escape_even(t, i) {
        match opener {
            Some(o) => seq![inline_cand(RegionKind::MathParenInline, o, i + 2)] + paren_from(t, i + 2, end, None),
            None => paren_from(t, i + 2, end, None),
        }
    } else {
        paren_from(t, i + 1, end, opener)
    }
}

pub fn scan_paren_math(t: &Vec<char>, start: usize, end: usize) -> (r: Vec<Candidate>)
    requires
        end <= t.len(),
    ensures
        cand_views(r@) == paren_from(t@, start as int, end as int, None),
        proper_cands(cand_views(r@)),
{
    let mut opener: Option<usize> = None;
    let mut out: Vec<Candidate> = Vec::new();
    let mut index = start;
    assert(cand_views(out@) =~= Seq::<Cand>::empty());
    while index < end && end - index > 1
        invariant
            end <= t.len(),
            start <= index,
            cand_views(out@) + paren_from(
                t@,
                index as int,
                end as int,
                match opener {
                    Some(o) => Some(o as int),
                    None => None,
                },
            ) == paren_from(t@, start as int, end as int, None),
            proper_cands(cand_views(out@)),
            opener matches Some(o) ==> o < index,
        decreases end - index,
    {
        let ghost before = cand_views(out@);
        if t[index] == '\\' && t[index + 1] == '(' && escape_is_even(t, index) {
            if opener.is_none() {
                opener = Some(index);
            }
            index += 2;
        } else if t[index] == '\\' && t[index + 1] == ')' && escape_is_even(t, index) {
            match opener {
                Some(o) => {
                    push_inline(&mut out, RegionKind::MathParenInline, o, index + 2);
                    assert(cand_views(out@) + paren_from(t@, index + 2, end as int, None) =~= before + (seq![
                        inline_cand(RegionKind::MathParenInline, o as int, index + 2),
                    ] + paren_from(t@, index + 2, end as int, None)));
                    assert(proper_cands(cand_views(out@))) by {
                        assert forall|i: int| 0 <= i < cand_views(out@).len() implies proper_cand(#[trigger] cand_views(out@)[i]) by {
                            if i < before.len() {
                                assert(cand_views(out@)[i] == before[i]);
                            }
                        }
                    }
                },
                None => {},
            }
            opener = None;
            index += 2;
        } else {
            index += 1;
        }
    }
    assert(paren_from(
        t@,
        index as int,
        end as int,
        match opener {
            Some(o) => Some(o as int),
            None => None,
        },
    ) =~= Seq::<Cand>::empty());
    assert(cand_views(out@) + Seq::<Cand>::empty() =~= cand_views(out@));
    out
}


// ---------------------------------------------------------------------------
// \begin{name} ... \end{name} inline math
// ---------------------------------------------------------------------------

/// The `\begin{name}` or `\end{name}` event at `i` (an unescaped backslash):
/// whether it begins, the name (non-empty, without `{` or a line break) and
/// where the event ends.
pub open spec fn env_event(t: Seq<char>, i: int, end: int) -> Option<(bool, Seq<char>, int)> {
    if !escape_even(t, i) {
        None
    } else {
        let kind: Option<(bool, int)> = if i + 7 <= end && crate::text::occurs_at(t, i, "\\begin{"@) {
            Some((true, i + 7))
        } else if i + 5 <= end && crate::text::occurs_at(t, i, "\\end{"@) {
            Some((false, i + 5))
        } else {
            None
        };
        match kind {
            None => None,
            Some((begins, name_start)) => {
                let tail = t.subrange(name_start, end);
                let close = crate::formatter::filling::first_index_of(tail, '}');
                if close >= tail.len() || close == 0 || tail.take(close).contains('{') || tail.take(
                    close,
                ).contains('\n') {
                    None
                } else {
                    Some((begins, tail.take(close), name_start + close + 1))
                }
            },
        }
    }
}

pub proof fn lemma_env_event_end(t: Seq<char>, i: int, end: int)
    requires
        0 <= i < end <= t.len(),
    ensures
        env_event(t, i, end) matches Some(e) ==> i < e.2 <= end,
{
    if env_event(t, i, end) is Some {
        let name_start = if i + 7 <= end && crate::text::occurs_at(t, i, "\\begin{"@) {
            i + 7
        } else {
            i + 5
        };
        let tail = t.subrange(name_start, end);
        crate::formatter::filling::lemma_first_index_found(tail, '}');
    }
}

/// Environments from `i` on, with the stack of open (name, start) pairs: an
/// end closes the innermost environment when the names agree.
pub open spec fn envs_from(t: Seq<char>, i: int, end: int, stack: Seq<(Seq<char>, int)>) -> Seq<Cand>
    decreases end - i,
{
    if i < 0 || i >= end || end > t.len() {
        Seq::empty()
    } else if t[i] != '\\' {
        envs_from(t, i + 1, end, stack)
    } else {
        match env_event(t, i, end) {
            None => envs_from(t, i + 1, end, stack),
            Some((begins, name, ee)) => {
                proof {
                    lemma_env_event_end(t, i, end);
                }
                if begins {
                    envs_from(t, ee, end, stack.push((name, i)))
                } else if stack.len() > 0 && stack.last().0 == name {
                    seq![inline_cand(RegionKind::MathEnvironmentInline, stack.last().1, ee)] + envs_from(
                        t,
                        ee,
                        end,
                        stack.drop_last(),
                    )
                } else {
                    envs_from(t, ee, end, stack)
                }
            },
        }
    }
}

fn environment_event(t: &Vec<char>, i: usize, end: usize) -> (r: Option<(bool, Vec<char>, usize)>)
    requires
        i < end <= t.len(),
    ensures
        match env_event(t@, i as int, end as int) {
            Some((b, name, ee)) => r matches Some(x) && x.0 == b && x.1@ == name && x.2 == ee,
            None => r is None,
        },
{
    proof {
        lemma_env_event_end(t@, i as int, end as int);
    }
    if !escape_is_even(t, i) {
        return None;
    }
    let (begins, name_start) = if end - i >= 7 && crate::text::matches_at(t, i, "\\begin{") {
        (true, i + 7)
    } else if end - i >= 5 && crate::text::matches_at(t, i, "\\end{") {
        (false, i + 5)
    } else {
        return None;
    };
    let tail = crate::text::slice_of(t, name_start, end);
    let close = crate::formatter::filling::first_index_exec(&tail, '}');
    proof {
        crate::formatter::filling::lemma_first_index_found(tail@, '}');
    }
    if close >= tail.len() || close == 0 {
        return None;
    }
    let name = crate::text::slice_of(&tail, 0, close);
    assert(name@ =~= tail@.take(close as int));
    if crate::text::contains_char(&name, '{') || crate::text::contains_char(&name, '\n') {
        return None;
    }
    Some((begins, name, name_start + close + 1))
}

pub open spec fn stack_views(s: Seq<(Vec<char>, usize)>) -> Seq<(Seq<char>, int)> {
    s.map_values(|p: (Vec<char>, usize)| (p.0@, p.1 as int))
}

pub fn scan_inline_environments(t: &Vec<char>, start: usize, end: usize) -> (r: Vec<Candidate>)
    requires
        end <= t.len(),
    ensures
        cand_views(r@) == envs_from(t@, start as int, end as int, Seq::empty()),
        proper_cands(cand_views(r@)),
{
    let mut stack: Vec<(Vec<char>, usize)> = Vec::new();
    let mut out: Vec<Candidate> = Vec::new();
    let mut index = start;
    assert(cand_views(out@) =~= Seq::<Cand>::empty());
    assert(stack_views(stack@) =~= Seq::<(Seq<char>, int)>::empty());
    while index < end
        invariant
            end <= t.len(),
            start <= index,
            cand_views(out@) + envs_from(t@, index as int, end as int, stack_views(stack@)) == envs_from(
                t@,
                start as int,
                end as int,
                Seq::empty(),
            ),
            proper_cands(cand_views(out@)),
            forall|k: int| 0 <= k < stack@.len() ==> (#[trigger] stack@[k]).1 < index,
        decreases end - index,
    {
        if t[index] != '\\' {
            index += 1;
        } else {
            match environment_event(t, index, end) {
                None => {
                    index += 1;
                },
                Some((begins, name, ee)) => {
                    proof {
                        lemma_env_event_end(t@, index as int, end as int);
                    }
                    let ghost sv = stack_views(stack@);
                    let ghost before = cand_views(out@);
                    if begins {
                        stack.push((name, index));
                        assert(stack_views(stack@) =~= sv.push((name@, index as int)));
                    } else {
                        let closes = stack.len() > 0 && crate::text::chars_eq(&stack[stack.len() - 1].0, &name);
                        if closes {
                            assert(sv.last() == (stack@[stack.len() - 1].0@, stack@[stack.len() - 1].1 as int));
                            let (_, opener) = stack.pop().unwrap();
                            assert(stack_views(stack@) =~= sv.drop_last());
                            push_inline(&mut out, RegionKind::MathEnvironmentInline, opener, ee);
                            assert(cand_views(out@) + envs_from(t@, ee as int, end as int, stack_views(stack@))
                                =~= before + (seq![inline_cand(RegionKind::MathEnvironmentInline, opener as int, ee as int)]
                                + envs_from(t@, ee as int, end as int, sv.drop_last())));
                            assert(proper_cands(cand_views(out@))) by {
                                assert forall|i: int| 0 <= i < cand_views(out@).len() implies proper_cand(#[trigger] cand_views(out@)[i]) by {
                                    if i < before.len() {
                                        assert(cand_views(out@)[i] == before[i]);
                                    }
                                }
                            }
                        } else {
                            proof {
                                if sv.len() > 0 {
                                    assert(sv.last() == (stack@[stack.len() - 1].0@, stack@[stack.len() - 1].1 as int));
                                }
                            }
                        }
                    }
                    index = ee;
                },
            }
        }
    }
    assert(envs_from(t@, index as int, end as int, stack_views(stack@)) =~= Seq::<Cand>::empty());
    assert(cand_views(out@) + Seq::<Cand>::empty() =~= cand_views(out@));
    out
}


// ---------------------------------------------------------------------------
// Dollar math
// ---------------------------------------------------------------------------

/// The dollar scanner's state: nothing open, a `$` open, or a `$$` open
/// (with a single `$` inside it waiting for its closer).
#[derive(Clone, Copy, PartialEq, Eq, Structural)]
pub enum DollarState {
    Idle,
    Single(usize),
    Double(usize, Option<usize>),
}

/// The dollar signs of one run from `pos` to `run_end`, each step reading
/// as many as the state allows: an idle state opens `$$` when two remain,
/// else `$`; an open `$` closes; an open `$$` closes with two, else opens or
/// closes its inner `$`.
pub open spec fn dollar_run(st: DollarState, pos: int, run_end: int) -> (DollarState, Seq<Cand>)
    decreases run_end - pos,
{
    if pos >= run_end || pos < 0 {
        (st, Seq::empty())
    } else {
        let remaining = run_end - pos;
        match st {
            DollarState::Idle => if remaining >= 2 {
                dollar_run(DollarState::Double(pos as usize, None), pos + 2, run_end)
            } else {
                dollar_run(DollarState::Single(pos as usize), pos + 1, run_end)
            },
            DollarState::Single(o) => {
                let r = dollar_run(DollarState::Idle, pos + 1, run_end);
                (r.0, seq![inline_cand(RegionKind::MathDollarInline, o as int, pos + 1)] + r.1)
            },
            DollarState::Double(o, f) => if remaining >= 2 {
                let r = dollar_run(DollarState::Idle, pos + 2, run_end);
                (r.0, seq![inline_cand(RegionKind::MathDoubleDollarInline, o as int, pos + 2)] + r.1)
            } else {
                match f {
                    None => dollar_run(DollarState::Double(o, Some(pos as usize)), pos + 1, run_end),
                    Some(fb) => {
                        let r = dollar_run(DollarState::Double(o, None), pos + 1, run_end);
                        (r.0, seq![inline_cand(RegionKind::MathDollarInline, fb as int, pos + 1)] + r.1)
                    },
                }
            },
        }
    }
}

/// Dollar math from `i` on: each run of `$` that starts unescaped feeds the
/// state machine.
pub open spec fn dollars_from(t: Seq<char>, i: int, end: int, st: DollarState) -> Seq<Cand>
    decreases end - i,
{
    if i < 0 || i >= end || end > t.len() {
        Seq::empty()
    } else if t[i] != '$' || !escape_even(t, i) {
        dollars_from(t, i + 1, end, st)
    } else {
        let re = run_end(t, '$', i, end);
        proof {
            lemma_run_end(t, '$', i, end);
        }
        let r = dollar_run(st, i, re);
        r.1 + dollars_from(t, re, end, r.0)
    }
}

pub open spec fn state_below(st: DollarState, bound: int) -> bool {
    match st {
        DollarState::Idle => true,
        DollarState::Single(o) => o < bound,
        DollarState::Double(o, f) => o < bound && (f matches Some(x) ==> x < bound),
    }
}

fn dollar_run_exec(out: &mut Vec<Candidate>, st: DollarState, run_start: usize, run_end: usize) -> (r: DollarState)
    requires
        run_start <= run_end,
        state_below(st, run_start as int + 1),
        proper_cands(cand_views(old(out)@)),
    ensures
        (r, cand_views(final(out)@)) == (dollar_run(st, run_start as int, run_end as int).0, cand_views(
            old(out)@,
        ) + dollar_run(st, run_start as int, run_end as int).1),
        state_below(r, run_end as int + 1),
        proper_cands(cand_views(final(out)@)),
{
    let mut state = st;
    let mut position = run_start;
    let ghost total = dollar_run(st, run_start as int, run_end as int);
    let ghost base = cand_views(out@);
    assert(base + Seq::<Cand>::empty() =~= base);
    while position < run_end
        invariant
            run_start <= position <= run_end,
            (total.0, cand_views(out@) + dollar_run(state, position as int, run_end as int).1) == (dollar_run(
                state,
                position as int,
                run_end as int,
            ).0, base + total.1),
            state_below(state, position as int + 1),
            proper_cands(cand_views(out@)),
        decreases run_end - position,
    {
        let remaining = run_end - position;
        let ghost before = cand_views(out@);
        match state {
            DollarState::Idle => {
                if remaining >= 2 {
                    state = DollarState::Double(position, None);
                    position += 2;
                } else {
                    state = DollarState::Single(position);
                    position += 1;
                }
            },
            DollarState::Single(o) => {
                push_inline(out, RegionKind::MathDollarInline, o, position + 1);
                state = DollarState::Idle;
                position += 1;
                assert(cand_views(out@) + dollar_run(state, position as int, run_end as int).1 =~= before + (seq![
                    inline_cand(RegionKind::MathDollarInline, o as int, position as int),
                ] + dollar_run(state, position as int, run_end as int).1));
            },
            DollarState::Double(o, f) => {
                if remaining >= 2 {
                    push_inline(out, RegionKind::MathDoubleDollarInline, o, position + 2);
                    state = DollarState::Idle;
                    position += 2;
                    assert(cand_views(out@) + dollar_run(state, position as int, run_end as int).1 =~= before
                        + (seq![inline_cand(RegionKind::MathDoubleDollarInline, o as int, position as int)]
                        + dollar_run(state, position as int, run_end as int).1));
                } else {
                    match f {
                        None => {
                            state = DollarState::Double(o, Some(position));
                            position += 1;
                        },
                        Some(fb) => {
                            push_inline(out, RegionKind::MathDollarInline, fb, position + 1);
                            state = DollarState::Double(o, None);
                            position += 1;
                            assert(cand_views(out@) + dollar_run(state, position as int, run_end as int).1
                                =~= before + (seq![inline_cand(RegionKind::MathDollarInline, fb as int, position as int)]
                                + dollar_run(state, position as int, run_end as int).1));
                        },
                    }
                }
            },
        }
        assert(proper_cands(cand_views(out@))) by {
            assert forall|i: int| 0 <= i < cand_views(out@).len() implies proper_cand(#[trigger] cand_views(out@)[i]) by {
                if i < before.len() {
                    assert(cand_views(out@)[i] == before[i]);
                }
            }
        }
    }
    assert(dollar_run(state, position as int, run_end as int).1 =~= Seq::<Cand>::empty());
    assert(cand_views(out@) + Seq::<Cand>::empty() =~= cand_views(out@));
    state
}

pub fn scan_dollars(t: &Vec<char>, start: usize, end: usize) -> (r: Vec<Candidate>)
    requires
        end <= t.len(),
    ensures
        cand_views(r@) == dollars_from(t@, start as int, end as int, DollarState::Idle),
        proper_cands(cand_views(r@)),
{
    let mut out: Vec<Candidate> = Vec::new();
    let mut state = DollarState::Idle;
    let mut index = start;
    assert(cand_views(out@) =~= Seq::<Cand>::empty());
    while index < end
        invariant
            end <= t.len(),
            start <= index,
            cand_views(out@) + dollars_from(t@, index as int, end as int, state) == dollars_from(
                t@,
                start as int,
                end as int,
                DollarState::Idle,
            ),
            proper_cands(cand_views(out@)),
            state_below(state, index as int + 1),
        decreases end - index,
    {
        if t[index] != '$' || !escape_is_even(t, index) {
            index += 1;
        } else {
            let re = run_end_exec(t, '$', index, end);
            proof {
                lemma_run_end(t@, '$', index as int, end as int);
            }
            let ghost before = cand_views(out@);
            let ghost run = dollar_run(state, index as int, re as int);
            state = dollar_run_exec(&mut out, state, index, re);
            assert(cand_views(out@) + dollars_from(t@, re as int, end as int, state) =~= before + (run.1
                + dollars_from(t@, re as int, end as int, run.0)));
            index = re;
        }
    }
    assert(dollars_from(t@, index as int, end as int, state) =~= Seq::<Cand>::empty());
    assert(cand_views(out@) + Seq::<Cand>::empty() =~= cand_views(out@));
    out
}


// ---------------------------------------------------------------------------
// Arbitration
// ---------------------------------------------------------------------------

/// Recognizer precedence: a lower number wins among candidates starting at
/// the same place.
pub open spec fn priority_of(k: RegionKind) -> int {
    match k {
        RegionKind::MathGitlabInline | RegionKind::MathMystInline => 10,
        RegionKind::CodeSpan => 20,
        RegionKind::MathParenInline | RegionKind::MathEnvironmentInline => 30,
        RegionKind::MathDollarInline | RegionKind::MathDoubleDollarInline => 40,
        RegionKind::PandocMultilineTable | RegionKind::ObsidianCallout | RegionKind::ColonContainer
        | RegionKind::TomlFrontmatter => 45,
        _ => 50,
    }
}

/// The stable name of a kind (the last tie-breaker).
pub open spec fn name_of(k: RegionKind) -> Seq<char> {
    match k {
        RegionKind::MathGitlabInline => "math_gitlab_inline"@,
        RegionKind::MathMystInline => "math_myst_inline"@,
        RegionKind::CodeSpan => "code_span"@,
        RegionKind::MathParenInline => "math_paren_inline"@,
        RegionKind::MathEnvironmentInline => "math_environment_inline"@,
        RegionKind::MathDollarInline => "math_dollar_inline"@,
        RegionKind::MathDoubleDollarInline => "math_double_dollar_inline"@,
        RegionKind::PandocMultilineTable => "pandoc_multiline_table"@,
        RegionKind::ObsidianCallout => "obsidian_callout"@,
        RegionKind::ColonContainer => "colon_container"@,
        RegionKind::TomlFrontmatter => "toml_frontmatter"@,
        RegionKind::MathDollarBlock => "math_dollar_block"@,
        RegionKind::MathBracketBlock => "math_bracket_block"@,
        _ => "math_environment_block"@,
    }
}

/// The precedence of a ranked kind.
pub fn priority(kind: RegionKind) -> (p: u8)
    requires
        ranked(kind),
    ensures
        p as int == priority_of(kind),
{
    match kind {
        RegionKind::MathGitlabInline | RegionKind::MathMystInline => 10,
        RegionKind::CodeSpan => 20,
        RegionKind::MathParenInline | RegionKind::MathEnvironmentInline => 30,
        RegionKind::MathDollarInline | RegionKind::MathDoubleDollarInline => 40,
        RegionKind::PandocMultilineTable | RegionKind::ObsidianCallout | RegionKind::ColonContainer
        | RegionKind::TomlFrontmatter => 45,
        _ => 50,
    }
}

/// The stable name of a ranked kind.
pub fn stable_name(kind: RegionKind) -> (n: &'static str)
    requires
        ranked(kind),
    ensures
        n@ == name_of(kind),
{
    match kind {
        RegionKind::MathGitlabInline => "math_gitlab_inline",
        RegionKind::MathMystInline => "math_myst_inline",
        RegionKind::CodeSpan => "code_span",
        RegionKind::MathParenInline => "math_paren_inline",
        RegionKind::MathEnvironmentInline => "math_environment_inline",
        RegionKind::MathDollarInline => "math_dollar_inline",
        RegionKind::MathDoubleDollarInline => "math_double_dollar_inline",
        RegionKind::PandocMultilineTable => "pandoc_multiline_table",
        RegionKind::ObsidianCallout => "obsidian_callout",
        RegionKind::ColonContainer => "colon_container",
        RegionKind::TomlFrontmatter => "toml_frontmatter",
        RegionKind::MathDollarBlock => "math_dollar_block",
        RegionKind::MathBracketBlock => "math_bracket_block",
        _ => "math_environment_block",
    }
}

/// Lexicographic order of texts by scalar value.
pub open spec fn lex_less(a: Seq<char>, b: Seq<char>) -> bool
    decreases a.len(),
{
    if a.len() == 0 {
        b.len() > 0
    } else if b.len() == 0 {
        false
    } else if a[0] < b[0] {
        true
    } else if a[0] > b[0] {
        false
    } else {
        lex_less(a.drop_first(), b.drop_first())
    }
}

fn lex_less_exec(a: &Vec<char>, b: &Vec<char>) -> (r: bool)
    ensures
        r == lex_less(a@, b@),
{
    let mut i: usize = 0;
    assert(a@.skip(0) =~= a@);
    assert(b@.skip(0) =~= b@);
    while i < a.len() && i < b.len() && a[i] == b[i]
        invariant
            i <= a.len(),
            i <= b.len(),
            lex_less(a@, b@) == lex_less(a@.skip(i as int), b@.skip(i as int)),
        decreases a.len() - i,
    {
        assert(a@.skip(i as int).drop_first() =~= a@.skip(i + 1));
        assert(b@.skip(i as int).drop_first() =~= b@.skip(i + 1));
        i += 1;
    }
    if i == a.len() {
        assert(a@.skip(i as int).len() == 0);
        i < b.len()
    } else if i == b.len() {
        assert(b@.skip(i as int).len() == 0);
        assert(a@.skip(i as int).len() > 0);
        false
    } else {
        assert(a@.skip(i as int)[0] == a@[i as int]);
        assert(b@.skip(i as int)[0] == b@[i as int]);
        a[i] < b[i]
    }
}

/// Whether `a` takes precedence over `b`: lower priority number, then the
/// longer range, then the smaller stable name.
pub open spec fn key_less(a: Cand, b: Cand) -> bool {
    let la = a.end - a.start;
    let lb = b.end - b.start;
    priority_of(a.kind) < priority_of(b.kind) || (priority_of(a.kind) == priority_of(b.kind) && (la > lb
        || (la == lb && lex_less(name_of(a.kind), name_of(b.kind)))))
}

fn key_less_exec(a: &Candidate, b: &Candidate) -> (r: bool)
    requires
        proper_cand(cand_view(*a)),
        proper_cand(cand_view(*b)),
    ensures
        r == key_less(cand_view(*a), cand_view(*b)),
{
    let pa = priority(a.kind);
    let pb = priority(b.kind);
    if pa != pb {
        return pa < pb;
    }
    let la = a.end - a.start;
    let lb = b.end - b.start;
    if la != lb {
        return la > lb;
    }
    let na = crate::text::chars_of(stable_name(a.kind));
    let nb = crate::text::chars_of(stable_name(b.kind));
    lex_less_exec(&na, &nb)
}

/// The candidates inside `[start, end]`, in order.
pub open spec fn kept(s: Seq<Cand>, start: int, end: int) -> Seq<Cand>
    decreases s.len(),
{
    if s.len() == 0 {
        Seq::empty()
    } else {
        let r = kept(s.drop_last(), start, end);
        if start <= s.last().start && s.last().end <= end {
            r.push(s.last())
        } else {
            r
        }
    }
}

/// A candidate inserted after every candidate that does not start later.
pub open spec fn insert_by_start(sorted: Seq<Cand>, c: Cand) -> Seq<Cand>
    decreases sorted.len(),
{
    if sorted.len() == 0 {
        seq![c]
    } else if sorted.last().start <= c.start {
        sorted.push(c)
    } else {
        insert_by_start(sorted.drop_last(), c).push(sorted.last())
    }
}

/// The candidates ordered by start, equal starts in their original order
/// (what a stable sort by start gives).
pub open spec fn sort_by_start(s: Seq<Cand>) -> Seq<Cand>
    decreases s.len(),
{
    if s.len() == 0 {
        Seq::empty()
    } else {
        insert_by_start(sort_by_start(s.drop_last()), s.last())
    }
}

proof fn lemma_insert_at(s: Seq<Cand>, c: Cand, pos: int)
    requires
        0 <= pos <= s.len(),
        pos > 0 ==> s[pos - 1].start <= c.start,
        forall|k: int| pos <= k < s.len() ==> (#[trigger] s[k]).start > c.start,
    ensures
        insert_by_start(s, c) == s.take(pos).push(c) + s.skip(pos),
    decreases s.len(),
{
    if s.len() == 0 {
        assert(s.take(pos).push(c) + s.skip(pos) =~= seq![c]);
    } else if pos == s.len() {
        assert(s.take(pos) =~= s);
        assert(s.push(c) + s.skip(pos) =~= s.push(c));
    } else {
        assert(s.last().start > c.start);
        lemma_insert_at(s.drop_last(), c, pos);
        assert(s.drop_last().take(pos) =~= s.take(pos));
        assert((s.take(pos).push(c) + s.drop_last().skip(pos)).push(s.last()) =~= s.take(pos).push(c) + s.skip(
            pos,
        ));
    }
}

/// Orders candidates by start, keeping equal starts in their order (see
/// [`sort_by_start`]).
pub fn sort_candidates(candidates: Vec<Candidate>) -> (r: Vec<Candidate>)
    ensures
        cand_views(r@) == sort_by_start(cand_views(candidates@)),
{
    let ghost all = cand_views(candidates@);
    let mut input = candidates;
    let mut sorted: Vec<Candidate> = Vec::new();
    let mut i: usize = 0;
    assert(cand_views(sorted@) =~= Seq::<Cand>::empty());
    assert(all.take(0) =~= Seq::<Cand>::empty());
    assert(cand_views(input@) =~= all.skip(0));
    assert(all.len() == input.len());
    while input.len() > 0
        invariant
            i <= all.len(),
            cand_views(input@) == all.skip(i as int),
            all.len() == i + input@.len(),
            all.len() <= usize::MAX,
            cand_views(sorted@) == sort_by_start(all.take(i as int)),
        decreases input.len(),
    {
        let ghost pre = input@;
        let c = input.remove(0);
        assert(cand_view(c) == all[i as int]) by {
            assert(all.skip(i as int)[0] == all[i as int]);
            assert(cand_views(pre)[0] == cand_view(pre[0]));
        }
        assert(all.take(i + 1).drop_last() =~= all.take(i as int));
        assert(all.take(i + 1).last() == all[i as int]);
        assert(cand_views(input@) =~= all.skip(i + 1)) by {
            assert forall|k: int| 0 <= k < cand_views(input@).len() implies #[trigger] cand_views(input@)[k]
                == all.skip(i + 1)[k] by {
                assert(input@[k] == pre[k + 1]);
                assert(cand_views(pre)[k + 1] == all.skip(i as int)[k + 1]);
            }
        }
        let mut pos = sorted.len();
        while pos > 0 && sorted[pos - 1].start > c.start
            invariant
                pos <= sorted.len(),
                forall|k: int| pos <= k < sorted.len() ==> (#[trigger] sorted@[k]).start > c.start,
            decreases pos,
        {
            pos -= 1;
        }
        let ghost sv = cand_views(sorted@);
        proof {
            lemma_insert_at(sv, cand_view(c), pos as int);
        }
        sorted.insert(pos, c);
        assert(cand_views(sorted@) =~= sv.take(pos as int).push(all[i as int]) + sv.skip(pos as int));
        i += 1;
    }
    assert(all.take(i as int) =~= all);
    sorted
}

/// The end of the group of candidates starting at `st` from `j` on.
pub open spec fn group_end(s: Seq<Cand>, j: int, st: int) -> int
    decreases s.len() - j,
{
    if 0 <= j < s.len() && s[j].start == st {
        group_end(s, j + 1, st)
    } else {
        j
    }
}

/// The candidate that takes precedence among `s[j..g]` and `best`.
pub open spec fn best_from(s: Seq<Cand>, j: int, g: int, best: Cand) -> Cand
    decreases g - j,
{
    if j < 0 || j >= g || j >= s.len() {
        best
    } else {
        best_from(s, j + 1, g, if key_less(s[j], best) { s[j] } else { best })
    }
}

pub proof fn lemma_group_end(s: Seq<Cand>, j: int, st: int)
    requires
        0 <= j,
    ensures
        j <= group_end(s, j, st),
        group_end(s, j, st) <= s.len() || group_end(s, j, st) == j,
    decreases s.len() - j,
{
    if 0 <= j < s.len() && s[j].start == st {
        lemma_group_end(s, j + 1, st);
    }
}

/// Greedy selection over candidates sorted by start: from each group that
/// starts at the same place the one that takes precedence, kept when it
/// starts at or after the end of the last one kept.
pub open spec fn select_from(s: Seq<Cand>, i: int, prev_end: int) -> Seq<Cand>
    decreases s.len() - i,
{
    if i < 0 || i >= s.len() {
        Seq::empty()
    } else {
        let g = group_end(s, i + 1, s[i].start);
        proof {
            lemma_group_end(s, i + 1, s[i].start);
        }
        let best = best_from(s, i + 1, g, s[i]);
        if best.start >= prev_end {
            seq![best] + select_from(s, g, best.end)
        } else {
            select_from(s, g, prev_end)
        }
    }
}

/// The candidates kept inside `[start, end]` after arbitration.
pub open spec fn arbitrated(cands: Seq<Cand>, start: int, end: int) -> Seq<Cand> {
    select_from(sort_by_start(kept(cands, start, end)), 0, start)
}

pub fn copy_candidate(c: &Candidate) -> (r: Candidate)
    ensures
        cand_view(r) == cand_view(*c),
{
    Candidate {
        kind: c.kind,
        form: c.form,
        start: c.start,
        end: c.end,
        container: c.container,
        scaffold_prefix: c.scaffold_prefix.clone(),
    }
}

proof fn lemma_best_from_in(s: Seq<Cand>, j: int, g: int, best: Cand)
    requires
        0 <= j,
        g <= s.len(),
        proper_cand(best),
        forall|k: int| j <= k < g ==> proper_cand(#[trigger] s[k]),
    ensures
        best_from(s, j, g, best) == best || exists|k: int| j <= k < g && best_from(s, j, g, best) == s[k],
        proper_cand(best_from(s, j, g, best)),
    decreases g - j,
{
    if j < g {
        let nb = if key_less(s[j], best) { s[j] } else { best };
        lemma_best_from_in(s, j + 1, g, nb);
    }
}

/// Keeps the candidates inside `[start, end]`, and among those overlapping
/// one another the ones that take precedence (see [`arbitrated`]).
pub fn arbitrate(candidates: Vec<Candidate>, start: usize, end: usize) -> (r: Vec<Candidate>)
    requires
        proper_cands(cand_views(candidates@)),
    ensures
        cand_views(r@) == arbitrated(cand_views(candidates@), start as int, end as int),
        proper_cands(cand_views(r@)),
{
    let ghost all = cand_views(candidates@);
    let mut input = candidates;
    let mut sorted: Vec<Candidate> = Vec::new();
    let mut i: usize = 0;
    assert(cand_views(sorted@) =~= Seq::<Cand>::empty());
    assert(all.take(0) =~= Seq::<Cand>::empty());
    assert(cand_views(input@) =~= all.skip(0));
    let n = input.len();
    assert(all.len() == n);
    while input.len() > 0
        invariant
            i <= all.len(),
            cand_views(input@) == all.skip(i as int),
            all.len() == i + input@.len(),
            all.len() <= usize::MAX,
            proper_cands(all),
            cand_views(sorted@) == sort_by_start(kept(all.take(i as int), start as int, end as int)),
            proper_cands(cand_views(sorted@)),
        decreases input.len(),
    {
        let ghost pre = input@;
        let c = input.remove(0);
        assert(c == pre[0]);
        assert(input@ == pre.remove(0));
        assert(cand_view(c) == all[i as int]) by {
            assert(all.skip(i as int)[0] == all[i as int]);
            assert(cand_views(pre)[0] == cand_view(pre[0]));
        }
        assert(all.take(i + 1).drop_last() =~= all.take(i as int));
        assert(all.take(i + 1).last() == all[i as int]);
        let ghost kp = kept(all.take(i as int), start as int, end as int);
        assert(kept(all.take(i + 1), start as int, end as int) == if start <= all[i as int].start
            && all[i as int].end <= end {
            kp.push(all[i as int])
        } else {
            kp
        });
        assert(kp.push(all[i as int]).drop_last() =~= kp);
        assert(cand_views(input@) =~= all.skip(i + 1)) by {
            assert forall|k: int| 0 <= k < cand_views(input@).len() implies #[trigger] cand_views(input@)[k]
                == all.skip(i + 1)[k] by {
                assert(input@[k] == pre[k + 1]);
                assert(cand_views(pre)[k + 1] == all.skip(i as int)[k + 1]);
            }
        }
        if start <= c.start && c.end <= end {
            let mut pos = sorted.len();
            while pos > 0 && sorted[pos - 1].start > c.start
                invariant
                    pos <= sorted.len(),
                    forall|k: int| pos <= k < sorted.len() ==> (#[trigger] sorted@[k]).start > c.start,
                decreases pos,
            {
                pos -= 1;
            }
            let ghost sv = cand_views(sorted@);
            proof {
                lemma_insert_at(sv, cand_view(c), pos as int);
            }
            sorted.insert(pos, c);
            assert(cand_views(sorted@) =~= sv.take(pos as int).push(all[i as int]) + sv.skip(pos as int));
            assert(proper_cands(cand_views(sorted@))) by {
                assert forall|k: int| 0 <= k < cand_views(sorted@).len() implies proper_cand(
                    #[trigger] cand_views(sorted@)[k],
                ) by {
                    if k < pos {
                        assert(cand_views(sorted@)[k] == sv[k]);
                    } else if k > pos {
                        assert(cand_views(sorted@)[k] == sv[k - 1]);
                    }
                }
            }
        }
        i += 1;
    }
    assert(all.take(i as int) =~= all);
    let ghost sv = cand_views(sorted@);
    let mut selected: Vec<Candidate> = Vec::new();
    let mut previous_end = start;
    let mut index: usize = 0;
    assert(cand_views(selected@) =~= Seq::<Cand>::empty());
    assert(Seq::<Cand>::empty() + select_from(sv, 0, start as int) =~= select_from(sv, 0, start as int));
    while index < sorted.len()
        invariant
            sv == cand_views(sorted@),
            proper_cands(sv),
            index <= sorted.len(),
            cand_views(selected@) + select_from(sv, index as int, previous_end as int) == select_from(
                sv,
                0,
                start as int,
            ),
            proper_cands(cand_views(selected@)),
        decreases sorted.len() - index,
    {
        let group_start = sorted[index].start;
        let mut best: usize = index;
        let mut j = index + 1;
        proof {
            lemma_group_end(sv, index + 1, group_start as int);
        }
        while j < sorted.len() && sorted[j].start == group_start
            invariant
                sv == cand_views(sorted@),
                proper_cands(sv),
                index < j <= sorted.len(),
                index <= best < j,
                group_end(sv, index + 1, group_start as int) == group_end(sv, j as int, group_start as int),
                best_from(sv, index + 1, group_end(sv, index + 1, group_start as int), sv[index as int])
                    == best_from(sv, j as int, group_end(sv, j as int, group_start as int), sv[best as int]),
            decreases sorted.len() - j,
        {
            proof {
                lemma_group_end(sv, j + 1, group_start as int);
            }
            if key_less_exec(&sorted[j], &sorted[best]) {
                best = j;
            }
            j += 1;
        }
        assert(group_end(sv, j as int, group_start as int) == j);
        let ghost g = j as int;
        assert(select_from(sv, index as int, previous_end as int) == if sv[best as int].start >= previous_end {
            seq![sv[best as int]] + select_from(sv, g, sv[best as int].end)
        } else {
            select_from(sv, g, previous_end as int)
        });
        let ghost before = cand_views(selected@);
        if sorted[best].start >= previous_end {
            previous_end = sorted[best].end;
            let c = copy_candidate(&sorted[best]);
            let ghost pre = selected@;
            selected.push(c);
            assert(selected@ == pre.push(c));
            assert(cand_views(selected@) =~= before.push(sv[best as int]));
            assert(cand_views(selected@) + select_from(sv, g, previous_end as int) =~= before + (seq![
                sv[best as int],
            ] + select_from(sv, g, previous_end as int)));
            assert(proper_cands(cand_views(selected@))) by {
                assert forall|k: int| 0 <= k < cand_views(selected@).len() implies proper_cand(
                    #[trigger] cand_views(selected@)[k],
                ) by {
                    if k < before.len() {
                        assert(cand_views(selected@)[k] == before[k]);
                    }
                }
            }
        }
        index = j;
    }
    assert(select_from(sv, index as int, previous_end as int) =~= Seq::<Cand>::empty());
    assert(cand_views(selected@) + Seq::<Cand>::empty() =~= cand_views(selected@));
    selected
}


// ---------------------------------------------------------------------------
// One inline scope
// ---------------------------------------------------------------------------

/// Appends candidates, keeping them proper.
pub fn append_cands(dst: &mut Vec<Candidate>, src: Vec<Candidate>)
    requires
        proper_cands(cand_views(old(dst)@)),
        proper_cands(cand_views(src@)),
    ensures
        cand_views(final(dst)@) == cand_views(old(dst)@) + cand_views(src@),
        proper_cands(cand_views(final(dst)@)),
{
    let mut other = src;
    let ghost a = dst@;
    let ghost b = other@;
    dst.append(&mut other);
    assert(dst@ == a + b);
    assert(cand_views(dst@) =~= cand_views(a) + cand_views(b));
    assert(proper_cands(cand_views(dst@))) by {
        assert forall|i: int| 0 <= i < cand_views(dst@).len() implies proper_cand(#[trigger] cand_views(dst@)[i]) by {
            if i < a.len() {
                assert(cand_views(dst@)[i] == cand_views(a)[i]);
            } else {
                assert(cand_views(dst@)[i] == cand_views(b)[i - a.len()]);
            }
        }
    }
}

/// Every recognizer's candidates in `[start, end)`, in recognizer order.
pub open spec fn scope_candidates(t: Seq<char>, start: int, end: int) -> Seq<Cand> {
    composite_math(t, start, end) + backtick_spans(t, start, end) + paren_from(t, start, end, None) + envs_from(
        t,
        start,
        end,
        Seq::empty(),
    ) + dollars_from(t, start, end, DollarState::Idle)
}

/// The inline regions chosen in `[start, end)`.
pub open spec fn inline_scope_regions(t: Seq<char>, start: int, end: int) -> Seq<Cand> {
    arbitrated(scope_candidates(t, start, end), start, end)
}

pub fn scan_inline_scope(t: &Vec<char>, start: usize, end: usize) -> (r: Vec<Candidate>)
    requires
        end <= t.len(),
    ensures
        cand_views(r@) == inline_scope_regions(t@, start as int, end as int),
        proper_cands(cand_views(r@)),
{
    let mut candidates = scan_composite_math(t, start, end);
    append_cands(&mut candidates, scan_backticks(t, start, end));
    append_cands(&mut candidates, scan_paren_math(t, start, end));
    append_cands(&mut candidates, scan_inline_environments(t, start, end));
    append_cands(&mut candidates, scan_dollars(t, start, end));
    arbitrate(candidates, start, end)
}

} // verus!
