//! Typed records for preserved source regions and their fail-closed checks.
//!
//! Region offsets count scalar values (`char`s) of the normalized text.

use vstd::prelude::*;
use crate::text::{chars_of, slice_of, split_char, split_on, string_of, views};

verus! {

/// Why preservation refused to go on.
#[derive(Debug, Clone, Copy, PartialEq, Eq)]
pub struct PreservationError(pub &'static str);

pub const OUTSIDE_SOURCE: &'static str = "preserved region is outside normalized source";
pub const BLOCK_WITHOUT_LF: &'static str = "protected block must end with LF";
pub const SCAFFOLD_MISMATCH: &'static str = "block scaffold does not match source";
pub const NOT_SOURCE_ORDER: &'static str = "protected regions are not canonical source order";
pub const REGION_MISMATCH: &'static str = "protected region does not match source";

/// The kind of construct a region preserves.
#[derive(Clone, Copy, PartialEq, Eq, Debug, Structural)]
pub enum RegionKind {
    MathGitlabInline,
    MathMystInline,
    RawHtmlInline,
    CodeSpan,
    MathParenInline,
    MathEnvironmentInline,
    AttributeGroupInline,
    MathDollarInline,
    MathDoubleDollarInline,
    PandocMultilineTable,
    ObsidianCallout,
    ColonContainer,
    TomlFrontmatter,
    DefinitionList,
    PandocGridTable,
    RawHtmlBlock,
    AttributeGroupBlock,
    MathDollarBlock,
    MathBracketBlock,
    MathEnvironmentBlock,
}

#[derive(Clone, Copy, PartialEq, Eq, Debug, Structural)]
pub enum RegionForm {
    Inline,
    Block,
}

/// The containers (quotes, lists) a block region sits in.
#[derive(Clone, Copy, PartialEq, Eq, Debug, Structural)]
pub struct ContainerContext {
    pub blockquote_depth: usize,
    pub list_depth: usize,
    pub content_column: usize,
}

impl ContainerContext {
    pub fn new() -> (r: Self)
        ensures
            r == (ContainerContext { blockquote_depth: 0, list_depth: 0, content_column: 0 }),
    {
        ContainerContext { blockquote_depth: 0, list_depth: 0, content_column: 0 }
    }
}

/// Source text with line endings normalized, and whether a byte order mark
/// was removed from its start.
#[derive(Debug)]
pub struct NormalizedSource {
    pub text: String,
    pub had_bom: bool,
}

pub open spec fn error_is(r: Result<String, PreservationError>, msg: &'static str) -> bool {
    r matches Err(e) && e.0@ == msg@
}

/// The text between two scalar offsets, when they delimit a non-empty range
/// inside the text.
pub open spec fn slice_result(text: Seq<char>, start: int, end: int) -> Option<Seq<char>> {
    if start >= end || end > text.len() {
        None
    } else {
        Some(text.subrange(start, end))
    }
}

impl NormalizedSource {
    /// Length of the text in bytes.
    pub fn byte_length(&self) -> (n: usize)
        ensures
            n == vstd::utf8::encode_utf8(self.text@).len() as usize,
    {
        self.text.as_str().len()
    }

    /// The text from `start` to `end`.
    pub fn slice(&self, start: usize, end: usize) -> (r: Result<String, PreservationError>)
        ensures
            match slice_result(self.text@, start as int, end as int) {
                Some(s) => r matches Ok(x) && x@ == s,
                None => error_is(r, OUTSIDE_SOURCE),
            },
    {
        let v = chars_of(self.text.as_str());
        if start >= end || end > v.len() {
            return Err(PreservationError(OUTSIDE_SOURCE));
        }
        let s = slice_of(&v, start, end);
        Ok(string_of(&s))
    }
}

/// A region a scanner proposes.
#[derive(Debug)]
pub struct Candidate {
    pub kind: RegionKind,
    pub form: RegionForm,
    pub start: usize,
    pub end: usize,
    pub container: ContainerContext,
    pub scaffold_prefix: String,
}

impl Candidate {
    pub fn inline(kind: RegionKind, start: usize, end: usize) -> (r: Self)
        ensures
            r.kind == kind,
            r.form == RegionForm::Inline,
            r.start == start,
            r.end == end,
            r.container == (ContainerContext { blockquote_depth: 0, list_depth: 0, content_column: 0 }),
            r.scaffold_prefix@ == Seq::<char>::empty(),
    {
        Candidate {
            kind,
            form: RegionForm::Inline,
            start,
            end,
            container: ContainerContext::new(),
            scaffold_prefix: String::new(),
        }
    }

    pub fn block(
        kind: RegionKind,
        start: usize,
        end: usize,
        container: ContainerContext,
        scaffold_prefix: String,
    ) -> (r: Self)
        ensures
            r.kind == kind,
            r.form == RegionForm::Block,
            r.start == start,
            r.end == end,
            r.container == container,
            r.scaffold_prefix == scaffold_prefix,
    {
        Candidate { kind, form: RegionForm::Block, start, end, container, scaffold_prefix }
    }
}

/// A region of the source kept out of the parser's reach, with its exact
/// text and (for an inline region) the width of each of its lines.
#[derive(Debug)]
pub struct ProtectedRegion {
    pub index: usize,
    pub kind: RegionKind,
    pub form: RegionForm,
    pub start: usize,
    pub end: usize,
    pub source: String,
    pub logical_widths: Vec<usize>,
    pub container: ContainerContext,
    pub scaffold_prefix: String,
}

/// The widths (in scalars) of the lines of a text.
pub open spec fn line_widths(s: Seq<char>) -> Seq<int> {
    split_on(s, '\n').map_values(|l: Seq<char>| l.len() as int)
}

pub open spec fn usize_views(v: Seq<usize>) -> Seq<int> {
    v.map_values(|x: usize| x as int)
}

/// What `ProtectedRegion::from_candidate` decides: the region's text, or the
/// message of the check it fails.
pub open spec fn candidate_result(
    text: Seq<char>,
    form: RegionForm,
    start: int,
    end: int,
    scaffold: Seq<char>,
) -> Result<Seq<char>, &'static str> {
    match slice_result(text, start, end) {
        None => Err(OUTSIDE_SOURCE),
        Some(exact) => if form is Block && !(exact.len() > 0 && exact.last() == '\n') {
            Err(BLOCK_WITHOUT_LF)
        } else if form is Block && !(scaffold.len() <= exact.len() && exact.take(
            scaffold.len() as int,
        ) == scaffold) {
            Err(SCAFFOLD_MISMATCH)
        } else {
            Ok(exact)
        },
    }
}

fn line_widths_exec(s: &Vec<char>) -> (r: Vec<usize>)
    ensures
        usize_views(r@) == line_widths(s@),
{
    let parts = split_char(s, '\n');
    let ghost ps = crate::text::buf_views(parts@);
    let mut r: Vec<usize> = Vec::new();
    let mut i: usize = 0;
    while i < parts.len()
        invariant
            i <= parts.len(),
            ps == crate::text::buf_views(parts@),
            ps == split_on(s@, '\n'),
            usize_views(r@) == line_widths(s@).take(i as int),
        decreases parts.len() - i,
    {
        assert(ps[i as int] == parts@[i as int]@);
        assert(line_widths(s@)[i as int] == ps[i as int].len());
        let l = parts[i].len();
        let ghost before = r@;
        r.push(l);
        assert(r@ == before.push(l));
        assert(usize_views(r@) =~= usize_views(before).push(l as int));
        assert(line_widths(s@).take(i + 1) =~= line_widths(s@).take(i as int).push(l as int));
        i += 1;
    }
    assert(line_widths(s@).take(parts.len() as int) =~= line_widths(s@));
    r
}

impl ProtectedRegion {
    /// Checks a candidate against the source and records its exact text.
    pub fn from_candidate(source: &NormalizedSource, candidate: Candidate, index: usize) -> (r: Result<
        Self,
        PreservationError,
    >)
        ensures
            match candidate_result(
                source.text@,
                candidate.form,
                candidate.start as int,
                candidate.end as int,
                candidate.scaffold_prefix@,
            ) {
                Ok(exact) => r matches Ok(region) && {
                    &&& region.index == index
                    &&& region.kind == candidate.kind
                    &&& region.form == candidate.form
                    &&& region.start == candidate.start
                    &&& region.end == candidate.end
                    &&& region.source@ == exact
                    &&& usize_views(region.logical_widths@) == if candidate.form is Inline {
                        line_widths(exact)
                    } else {
                        Seq::empty()
                    }
                    &&& region.container == candidate.container
                    &&& region.scaffold_prefix == candidate.scaffold_prefix
                },
                Err(msg) => r matches Err(e) && e.0@ == msg@,
            },
    {
        let exact = match source.slice(candidate.start, candidate.end) {
            Ok(s) => s,
            Err(e) => {
                return Err(e);
            },
        };
        let ev = chars_of(exact.as_str());
        let widths = if candidate.form == RegionForm::Inline {
            line_widths_exec(&ev)
        } else {
            let w: Vec<usize> = Vec::new();
            assert(usize_views(w@) =~= Seq::<int>::empty());
            w
        };
        if candidate.form == RegionForm::Block {
            if !(ev.len() > 0 && ev[ev.len() - 1] == '\n') {
                return Err(PreservationError(BLOCK_WITHOUT_LF));
            }
            let sp = chars_of(candidate.scaffold_prefix.as_str());
            let mut ok = sp.len() <= ev.len();
            if ok {
                let head = slice_of(&ev, 0, sp.len());
                ok = crate::text::chars_eq(&head, &sp);
            }
            if !ok {
                return Err(PreservationError(SCAFFOLD_MISMATCH));
            }
        }
        Ok(ProtectedRegion {
            index,
            kind: candidate.kind,
            form: candidate.form,
            start: candidate.start,
            end: candidate.end,
            source: exact,
            logical_widths: widths,
            container: candidate.container,
            scaffold_prefix: candidate.scaffold_prefix,
        })
    }
}

/// The first region that breaks canonical order (its index is not its
/// position, or it starts before the previous one ends) or whose text is not
/// the source's text at its offsets decides the outcome.
pub open spec fn regions_check(text: Seq<char>, regions: Seq<ProtectedRegion>, n: int) -> Result<int, &'static str>
    decreases n,
{
    if n <= 0 {
        Ok(0)
    } else {
        match regions_check(text, regions, n - 1) {
            Err(m) => Err(m),
            Ok(previous_end) => {
                let r = regions[n - 1];
                if r.index != n - 1 || r.start < previous_end {
                    Err(NOT_SOURCE_ORDER)
                } else {
                    match slice_result(text, r.start as int, r.end as int) {
                        None => Err(OUTSIDE_SOURCE),
                        Some(s) => if s != r.source@ {
                            Err(REGION_MISMATCH)
                        } else {
                            Ok(r.end as int)
                        },
                    }
                }
            },
        }
    }
}

proof fn lemma_regions_check_err(text: Seq<char>, regions: Seq<ProtectedRegion>, k: int, m: &'static str)
    requires
        0 <= k <= regions.len(),
        regions_check(text, regions, k) == Err::<int, &'static str>(m),
    ensures
        regions_check(text, regions, regions.len() as int) == Err::<int, &'static str>(m),
    decreases regions.len() - k,
{
    if k < regions.len() {
        lemma_regions_check_err(text, regions, k + 1, m);
    }
}

/// Regions are in canonical source order, and each holds the source's text
/// at its offsets.
pub fn validate_regions(source: &NormalizedSource, regions: &Vec<ProtectedRegion>) -> (r: Result<
    (),
    PreservationError,
>)
    ensures
        match regions_check(source.text@, regions@, regions.len() as int) {
            Ok(_) => r is Ok,
            Err(m) => r matches Err(e) && e.0@ == m@,
        },
{
    let ghost text = source.text@;
    let mut previous_end: usize = 0;
    let mut i: usize = 0;
    while i < regions.len()
        invariant
            i <= regions.len(),
            text == source.text@,
            regions_check(text, regions@, i as int) == Ok::<int, &'static str>(previous_end as int),
        decreases regions.len() - i,
    {
        let region = &regions[i];
        if region.index != i || region.start < previous_end {
            proof {
                lemma_regions_check_err(text, regions@, i + 1, NOT_SOURCE_ORDER);
            }
            return Err(PreservationError(NOT_SOURCE_ORDER));
        }
        match source.slice(region.start, region.end) {
            Err(e) => {
                proof {
                    lemma_regions_check_err(text, regions@, i + 1, OUTSIDE_SOURCE);
                }
                return Err(e);
            },
            Ok(s) => {
                let a = chars_of(s.as_str());
                let b = chars_of(region.source.as_str());
                if !crate::text::chars_eq(&a, &b) {
                    proof {
                        lemma_regions_check_err(text, regions@, i + 1, REGION_MISMATCH);
                    }
                    return Err(PreservationError(REGION_MISMATCH));
                }
            },
        }
        previous_end = region.end;
        i += 1;
    }
    Ok(())
}

} // verus!
