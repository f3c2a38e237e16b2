//! Regular-expression matching through the `regex` crate.
//!
//! The patterns of this library use Unicode classes (`\w`, `\p{L}`, ...),
//! lazy repetition and ordered alternation; what they match is what the
//! `regex` crate computes. Every search goes through one trusted item,
//! [`scan`], which reports the successive non-overlapping matches of a pattern
//! together with the text between them. The matches themselves are named by
//! [`regex_scan_of`]; the verified code around the search is proved against
//! that name.

use vstd::prelude::*;
use crate::text::{chars_of, views};

verus! {

/// The successive non-overlapping matches of a pattern in a haystack.
///
/// `gaps[k]` is the text before match `k` (after match `k - 1`); the last gap
/// is the text after the last match. `groups[k][i]` is capture group `i` of
/// match `k`; group 0 is the whole match.
pub struct RegexScan {
    pub gaps: Vec<String>,
    pub groups: Vec<Vec<Option<String>>>,
}

pub open spec fn opt_view(o: Option<String>) -> Option<Seq<char>> {
    match o {
        Some(s) => Some(s@),
        None => None,
    }
}

pub open spec fn group_views(g: Seq<Vec<Option<String>>>) -> Seq<Seq<Option<Seq<char>>>> {
    g.map_values(|caps: Vec<Option<String>>| caps@.map_values(|o: Option<String>| opt_view(o)))
}

/// The text of group 0 (the whole match) of a match.
pub open spec fn whole(caps: Seq<Option<Seq<char>>>) -> Seq<char> {
    caps[0]->Some_0
}

/// Gaps and matches interleaved: the haystack the scan came from.
pub open spec fn scan_text(gaps: Seq<Seq<char>>, groups: Seq<Seq<Option<Seq<char>>>>) -> Seq<char>
    decreases groups.len(),
{
    if groups.len() == 0 {
        gaps[0]
    } else {
        scan_text(gaps.drop_last(), groups.drop_last()).add(whole(groups.last())).add(gaps.last())
    }
}

/// The shape every scan result has.
pub open spec fn well_formed_scan(gaps: Seq<Seq<char>>, groups: Seq<Seq<Option<Seq<char>>>>) -> bool {
    &&& gaps.len() == groups.len() + 1
    &&& forall|k: int| 0 <= k < groups.len() ==> (#[trigger] groups[k]).len() >= 1 && groups[k][0] is Some
}

/// What `regex::Regex::new(pattern)` followed by `captures_iter(text)` yields:
/// `None` when the pattern does not compile, otherwise the gaps and capture
/// groups of the successive matches.
pub uninterp spec fn regex_scan_of(pattern: Seq<char>, text: Seq<char>) -> Option<
    (Seq<Seq<char>>, Seq<Seq<Option<Seq<char>>>>),
>;

/// Compiles `pattern` with `regex::Regex::new` and collects
/// `regex::Regex::captures_iter(text)`.
///
/// Claimed of the crate: the result is a function of the pattern and the
/// text (named `regex_scan_of`); the matches are successive and
/// non-overlapping, each `Match::as_str` is the haystack between the match's
/// start and end, and capture group 0 is always present. Hence the gaps and
/// the whole matches, interleaved, are the text.
#[verifier::external_body]
pub fn scan(pattern: &str, text: &str) -> (r: Option<RegexScan>)
    ensures
        r is Some <==> regex_scan_of(pattern@, text@) is Some,
        r matches Some(sc) ==> (views(sc.gaps@), group_views(sc.groups@)) == regex_scan_of(
            pattern@,
            text@,
        )->Some_0,
        r matches Some(sc) ==> well_formed_scan(views(sc.gaps@), group_views(sc.groups@)),
        r matches Some(sc) ==> scan_text(views(sc.gaps@), group_views(sc.groups@)) == text@,
{
    let re = regex::Regex::new(pattern).ok()?;
    let mut gaps = Vec::new();
    let mut groups = Vec::new();
    let mut last: usize = 0;
    for caps in re.captures_iter(text) {
        gaps.push(text[last..caps.get_match().start()].to_string());
        groups.push(caps.iter().map(|g| g.map(|m| m.as_str().to_string())).collect());
        last = caps.get_match().end();
    }
    gaps.push(text[last..].to_string());
    Some(RegexScan { gaps, groups })
}

/// Whether the pattern matches anywhere in the text.
pub open spec fn regex_finds(pattern: Seq<char>, text: Seq<char>) -> bool {
    regex_scan_of(pattern, text) matches Some(sc) && sc.1.len() > 0
}

/// `regex::Regex::is_match`: whether `pattern` matches anywhere in `text`
/// (false when the pattern does not compile).
pub fn is_match(pattern: &str, text: &str) -> (b: bool)
    ensures
        b == regex_finds(pattern@, text@),
{
    match scan(pattern, text) {
        Some(sc) => sc.groups.len() > 0,
        None => false,
    }
}

/// The text of capture group `i` of match `k`, or `None` when the group did
/// not take part in the match.
pub fn group(sc: &RegexScan, k: usize, i: usize) -> (r: Option<Vec<char>>)
    requires
        k < sc.groups.len(),
    ensures
        i < sc.groups@[k as int].len() ==> (match r {
            Some(v) => group_views(sc.groups@)[k as int][i as int] == Some(v@),
            None => group_views(sc.groups@)[k as int][i as int] is None,
        }),
        i >= sc.groups@[k as int].len() ==> r is None,
{
    if i >= sc.groups[k].len() {
        return None;
    }
    proof {
        assert(group_views(sc.groups@)[k as int] == sc.groups@[k as int]@.map_values(
            |o: Option<String>| opt_view(o),
        ));
    }
    match &sc.groups[k][i] {
        Some(s) => Some(chars_of(s.as_str())),
        None => None,
    }
}

/// The text of capture group `i` of match `k`, empty when absent.
pub fn group_or_empty(sc: &RegexScan, k: usize, i: usize) -> (r: Vec<char>)
    requires
        k < sc.groups.len(),
    ensures
        r@ == group_text(group_views(sc.groups@)[k as int], i as int),
{
    match group(sc, k, i) {
        Some(v) => v,
        None => Vec::new(),
    }
}

/// The text of a capture group, empty when absent.
pub open spec fn group_text(caps: Seq<Option<Seq<char>>>, i: int) -> Seq<char> {
    if 0 <= i < caps.len() && caps[i] is Some {
        caps[i]->Some_0
    } else {
        Seq::empty()
    }
}

/// Whether capture group `i` took part in the match.
pub open spec fn group_present(caps: Seq<Option<Seq<char>>>, i: int) -> bool {
    0 <= i < caps.len() && caps[i] is Some
}

pub fn has_group(sc: &RegexScan, k: usize, i: usize) -> (b: bool)
    requires
        k < sc.groups.len(),
    ensures
        b == group_present(group_views(sc.groups@)[k as int], i as int),
{
    let g = group(sc, k, i);
    g.is_some()
}

/// The gap before match `k` (or after the last match when `k` is the number
/// of matches).
pub fn gap(sc: &RegexScan, k: usize) -> (r: Vec<char>)
    requires
        k < sc.gaps.len(),
    ensures
        r@ == views(sc.gaps@)[k as int],
{
    chars_of(sc.gaps[k].as_str())
}

/// The gaps and whole matches before gap `k`, in order.
pub open spec fn scan_prefix(
    gaps: Seq<Seq<char>>,
    groups: Seq<Seq<Option<Seq<char>>>>,
    k: int,
) -> Seq<char>
    decreases k,
{
    if k <= 0 {
        Seq::empty()
    } else {
        scan_prefix(gaps, groups, k - 1) + gaps[k - 1] + whole(groups[k - 1])
    }
}

pub proof fn lemma_scan_prefix_ext(
    g1: Seq<Seq<char>>,
    m1: Seq<Seq<Option<Seq<char>>>>,
    g2: Seq<Seq<char>>,
    m2: Seq<Seq<Option<Seq<char>>>>,
    k: int,
)
    requires
        0 <= k,
        k <= g1.len(),
        k <= g2.len(),
        k <= m1.len(),
        k <= m2.len(),
        forall|i: int| 0 <= i < k ==> g1[i] == g2[i] && m1[i] == m2[i],
    ensures
        scan_prefix(g1, m1, k) == scan_prefix(g2, m2, k),
    decreases k,
{
    if k > 0 {
        lemma_scan_prefix_ext(g1, m1, g2, m2, k - 1);
    }
}

pub proof fn lemma_scan_text_prefix(gaps: Seq<Seq<char>>, groups: Seq<Seq<Option<Seq<char>>>>)
    requires
        gaps.len() == groups.len() + 1,
    ensures
        scan_text(gaps, groups) == scan_prefix(gaps, groups, groups.len() as int) + gaps.last(),
    decreases groups.len(),
{
    if groups.len() > 0 {
        let n = groups.len() as int;
        lemma_scan_text_prefix(gaps.drop_last(), groups.drop_last());
        lemma_scan_prefix_ext(gaps.drop_last(), groups.drop_last(), gaps, groups, n - 1);
        assert(gaps.drop_last().last() == gaps[n - 1]);
        assert(groups.drop_last().len() == n - 1);
    }
}

pub proof fn lemma_scan_prefix_mono(
    gaps: Seq<Seq<char>>,
    groups: Seq<Seq<Option<Seq<char>>>>,
    a: int,
    b: int,
)
    requires
        0 <= a <= b,
    ensures
        scan_prefix(gaps, groups, a).len() <= scan_prefix(gaps, groups, b).len(),
    decreases b - a,
{
    if a < b {
        lemma_scan_prefix_mono(gaps, groups, a, b - 1);
    }
}

} // verus!
