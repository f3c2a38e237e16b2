//! Which files the resolver keeps: gitignore-style patterns matched against
//! names, relative paths and directory names, the lines of ignore files,
//! and the filters applied to files named explicitly or found by a glob.
//! Paths reach this module as strings; the file system stays outside.

use vstd::prelude::*;
use crate::text::{chars_of, starts_with, str_equals, string_of, views};

verus! {

/// What `glob::Pattern::new(pattern)` and then `Pattern::matches(text)`
/// decide: `None` when the pattern does not compile.
pub uninterp spec fn glob_match_of(pattern: Seq<char>, text: Seq<char>) -> Option<bool>;

/// Compiles `pattern` with `glob::Pattern::new` and tests `text` with
/// `Pattern::matches` (default match options).
///
/// Claimed of the crate: the outcome depends on the pattern and the text
/// alone (named `glob_match_of`).
#[verifier::external_body]
fn glob_match(pattern: &str, text: &str) -> (r: Option<bool>)
    ensures
        r == glob_match_of(pattern@, text@),
{
    match glob::Pattern::new(pattern) {
        Ok(p) => Some(p.matches(text)),
        Err(_) => None,
    }
}

/// A pattern that compiles and matches the text.
pub open spec fn glob_hits(pattern: Seq<char>, text: Seq<char>) -> bool {
    glob_match_of(pattern, text) == Some(true)
}

fn glob_hits_exec(pattern: &Vec<char>, text: &Vec<char>) -> (b: bool)
    ensures
        b == glob_hits(pattern@, text@),
{
    let p = string_of(pattern);
    let t = string_of(text);
    match glob_match(p.as_str(), t.as_str()) {
        Some(m) => m,
        None => false,
    }
}

pub open spec fn ends_with_slash(s: Seq<char>) -> bool {
    s.len() > 0 && s.last() == '/'
}

/// The text without one trailing `/`.
pub open spec fn without_slash(s: Seq<char>) -> Seq<char> {
    if ends_with_slash(s) {
        s.drop_last()
    } else {
        s
    }
}

fn without_slash_exec(v: &Vec<char>) -> (r: Vec<char>)
    ensures
        r@ == without_slash(v@),
{
    let mut r = crate::formatter::filling::copy_buf(v);
    if r.len() > 0 && r[r.len() - 1] == '/' {
        r.pop();
    }
    r
}

/// One pattern against a name: a directory pattern (ending with `/`) only
/// matches a directory name (ending with `/`); both are compared without
/// the slash.
pub open spec fn pattern_hits_name(p: Seq<char>, name: Seq<char>) -> bool {
    !(ends_with_slash(p) && !ends_with_slash(name)) && glob_hits(without_slash(p), without_slash(name))
}

/// Some pattern matches the name.
pub open spec fn name_matches(patterns: Seq<Seq<char>>, name: Seq<char>) -> bool {
    exists|i: int| 0 <= i < patterns.len() && pattern_hits_name(#[trigger] patterns[i], name)
}

/// Whether a name matches one of the gitignore-style patterns (see
/// [`name_matches`]).
pub fn matches_any_pattern(patterns: &Vec<String>, name: &str) -> (b: bool)
    ensures
        b == name_matches(views(patterns@), name@),
{
    let n = chars_of(name);
    let bare_name = without_slash_exec(&n);
    let is_dir_query = n.len() > 0 && n[n.len() - 1] == '/';
    let ghost ps = views(patterns@);
    let mut i: usize = 0;
    while i < patterns.len()
        invariant
            i <= patterns.len(),
            ps == views(patterns@),
            n@ == name@,
            bare_name@ == without_slash(n@),
            is_dir_query == ends_with_slash(n@),
            forall|j: int| 0 <= j < i ==> !pattern_hits_name(#[trigger] ps[j], name@),
        decreases patterns.len() - i,
    {
        assert(ps[i as int] == patterns@[i as int]@);
        let p = chars_of(patterns[i].as_str());
        let pattern_is_dir = p.len() > 0 && p[p.len() - 1] == '/';
        if !(pattern_is_dir && !is_dir_query) {
            let bare_pattern = without_slash_exec(&p);
            if glob_hits_exec(&bare_pattern, &bare_name) {
                assert(pattern_hits_name(ps[i as int], name@));
                return true;
            }
        }
        i += 1;
    }
    false
}

/// One pattern against a path relative to the working directory: a leading
/// `/` anchors to that directory (and is dropped); a directory pattern
/// matches the directory and everything beneath it; any other pattern is
/// glob-matched against the whole path.
pub open spec fn pattern_hits_relative(p: Seq<char>, rel: Seq<char>) -> bool {
    let q = if p.len() > 0 && p[0] == '/' {
        p.skip(1)
    } else {
        p
    };
    if ends_with_slash(q) {
        let dir = q.drop_last();
        rel == dir || starts_with(rel, dir.push('/'))
    } else {
        glob_hits(q, rel)
    }
}

pub open spec fn relative_matches(patterns: Seq<Seq<char>>, rel: Seq<char>) -> bool {
    exists|i: int| 0 <= i < patterns.len() && pattern_hits_relative(#[trigger] patterns[i], rel)
}

fn starts_with_buf(v: &Vec<char>, pat: &Vec<char>) -> (b: bool)
    ensures
        b == starts_with(v@, pat@),
{
    if pat.len() > v.len() {
        return false;
    }
    let mut k: usize = 0;
    while k < pat.len()
        invariant
            pat.len() <= v.len(),
            k <= pat.len(),
            forall|j: int| 0 <= j < k ==> v@[j] == pat@[j],
        decreases pat.len() - k,
    {
        if v[k] != pat[k] {
            assert(v@.subrange(0, pat.len() as int)[k as int] != pat@[k as int]);
            return false;
        }
        k += 1;
    }
    assert(v@.subrange(0, pat.len() as int) =~= pat@);
    true
}

/// Whether a working-directory-relative POSIX path matches one of the
/// patterns (see [`relative_matches`]).
pub fn matches_relative_path(patterns: &Vec<String>, rel_posix: &str) -> (b: bool)
    ensures
        b == relative_matches(views(patterns@), rel_posix@),
{
    let rel = chars_of(rel_posix);
    let ghost ps = views(patterns@);
    let mut i: usize = 0;
    while i < patterns.len()
        invariant
            i <= patterns.len(),
            ps == views(patterns@),
            rel@ == rel_posix@,
            forall|j: int| 0 <= j < i ==> !pattern_hits_relative(#[trigger] ps[j], rel_posix@),
        decreases patterns.len() - i,
    {
        assert(ps[i as int] == patterns@[i as int]@);
        let p = chars_of(patterns[i].as_str());
        let q = if p.len() > 0 && p[0] == '/' {
            crate::text::slice_of(&p, 1, p.len())
        } else {
            crate::formatter::filling::copy_buf(&p)
        };
        assert(q@ == if p@.len() > 0 && p@[0] == '/' {
            p@.skip(1)
        } else {
            p@
        });
        let hit = if q.len() > 0 && q[q.len() - 1] == '/' {
            let mut dir = crate::formatter::filling::copy_buf(&q);
            dir.pop();
            assert(dir@ =~= q@.drop_last());
            let same = crate::text::chars_eq(&rel, &dir);
            let mut with_slash = crate::formatter::filling::copy_buf(&dir);
            with_slash.push('/');
            same || starts_with_buf(&rel, &with_slash)
        } else {
            glob_hits_exec(&q, &rel)
        };
        if hit {
            assert(pattern_hits_relative(ps[i as int], rel_posix@));
            return true;
        }
        i += 1;
    }
    false
}

/// Backslashes read as `/`.
pub open spec fn posix_of(s: Seq<char>) -> Seq<char> {
    s.map_values(|c: char| if c == '\\' { '/' } else { c })
}

/// Whether an explicitly named file matches a pattern list: by its name, by
/// its path relative to the working directory (when it lies beneath it), or
/// by one of its parent directories' names (queried as `name/`).
pub open spec fn path_matches(
    patterns: Seq<Seq<char>>,
    file_name: Option<Seq<char>>,
    rel: Option<Seq<char>>,
    parent_parts: Seq<Seq<char>>,
) -> bool {
    ||| (file_name matches Some(n) && name_matches(patterns, n))
    ||| (rel matches Some(r) && relative_matches(patterns, posix_of(r)))
    ||| exists|k: int| 0 <= k < parent_parts.len() && name_matches(patterns, (#[trigger] parent_parts[k]).push('/'))
}

/// Matches an explicitly named file against a pattern list (see
/// [`path_matches`]); `rel` is its path relative to the working directory
/// when it lies beneath it, `parent_parts` the components of its parent.
pub fn spec_matches_path(
    patterns: &Vec<String>,
    file_name: Option<&str>,
    rel: Option<&str>,
    parent_parts: &Vec<String>,
) -> (b: bool)
    ensures
        b == path_matches(
            views(patterns@),
            match file_name {
                Some(n) => Some(n@),
                None => None,
            },
            match rel {
                Some(r) => Some(r@),
                None => None,
            },
            views(parent_parts@),
        ),
{
    if let Some(name) = file_name {
        if matches_any_pattern(patterns, name) {
            return true;
        }
    }
    if let Some(r) = rel {
        let v = chars_of(r);
        let mut posix: Vec<char> = Vec::new();
        let mut k: usize = 0;
        while k < v.len()
            invariant
                k <= v.len(),
                v@ == r@,
                posix@ == posix_of(v@).take(k as int),
            decreases v.len() - k,
        {
            posix.push(if v[k] == '\\' { '/' } else { v[k] });
            assert(posix@ =~= posix_of(v@).take(k + 1));
            k += 1;
        }
        assert(posix_of(v@).take(v.len() as int) =~= posix_of(v@));
        let ps = string_of(&posix);
        if matches_relative_path(patterns, ps.as_str()) {
            return true;
        }
    }
    let ghost pp = views(parent_parts@);
    let mut j: usize = 0;
    while j < parent_parts.len()
        invariant
            j <= parent_parts.len(),
            pp == views(parent_parts@),
            forall|k: int| 0 <= k < j ==> !name_matches(views(patterns@), (#[trigger] pp[k]).push('/')),
        decreases parent_parts.len() - j,
    {
        assert(pp[j as int] == parent_parts@[j as int]@);
        let mut q = chars_of(parent_parts[j].as_str());
        q.push('/');
        let qs = string_of(&q);
        if matches_any_pattern(patterns, qs.as_str()) {
            return true;
        }
        j += 1;
    }
    false
}

// ---------------------------------------------------------------------------
// Ignore files
// ---------------------------------------------------------------------------

/// The active lines of an ignore file among the first `n`: trimmed, without
/// blanks and `#` comments.
pub open spec fn active_lines(lines: Seq<Seq<char>>, n: int) -> Seq<Seq<char>>
    decreases n,
{
    if n <= 0 {
        Seq::empty()
    } else {
        let rest = active_lines(lines, n - 1);
        let t = crate::text::trim(lines[n - 1]);
        if t.len() > 0 && t[0] != '#' {
            rest.push(t)
        } else {
            rest
        }
    }
}

/// The patterns of an ignore file's text, `None` when it has none.
pub open spec fn ignore_patterns_of(text: Seq<char>) -> Option<Seq<Seq<char>>> {
    let lines = crate::wrapping::text_filling::text_lines(text);
    let a = active_lines(lines, lines.len() as int);
    if a.len() == 0 {
        None
    } else {
        Some(a)
    }
}

/// Reads the patterns of an ignore file's text (see [`ignore_patterns_of`]).
pub fn parse_ignore_patterns(text: &str) -> (r: Option<Vec<String>>)
    ensures
        match ignore_patterns_of(text@) {
            Some(p) => r matches Some(v) && views(v@) == p,
            None => r is None,
        },
{
    let lines = crate::formatter::filling::lines_of(text);
    let ghost ls = crate::text::buf_views(lines@);
    let mut out: Vec<String> = Vec::new();
    let mut i: usize = 0;
    while i < lines.len()
        invariant
            i <= lines.len(),
            ls == crate::text::buf_views(lines@),
            views(out@) == active_lines(ls, i as int),
        decreases lines.len() - i,
    {
        assert(ls[i as int] == lines@[i as int]@);
        let t = crate::text::trim_chars(&lines[i]);
        if t.len() > 0 && t[0] != '#' {
            let ghost before = out@;
            out.push(string_of(&t));
            assert(views(out@) =~= views(before).push(t@));
        }
        i += 1;
    }
    if out.len() == 0 {
        None
    } else {
        Some(out)
    }
}

// ---------------------------------------------------------------------------
// Filters
// ---------------------------------------------------------------------------

/// A file over the size limit (0 for none); a size that could not be read
/// is not over it.
pub open spec fn over_size(max: u64, len: Option<u64>) -> bool {
    max != 0 && (len matches Some(l) && l > max)
}

/// Whether a file exceeds the size limit (see [`over_size`]).
pub fn exceeds_max_size(files_max_size: u64, len: Option<u64>) -> (b: bool)
    ensures
        b == over_size(files_max_size, len),
{
    if files_max_size == 0 {
        return false;
    }
    match len {
        Some(l) => l > files_max_size,
        None => false,
    }
}

/// Whether an explicitly named file is formatted: with `force_exclude`
/// neither the exclude patterns nor the tool ignore file's patterns may
/// match it; and it must not be over the size limit.
pub open spec fn explicit_included(
    force_exclude: bool,
    excluded: bool,
    tool_ignored: bool,
    exceeds: bool,
) -> bool {
    !(force_exclude && (excluded || tool_ignored)) && !exceeds
}

/// Decides whether an explicitly named file is formatted (see
/// [`explicit_included`]; the pattern tests are those of
/// [`spec_matches_path`]).
pub fn should_include_explicit(
    force_exclude: bool,
    exclude_patterns: &Vec<String>,
    tool_ignore: Option<&Vec<String>>,
    file_name: Option<&str>,
    rel: Option<&str>,
    parent_parts: &Vec<String>,
    exceeds: bool,
) -> (b: bool)
    ensures
        b == explicit_included(
            force_exclude,
            path_matches(
                views(exclude_patterns@),
                match file_name {
                    Some(n) => Some(n@),
                    None => None,
                },
                match rel {
                    Some(r) => Some(r@),
                    None => None,
                },
                views(parent_parts@),
            ),
            match tool_ignore {
                Some(t) => path_matches(
                    views(t@),
                    match file_name {
                        Some(n) => Some(n@),
                        None => None,
                    },
                    match rel {
                        Some(r) => Some(r@),
                        None => None,
                    },
                    views(parent_parts@),
                ),
                None => false,
            },
            exceeds,
        ),
{
    if force_exclude {
        if spec_matches_path(exclude_patterns, file_name, rel, parent_parts) {
            return false;
        }
        if let Some(t) = tool_ignore {
            if spec_matches_path(t, file_name, rel, parent_parts) {
                return false;
            }
        }
    }
    !exceeds
}

/// Some include pattern matches the file name.
pub open spec fn included_name(includes: Seq<Seq<char>>, name: Seq<char>) -> bool {
    exists|i: int| 0 <= i < includes.len() && glob_hits(#[trigger] includes[i], name)
}

/// Whether a file name matches an include pattern.
pub fn name_included(includes: &Vec<String>, name: &str) -> (b: bool)
    ensures
        b == included_name(views(includes@), name@),
{
    let n = chars_of(name);
    let ghost is = views(includes@);
    let mut i: usize = 0;
    while i < includes.len()
        invariant
            i <= includes.len(),
            is == views(includes@),
            n@ == name@,
            forall|j: int| 0 <= j < i ==> !glob_hits(#[trigger] is[j], name@),
        decreases includes.len() - i,
    {
        assert(is[i as int] == includes@[i as int]@);
        let p = chars_of(includes[i].as_str());
        if glob_hits_exec(&p, &n) {
            return true;
        }
        i += 1;
    }
    false
}

/// Some directory exclude pattern (one ending with `/`, matched without
/// it) matches the directory name.
pub open spec fn excluded_dir_name(excludes: Seq<Seq<char>>, name: Seq<char>) -> bool {
    exists|i: int| 0 <= i < excludes.len() && ends_with_slash(#[trigger] excludes[i]) && glob_hits(
        excludes[i].drop_last(),
        name,
    )
}

/// A directory is excluded whenever any directory pattern of the exclude
/// list matches its name, wherever that pattern stands in the list; and a
/// directory that no directory pattern matches is not excluded.
pub proof fn lemma_any_directory_pattern_excludes(excludes: Seq<Seq<char>>, name: Seq<char>)
    ensures
        (exists|i: int| 0 <= i < excludes.len() && ends_with_slash(#[trigger] excludes[i]) && glob_hits(excludes[i].drop_last(), name))
            <==> excluded_dir_name(excludes, name),
        forall|i: int|
            0 <= i < excludes.len() && ends_with_slash(#[trigger] excludes[i]) && glob_hits(excludes[i].drop_last(), name)
                ==> excluded_dir_name(excludes, name),
{
    assert forall|i: int|
        0 <= i < excludes.len() && ends_with_slash(#[trigger] excludes[i]) && glob_hits(excludes[i].drop_last(), name)
            implies excluded_dir_name(excludes, name) by {
        assert(ends_with_slash(excludes[i]));
    }
}

/// Whether a directory name matches a directory exclude pattern (the walk
/// does not descend into such a directory).
pub fn dir_name_excluded(excludes: &Vec<String>, name: &str) -> (b: bool)
    ensures
        b == excluded_dir_name(views(excludes@), name@),
{
    let n = chars_of(name);
    let ghost es = views(excludes@);
    let mut i: usize = 0;
    while i < excludes.len()
        invariant
            i <= excludes.len(),
            es == views(excludes@),
            n@ == name@,
            forall|j: int| 0 <= j < i ==> !(ends_with_slash(#[trigger] es[j]) && glob_hits(es[j].drop_last(), name@)),
        decreases excludes.len() - i,
    {
        assert(es[i as int] == excludes@[i as int]@);
        let p = chars_of(excludes[i].as_str());
        if p.len() > 0 && p[p.len() - 1] == '/' {
            let bare = without_slash_exec(&p);
            if glob_hits_exec(&bare, &n) {
                return true;
            }
        }
        i += 1;
    }
    false
}

/// Whether a file a glob found is formatted: it has a name that an include
/// pattern matches, it is not over the size limit, and no component of its
/// path other than those equal to its name matches a directory exclude
/// pattern.
pub open spec fn glob_entry_passes(
    includes: Seq<Seq<char>>,
    excludes: Seq<Seq<char>>,
    file_name: Option<Seq<char>>,
    components: Seq<Seq<char>>,
    exceeds: bool,
) -> bool {
    &&& file_name is Some
    &&& included_name(includes, file_name->Some_0)
    &&& !exceeds
    &&& forall|k: int|
        0 <= k < components.len() && #[trigger] components[k] != file_name->Some_0 ==> !excluded_dir_name(
            excludes,
            components[k],
        )
}

/// Decides whether a file a glob found is formatted (see
/// [`glob_entry_passes`]).
pub fn glob_entry_passes_filters(
    includes: &Vec<String>,
    excludes: &Vec<String>,
    file_name: Option<&str>,
    components: &Vec<String>,
    exceeds: bool,
) -> (b: bool)
    ensures
        b == glob_entry_passes(
            views(includes@),
            views(excludes@),
            match file_name {
                Some(n) => Some(n@),
                None => None,
            },
            views(components@),
            exceeds,
        ),
{
    let name = match file_name {
        Some(n) => n,
        None => {
            return false;
        },
    };
    assert(match file_name {
        Some(n) => Some(n@),
        None => None,
    } == Some(name@));
    if !name_included(includes, name) {
        return false;
    }
    if exceeds {
        return false;
    }
    let ghost cs = views(components@);
    let mut k: usize = 0;
    while k < components.len()
        invariant
            k <= components.len(),
            cs == views(components@),
            file_name == Some(name),
            forall|j: int| 0 <= j < k && #[trigger] cs[j] != name@ ==> !excluded_dir_name(views(excludes@), cs[j]),
        decreases components.len() - k,
    {
        assert(cs[k as int] == components@[k as int]@);
        if !str_equals(components[k].as_str(), name) {
            if dir_name_excluded(excludes, components[k].as_str()) {
                assert(cs[k as int] != name@ && excluded_dir_name(views(excludes@), cs[k as int]));
                assert(!glob_entry_passes(
                    views(includes@),
                    views(excludes@),
                    Some(name@),
                    cs,
                    exceeds,
                ));
                return false;
            }
        }
        k += 1;
    }
    true
}

} // verus!
