//! Configuration for file discovery and filtering.

use vstd::prelude::*;
use crate::text::views;

verus! {

/// Default file patterns that directory traversal takes in.
pub open spec fn default_includes() -> Seq<Seq<char>> {
    seq!["*.md"@]
}

/// Directories and patterns that should almost never hold files worth
/// formatting (gitignore syntax; directory patterns end with `/`).
pub open spec fn default_excludes() -> Seq<Seq<char>> {
    seq![
        ".git/"@,
        ".hg/"@,
        ".svn/"@,
        ".bzr/"@,
        "_darcs/"@,
        ".venv/"@,
        "venv/"@,
        "__pycache__/"@,
        ".tox/"@,
        ".nox/"@,
        ".mypy_cache/"@,
        ".ruff_cache/"@,
        ".pytest_cache/"@,
        ".eggs/"@,
        "*.egg-info/"@,
        "build/"@,
        "dist/"@,
        "node_modules/"@,
        ".next/"@,
        ".nuxt/"@,
        ".output/"@,
        ".cache/"@,
        ".parcel-cache/"@,
        ".turbo/"@,
        ".idea/"@,
        ".vscode/"@,
        ".vs/"@,
        ".fleet/"@,
        "coverage/"@,
        "htmlcov/"@,
        ".coverage/"@,
        "vendor/"@,
        "third_party/"@,
        "Pods/"@,
        "target/"@,
        ".terraform/"@
    ]
}

pub fn default_include_patterns() -> (r: Vec<String>)
    ensures
        views(r@) == default_includes(),
{
    let mut r: Vec<String> = Vec::new();
    r.push("*.md".to_owned());
    assert(views(r@) =~= default_includes());
    r
}

pub fn default_exclude_patterns() -> (r: Vec<String>)
    ensures
        views(r@) == default_excludes(),
{
    let mut r: Vec<String> = Vec::new();
    r.push(".git/".to_owned());
    r.push(".hg/".to_owned());
    r.push(".svn/".to_owned());
    r.push(".bzr/".to_owned());
    r.push("_darcs/".to_owned());
    r.push(".venv/".to_owned());
    r.push("venv/".to_owned());
    r.push("__pycache__/".to_owned());
    r.push(".tox/".to_owned());
    r.push(".nox/".to_owned());
    r.push(".mypy_cache/".to_owned());
    r.push(".ruff_cache/".to_owned());
    r.push(".pytest_cache/".to_owned());
    r.push(".eggs/".to_owned());
    r.push("*.egg-info/".to_owned());
    r.push("build/".to_owned());
    r.push("dist/".to_owned());
    r.push("node_modules/".to_owned());
    r.push(".next/".to_owned());
    r.push(".nuxt/".to_owned());
    r.push(".output/".to_owned());
    r.push(".cache/".to_owned());
    r.push(".parcel-cache/".to_owned());
    r.push(".turbo/".to_owned());
    r.push(".idea/".to_owned());
    r.push(".vscode/".to_owned());
    r.push(".vs/".to_owned());
    r.push(".fleet/".to_owned());
    r.push("coverage/".to_owned());
    r.push("htmlcov/".to_owned());
    r.push(".coverage/".to_owned());
    r.push("vendor/".to_owned());
    r.push("third_party/".to_owned());
    r.push("Pods/".to_owned());
    r.push("target/".to_owned());
    r.push(".terraform/".to_owned());
    assert(views(r@) =~= default_excludes());
    r
}

/// Configuration for file discovery and filtering. `exclude` of `None` means
/// the default excludes; a list replaces them. A `files_max_size` of 0
/// disables the size limit.
#[derive(Debug)]
pub struct FileResolverConfig {
    /// Tool name; determines the ignore file name (e.g. `.flowmarkignore`).
    pub tool_name: String,
    pub include_patterns: Vec<String>,
    pub extend_include: Vec<String>,
    pub exclude: Option<Vec<String>>,
    pub extend_exclude: Vec<String>,
    pub respect_gitignore: bool,
    pub force_exclude: bool,
    pub files_max_size: u64,
}

impl FileResolverConfig {
    /// The defaults: tool `flowmark`, Markdown files, default excludes,
    /// `.gitignore` respected, a 1 MiB size limit.
    pub fn new_default() -> (r: Self)
        ensures
            r.tool_name@ == "flowmark"@,
            views(r.include_patterns@) == default_includes(),
            r.extend_include@.len() == 0,
            r.exclude is None,
            r.extend_exclude@.len() == 0,
            r.respect_gitignore,
            !r.force_exclude,
            r.files_max_size == 1_048_576,
    {
        FileResolverConfig {
            tool_name: "flowmark".to_owned(),
            include_patterns: default_include_patterns(),
            extend_include: Vec::new(),
            exclude: None,
            extend_exclude: Vec::new(),
            respect_gitignore: true,
            force_exclude: false,
            files_max_size: 1_048_576,
        }
    }

    /// Combined file patterns: `include_patterns` then `extend_include`.
    pub fn effective_include(&self) -> (r: Vec<String>)
        ensures
            views(r@) == views(self.include_patterns@) + views(self.extend_include@),
    {
        let mut r = copy_strings(&self.include_patterns);
        append_strings(&mut r, &self.extend_include);
        r
    }

    /// Combined exclude patterns: `exclude` (or the defaults) then
    /// `extend_exclude`.
    pub fn effective_exclude(&self) -> (r: Vec<String>)
        ensures
            views(r@) == match &self.exclude {
                Some(e) => views(e@),
                None => default_excludes(),
            } + views(self.extend_exclude@),
    {
        let mut r: Vec<String> = match &self.exclude {
            Some(e) => copy_strings(e),
            None => default_exclude_patterns(),
        };
        append_strings(&mut r, &self.extend_exclude);
        r
    }
}

/// A copy of a list of strings.
pub(crate) fn copy_strings(v: &Vec<String>) -> (r: Vec<String>)
    ensures
        views(r@) == views(v@),
{
    let mut r: Vec<String> = Vec::new();
    append_strings(&mut r, v);
    assert(views(r@) =~= views(v@));
    r
}

/// Appends copies of the strings of `extra` to `dst`.
pub(crate) fn append_strings(dst: &mut Vec<String>, extra: &Vec<String>)
    ensures
        views(final(dst)@) == views(old(dst)@) + views(extra@),
{
    let ghost base = views(dst@);
    let mut j: usize = 0;
    while j < extra.len()
        invariant
            j <= extra.len(),
            views(dst@) == base + views(extra@).take(j as int),
        decreases extra.len() - j,
    {
        let s = extra[j].clone();
        let ghost before = dst@;
        dst.push(s);
        assert(dst@ == before.push(extra@[j as int]));
        assert(views(dst@) =~= views(before).push(extra@[j as int]@));
        assert(views(dst@) =~= base + views(extra@).take(j + 1));
        j += 1;
    }
    assert(views(extra@).take(extra.len() as int) =~= views(extra@));
}

} // verus!
