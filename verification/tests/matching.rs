use flowmark::file_resolver::matching::{
    dir_name_excluded, exceeds_max_size, glob_entry_passes_filters, matches_any_pattern,
    matches_relative_path, name_included, parse_ignore_patterns, should_include_explicit,
    spec_matches_path,
};

fn pats(p: &[&str]) -> Vec<String> {
    p.iter().map(|s| (*s).to_string()).collect()
}

#[test]
fn directory_pattern_matches_nested_path() {
    assert!(matches_relative_path(&pats(&["docs/api/"]), "docs/api/notes.md"));
    assert!(matches_relative_path(&pats(&["docs/api/"]), "docs/api"));
}

#[test]
fn root_anchored_directory_pattern_matches_nested_path() {
    // A leading `/` anchors to the ignore-file/cwd root; for an already
    // cwd-relative path this is equivalent to the slash-stripped form.
    assert!(matches_relative_path(&pats(&["/docs/api/"]), "docs/api/notes.md"));
    assert!(matches_relative_path(&pats(&["/docs/api/"]), "docs/api"));
    assert!(matches_relative_path(&pats(&["/t.md"]), "t.md"));
}

#[test]
fn non_matching_pattern_does_not_match() {
    assert!(!matches_relative_path(&pats(&["/docs/api/"]), "docs/other/notes.md"));
    assert!(!matches_relative_path(&pats(&["docs/api/"]), "docs/apidocs/notes.md"));
}

#[test]
fn directory_patterns_only_match_directory_queries() {
    assert!(matches_any_pattern(&pats(&["build/"]), "build/"));
    assert!(!matches_any_pattern(&pats(&["build/"]), "build"));
    assert!(matches_any_pattern(&pats(&["*.md"]), "a.md"));
    assert!(matches_any_pattern(&pats(&["node_modules"]), "node_modules/"));
    assert!(!matches_any_pattern(&pats(&["[invalid"]), "[invalid"));
}

#[test]
fn explicit_paths_match_by_name_relative_path_or_parent() {
    let p = pats(&["vendor/", "CHANGELOG.md", "docs/gen/*.md"]);
    assert!(spec_matches_path(&p, Some("CHANGELOG.md"), None, &pats(&[])));
    assert!(spec_matches_path(&p, Some("x.md"), Some("docs\\gen\\x.md"), &pats(&[])));
    assert!(spec_matches_path(&p, Some("y.md"), None, &pats(&["src", "vendor"])));
    assert!(!spec_matches_path(&p, Some("y.md"), Some("src/y.md"), &pats(&["src"])));
}

#[test]
fn ignore_file_lines_are_trimmed_without_comments() {
    assert_eq!(
        parse_ignore_patterns("# comment\n  build/ \n\n*.tmp\r\n"),
        Some(pats(&["build/", "*.tmp"]))
    );
    assert_eq!(parse_ignore_patterns("# only\n\n"), None);
}

#[test]
fn explicit_files_are_filtered_only_under_force_exclude() {
    let ex = pats(&["*.gen.md"]);
    let tool = pats(&["notes.md"]);
    assert!(should_include_explicit(false, &ex, None, Some("a.gen.md"), None, &pats(&[]), false));
    assert!(!should_include_explicit(true, &ex, None, Some("a.gen.md"), None, &pats(&[]), false));
    assert!(!should_include_explicit(true, &ex, Some(&tool), Some("notes.md"), None, &pats(&[]), false));
    assert!(!should_include_explicit(false, &ex, None, Some("b.md"), None, &pats(&[]), true));
}

#[test]
fn size_limit_of_zero_means_none() {
    assert!(!exceeds_max_size(0, Some(10)));
    assert!(exceeds_max_size(5, Some(10)));
    assert!(!exceeds_max_size(5, Some(5)));
    assert!(!exceeds_max_size(5, None));
}

#[test]
fn glob_entries_pass_include_size_and_directory_filters() {
    let inc = pats(&["*.md"]);
    let exc = pats(&["node_modules/", "*.bak"]);
    assert!(name_included(&inc, "a.md"));
    assert!(dir_name_excluded(&exc, "node_modules"));
    assert!(!dir_name_excluded(&exc, "x.bak"));
    assert!(glob_entry_passes_filters(&inc, &exc, Some("a.md"), &pats(&["docs", "a.md"]), false));
    assert!(!glob_entry_passes_filters(&inc, &exc, Some("a.md"), &pats(&["node_modules", "a.md"]), false));
    assert!(!glob_entry_passes_filters(&inc, &exc, Some("a.txt"), &pats(&["a.txt"]), false));
    assert!(!glob_entry_passes_filters(&inc, &exc, None, &pats(&[]), false));
}
