use flowmark::config::{
    find_config_file, load_config_text, merge_cli_with_config, pyproject_has_flowmark_section,
    ConfigProbe, ConfigValue, FlowmarkConfig, FormatOptions, ListSpacing, config_filename,
    effective_setting_key,
};

#[test]
fn list_spacing_parses_names_ignoring_case() {
    assert_eq!(ListSpacing::parse("preserve"), Ok(ListSpacing::Preserve));
    assert_eq!(ListSpacing::parse("Loose"), Ok(ListSpacing::Loose));
    assert_eq!(ListSpacing::parse("TIGHT"), Ok(ListSpacing::Tight));
    assert_eq!(ListSpacing::parse("wide"), Err("invalid list spacing: wide".to_string()));
    assert_eq!("tight".parse::<ListSpacing>(), Ok(ListSpacing::Tight));
}

#[test]
fn list_spacing_names_round_trip() {
    for s in [ListSpacing::Preserve, ListSpacing::Loose, ListSpacing::Tight] {
        assert_eq!(ListSpacing::parse(s.as_str()), Ok(s));
    }
    assert_eq!(ListSpacing::default(), ListSpacing::Preserve);
}

#[test]
fn format_options_defaults() {
    let o = FormatOptions::default();
    assert_eq!(o.width, 88);
    assert!(!o.plaintext && !o.semantic && !o.cleanups && !o.smartquotes && !o.ellipses);
    assert_eq!(o.list_spacing, ListSpacing::Preserve);
}

#[test]
fn merge_without_config_applies_nothing() {
    assert!(merge_cli_with_config(None, false, &[]).is_empty());
}

#[test]
fn merge_respects_explicit_flags_and_auto_preset() {
    let mut c = FlowmarkConfig::default();
    c.width = Some(100);
    c.semantic = Some(true);
    c.extend_exclude = Some(vec!["drafts/".to_string()]);

    let all = merge_cli_with_config(Some(&c), false, &[]);
    let names: Vec<&str> = all.iter().map(|(n, _)| n.as_str()).collect();
    assert_eq!(names, ["width", "semantic", "extend_exclude"]);
    assert!(matches!(all[0].1, ConfigValue::Usize(100)));
    assert!(matches!(all[1].1, ConfigValue::Bool(true)));
    match &all[2].1 {
        ConfigValue::StringList(v) => assert_eq!(v, &vec!["drafts/".to_string()]),
        _ => panic!("expected a list"),
    }

    let explicit = merge_cli_with_config(Some(&c), false, &["width"]);
    let names: Vec<&str> = explicit.iter().map(|(n, _)| n.as_str()).collect();
    assert_eq!(names, ["semantic", "extend_exclude"]);

    let auto = merge_cli_with_config(Some(&c), true, &[]);
    let names: Vec<&str> = auto.iter().map(|(n, _)| n.as_str()).collect();
    assert_eq!(names, ["width", "extend_exclude"]);

    let mut spaced = FlowmarkConfig::default();
    spaced.width = Some(100);
    spaced.list_spacing = Some("loose".to_string());
    let auto = merge_cli_with_config(Some(&spaced), true, &[]);
    let names: Vec<&str> = auto.iter().map(|(n, _)| n.as_str()).collect();
    assert_eq!(names, ["width"]);
}

#[test]
fn kebab_keys_and_aliases_name_settings() {
    assert_eq!(effective_setting_key("list-spacing"), "list_spacing");
    assert_eq!(effective_setting_key("cache-dir"), "incremental_cache_dir");
    assert_eq!(effective_setting_key("cache"), "incremental");
    assert_eq!(effective_setting_key("width"), "width");
    assert_eq!(effective_setting_key("no-such-key"), "no_such_key");
}

#[test]
fn config_text_with_sections_and_unknown_keys() {
    let text = "width = 100\nbogus = 1\n\n[formatting]\nsemantic = true\nlist-spacing = \"loose\"\n\n[file-discovery]\nextend-exclude = [\"drafts/\", 3]\nfiles-max-size = 2048\n";
    let (c, unknown) = load_config_text(text, false).expect("valid toml");
    assert_eq!(c.width, Some(100));
    assert_eq!(c.semantic, Some(true));
    assert_eq!(c.list_spacing.as_deref(), Some("loose"));
    assert_eq!(c.extend_exclude, Some(vec!["drafts/".to_string()]));
    assert_eq!(c.files_max_size, Some(2048));
    assert_eq!(c.cleanups, None);
    assert_eq!(unknown, vec!["bogus".to_string()]);
}

#[test]
fn config_value_of_wrong_kind() {
    let (c, _) = load_config_text("width = \"wide\"\nsemantic = 3\n", false).expect("valid toml");
    assert_eq!(c.width, None);
    assert_eq!(c.semantic, None);
}

#[test]
fn invalid_toml_is_reported() {
    assert!(load_config_text("width = = 3", false).is_none());
}

#[test]
fn pyproject_reads_tool_flowmark_table() {
    let text = "[project]\nname = \"x\"\n\n[tool.flowmark]\nwidth = 72\n";
    assert!(pyproject_has_flowmark_section(text));
    let (c, unknown) = load_config_text(text, true).expect("valid toml");
    assert_eq!(c.width, Some(72));
    assert!(unknown.is_empty());

    let other = "[tool.black]\nline-length = 88\n";
    assert!(!pyproject_has_flowmark_section(other));
    let (c, _) = load_config_text(other, true).expect("valid toml");
    assert_eq!(c.width, None);
}

#[test]
fn nearest_directory_and_name_order_win() {
    let none = ConfigProbe { dot_flowmark: false, flowmark: false, pyproject_section: false };
    let py = ConfigProbe { dot_flowmark: false, flowmark: false, pyproject_section: true };
    let both = ConfigProbe { dot_flowmark: true, flowmark: true, pyproject_section: true };
    assert_eq!(find_config_file(&vec![none, py, both]), Some((1, 2)));
    assert_eq!(find_config_file(&vec![both, py]), Some((0, 0)));
    assert_eq!(find_config_file(&vec![none, none]), None);
    assert_eq!(config_filename(0), ".flowmark.toml");
    assert_eq!(config_filename(2), "pyproject.toml");
}
