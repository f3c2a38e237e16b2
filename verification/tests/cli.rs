use flowmark::cli::{
    apply_config_field, detect_explicit_flags, format_hit_rate_percent_tenths, format_ns_as_ms,
    load_incremental_config_overrides, needs_file_resolution, CliSettings,
};
use flowmark::config::{ConfigValue, ListSpacing};

fn settings() -> CliSettings {
    CliSettings {
        width: 88,
        semantic: false,
        cleanups: false,
        smartquotes: false,
        ellipses: false,
        list_spacing: ListSpacing::Preserve,
        extend_include: Vec::new(),
        exclude: None,
        extend_exclude: Vec::new(),
        force_exclude: false,
        files_max_size: 1024,
    }
}

#[test]
fn milliseconds_have_three_decimals() {
    assert_eq!(format_ns_as_ms(1_234_567), "1.234");
    assert_eq!(format_ns_as_ms(5_000), "0.005");
    assert_eq!(format_ns_as_ms(0), "0.000");
    assert_eq!(format_ns_as_ms(12_000_000_000), "12000.000");
}

#[test]
fn hit_rate_rounds_to_tenths() {
    assert_eq!(format_hit_rate_percent_tenths(0, 0), "0.0");
    assert_eq!(format_hit_rate_percent_tenths(1, 3), "33.3");
    assert_eq!(format_hit_rate_percent_tenths(2, 3), "66.7");
    assert_eq!(format_hit_rate_percent_tenths(1, 1), "100.0");
    assert_eq!(format_hit_rate_percent_tenths(1, 8), "12.5");
}

#[test]
fn explicit_flags_follow_the_tracked_order() {
    assert_eq!(
        detect_explicit_flags(&["no_respect_gitignore", "width", "verbose", "no_incremental"]),
        vec!["width", "respect_gitignore", "incremental"]
    );
    assert!(detect_explicit_flags(&[]).is_empty());
}

#[test]
fn resolution_is_needed_for_directories_and_globs() {
    let files = vec!["a.md".to_string(), "-".to_string()];
    assert!(!needs_file_resolution(&files, &vec![false, true]));
    assert!(needs_file_resolution(&vec!["docs/*.md".to_string()], &vec![false]));
    assert!(needs_file_resolution(&vec!["docs".to_string()], &vec![true]));
}

#[test]
fn config_values_of_the_right_type_apply() {
    let mut s = settings();
    let mut respect = true;
    apply_config_field(&mut s, &mut respect, "width", &ConfigValue::Usize(100));
    apply_config_field(&mut s, &mut respect, "semantic", &ConfigValue::Usize(1));
    apply_config_field(&mut s, &mut respect, "list_spacing", &ConfigValue::Text("LOOSE".to_string()));
    apply_config_field(&mut s, &mut respect, "respect_gitignore", &ConfigValue::Bool(false));
    apply_config_field(&mut s, &mut respect, "exclude", &ConfigValue::StringList(vec!["a".to_string()]));
    apply_config_field(&mut s, &mut respect, "files_max_size", &ConfigValue::U64(7));
    apply_config_field(&mut s, &mut respect, "incremental", &ConfigValue::Bool(false));
    assert_eq!(s.width, 100);
    assert!(!s.semantic);
    assert_eq!(s.list_spacing, ListSpacing::Loose);
    assert!(!respect);
    assert_eq!(s.exclude, Some(vec!["a".to_string()]));
    assert_eq!(s.files_max_size, 7);
}

#[test]
fn incremental_overrides_come_from_any_section() {
    let o = load_incremental_config_overrides("cache = false\n[x]\ncache-dir = \"/tmp/c\"\n", false);
    assert_eq!(o.incremental, Some(false));
    assert_eq!(o.incremental_cache_dir, Some("/tmp/c".to_string()));
    let p = load_incremental_config_overrides("[tool.flowmark]\nincremental = true\n", true);
    assert_eq!(p.incremental, Some(true));
    let q = load_incremental_config_overrides("incremental = true\n", true);
    assert_eq!(q.incremental, None);
    let bad = load_incremental_config_overrides("{ nope", false);
    assert_eq!(bad.incremental, None);
    let not_bool = load_incremental_config_overrides("incremental = 3\n", false);
    assert_eq!(not_bool.incremental, None);
}
