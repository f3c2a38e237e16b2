use flowmark::settings::{
    join_path, resolve_default_cache_root, resolve_default_cache_root_with, CacheRootSource,
    APP_CACHE_DIR, FALLBACK_CACHE_DIR, TEMP_FALLBACK_CACHE_DIR,
};
use std::path::PathBuf;

#[test]
fn default_cache_root_prefers_os_cache_dir() {
    let resolution = resolve_default_cache_root_with(
        Some("/os-cache".to_string()),
        Some("/home".to_string()),
        "/tmp",
    );

    assert_eq!(resolution.source, CacheRootSource::OsCacheDir);
    assert_eq!(PathBuf::from(resolution.path), PathBuf::from("/os-cache").join(APP_CACHE_DIR));
}

#[test]
fn default_cache_root_uses_home_fallback_when_os_cache_missing() {
    let resolution =
        resolve_default_cache_root_with(None, Some("/home/user".to_string()), "/tmp");

    assert_eq!(resolution.source, CacheRootSource::HomeFallback);
    assert_eq!(
        PathBuf::from(resolution.path),
        PathBuf::from("/home/user").join(FALLBACK_CACHE_DIR).join(APP_CACHE_DIR)
    );
}

#[test]
fn default_cache_root_uses_temp_fallback_when_os_and_home_missing() {
    let resolution = resolve_default_cache_root_with(None, None, "/tmp");

    assert_eq!(resolution.source, CacheRootSource::TempFallback);
    assert_eq!(
        PathBuf::from(resolution.path),
        PathBuf::from("/tmp").join(TEMP_FALLBACK_CACHE_DIR).join(APP_CACHE_DIR)
    );
}

#[test]
fn join_path_adds_one_separator() {
    assert_eq!(join_path("/a", "b"), "/a/b");
    assert_eq!(join_path("/a/", "b"), "/a/b");
    assert_eq!(join_path("", "b"), "b");
}

#[test]
fn resolved_cache_root_ends_with_app_dir() {
    let resolution = resolve_default_cache_root("/tmp");
    assert!(resolution.path.ends_with("/flowmark") || resolution.path == "flowmark");
}
