use flowmark::incremental_cache::{
    hash_hex, hash_text, manifest_file_name, parse_hash_hex, IncrementalCache, ManifestData,
};

fn manifest_text(data: &ManifestData) -> String {
    let mut table = toml::map::Map::new();
    table.insert("version".to_string(), toml::Value::Integer(1));
    table.insert("fingerprint".to_string(), toml::Value::String(data.fingerprint.clone()));
    table.insert(
        "hashes".to_string(),
        toml::Value::Array(data.hashes.iter().cloned().map(toml::Value::String).collect()),
    );
    toml::to_string(&toml::Value::Table(table)).expect("serializable manifest")
}

#[test]
fn hex_hashes_are_sixteen_lowercase_digits() {
    assert_eq!(hash_hex(255), "00000000000000ff");
    assert_eq!(hash_hex(u64::MAX), "ffffffffffffffff");
    assert_eq!(hash_hex(0x0123_4567_89ab_cdef), "0123456789abcdef");
    assert_eq!(manifest_file_name(42), "000000000000002a.toml");
}

#[test]
fn hex_parsing_follows_from_str_radix() {
    assert_eq!(parse_hash_hex("00000000000000ff"), Some(255));
    assert_eq!(parse_hash_hex("FF"), Some(255));
    assert_eq!(parse_hash_hex("+10"), Some(16));
    assert_eq!(parse_hash_hex(""), None);
    assert_eq!(parse_hash_hex("+"), None);
    assert_eq!(parse_hash_hex("-1"), None);
    assert_eq!(parse_hash_hex("xyz"), None);
    assert_eq!(parse_hash_hex("ffffffffffffffff"), Some(u64::MAX));
    assert_eq!(parse_hash_hex("10000000000000000"), None);
    for h in [0u64, 1, 42, 0xdead_beef, u64::MAX] {
        assert_eq!(parse_hash_hex(&hash_hex(h)), Some(h));
    }
}

#[test]
fn manifest_hashes_are_known_for_the_same_fingerprint() {
    let text = "version = 1\nfingerprint = \"000000000000002a\"\nhashes = [\"00000000000000ff\", \"zz\", \"+10\"]\n";
    let mut cache = IncrementalCache::open_with_manifest("m.toml".to_string(), 42, Some(text));
    assert!(cache.is_known_hash(255));
    assert!(cache.is_known_hash(16));
    assert!(!cache.is_known_hash(3));

    let mut other = IncrementalCache::open_with_manifest("m.toml".to_string(), 43, Some(text));
    assert!(!other.is_known_hash(255));
}

#[test]
fn invalid_manifests_are_ignored() {
    for text in [
        "{ definitely = not_toml",
        "version = 2\nfingerprint = \"2a\"\nhashes = [\"ff\"]\n",
        "version = 1\nfingerprint = \"zz\"\nhashes = [\"ff\"]\n",
        "version = 1\nfingerprint = \"2a\"\n",
    ] {
        let mut cache = IncrementalCache::open_with_manifest("m.toml".to_string(), 42, Some(text));
        assert!(!cache.is_known_hash(255));
    }
    let mut empty = IncrementalCache::open_with_manifest("m.toml".to_string(), 42, None);
    assert!(!empty.is_known_hash(255));
}

#[test]
fn flush_lists_known_and_recorded_hashes_in_order() {
    let text = "version = 1\nfingerprint = \"2a\"\nhashes = [\"ff\", \"01\"]\n";
    let mut cache = IncrementalCache::open_with_manifest("m.toml".to_string(), 42, Some(text));
    cache.record_hash(16);
    cache.record_hash(255);
    let data = cache.flush();
    assert_eq!(data.fingerprint, "000000000000002a");
    assert_eq!(data.hashes, vec!["0000000000000001", "0000000000000010", "00000000000000ff"]);
    assert_eq!(cache.manifest_path(), "m.toml");
}

#[test]
fn recorded_content_is_known_after_reopening() {
    let mut cache = IncrementalCache::open_with_manifest("m.toml".to_string(), 7, None);
    assert!(!cache.is_known_formatted("a.md", b"# Hello\n"));
    cache.record_formatted("a.md", b"# Hello\n");
    let text = manifest_text(&cache.flush());

    let mut reopened = IncrementalCache::open_with_manifest("m.toml".to_string(), 7, Some(&text));
    assert!(reopened.is_known_formatted("a.md", b"# Hello\n"));
    assert!(!reopened.is_known_formatted("a.md", b"# Other\n"));

    let mut changed = IncrementalCache::open_with_manifest("m.toml".to_string(), 8, Some(&text));
    assert!(!changed.is_known_formatted("a.md", b"# Hello\n"));
}

#[test]
fn hits_are_kept_for_the_next_manifest() {
    let text = "version = 1\nfingerprint = \"07\"\nhashes = [\"05\"]\n";
    let mut cache = IncrementalCache::open_with_manifest("m.toml".to_string(), 7, Some(text));
    assert!(cache.is_known_hash(5));
    let data = cache.flush();
    assert_eq!(data.hashes, vec!["0000000000000005"]);
}

fn manifest_for(project: &str) -> String {
    manifest_file_name(hash_text(project))
}

#[test]
fn cache_round_trip_restores_known_hashes() {
    let fingerprint = 42_u64;
    let path = manifest_for("/tmp/project");
    let mut cache = IncrementalCache::open_with_manifest(path.clone(), fingerprint, None);
    cache.record_formatted("a.md", b"# Hello\n");
    let text = manifest_text(&cache.flush());

    let mut reopened = IncrementalCache::open_with_manifest(path, fingerprint, Some(&text));
    assert!(reopened.is_known_formatted("a.md", b"# Hello\n"));
}

#[test]
fn cache_invalidates_when_fingerprint_changes() {
    let path = manifest_for("/tmp/project");
    let mut cache = IncrementalCache::open_with_manifest(path.clone(), 100, None);
    cache.record_formatted("a.md", b"# Hello\n");
    let text = manifest_text(&cache.flush());

    let mut reopened = IncrementalCache::open_with_manifest(path, 200, Some(&text));
    assert!(!reopened.is_known_formatted("a.md", b"# Hello\n"));
}

#[test]
fn cache_ignores_corrupt_manifest_and_recovers() {
    let fingerprint = 300_u64;
    let path = manifest_for("/tmp/project");
    let mut reopened =
        IncrementalCache::open_with_manifest(path.clone(), fingerprint, Some("{ definitely = not_toml"));
    assert!(!reopened.is_known_formatted("a.md", b"# Hello\n"));

    reopened.record_formatted("a.md", b"# Hello\n");
    let text = manifest_text(&reopened.flush());

    let mut reloaded = IncrementalCache::open_with_manifest(path, fingerprint, Some(&text));
    assert!(reloaded.is_known_formatted("a.md", b"# Hello\n"));
}

#[test]
fn cache_is_project_scoped() {
    let fingerprint = 7_u64;
    let path_one = manifest_for("/tmp/project-one");
    let path_two = manifest_for("/tmp/project-two");
    assert_ne!(path_one, path_two);

    let mut cache_one = IncrementalCache::open_with_manifest(path_one, fingerprint, None);
    cache_one.record_formatted("a.md", b"# Hello\n");
    let _written = manifest_text(&cache_one.flush());

    // Project two has no manifest of its own yet.
    let mut cache_two = IncrementalCache::open_with_manifest(path_two, fingerprint, None);
    assert!(!cache_two.is_known_formatted("a.md", b"# Hello\n"));
}

#[test]
fn text_hash_is_the_hash_of_its_bytes() {
    assert_eq!(hash_text("abc"), hash_text("abc"));
    assert_ne!(hash_text("abc"), hash_text("abd"));
}
