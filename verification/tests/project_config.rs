use rustforge::config::{
    config_place, fallback_path, load_config, prefer_config, resolve_configured_path, ConfigPlace,
    ConfigSection, RustforgeConfig,
};
use rustforge::host::Host;

#[test]
fn resolves_sha_placeholder_in_paths() {
    let root = "/tmp/project";
    let resolved = resolve_configured_path(
        Host::Unix,
        root,
        Some(".rustforge/engine/worktrees/<sha>"),
        ".rustforge/engine/worktrees/default",
        "abc123",
    );
    assert_eq!(resolved, "/tmp/project/.rustforge/engine/worktrees/abc123");
}

#[test]
fn parses_top_level_manifest_metadata() {
    let found = load_config(
        r#"
            [metadata.rustforge]
            mod_id = "demo"

            [metadata.rustforge.engine]
            bin = "server"
            "#,
    )
    .expect("manifest should parse")
    .expect("config should be found");
    assert_eq!(found.section, ConfigSection::Metadata);
    assert_eq!(found.table["mod_id"].as_str(), Some("demo"));
    assert_eq!(found.table["engine"]["bin"].as_str(), Some("server"));
}

#[test]
fn package_metadata_comes_first() {
    let manifest = "[package.metadata.rustforge]\nmod_id = \"a\"\n[metadata.rustforge]\nmod_id = \"b\"\n";
    let found = load_config(manifest)
        .expect("manifest should parse")
        .expect("config should be found");
    assert_eq!(found.section, ConfigSection::PackageMetadata);
    assert_eq!(found.table["mod_id"].as_str(), Some("a"));
    assert_eq!(found.table.as_table().map(|table| table.len()), Some(1));
}

#[test]
fn what_is_found_need_not_be_a_table() {
    let found = load_config("[package]\nmetadata = { rustforge = 3 }\n")
        .expect("manifest should parse")
        .expect("config should be found");
    assert_eq!(found.table.as_integer(), Some(3));
}

#[test]
fn manifest_without_configuration_holds_none() {
    for manifest in ["", "[package]\nname = \"x\"\n", "package = 1", "metadata = [\"rustforge\"]", "[metadata.other]"] {
        assert!(load_config(manifest).expect("manifest should parse").is_none());
    }
}

#[test]
fn manifest_that_is_no_toml_is_refused() {
    let message = load_config("[package").err().expect("no TOML");
    let expected = toml::from_str::<toml::Value>("[package").expect_err("no TOML").to_string();
    assert_eq!(message, expected);
}

#[test]
fn preference_is_for_the_first_place() {
    assert_eq!(prefer_config(Some(1), Some(2)), Some((ConfigSection::PackageMetadata, 1)));
    assert_eq!(prefer_config(None, Some(2)), Some((ConfigSection::Metadata, 2)));
    assert_eq!(prefer_config(Some(1), None), Some((ConfigSection::PackageMetadata, 1)));
    assert_eq!(prefer_config::<u8>(None, None), None);
}

#[test]
fn file_is_read_only_without_a_table_in_the_manifest() {
    let found = load_config("[metadata.rustforge]\nmod_id = \"b\"\n").expect("manifest should parse");
    assert!(matches!(config_place(Host::Unix, found, "/p", true), ConfigPlace::Manifest(_)));
    match config_place(Host::Unix, None, "/p", true) {
        ConfigPlace::File(path) => assert_eq!(path, "/p/rustforge.toml"),
        _ => panic!("the file should be read"),
    }
    assert!(matches!(config_place(Host::Unix, None, "/p", false), ConfigPlace::Nowhere));
    assert_eq!(fallback_path(Host::Unix, "/p/"), "/p/rustforge.toml");
}

#[test]
fn unreadable_tables_are_named() {
    assert_eq!(
        ConfigSection::PackageMetadata.parse_failure(),
        "failed to parse [package.metadata.rustforge]"
    );
    assert_eq!(ConfigSection::Metadata.parse_failure(), "failed to parse [metadata.rustforge]");
}

#[test]
fn nothing_is_configured_by_default() {
    let config = RustforgeConfig::default();
    assert!(config.mod_id.is_none());
    assert!(config.engine.repo_url.is_none());
    assert!(config.engine.bin.is_none());
    assert!(config.engine.features.is_empty());
    assert!(config.paths.engine_root.is_none());
    assert!(config.paths.out_dir.is_none());
}

#[test]
fn default_path_is_taken_where_none_is_configured() {
    assert_eq!(resolve_configured_path(Host::Unix, "/p", None, "out/<sha>", "abcd"), "/p/out/abcd");
}

#[test]
fn absolute_path_is_taken_as_configured() {
    assert_eq!(resolve_configured_path(Host::Unix, "/p", Some("/e/<sha>/x"), "out", "abcd"), "/e/abcd/x");
    assert_eq!(resolve_configured_path(Host::Unix, "/q", Some("/e/<sha>/x"), "out", "abcd"), "/e/abcd/x");
    assert_eq!(resolve_configured_path(Host::Unix, "/p", Some("<sha>"), "out", "/abs"), "/abs");
}

#[test]
fn every_placeholder_is_filled() {
    assert_eq!(
        resolve_configured_path(Host::Unix, "/p", Some("<sha>/<sha>/<<sha>>/<sh"), "out", "abcd"),
        "/p/abcd/abcd/<abcd>/<sh"
    );
    assert_eq!(resolve_configured_path(Host::Unix, "/p", Some("<sh<sha>a>"), "out", "abcd"), "/p/<shabcda>");
}

#[test]
fn text_without_placeholder_is_kept() {
    assert_eq!(resolve_configured_path(Host::Unix, "/p", Some("a/<SHA>/é"), "out", "abcd"), "/p/a/<SHA>/é");
}

#[test]
fn absolute_windows_path_is_taken_as_configured() {
    let resolved = |configured: &str| {
        resolve_configured_path(Host::Windows, "C:/proj", Some(configured), "out", "abcd")
    };
    assert_eq!(resolved("D:/out"), "D:/out");
    assert_eq!(resolved("D:\\out\\<sha>"), "D:\\out\\abcd");
    assert_eq!(resolved("\\\\server\\share\\<sha>"), "\\\\server\\share\\abcd");
    assert_eq!(resolved("/out"), "C:/out");
    assert_eq!(resolved("build/<sha>"), "C:/proj\\build/abcd");
    assert_eq!(fallback_path(Host::Windows, "C:\\proj"), "C:\\proj\\rustforge.toml");
}
