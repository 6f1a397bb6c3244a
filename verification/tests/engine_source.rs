use rustforge::config::RustforgeConfig;
use rustforge::engine::{
    engine_from_packages, load_engine_spec, lock_packages, parse_engine_source, EngineSpec,
    EngineSpecError, LockPackage, SourceError,
};

const COMMIT: &str = "0123456789abcdef0123456789abcdef01234567";

fn lock_with(source: &str) -> String {
    format!("version = 4\n\n[[package]]\nname = \"enginelib\"\nversion = \"0.1.0\"\nsource = \"{source}\"\n")
}

fn loaded(lock: &str) -> Result<EngineSpec, EngineSpecError> {
    load_engine_spec(lock, &RustforgeConfig::default()).expect("the commit should be cuttable")
}

fn message_of(lock: &str) -> String {
    loaded(lock).expect_err("the lockfile should be refused").message()
}

#[test]
fn parses_git_source_with_commit() {
    let (repo, commit) = parse_engine_source(
        "git+https://github.com/voltaero/engine.git?branch=main#abcdef1234567890",
    )
    .expect("source should parse");
    assert_eq!(repo, "https://github.com/voltaero/engine.git?branch=main");
    assert_eq!(commit, "abcdef1234567890");
}

#[test]
fn rejects_non_git_source() {
    let error = parse_engine_source("registry+https://example.com")
        .expect_err("non-git source should fail");
    assert!(error
        .message()
        .contains("Only git-pinned Engine/enginelib is supported"));
}

#[test]
fn source_is_split_at_the_last_hash() {
    let (repo, commit) = parse_engine_source("git+a#b#c").expect("source should parse");
    assert_eq!(repo, "a#b");
    assert_eq!(commit, "c");
}

#[test]
fn split_source_is_put_together_again() {
    let source = "git+ssh://git@host/engine.git?rev=x#y#é123";
    let (repo, commit) = parse_engine_source(source).expect("source should parse");
    assert_eq!(format!("git+{repo}#{commit}"), source);
}

#[test]
fn non_git_source_is_told_to_be_updated() {
    for source in ["", "git", "path+file:///x", " git+x#y", "Git+x#y"] {
        let error = parse_engine_source(source).expect_err("source should be refused");
        assert!(matches!(error, SourceError::NotGit));
        assert_eq!(
            error.message(),
            "Only git-pinned Engine/enginelib is supported; update dependency to a git source."
        );
    }
}

#[test]
fn source_without_commit_is_refused() {
    let error = parse_engine_source("git+https://host/engine.git").expect_err("no commit");
    assert!(matches!(error, SourceError::MissingCommit(_)));
    assert_eq!(
        error.message(),
        "Only git-pinned Engine/enginelib is supported; missing commit in source `git+https://host/engine.git`"
    );
}

#[test]
fn source_with_an_empty_part_is_refused() {
    for source in ["git+#abc", "git+url#", "git+#", "git+a#b#"] {
        let error = parse_engine_source(source).expect_err("source should be refused");
        assert!(matches!(error, SourceError::Invalid(_)));
        assert_eq!(
            error.message(),
            format!("Only git-pinned Engine/enginelib is supported; invalid source `{source}`")
        );
    }
}

#[test]
fn lockfile_pins_the_engine() {
    let engine = loaded(&lock_with(&format!("git+https://host/engine.git?branch=main#{COMMIT}")))
        .expect("the lockfile should be read");
    assert_eq!(engine.repo_url, "https://host/engine.git?branch=main");
    assert_eq!(engine.commit, COMMIT);
    assert_eq!(engine.commit_short, "0123456789ab");
}

#[test]
fn configured_url_takes_the_place_of_the_locked_one() {
    let mut config = RustforgeConfig::default();
    config.engine.repo_url = Some("ssh://elsewhere/engine".to_owned());
    let engine = load_engine_spec(&lock_with(&format!("git+https://host/engine#{COMMIT}")), &config)
        .expect("the commit should be cuttable")
        .expect("the lockfile should be read");
    assert_eq!(engine.repo_url, "ssh://elsewhere/engine");
    assert_eq!(engine.commit, COMMIT);
    assert_eq!(engine.commit_short, "0123456789ab");
}

#[test]
fn other_packages_are_passed_over() {
    let lock = format!(
        "[[package]]\nname = \"serde\"\nsource = \"registry+x\"\n\n[[package]]\nname = 7\n\n{}",
        "[[package]]\nname = \"enginelib\"\nsource = \"git+u#abcdefabcdef\"\n"
    );
    let engine = loaded(&lock).expect("the lockfile should be read");
    assert_eq!(engine.repo_url, "u");
    assert_eq!(engine.commit, "abcdefabcdef");
    assert_eq!(engine.commit_short, "abcdefabcdef");
}

#[test]
fn lockfile_that_is_no_toml_is_refused() {
    let error = loaded("= nothing").expect_err("no TOML");
    assert!(matches!(error, EngineSpecError::InvalidLock(_)));
    let expected = toml::from_str::<toml::Value>("= nothing").expect_err("no TOML").to_string();
    assert_eq!(error.message(), format!("failed to parse Cargo.lock as TOML: {expected}"));
}

#[test]
fn lockfile_without_packages_is_refused() {
    for lock in ["", "package = 1", "package = \"x\"", "[package]\nname = \"enginelib\"\n"] {
        assert_eq!(message_of(lock), "Cargo.lock does not contain a `package` array");
    }
}

#[test]
fn lockfile_without_the_engine_is_refused() {
    for lock in ["package = []", "[[package]]\nname = \"serde\"\n", "package = [1, \"enginelib\"]"] {
        assert_eq!(
            message_of(lock),
            "`enginelib` not found in Cargo.lock; is this a mod project lockfile?"
        );
    }
}

#[test]
fn two_engines_are_refused() {
    let lock = "[[package]]\nname = \"enginelib\"\n\n[[package]]\nname = \"enginelib\"\n";
    assert_eq!(
        message_of(lock),
        "multiple `enginelib` entries found in Cargo.lock; add configuration to disambiguate before continuing"
    );
}

#[test]
fn engine_without_source_is_refused() {
    for lock in ["[[package]]\nname = \"enginelib\"\n", "[[package]]\nname = \"enginelib\"\nsource = 3\n"] {
        assert_eq!(
            message_of(lock),
            "`enginelib` entry in Cargo.lock is missing a `source` field"
        );
    }
}

#[test]
fn engine_from_a_registry_is_refused() {
    assert_eq!(
        message_of(&lock_with("registry+https://github.com/rust-lang/crates.io-index")),
        "Only git-pinned Engine/enginelib is supported; update dependency to a git source."
    );
}

#[test]
fn short_commit_is_refused() {
    assert_eq!(
        message_of(&lock_with("git+https://host/engine.git#abcdef12345")),
        "engine commit `abcdef12345` is too short; expected full git SHA"
    );
}

#[test]
fn commit_length_is_counted_in_bytes() {
    let engine = loaded(&lock_with("git+u#éééééé")).expect("twelve bytes are enough");
    assert_eq!(engine.commit_short, "éééééé");
    assert_eq!(message_of(&lock_with("git+u#ééééé")), "engine commit `ééééé` is too short; expected full git SHA");
}

#[test]
fn commit_that_cannot_be_cut_gives_nothing() {
    let lock = lock_with("git+u#abcdefabcdeé");
    assert!(load_engine_spec(&lock, &RustforgeConfig::default()).is_none());
}

#[test]
fn packages_are_read_in_order() {
    let lock = "[[package]]\nname = \"a\"\nsource = \"s\"\n[[package]]\nname = \"b\"\n";
    let packages = lock_packages(lock).expect("the lockfile should be read");
    assert_eq!(packages.len(), 2);
    assert_eq!(packages[0].name.as_deref(), Some("a"));
    assert_eq!(packages[0].source.as_deref(), Some("s"));
    assert_eq!(packages[1].name.as_deref(), Some("b"));
    assert_eq!(packages[1].source.as_deref(), None);
}

#[test]
fn packages_alone_make_up_the_engine() {
    let packages = vec![LockPackage {
        name: Some("enginelib".to_owned()),
        source: Some("git+url#abcdefabcdef99".to_owned()),
    }];
    let engine = engine_from_packages(&packages, &RustforgeConfig::default())
        .expect("the package should be found");
    assert_eq!(engine.repo_url, "url");
    assert_eq!(engine.commit_short, "abcdefabcdef");
}
