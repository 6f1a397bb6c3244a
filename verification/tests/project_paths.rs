use rustforge::config::RustforgeConfig;
use rustforge::dev::{dev, engine_build_work, package_jobs, package_mod, Course, Work};
use rustforge::engine::EngineSpec;
use rustforge::host::Host;
use rustforge::packaging::{
    build_engine, build_mod, engine_build_failure, engine_built, install_test_artifact,
    locate_mod_artifact, package_existing_build, package_mod_targets, PackageError,
};
use rustforge::platform::{infer_platform, PlatformKind};
use rustforge::project::{
    exists_or_missing, status, App, BuildTarget, CrateType, LoadError, PackageInfo,
};

const COMMIT: &str = "0123456789abcdef0123456789abcdef01234567";
const LOCK: &str = "[[package]]\nname = \"enginelib\"\nsource = \"git+https://host/engine.git#0123456789abcdef0123456789abcdef01234567\"\n";

fn package() -> PackageInfo {
    PackageInfo {
        name: "demo-mod".to_owned(),
        version: "1.2.3".to_owned(),
        targets: vec![
            BuildTarget { name: "helper".to_owned(), crate_types: vec![CrateType::Other] },
            BuildTarget {
                name: "demo-mod-lib".to_owned(),
                crate_types: vec![CrateType::Other, CrateType::CDyLib],
            },
            BuildTarget { name: "second".to_owned(), crate_types: vec![CrateType::CDyLib] },
        ],
    }
}

fn project() -> App {
    App {
        host: Host::Unix,
        project_root: "/p".to_owned(),
        manifest_path: "/p/Cargo.toml".to_owned(),
        target_directory: "/t".to_owned(),
        package: package(),
        config: RustforgeConfig::default(),
        engine: EngineSpec {
            repo_url: "https://host/engine.git".to_owned(),
            commit: COMMIT.to_owned(),
            commit_short: "0123456789ab".to_owned(),
        },
    }
}

#[test]
fn project_is_put_together() {
    let app = App::load_from(Host::Unix, "/p", "/t".to_owned(), Some(package()), RustforgeConfig::default(), Some(LOCK))
        .expect("the commit should be cuttable")
        .expect("the project should load");
    assert_eq!(app.project_root, "/p");
    assert_eq!(app.manifest_path, "/p/Cargo.toml");
    assert_eq!(app.target_directory, "/t");
    assert_eq!(app.package.name, "demo-mod");
    assert_eq!(app.engine.commit, COMMIT);
    assert_eq!(app.engine.repo_url, "https://host/engine.git");
}

#[test]
fn project_without_package_is_refused_first() {
    let error = App::load_from(Host::Unix, "/p", "/t".to_owned(), None, RustforgeConfig::default(), None)
        .expect("an error")
        .expect_err("no package");
    assert_eq!(error.message(), "no root package found for current Cargo project");
}

#[test]
fn project_without_lockfile_is_refused() {
    let error = App::load_from(Host::Unix, "/p", "/t".to_owned(), Some(package()), RustforgeConfig::default(), None)
        .expect("an error")
        .expect_err("no lockfile");
    assert_eq!(
        error.message(),
        "Cargo.lock not found at /p/Cargo.lock; run `cargo generate-lockfile` or `cargo build` first"
    );
}

#[test]
fn project_without_engine_is_refused() {
    let error = App::load_from(Host::Unix, "/p", "/t".to_owned(), Some(package()), RustforgeConfig::default(), Some(""))
        .expect("an error")
        .expect_err("no engine");
    assert_eq!(error.message(), "Cargo.lock does not contain a `package` array");
}

#[test]
fn project_with_an_odd_commit_is_not_loaded() {
    let lock = "[[package]]\nname = \"enginelib\"\nsource = \"git+u#abcdefabcdeé\"\n";
    let loaded = App::load_from(Host::Unix, "/p", "/t".to_owned(), Some(package()), RustforgeConfig::default(), Some(lock));
    assert!(loaded.is_none());
}

#[test]
fn missing_manifest_is_told() {
    assert_eq!(
        LoadError::NoManifest("/p".to_owned()).message(),
        "Cargo.toml not found in /p; run rustforge from the mod project root"
    );
}

#[test]
fn project_needs_a_manifest() {
    assert_eq!(App::require_manifest(Host::Unix, "/p", true).expect("it is there"), "/p/Cargo.toml");
    let error = App::require_manifest(Host::Unix, "/p", false).expect_err("it is missing");
    assert_eq!(
        error.message(),
        "Cargo.toml not found in /p; run rustforge from the mod project root"
    );
}

#[test]
fn mod_goes_by_the_configured_name() {
    let mut app = project();
    assert_eq!(app.mod_id(), "demo-mod");
    app.config.mod_id = Some("demo".to_owned());
    assert_eq!(app.mod_id(), "demo");
}

#[test]
fn engine_is_kept_below_the_project() {
    let app = project();
    assert_eq!(app.engine_mirror_dir(), "/p/.rustforge/engine/mirror.git");
    assert_eq!(app.engine_worktree_dir(), format!("/p/.rustforge/engine/worktrees/{COMMIT}"));
    assert_eq!(app.out_dir(), "/p/.rustforge/out");
    assert_eq!(app.dist_dir(), "/p/dist");
    assert_eq!(app.engine_bin(), "server");
}

#[test]
fn configured_places_are_used() {
    let mut app = project();
    app.config.paths.engine_root = Some("/engines/<sha>".to_owned());
    app.config.paths.out_dir = Some("build/<sha>".to_owned());
    app.config.engine.bin = Some("client".to_owned());
    assert_eq!(app.engine_worktree_dir(), format!("/engines/{COMMIT}"));
    assert_eq!(app.out_dir(), format!("/p/build/{COMMIT}"));
    assert_eq!(app.engine_bin(), "client");
}

#[test]
fn packages_are_put_where_the_status_says() {
    let app = project();
    assert_eq!(app.test_artifact_path(), "/p/.rustforge/out/demo-mod.rf");
    assert_eq!(app.final_artifact_path(), "/p/dist/demo-mod-1.2.3-engine-0123456789ab.rf");
    for target in [None, Some("x86_64-pc-windows-msvc")] {
        assert_eq!(app.artifact_path_for(false, target, false), app.test_artifact_path());
        assert_eq!(app.artifact_path_for(true, target, false), app.final_artifact_path());
    }
}

#[test]
fn package_without_version_names_none() {
    let mut app = project();
    app.package.version = String::new();
    assert_eq!(app.final_artifact_path(), "/p/dist/demo-mod-engine-0123456789ab.rf");
    assert_eq!(app.artifact_path_for(true, None, true), "/p/dist/demo-mod-engine-0123456789ab.rf");
}

#[test]
fn each_target_has_its_own_package() {
    let app = project();
    assert_eq!(
        app.artifact_path_for(true, Some("a"), true),
        "/p/dist/demo-mod-1.2.3-a-engine-0123456789ab.rf"
    );
    assert_eq!(app.artifact_path_for(false, Some("a"), true), "/p/.rustforge/out/demo-mod-a.rf");
    assert_ne!(app.artifact_path_for(false, Some("a"), true), app.artifact_path_for(false, Some("b"), true));
}

#[test]
fn first_library_is_the_mod() {
    let app = project();
    assert_eq!(app.mod_cdylib_target_name().expect("there is one"), "demo_mod_lib");
}

#[test]
fn package_without_library_is_refused() {
    let mut app = project();
    app.package.targets = vec![BuildTarget { name: "x".to_owned(), crate_types: vec![CrateType::Other] }];
    let error = app.mod_cdylib_target_name().expect_err("there is none");
    assert_eq!(error.message(), "no cdylib target found in /p/Cargo.toml");
    let error = package_existing_build(&app, false, None, false, "linux", true).expect_err("there is none");
    assert!(matches!(error, PackageError::NoCdylib(_)));
}

#[test]
fn sync_works_on_the_project() {
    let target = project().sync_target();
    assert_eq!(target.project_root, "/p");
    assert_eq!(target.mirror_dir, "/p/.rustforge/engine/mirror.git");
    assert_eq!(target.worktree_dir, format!("/p/.rustforge/engine/worktrees/{COMMIT}"));
    assert_eq!(target.repo_url, "https://host/engine.git");
    assert_eq!(target.commit, COMMIT);
}

#[test]
fn missing_paths_are_marked() {
    assert_eq!(exists_or_missing("/a", true), "/a");
    assert_eq!(exists_or_missing("/a", false), "missing (/a)");
}

#[test]
fn status_is_told_line_by_line() {
    assert_eq!(
        status(&project(), true, false),
        vec![
            "Project: /p".to_owned(),
            "Engine repo: https://host/engine.git".to_owned(),
            format!("Engine commit: {COMMIT}"),
            "Mirror: /p/.rustforge/engine/mirror.git".to_owned(),
            format!("Worktree: missing (/p/.rustforge/engine/worktrees/{COMMIT})"),
            "Test artifact: /p/.rustforge/out/demo-mod.rf".to_owned(),
            "Final artifact: /p/dist/demo-mod-1.2.3-engine-0123456789ab.rf".to_owned(),
        ]
    );
}

#[test]
fn platforms_are_told_from_triples() {
    assert_eq!(infer_platform(Some("x86_64-pc-windows-msvc"), "linux"), PlatformKind::Windows);
    assert_eq!(infer_platform(Some("aarch64-apple-darwin"), "linux"), PlatformKind::MacOs);
    assert_eq!(infer_platform(Some("darwin"), "linux"), PlatformKind::MacOs);
    assert_eq!(infer_platform(Some("darwin-windows"), "linux"), PlatformKind::Windows);
    assert_eq!(infer_platform(Some("x86_64-unknown-linux-gnu"), "windows"), PlatformKind::Unix);
    assert_eq!(infer_platform(Some(""), "windows"), PlatformKind::Unix);
}

#[test]
fn platform_of_the_host_is_used_without_target() {
    assert_eq!(infer_platform(None, "windows"), PlatformKind::Windows);
    assert_eq!(infer_platform(None, "macos"), PlatformKind::MacOs);
    assert_eq!(infer_platform(None, "linux"), PlatformKind::Unix);
    assert_eq!(infer_platform(None, "freebsd"), PlatformKind::Unix);
}

#[test]
fn engine_is_built_in_its_checkout() {
    let mut app = project();
    let command = build_engine(&app, false, "server");
    assert_eq!(command.shown(), "cargo build -p engine --bin server");
    assert_eq!(command.dir, app.engine_worktree_dir());
    app.config.engine.features = vec!["a".to_owned(), "b".to_owned()];
    assert_eq!(
        build_engine(&app, true, "client").args,
        vec!["build", "-p", "engine", "--bin", "client", "--release", "--features", "a,b"]
    );
    assert_eq!(engine_build_failure("client"), "failed to build Engine binary `client`");
    assert_eq!(
        engine_built(&app, "client"),
        format!("Built Engine binary `client` in /p/.rustforge/engine/worktrees/{COMMIT}")
    );
}

#[test]
fn mod_is_built_in_its_project() {
    let app = project();
    let command = build_mod(&app, false, None);
    assert_eq!(command.program, "cargo");
    assert_eq!(command.args, vec!["build"]);
    assert_eq!(command.dir, "/p");
    assert_eq!(build_mod(&app, true, Some("t")).args, vec!["build", "--release", "--target", "t"]);
}

#[test]
fn library_is_where_the_build_puts_it() {
    let app = project();
    let located = |release: bool, target: Option<&str>, os: &str| {
        locate_mod_artifact(&app, release, target, os).expect("there is a library")
    };
    assert_eq!(located(false, None, "linux"), "/t/debug/libdemo_mod_lib.so");
    assert_eq!(located(true, None, "macos"), "/t/release/libdemo_mod_lib.dylib");
    assert_eq!(located(false, None, "windows"), "/t/debug/demo_mod_lib.dll");
    assert_eq!(
        located(true, Some("x86_64-pc-windows-msvc"), "linux"),
        "/t/x86_64-pc-windows-msvc/release/demo_mod_lib.dll"
    );
}

#[test]
fn package_is_planned() {
    let app = project();
    let plan = package_existing_build(&app, true, Some("x86_64-apple-darwin"), true, "linux", true)
        .expect("the mod was built");
    assert_eq!(plan.source, "/t/x86_64-apple-darwin/release/libdemo_mod_lib.dylib");
    assert_eq!(plan.staged_name, "mod.so");
    assert_eq!(plan.output_path, "/p/dist/demo-mod-1.2.3-x86_64-apple-darwin-engine-0123456789ab.rf");
    assert_eq!(plan.directory, "/p/dist");
    assert_eq!(plan.staged_path("/p/dist/.tmp"), "/p/dist/.tmp/mod.so");
    assert_eq!(plan.directory_failure(), "failed to create /p/dist");
    assert_eq!(
        plan.stage_failure("/s"),
        "failed to stage built library from /t/x86_64-apple-darwin/release/libdemo_mod_lib.dylib to /s/mod.so"
    );
    assert_eq!(plan.archive_failure(), format!("failed to create archive {}", plan.output_path));
    assert_eq!(plan.entry_failure(), "failed to add `mod.so` to archive");
    assert_eq!(plan.packaged(), format!("Packaged {}", plan.output_path));
    let windows = package_existing_build(&app, false, None, false, "windows", true).expect("the mod was built");
    assert_eq!(windows.staged_name, "mod.dll");
    assert_eq!(windows.output_path, "/p/.rustforge/out/demo-mod.rf");
}

#[test]
fn mod_that_was_not_built_is_refused() {
    let error = package_existing_build(&project(), false, None, false, "linux", false).expect_err("not built");
    assert_eq!(
        error.message(),
        "built mod artifact not found at /t/debug/libdemo_mod_lib.so; verify the package defines a cdylib target"
    );
}

#[test]
fn output_path_is_named_where_it_is_invalid() {
    assert_eq!(
        PackageError::InvalidOutput("/".to_owned()).message(),
        "invalid artifact output path /"
    );
}

#[test]
fn one_target_makes_one_package() {
    for target in [None, Some("t")] {
        let jobs = package_mod_targets(target, false).expect("one package");
        assert_eq!(jobs.len(), 1);
        assert_eq!(jobs[0].target.as_deref(), target);
        assert!(!jobs[0].include_target);
    }
}

#[test]
fn all_platforms_make_three_packages() {
    let jobs = package_mod_targets(None, true).expect("three packages");
    let targets: Vec<Option<&str>> = jobs.iter().map(|job| job.target.as_deref()).collect();
    assert_eq!(
        targets,
        vec![
            Some("x86_64-unknown-linux-gnu"),
            Some("x86_64-apple-darwin"),
            Some("x86_64-pc-windows-msvc"),
        ]
    );
    assert!(jobs.iter().all(|job| job.include_target));
    let platforms: Vec<PlatformKind> = targets.iter().map(|target| infer_platform(*target, "linux")).collect();
    assert_eq!(platforms, vec![PlatformKind::Unix, PlatformKind::MacOs, PlatformKind::Windows]);
    let app = project();
    let mut outputs: Vec<String> = targets.iter().map(|target| app.artifact_path_for(true, *target, true)).collect();
    outputs.sort();
    outputs.dedup();
    assert_eq!(outputs.len(), 3);
}

#[test]
fn all_platforms_exclude_a_target() {
    let error = package_mod_targets(Some("t"), true).expect_err("both were asked for");
    assert_eq!(error.message(), "cannot combine `--all-platforms` with `--target`");
}

#[test]
fn package_is_installed_into_the_engine() {
    let app = project();
    let plan = install_test_artifact(&app, "/p/x.rf");
    assert_eq!(plan.artifact, "/p/x.rf");
    assert_eq!(plan.mods_dir, format!("/p/.rustforge/engine/worktrees/{COMMIT}/mods"));
    assert_eq!(plan.destination, format!("/p/.rustforge/engine/worktrees/{COMMIT}/mods/demo-mod.rf"));
    assert_eq!(plan.directory_failure(), format!("failed to create {}", plan.mods_dir));
    assert_eq!(plan.install_failure(), format!("failed to install /p/x.rf into {}", plan.destination));
    assert_eq!(plan.installed(), format!("Installed {}", plan.destination));
}

#[test]
fn work_is_done_in_order() {
    assert_eq!(engine_build_work(), vec![Work::SyncEngine, Work::CompileEngine]);
    assert_eq!(package_mod(), vec![Work::CompileMod, Work::PackageMod]);
    assert_eq!(
        dev(false),
        vec![
            Work::SyncEngine,
            Work::SyncEngine,
            Work::CompileEngine,
            Work::CompileMod,
            Work::PackageMod,
            Work::InstallMod,
            Work::RunEngine,
        ]
    );
    assert_eq!(dev(true).last(), Some(&Work::WatchProject));
    assert_eq!(dev(true).len(), 7);
}

#[test]
fn windows_projects_have_windows_paths() {
    let mut app = project();
    app.host = Host::Windows;
    app.project_root = r"C:\p".to_owned();
    app.target_directory = r"D:\t".to_owned();
    assert_eq!(app.dist_dir(), r"C:\p\dist");
    assert_eq!(app.test_artifact_path(), r"C:\p\.rustforge/out\demo-mod.rf");
    app.config.paths.out_dir = Some("E:/out".to_owned());
    assert_eq!(app.test_artifact_path(), r"E:/out\demo-mod.rf");
    let plan = package_existing_build(&app, false, None, false, "windows", true).expect("the mod was built");
    assert_eq!(plan.source, r"D:\t\debug\demo_mod_lib.dll");
    assert_eq!(plan.directory, "E:/out");
    assert_eq!(plan.staged_path(r"E:\tmp"), r"E:\tmp\mod.dll");
}

#[test]
fn packages_are_made_one_after_the_other() {
    let pieces: Vec<(usize, Work)> = package_jobs(2).iter().map(|piece| (piece.job, piece.work)).collect();
    assert_eq!(
        pieces,
        vec![
            (0, Work::CompileMod),
            (0, Work::PackageMod),
            (1, Work::CompileMod),
            (1, Work::PackageMod),
        ]
    );
    assert!(package_jobs(0).is_empty());
}

#[test]
fn nothing_follows_a_failed_piece() {
    let mut course = Course::new(3);
    assert_eq!(course.next(), Some(0));
    course.report(true);
    assert_eq!(course.next(), Some(1));
    course.report(false);
    assert_eq!(course.next(), None);
    assert!(!course.is_done());
}

#[test]
fn work_is_done_with_its_last_piece() {
    let mut course = Course::new(2);
    course.report(true);
    assert!(!course.is_done());
    course.report(true);
    assert_eq!(course.next(), None);
    assert!(course.is_done());
    assert!(Course::new(0).is_done());
}

#[test]
fn windows_targets_have_their_own_packages() {
    let mut app = project();
    app.host = Host::Windows;
    for (root, id) in [(r"C:\p", "demo"), (r"C:\p", "D:demo"), (r"\\?\C:\p", "a/./demo"), (r"C:\p", r"\\s\demo")] {
        app.project_root = root.to_owned();
        app.config.mod_id = Some(id.to_owned());
        for release in [false, true] {
            let first = app.artifact_path_for(release, Some("a"), true);
            assert_ne!(first, app.artifact_path_for(release, Some("b"), true));
        }
    }
    assert_eq!(app.artifact_path_for(false, Some("a"), true), r"\\s\demo-a.rf");
}
