use rustforge::host::Host;
use rustforge::watch::ignore::should_ignore_watch_path;
use rustforge::watch::reload::{watch_and_restart, HotReload, Notice, Phase, WatchEvent, WatchStop, PAUSE_SECONDS};
use rustforge::watch::scan::{scan_watch_state, EntryKind, ScanError, ScanEvent, ScanRequest, WatchScan};
use rustforge::watch::state::{stamp_for, FileStamp, WatchState};

fn ignored(root: &str, path: &str) -> bool {
    should_ignore_watch_path(Host::Unix, root.as_bytes(), path.as_bytes())
}

fn stamp(millis: u128, len: u64) -> FileStamp {
    stamp_for(Some(millis), len)
}

fn files(list: &[(&str, u64)]) -> WatchState {
    let mut state = WatchState::new();
    for (path, len) in list {
        state.insert(path.as_bytes().to_vec(), stamp(1, *len));
    }
    state
}

fn on(watch: &mut HotReload, event: WatchEvent) -> Result<Notice, WatchStop> {
    assert!(watch.accepts(&event));
    watch.advance(event)
}

fn reloaded(commit: &str, bin: &str) -> WatchEvent {
    WatchEvent::Reloaded { commit: commit.to_owned(), engine_bin: bin.to_owned() }
}

fn changed() -> HotReload {
    let mut watch = watch_and_restart("c1", "server", files(&[("a", 1)]));
    assert!(matches!(on(&mut watch, WatchEvent::Running), Ok(Notice::Nothing)));
    assert_eq!(watch.phase(), Phase::Sleeping);
    assert!(matches!(on(&mut watch, WatchEvent::Done), Ok(Notice::Nothing)));
    assert_eq!(watch.phase(), Phase::Scanning);
    assert!(matches!(on(&mut watch, WatchEvent::Scanned(files(&[("a", 2)]))), Ok(Notice::ChangeDetected)));
    assert_eq!(watch.phase(), Phase::Reloading);
    watch
}

#[test]
fn ignores_generated_paths_in_hot_watch() {
    let root = b"/tmp/project";
    assert!(should_ignore_watch_path(
        Host::Unix,
        root,
        b"/tmp/project/.rustforge/out/mod.rf"
    ));
    assert!(should_ignore_watch_path(
        Host::Unix,
        root,
        b"/tmp/project/target/debug/libx.so"
    ));
    assert!(should_ignore_watch_path(
        Host::Unix,
        root,
        b"/tmp/project/rustforge/target/debug/rustforge"
    ));
    assert!(!should_ignore_watch_path(
        Host::Unix,
        root,
        b"/tmp/project/src/lib.rs"
    ));
}

#[test]
fn root_itself_is_watched() {
    assert!(!ignored("/tmp/project", "/tmp/project"));
    assert!(!ignored("/tmp/project", "/tmp/project/"));
    assert!(!ignored("/tmp/project/", "/tmp/./project"));
}

#[test]
fn paths_elsewhere_are_not_watched() {
    assert!(ignored("/tmp/project", "/tmp/projects/a"));
    assert!(ignored("/tmp/project", "/tmp"));
    assert!(ignored("/tmp/project", "tmp/project/a"));
    assert!(ignored("/tmp/project", ""));
}

#[test]
fn only_the_first_component_is_generated() {
    for name in [".git", ".rustforge", "dist", "target"] {
        assert!(ignored("/p", &format!("/p/{name}")));
        assert!(ignored("/p", &format!("/p/{name}/x")));
    }
    for name in [".git", ".rustforge", "dist"] {
        assert!(!ignored("/p", &format!("/p/src/{name}")));
    }
    assert!(ignored("/p", "/p/src/target"));
    assert!(!ignored("/p", "/p/targets"));
    assert!(!ignored("/p", "/p/.gitignore"));
}

#[test]
fn paths_that_are_no_text_are_watched() {
    assert!(!should_ignore_watch_path(Host::Unix, b"/p", b"/p/\xff"));
    assert!(should_ignore_watch_path(Host::Unix, b"/p", b"/p/\xff/target"));
}

#[test]
fn unknown_time_counts_as_the_epoch() {
    let known = stamp_for(Some(5), 7);
    assert_eq!((known.modified_millis, known.len), (5, 7));
    let unknown = stamp_for(None, 7);
    assert_eq!((unknown.modified_millis, unknown.len), (0, 7));
}

#[test]
fn states_are_compared_file_by_file() {
    let first = files(&[("a", 1), ("b", 2)]);
    assert!(first.same_as(&files(&[("b", 2), ("a", 1)])));
    assert!(!first.same_as(&files(&[("a", 1)])));
    assert!(!first.same_as(&files(&[("a", 1), ("b", 3)])));
    assert!(!first.same_as(&files(&[("a", 1), ("c", 2)])));
    assert!(first.same_as(&files(&[("b", 9), ("a", 1), ("b", 2)])));
    assert_eq!(first.get(b"b").map(|stamp| stamp.len), Some(2));
    assert!(first.get(b"c").is_none());
}

#[test]
fn scan_notes_the_watched_files() {
    let mut scan = scan_watch_state(Host::Unix, b"/p");
    let mut asked = Vec::new();
    loop {
        match scan.request() {
            ScanRequest::ReadDir(path) => {
                let path = String::from_utf8(path).expect("text");
                asked.push(format!("list {path}"));
                let entries: Vec<&str> = match path.as_str() {
                    "/p" => vec!["/p/Cargo.toml", "/p/target", "/p/src", "/p/.git", "/p/link"],
                    "/p/src" => vec!["/p/src/lib.rs", "/p/src/target"],
                    _ => panic!("{path} should not be listed"),
                };
                scan.scan_watch_dir(&entries.iter().map(|entry| entry.as_bytes().to_vec()).collect());
            }
            ScanRequest::ReadMetadata(path) => {
                let path = String::from_utf8(path).expect("text");
                asked.push(format!("look at {path}"));
                match path.as_str() {
                    "/p/src" => scan.record(EntryKind::Dir, stamp(0, 0)),
                    "/p/link" => scan.record(EntryKind::Other, stamp(0, 0)),
                    _ => scan.record(EntryKind::File, stamp(3, path.len() as u64)),
                }
            }
            ScanRequest::Finished => break,
        }
    }
    assert_eq!(
        asked,
        vec![
            "list /p",
            "look at /p/Cargo.toml",
            "look at /p/src",
            "list /p/src",
            "look at /p/src/lib.rs",
            "look at /p/link",
        ]
    );
    let state = scan.into_state();
    assert_eq!(state.get(b"Cargo.toml").map(|stamp| (stamp.modified_millis, stamp.len)), Some((3, 13)));
    assert_eq!(state.get(b"src/lib.rs").map(|stamp| stamp.len), Some(13));
    assert!(state.get(b"link").is_none());
    let mut expected = WatchState::new();
    expected.insert(b"src/lib.rs".to_vec(), stamp(3, 13));
    expected.insert(b"Cargo.toml".to_vec(), stamp(3, 13));
    assert!(state.same_as(&expected));
}

#[test]
fn unchanged_project_is_left_alone() {
    assert_eq!(PAUSE_SECONDS, 1);
    let mut watch = watch_and_restart("c1", "server", files(&[("a", 1)]));
    assert_eq!(watch.phase(), Phase::Polling);
    for _ in 0..3 {
        on(&mut watch, WatchEvent::Running).expect("the watch goes on");
        on(&mut watch, WatchEvent::Done).expect("the watch goes on");
        assert!(matches!(on(&mut watch, WatchEvent::Scanned(files(&[("a", 1)]))), Ok(Notice::Nothing)));
        assert_eq!(watch.phase(), Phase::Polling);
    }
}

#[test]
fn change_of_the_mod_repackages_it() {
    let mut watch = changed();
    on(&mut watch, reloaded("c1", "server")).expect("the watch goes on");
    assert_eq!(watch.phase(), Phase::Packaging);
    on(&mut watch, WatchEvent::Done).expect("the watch goes on");
    assert_eq!(watch.phase(), Phase::Installing);
    on(&mut watch, WatchEvent::Done).expect("the watch goes on");
    assert_eq!(watch.phase(), Phase::Restarting);
    on(&mut watch, WatchEvent::Done).expect("the watch goes on");
    assert_eq!(watch.phase(), Phase::Polling);
}

#[test]
fn change_of_the_engine_rebuilds_it() {
    for (commit, bin) in [("c2", "server"), ("c1", "client"), ("c2", "client")] {
        let mut watch = changed();
        on(&mut watch, reloaded(commit, bin)).expect("the watch goes on");
        assert_eq!(watch.phase(), Phase::Syncing);
        assert_eq!(watch.loaded_bin(), bin);
        on(&mut watch, WatchEvent::Done).expect("the watch goes on");
        assert_eq!(watch.phase(), Phase::Building);
        on(&mut watch, WatchEvent::Done).expect("the watch goes on");
        assert_eq!(watch.phase(), Phase::Packaging);
    }
}

#[test]
fn failed_reload_is_given_up_and_tried_again() {
    let mut watch = changed();
    on(&mut watch, reloaded("c2", "server")).expect("the watch goes on");
    match on(&mut watch, WatchEvent::Failed("no network".to_owned())) {
        Ok(Notice::ReloadFailed(cause)) => assert_eq!(cause, "no network"),
        _ => panic!("the reload should be given up"),
    }
    assert_eq!(watch.phase(), Phase::Polling);
    on(&mut watch, WatchEvent::Running).expect("the watch goes on");
    on(&mut watch, WatchEvent::Done).expect("the watch goes on");
    on(&mut watch, WatchEvent::Scanned(files(&[("a", 3)]))).expect("the watch goes on");
    on(&mut watch, reloaded("c2", "server")).expect("the watch goes on");
    assert_eq!(watch.phase(), Phase::Syncing);
}

#[test]
fn finished_reload_is_what_runs() {
    let mut watch = changed();
    on(&mut watch, reloaded("c2", "server")).expect("the watch goes on");
    for _ in 0..5 {
        on(&mut watch, WatchEvent::Done).expect("the watch goes on");
    }
    assert_eq!(watch.phase(), Phase::Polling);
    on(&mut watch, WatchEvent::Running).expect("the watch goes on");
    on(&mut watch, WatchEvent::Done).expect("the watch goes on");
    on(&mut watch, WatchEvent::Scanned(files(&[]))).expect("the watch goes on");
    on(&mut watch, reloaded("c2", "server")).expect("the watch goes on");
    assert_eq!(watch.phase(), Phase::Packaging);
}

#[test]
fn watch_ends_with_its_engine() {
    let mut watch = watch_and_restart("c1", "server", WatchState::new());
    let stop = on(&mut watch, WatchEvent::Exited("exit status: 1".to_owned())).err().expect("the watch ends");
    assert_eq!(stop.message(), "Engine exited with status exit status: 1");
    let stop = on(&mut watch, WatchEvent::Failed("x".to_owned())).err().expect("the watch ends");
    assert_eq!(stop.message(), "failed to poll Engine process: x");
}

#[test]
fn watch_ends_where_the_project_cannot_be_read() {
    let mut watch = changed();
    let stop = on(&mut watch, WatchEvent::Failed("x".to_owned())).err().expect("the watch ends");
    assert_eq!(stop.message(), "failed to reload project state after change: x");
    let mut watch = watch_and_restart("c1", "server", WatchState::new());
    on(&mut watch, WatchEvent::Running).expect("the watch goes on");
    on(&mut watch, WatchEvent::Done).expect("the watch goes on");
    let stop = on(&mut watch, WatchEvent::Failed("x".to_owned())).err().expect("the watch ends");
    assert_eq!(stop.message(), "x");
}

#[test]
fn phases_take_only_their_own_events() {
    let watch = watch_and_restart("c1", "server", WatchState::new());
    assert!(!watch.accepts(&WatchEvent::Done));
    assert!(!watch.accepts(&WatchEvent::Scanned(WatchState::new())));
    let watch = changed();
    assert!(!watch.accepts(&WatchEvent::Done));
    assert!(!watch.accepts(&WatchEvent::Running));
}

fn ignored_on_windows(root: &str, path: &str) -> bool {
    should_ignore_watch_path(Host::Windows, root.as_bytes(), path.as_bytes())
}

#[test]
fn windows_paths_are_read_by_both_separators() {
    assert!(!ignored_on_windows(r"C:\p", r"C:\p\src\lib.rs"));
    assert!(!ignored_on_windows(r"C:\p", "c:/p/src/lib.rs"));
    assert!(ignored_on_windows(r"C:\p", r"C:\p\target\x"));
    assert!(ignored_on_windows(r"C:\p", r"C:\p\src/target\x"));
    assert!(ignored_on_windows(r"C:\p", r"D:\p\src"));
    assert!(ignored_on_windows(r"C:\p", r"C:p\src"));
    assert!(!ignored_on_windows(r"\\server\share", r"//server/share/src"));
    assert!(ignored_on_windows(r"\\server\share", r"\\server\share\dist"));
    assert!(ignored_on_windows(r"\\?\C:\p", r"C:\p\src"));
    assert!(!ignored("/p", r"/p/src\target"));
}

#[test]
fn windows_files_are_noted_below_the_root() {
    let mut scan = scan_watch_state(Host::Windows, br"C:\p");
    scan.scan_watch_dir(&vec![br"C:\p\a.txt".to_vec(), br"C:\p\.git".to_vec(), br"C:\p\s/b".to_vec()]);
    scan.record(EntryKind::File, stamp(1, 1));
    scan.record(EntryKind::File, stamp(1, 2));
    assert!(matches!(scan.request(), ScanRequest::Finished));
    let state = scan.into_state();
    assert_eq!(state.get(b"a.txt").map(|stamp| stamp.len), Some(1));
    assert_eq!(state.get(br"s\b").map(|stamp| stamp.len), Some(2));
}

#[test]
fn listing_order_plays_no_part() {
    let mut states = Vec::new();
    for entries in [["/p/a", "/p/b"], ["/p/b", "/p/a"]] {
        let mut scan = scan_watch_state(Host::Unix, b"/p");
        scan.scan_watch_dir(&entries.iter().map(|entry| entry.as_bytes().to_vec()).collect());
        for entry in entries {
            scan.record(EntryKind::File, stamp(1, if entry == "/p/a" { 1 } else { 2 }));
        }
        states.push(scan.into_state());
    }
    assert!(states[0].same_as(&states[1]));
}

#[test]
fn windows_relative_paths_are_read_anew() {
    assert!(ignored_on_windows(r"C:\p", r"C:\p\C:target"));
    assert!(!ignored_on_windows(r"C:\p", r"C:\p\C:src"));
    assert!(ignored_on_windows(r"\\?\C:\p", r"\\?\C:\p\x/target"));
    assert!(!ignored_on_windows(r"\\?\C:\p", r"\\?\C:\p\x/targets"));
    assert!(!ignored_on_windows(r"\\?\C:\p", r"\\?\C:\p\.\.git"));
    assert!(ignored_on_windows(r"\\?\C:\p", r"\\?\C:\p\.git"));
    assert!(ignored_on_windows(r"C:\p", r"C:\p\\.\.git\.\"));
    assert!(ignored_on_windows("C:", r"C:\s\target"));
    assert!(!ignored_on_windows("C:", r"C:\\s\target"));
    assert!(!ignored_on_windows("C:", r"C:\.git"));
    assert!(!ignored_on_windows("C:", r"C:.\.git"));
    assert!(ignored_on_windows("", r"C:\target"));
    assert!(!ignored_on_windows("C:", "C:."));
    assert!(!ignored_on_windows(r"\\server\share\", r"\\server\share"));
}

#[test]
fn nothing_below_an_ignored_directory_is_watched() {
    for directory in ["/p/target", "/p/target/", "/p/.git", "/p/a/target"] {
        assert!(ignored("/p", directory));
        for path in ["", ".", "x", "./x", "..", "../x", "x/y"] {
            let joined = std::path::Path::new(directory).join(path);
            assert!(ignored("/p", joined.to_str().expect("text")));
        }
    }
}

fn advance(scan: &mut WatchScan, event: ScanEvent) -> Result<(), ScanError> {
    assert!(scan.accepts(&event));
    scan.advance(event)
}

fn listed(entries: &[&str]) -> ScanEvent {
    ScanEvent::Listed(entries.iter().map(|entry| entry.as_bytes().to_vec()).collect())
}

#[test]
fn failed_reads_end_the_scan() {
    let mut scan = scan_watch_state(Host::Unix, b"/p");
    let error = advance(&mut scan, ScanEvent::NotListed("denied".to_owned())).expect_err("not listed");
    assert_eq!(error.path(), b"/p");
    assert_eq!(error.message("/p"), "failed to read directory /p: denied");
    let error = advance(&mut scan, ScanEvent::EntryNotRead("gone".to_owned())).expect_err("not read");
    assert_eq!(error.message("/p"), "failed to read directory entry in /p: gone");
    advance(&mut scan, listed(&["/p/target", "/p/src"])).expect("the scan goes on");
    let error = advance(&mut scan, ScanEvent::NotLooked("denied".to_owned())).expect_err("not looked at");
    assert_eq!(error.path(), b"/p/src");
    assert_eq!(error.message("/p/src"), "failed to read metadata for /p/src: denied");
    assert!(matches!(scan.request(), ScanRequest::ReadMetadata(path) if path == b"/p/src"));
}

#[test]
fn ignored_entries_are_never_asked_for() {
    let mut scan = scan_watch_state(Host::Unix, b"/p");
    advance(&mut scan, listed(&["/p/target", "/p/.git", "/p/a"])).expect("the scan goes on");
    advance(&mut scan, ScanEvent::Looked { kind: EntryKind::File, stamp: stamp(1, 1) }).expect("the scan goes on");
    assert!(matches!(scan.request(), ScanRequest::Finished));
    assert!(!scan.accepts(&ScanEvent::Listed(vec![])));
    assert!(scan.into_state().same_as(&files(&[("a", 1)])));
}

#[test]
fn requests_take_only_their_own_events() {
    let mut scan = scan_watch_state(Host::Unix, b"/p");
    assert!(!scan.accepts(&ScanEvent::NotLooked(String::new())));
    assert!(!scan.accepts(&ScanEvent::Looked { kind: EntryKind::File, stamp: stamp(1, 1) }));
    advance(&mut scan, listed(&["/p/a"])).expect("the scan goes on");
    assert!(!scan.accepts(&ScanEvent::NotListed(String::new())));
    assert!(!scan.accepts(&listed(&[])));
}
