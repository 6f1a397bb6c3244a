use rustforge::command::{CommandEnd, CommandLine};
use rustforge::host::Host;
use rustforge::sync::{
    attempt_event, capture_event, probe_event, run_event, sync_engine, EngineSync, SyncAction, SyncError,
    SyncEvent, SyncStep, SyncTarget,
};

const COMMIT: &str = "0123456789abcdef0123456789abcdef01234567";

fn target() -> SyncTarget {
    SyncTarget {
        host: Host::Unix,
        project_root: "/p".to_owned(),
        mirror_dir: "/p/e/mirror.git".to_owned(),
        worktree_dir: "/p/w/tree".to_owned(),
        repo_url: "https://host/engine.git".to_owned(),
        commit: COMMIT.to_owned(),
    }
}

fn started() -> EngineSync {
    sync_engine(target()).expect("the mirror has a directory")
}

fn shown(action: Option<SyncAction>) -> String {
    match action {
        Some(SyncAction::CreateDir(path)) => format!("create {path}"),
        Some(SyncAction::Exists(path)) => format!("exists {path}"),
        Some(SyncAction::Run(command)) => format!("run {} in {}", command.shown(), command.dir),
        Some(SyncAction::Capture(command)) => format!("capture {} in {}", command.shown(), command.dir),
        Some(SyncAction::Probe(command)) => format!("probe {} in {}", command.shown(), command.dir),
        Some(SyncAction::Attempt(command)) => format!("attempt {} in {}", command.shown(), command.dir),
        Some(SyncAction::DeleteDir(path)) => format!("delete {path}"),
        None => "finished".to_owned(),
    }
}

fn output(text: &str) -> SyncEvent {
    SyncEvent::Output(text.to_owned())
}

fn failed() -> SyncEvent {
    SyncEvent::Failed("cause".to_owned())
}

fn answer(sync: &mut EngineSync, event: SyncEvent) -> Result<(), SyncError> {
    assert!(sync.accepts(&event));
    sync.advance(event)
}

fn run(sync: &mut EngineSync, events: Vec<SyncEvent>) -> Vec<String> {
    let mut actions = vec![shown(sync.action())];
    for event in events {
        answer(sync, event).expect("the sync should go on");
        actions.push(shown(sync.action()));
    }
    actions
}

fn at(step: SyncStep) -> EngineSync {
    EngineSync { target: target(), step }
}

fn message_at(step: SyncStep, event: SyncEvent) -> String {
    answer(&mut at(step), event).expect_err("the sync should stop").message()
}

fn step_after(step: SyncStep, event: SyncEvent) -> SyncStep {
    let mut sync = at(step);
    answer(&mut sync, event).expect("the sync should go on");
    sync.step
}

#[test]
fn first_sync_clones_and_adds_a_worktree() {
    let mut sync = started();
    let actions = run(
        &mut sync,
        vec![
            SyncEvent::Done,
            SyncEvent::Answer(false),
            SyncEvent::Done,
            SyncEvent::Done,
            SyncEvent::Answer(false),
            SyncEvent::Done,
            SyncEvent::Answer(true),
            SyncEvent::Done,
            SyncEvent::Answer(false),
            SyncEvent::Answer(false),
            SyncEvent::Done,
            output(&format!("{COMMIT}\n")),
        ],
    );
    assert_eq!(
        actions,
        vec![
            "create /p/e".to_owned(),
            "exists /p/e/mirror.git".to_owned(),
            "run git clone --mirror https://host/engine.git /p/e/mirror.git in /p".to_owned(),
            "run git fetch --prune origin in /p/e/mirror.git".to_owned(),
            format!("probe git rev-parse --verify '{COMMIT}^{{commit}}' in /p/e/mirror.git"),
            format!("run git fetch origin {COMMIT} in /p/e/mirror.git"),
            format!("probe git rev-parse --verify '{COMMIT}^{{commit}}' in /p/e/mirror.git"),
            "create /p/w".to_owned(),
            "exists /p/w/tree".to_owned(),
            "exists /p/w/tree".to_owned(),
            format!("run git worktree add --detach /p/w/tree {COMMIT} in /p/e/mirror.git"),
            "capture git rev-parse HEAD in /p/w/tree".to_owned(),
            "finished".to_owned(),
        ]
    );
}

#[test]
fn second_sync_keeps_what_is_there() {
    let mut sync = started();
    let actions = run(
        &mut sync,
        vec![
            SyncEvent::Done,
            SyncEvent::Answer(true),
            output("https://host/engine.git\n"),
            SyncEvent::Done,
            SyncEvent::Answer(true),
            SyncEvent::Answer(true),
            SyncEvent::Done,
            SyncEvent::Answer(true),
            output(COMMIT),
            output("\n"),
            SyncEvent::Answer(true),
            output(COMMIT),
        ],
    );
    assert_eq!(actions[2], "capture git remote get-url origin in /p/e/mirror.git");
    assert_eq!(actions[3], "run git fetch --prune origin in /p/e/mirror.git");
    assert_eq!(actions[4], actions[5]);
    assert_eq!(actions[8], "capture git rev-parse HEAD in /p/w/tree");
    assert_eq!(actions[9], "capture git status --porcelain in /p/w/tree");
    assert_eq!(actions[10], "exists /p/w/tree");
    assert_eq!(actions[12], "finished");
    assert_eq!(sync.step, SyncStep::Finished);
}

#[test]
fn moved_repository_is_pointed_to() {
    let mut sync = at(SyncStep::ReadRemote);
    answer(&mut sync, output("https://old/engine.git")).expect("the sync should go on");
    assert_eq!(
        shown(sync.action()),
        "run git remote set-url origin https://host/engine.git in /p/e/mirror.git"
    );
    assert_eq!(step_after(SyncStep::SetRemote, SyncEvent::Done), SyncStep::FetchMirror);
}

#[test]
fn stale_worktree_is_removed() {
    let stale = SyncStep::ReadStatus { head_matches: false };
    let current = SyncStep::ReadStatus { head_matches: true };
    assert_eq!(step_after(SyncStep::ReadHead, output("other")), stale);
    assert_eq!(step_after(SyncStep::ReadHead, failed()), stale);
    assert_eq!(step_after(SyncStep::ReadHead, output(&format!(" {COMMIT} "))), current);
    assert_eq!(step_after(stale, output("")), SyncStep::RemoveWorktree);
    assert_eq!(step_after(current, output(" M src/lib.rs\n")), SyncStep::RemoveWorktree);
    assert_eq!(step_after(current, failed()), SyncStep::RemoveWorktree);
    assert_eq!(step_after(current, output(" \n")), SyncStep::ProbeAgain);
    assert_eq!(
        shown(at(SyncStep::RemoveWorktree).action()),
        "attempt git worktree remove --force /p/w/tree in /p/e/mirror.git"
    );
}

#[test]
fn leftovers_are_deleted() {
    assert_eq!(step_after(SyncStep::RemoveWorktree, SyncEvent::Answer(true)), SyncStep::ProbeAgain);
    assert_eq!(step_after(SyncStep::RemoveWorktree, SyncEvent::Answer(false)), SyncStep::ProbeLeftover);
    assert_eq!(step_after(SyncStep::ProbeLeftover, SyncEvent::Answer(false)), SyncStep::ProbeAgain);
    assert_eq!(step_after(SyncStep::ProbeLeftover, SyncEvent::Answer(true)), SyncStep::DeleteLeftover);
    assert_eq!(shown(at(SyncStep::DeleteLeftover).action()), "delete /p/w/tree");
    assert_eq!(step_after(SyncStep::DeleteLeftover, SyncEvent::Done), SyncStep::ProbeAgain);
}

#[test]
fn invalid_paths_are_refused() {
    let error = sync_engine(SyncTarget { mirror_dir: "/".to_owned(), ..target() }).expect_err("no directory");
    assert_eq!(error.message(), "invalid mirror path /");
    let mut sync = EngineSync {
        target: SyncTarget { worktree_dir: "/".to_owned(), ..target() },
        step: SyncStep::RecheckCommit,
    };
    let error = answer(&mut sync, SyncEvent::Answer(true)).expect_err("no directory");
    assert_eq!(error.message(), "invalid worktree path /");
    assert_eq!(sync.step, SyncStep::RecheckCommit);
}

#[test]
fn each_failure_stops_the_sync() {
    assert_eq!(message_at(SyncStep::CreateMirrorParent, failed()), "failed to create /p/e: cause");
    assert_eq!(
        message_at(SyncStep::CloneMirror, failed()),
        "failed to clone Engine mirror from https://host/engine.git: cause"
    );
    assert_eq!(
        message_at(SyncStep::ReadRemote, failed()),
        "failed to inspect Engine mirror origin URL: cause"
    );
    assert_eq!(
        message_at(SyncStep::SetRemote, failed()),
        "failed to update Engine mirror origin to https://host/engine.git: cause"
    );
    assert_eq!(message_at(SyncStep::FetchMirror, failed()), "failed to fetch Engine mirror: cause");
    for step in [SyncStep::CheckCommit, SyncStep::RecheckCommit] {
        assert_eq!(
            message_at(step, failed()),
            format!("failed to verify commit {COMMIT} in /p/e/mirror.git: cause")
        );
    }
    assert_eq!(
        message_at(SyncStep::FetchCommit, failed()),
        format!("failed to fetch Engine commit {COMMIT}: cause")
    );
    assert_eq!(
        message_at(SyncStep::RecheckCommit, SyncEvent::Answer(false)),
        format!("Engine mirror does not contain required commit {COMMIT} after fetch")
    );
    assert_eq!(message_at(SyncStep::CreateWorktreeParent, failed()), "failed to create /p/w: cause");
    assert_eq!(message_at(SyncStep::DeleteLeftover, failed()), "failed to remove /p/w/tree: cause");
    assert_eq!(
        message_at(SyncStep::AddWorktree, failed()),
        "failed to create Engine worktree at /p/w/tree: cause"
    );
    assert_eq!(
        message_at(SyncStep::VerifyHead, failed()),
        "failed to verify Engine worktree commit: cause"
    );
    assert_eq!(
        message_at(SyncStep::VerifyHead, output(" abc\n")),
        format!("Engine worktree is at abc, expected {COMMIT}")
    );
}

#[test]
fn commit_is_fetched_only_where_it_is_missing() {
    assert_eq!(step_after(SyncStep::CheckCommit, SyncEvent::Answer(false)), SyncStep::FetchCommit);
    assert_eq!(step_after(SyncStep::CheckCommit, SyncEvent::Answer(true)), SyncStep::RecheckCommit);
    assert_eq!(step_after(SyncStep::FetchCommit, SyncEvent::Done), SyncStep::RecheckCommit);
}

#[test]
fn actions_take_only_their_own_events() {
    assert!(!at(SyncStep::ProbeMirror).accepts(&failed()));
    assert!(!at(SyncStep::CloneMirror).accepts(&SyncEvent::Answer(true)));
    assert!(!at(SyncStep::ReadHead).accepts(&SyncEvent::Done));
    assert!(!at(SyncStep::CheckCommit).accepts(&output("")));
    assert!(!at(SyncStep::Finished).accepts(&SyncEvent::Done));
}

fn command() -> CommandLine {
    CommandLine { program: "git".to_owned(), args: vec!["fetch".to_owned()], dir: "/p".to_owned() }
}

fn ended(success: bool) -> CommandEnd {
    CommandEnd::Ended { success, status: "exit status: 9".to_owned() }
}

fn not_started() -> CommandEnd {
    CommandEnd::NotStarted("no such file".to_owned())
}

#[test]
fn command_is_done_where_it_started_and_succeeded() {
    assert!(matches!(run_event(&command(), ended(true)), SyncEvent::Done));
    match run_event(&command(), ended(false)) {
        SyncEvent::Failed(cause) => assert_eq!(cause, "`git fetch` exited with status exit status: 9"),
        _ => panic!("the command failed"),
    }
    match run_event(&command(), not_started()) {
        SyncEvent::Failed(cause) => assert_eq!(cause, "failed to start `git fetch`: no such file"),
        _ => panic!("the command did not start"),
    }
}

#[test]
fn output_counts_only_of_a_command_that_succeeded() {
    match capture_event(&command(), ended(true), "té".as_bytes().to_vec()) {
        SyncEvent::Output(text) => assert_eq!(text, "té"),
        _ => panic!("the command succeeded"),
    }
    match capture_event(&command(), ended(true), vec![b'a', 0xff]) {
        SyncEvent::Failed(cause) => {
            let expected = String::from_utf8(vec![b'a', 0xff]).expect_err("no text").to_string();
            assert_eq!(cause, format!("command output was not valid UTF-8: {expected}"));
        }
        _ => panic!("the output is no text"),
    }
    assert!(matches!(capture_event(&command(), ended(false), vec![]), SyncEvent::Failed(_)));
    assert_eq!(command().captured(ended(true), vec![b'x']), Ok("x".to_owned()));
    assert_eq!(command().ran(ended(true)), Ok(()));
}

#[test]
fn probes_and_attempts_answer() {
    assert!(matches!(probe_event(ended(true)), SyncEvent::Answer(true)));
    assert!(matches!(probe_event(ended(false)), SyncEvent::Answer(false)));
    assert!(matches!(probe_event(not_started()), SyncEvent::Failed(cause) if cause == "no such file"));
    assert!(matches!(attempt_event(ended(true)), SyncEvent::Answer(true)));
    assert!(matches!(attempt_event(ended(false)), SyncEvent::Answer(false)));
    assert!(matches!(attempt_event(not_started()), SyncEvent::Answer(false)));
}

#[test]
fn windows_paths_have_windows_parents() {
    let target = SyncTarget {
        host: Host::Windows,
        mirror_dir: r"C:\p\e\mirror.git".to_owned(),
        ..target()
    };
    let sync = sync_engine(target).expect("the mirror has a directory");
    assert_eq!(shown(sync.action()), r"create C:\p\e");
}
