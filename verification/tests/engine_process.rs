use rustforge::host::Host;
use rustforge::process::{
    engine_binary_path, restart_engine_child, run_engine_binary, spawn_engine_binary, EngineEnd,
    ProcessError, RestartEvent, RestartStep,
};

fn failed(cause: &str) -> RestartEvent {
    RestartEvent::Failed(cause.to_owned())
}

fn after(step: RestartStep, event: RestartEvent) -> Result<RestartStep, String> {
    assert!(step.accepts(&event));
    step.after(event).map_err(|error| error.message())
}

#[test]
fn binary_is_where_the_build_puts_it() {
    assert_eq!(engine_binary_path(Host::Unix, "/t", false, "server"), "/t/debug/server");
    assert_eq!(engine_binary_path(Host::Windows, r"C:\t", true, "server"), r"C:\t\release\server.exe");
}

#[test]
fn missing_binary_is_not_started() {
    assert_eq!(spawn_engine_binary(Host::Unix, "/t", false, "server", true).expect("it exists"), "/t/debug/server");
    let error = spawn_engine_binary(Host::Unix, "/t", true, "server", false).expect_err("it is missing");
    assert_eq!(
        error.message(),
        "Engine binary not found at /t/release/server; expected cargo build output"
    );
}

#[test]
fn end_of_the_engine_is_told() {
    assert!(run_engine_binary(EngineEnd::Success).is_ok());
    let error = run_engine_binary(EngineEnd::Status("exit status: 2".to_owned())).expect_err("no success");
    assert_eq!(error.message(), "Engine exited with status exit status: 2");
    let error = run_engine_binary(EngineEnd::Unknown("gone".to_owned())).expect_err("no success");
    assert_eq!(error.message(), "failed while waiting for Engine process: gone");
}

#[test]
fn launch_failures_are_told() {
    assert_eq!(
        ProcessError::NoMetadata("x".to_owned()).message(),
        "failed to load cargo metadata for Engine checkout: x"
    );
    assert_eq!(
        ProcessError::NotLaunched { path: "/t/debug/server".to_owned(), cause: "x".to_owned() }.message(),
        "failed to launch /t/debug/server: x"
    );
}

#[test]
fn running_engine_is_stopped_before_the_next_starts() {
    let step = restart_engine_child();
    assert_eq!(step, RestartStep::Poll);
    let step = after(step, RestartEvent::Running).expect("it runs");
    assert_eq!(step, RestartStep::Kill);
    let step = after(step, RestartEvent::Done).expect("it was stopped");
    assert_eq!(step, RestartStep::Reap);
    let step = after(step, RestartEvent::Done).expect("it was reaped");
    assert_eq!(step, RestartStep::Spawn);
    assert_eq!(after(step, RestartEvent::Done), Ok(RestartStep::Restarted));
}

#[test]
fn engine_that_ended_is_not_stopped() {
    assert_eq!(after(RestartStep::Poll, RestartEvent::Ended), Ok(RestartStep::Spawn));
}

#[test]
fn each_failure_ends_the_restart() {
    assert_eq!(after(RestartStep::Poll, failed("x")), Err("x".to_owned()));
    assert_eq!(after(RestartStep::Kill, failed("x")), Err("failed to stop Engine process: x".to_owned()));
    assert_eq!(after(RestartStep::Reap, failed("x")), Err("failed to reap Engine process: x".to_owned()));
    assert_eq!(after(RestartStep::Spawn, failed("x")), Err("x".to_owned()));
}

#[test]
fn steps_take_only_their_own_events() {
    assert!(!RestartStep::Poll.accepts(&RestartEvent::Done));
    assert!(!RestartStep::Kill.accepts(&RestartEvent::Running));
    assert!(!RestartStep::Spawn.accepts(&RestartEvent::Ended));
    assert!(!RestartStep::Restarted.accepts(&RestartEvent::Done));
}
