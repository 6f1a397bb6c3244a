//! The engine as a process: where its binary is, how it is run, stopped and
//! restarted.

use vstd::prelude::*;

use crate::host::Host;
use crate::path::{join_path, path_join};
use crate::platform::{binary_file, binary_name, profile, profile_name};
use crate::text::{concat, concat3, ends, occurs_at, occurs_in};

verus! {

/// What can go wrong with the engine process.
#[derive(Debug)]
pub enum ProcessError {
    /// `cargo` says nothing of the engine checkout, and why.
    NoMetadata(String),
    /// There is no binary at the path.
    NotFound(String),
    /// The binary at the path does not start, and why.
    NotLaunched { path: String, cause: String },
    /// The process could not be waited for, and why.
    NotAwaited(String),
    /// The process ended with a status other than success.
    Exited(String),
    /// The process could not be polled, and why.
    NotPolled(String),
    /// The process could not be stopped, and why.
    NotStopped(String),
    /// The process could not be reaped, and why.
    NotReaped(String),
    /// The process could not be started anew, and why.
    NotRestarted(String),
}

/// A [`ProcessError`] with its texts as sequences.
pub enum ProcessFault {
    NoMetadata(Seq<char>),
    NotFound(Seq<char>),
    NotLaunched { path: Seq<char>, cause: Seq<char> },
    NotAwaited(Seq<char>),
    Exited(Seq<char>),
    NotPolled(Seq<char>),
    NotStopped(Seq<char>),
    NotReaped(Seq<char>),
    NotRestarted(Seq<char>),
}

impl View for ProcessError {
    type V = ProcessFault;

    open spec fn view(&self) -> ProcessFault {
        match self {
            ProcessError::NoMetadata(cause) => ProcessFault::NoMetadata(cause@),
            ProcessError::NotFound(path) => ProcessFault::NotFound(path@),
            ProcessError::NotLaunched { path, cause } => ProcessFault::NotLaunched {
                path: path@,
                cause: cause@,
            },
            ProcessError::NotAwaited(cause) => ProcessFault::NotAwaited(cause@),
            ProcessError::Exited(status) => ProcessFault::Exited(status@),
            ProcessError::NotPolled(cause) => ProcessFault::NotPolled(cause@),
            ProcessError::NotStopped(cause) => ProcessFault::NotStopped(cause@),
            ProcessError::NotReaped(cause) => ProcessFault::NotReaped(cause@),
            ProcessError::NotRestarted(cause) => ProcessFault::NotRestarted(cause@),
        }
    }
}

/// What a [`ProcessError`] says.
pub open spec fn process_message(fault: ProcessFault) -> Seq<char> {
    match fault {
        ProcessFault::NoMetadata(cause) =>
            "failed to load cargo metadata for Engine checkout: "@ + cause,
        ProcessFault::NotFound(path) => "Engine binary not found at "@ + path
            + "; expected cargo build output"@,
        ProcessFault::NotLaunched { path, cause } => "failed to launch "@ + path + ": "@ + cause,
        ProcessFault::NotAwaited(cause) => "failed while waiting for Engine process: "@ + cause,
        ProcessFault::Exited(status) => "Engine exited with status "@ + status,
        ProcessFault::NotPolled(cause) => cause,
        ProcessFault::NotStopped(cause) => "failed to stop Engine process: "@ + cause,
        ProcessFault::NotReaped(cause) => "failed to reap Engine process: "@ + cause,
        ProcessFault::NotRestarted(cause) => cause,
    }
}

impl ProcessError {
    /// What the error says.
    pub fn message(&self) -> (message: String)
        ensures
            message@ == process_message(self@),
    {
        match self {
            ProcessError::NoMetadata(cause) => concat(
                "failed to load cargo metadata for Engine checkout: ",
                cause.as_str(),
            ),
            ProcessError::NotFound(path) => concat3(
                "Engine binary not found at ",
                path.as_str(),
                "; expected cargo build output",
            ),
            ProcessError::NotLaunched { path, cause } => {
                let launch = concat3("failed to launch ", path.as_str(), ": ");
                concat(launch.as_str(), cause.as_str())
            },
            ProcessError::NotAwaited(cause) => concat(
                "failed while waiting for Engine process: ",
                cause.as_str(),
            ),
            ProcessError::Exited(status) => concat(
                "Engine exited with status ",
                status.as_str(),
            ),
            ProcessError::NotPolled(cause) => cause.clone(),
            ProcessError::NotStopped(cause) => concat(
                "failed to stop Engine process: ",
                cause.as_str(),
            ),
            ProcessError::NotReaped(cause) => concat(
                "failed to reap Engine process: ",
                cause.as_str(),
            ),
            ProcessError::NotRestarted(cause) => cause.clone(),
        }
    }
}

/// Where a build puts the engine binary.
pub open spec fn engine_binary(
    host: Host,
    target_directory: Seq<char>,
    release: bool,
    bin: Seq<char>,
) -> Seq<char> {
    path_join(
        host,
        path_join(host, target_directory, profile_name(release)),
        binary_name(bin, host),
    )
}

/// Where a build puts the engine binary.
pub fn engine_binary_path(
    host: Host,
    target_directory: &str,
    release: bool,
    bin: &str,
) -> (path: String)
    ensures
        path@ == engine_binary(host, target_directory@, release, bin@),
{
    let directory = join_path(host, target_directory, profile(release));
    join_path(host, directory.as_str(), binary_file(bin, host).as_str())
}

/// The binary to start, or that there is none: `found` tells whether it is
/// where [`engine_binary_path`] says.
pub fn spawn_engine_binary(
    host: Host,
    target_directory: &str,
    release: bool,
    bin: &str,
    found: bool,
) -> (outcome: Result<String, ProcessError>)
    ensures
        if found {
            outcome matches Ok(path) && path@ == engine_binary(
                host,
                target_directory@,
                release,
                bin@,
            )
        } else {
            outcome matches Err(ProcessError::NotFound(path)) && path@ == engine_binary(
                host,
                target_directory@,
                release,
                bin@,
            )
        },
{
    let path = engine_binary_path(host, target_directory, release, bin);
    if found {
        Ok(path)
    } else {
        Err(ProcessError::NotFound(path))
    }
}

/// How an engine process ended.
#[derive(Debug)]
pub enum EngineEnd {
    /// With success.
    Success,
    /// With this status, which is not success.
    Status(String),
    /// It could not be waited for, and why.
    Unknown(String),
}

/// What is wrong with the end of an engine process, where something is.
pub open spec fn end_fault(end: EngineEnd) -> Option<ProcessFault> {
    match end {
        EngineEnd::Success => None,
        EngineEnd::Status(status) => Some(ProcessFault::Exited(status@)),
        EngineEnd::Unknown(cause) => Some(ProcessFault::NotAwaited(cause@)),
    }
}

/// What is made of the end of an engine process that was waited for.
pub fn run_engine_binary(end: EngineEnd) -> (outcome: Result<(), ProcessError>)
    ensures
        match outcome {
            Ok(_) => end_fault(end) is None,
            Err(error) => end_fault(end) == Some(error@),
        },
{
    match end {
        EngineEnd::Success => Ok(()),
        EngineEnd::Status(status) => Err(ProcessError::Exited(status)),
        EngineEnd::Unknown(cause) => Err(ProcessError::NotAwaited(cause)),
    }
}

/// What a restart of the engine asks for next.
#[derive(Debug, Clone, Copy, PartialEq, Eq, Structural)]
pub enum RestartStep {
    /// Tell whether the process still runs.
    Poll,
    /// Stop the process.
    Kill,
    /// Wait for the process that was stopped.
    Reap,
    /// Start the engine.
    Spawn,
    /// Nothing: the engine was restarted.
    Restarted,
}

/// What came of a step of a restart.
#[derive(Debug)]
pub enum RestartEvent {
    /// The process still runs.
    Running,
    /// The process has ended.
    Ended,
    /// The step was done.
    Done,
    /// The step failed, and why.
    Failed(String),
}

/// A [`RestartEvent`] with its text as a sequence.
pub enum Restarting {
    Running,
    Ended,
    Done,
    Failed(Seq<char>),
}

impl View for RestartEvent {
    type V = Restarting;

    open spec fn view(&self) -> Restarting {
        match self {
            RestartEvent::Running => Restarting::Running,
            RestartEvent::Ended => Restarting::Ended,
            RestartEvent::Done => Restarting::Done,
            RestartEvent::Failed(cause) => Restarting::Failed(cause@),
        }
    }
}

/// Whether an event is one that a step can have.
pub open spec fn restart_fits(step: RestartStep, event: Restarting) -> bool {
    match step {
        RestartStep::Poll => event is Running || event is Ended || event is Failed,
        RestartStep::Restarted => false,
        _ => event is Done || event is Failed,
    }
}

/// What follows an event. A process that has ended is not stopped again.
pub open spec fn restart_next(step: RestartStep, event: Restarting) -> Result<
    RestartStep,
    ProcessFault,
> {
    match (step, event) {
        (RestartStep::Poll, Restarting::Ended) => Ok(RestartStep::Spawn),
        (RestartStep::Poll, Restarting::Running) => Ok(RestartStep::Kill),
        (RestartStep::Kill, Restarting::Done) => Ok(RestartStep::Reap),
        (RestartStep::Reap, Restarting::Done) => Ok(RestartStep::Spawn),
        (RestartStep::Spawn, Restarting::Done) => Ok(RestartStep::Restarted),
        (RestartStep::Kill, Restarting::Failed(cause)) => Err(ProcessFault::NotStopped(cause)),
        (RestartStep::Reap, Restarting::Failed(cause)) => Err(ProcessFault::NotReaped(cause)),
        (RestartStep::Spawn, Restarting::Failed(cause)) => Err(ProcessFault::NotRestarted(cause)),
        (_, Restarting::Failed(cause)) => Err(ProcessFault::NotPolled(cause)),
        (_, _) => Err(ProcessFault::NotPolled(Seq::empty())),
    }
}

/// The first step of a restart: what still runs is found out before anything is
/// stopped or started.
pub fn restart_engine_child() -> (step: RestartStep)
    ensures
        step == RestartStep::Poll,
{
    RestartStep::Poll
}

impl RestartStep {
    /// Whether an event is one that the step can have.
    pub fn accepts(self, event: &RestartEvent) -> (fits: bool)
        ensures
            fits == restart_fits(self, event@),
    {
        match self {
            RestartStep::Poll => matches!(
                event,
                RestartEvent::Running | RestartEvent::Ended | RestartEvent::Failed(_)
            ),
            RestartStep::Restarted => false,
            _ => matches!(event, RestartEvent::Done | RestartEvent::Failed(_)),
        }
    }

    /// The step that follows an event.
    pub fn after(self, event: RestartEvent) -> (outcome: Result<RestartStep, ProcessError>)
        requires
            restart_fits(self, event@),
        ensures
            match restart_next(self, event@) {
                Ok(next) => outcome matches Ok(step) && step == next,
                Err(fault) => outcome matches Err(error) && error@ == fault,
            },
    {
        match (self, event) {
            (RestartStep::Poll, RestartEvent::Ended) => Ok(RestartStep::Spawn),
            (RestartStep::Poll, RestartEvent::Running) => Ok(RestartStep::Kill),
            (RestartStep::Kill, RestartEvent::Done) => Ok(RestartStep::Reap),
            (RestartStep::Reap, RestartEvent::Done) => Ok(RestartStep::Spawn),
            (RestartStep::Spawn, RestartEvent::Done) => Ok(RestartStep::Restarted),
            (RestartStep::Kill, RestartEvent::Failed(cause)) => Err(
                ProcessError::NotStopped(cause),
            ),
            (RestartStep::Reap, RestartEvent::Failed(cause)) => Err(
                ProcessError::NotReaped(cause),
            ),
            (RestartStep::Spawn, RestartEvent::Failed(cause)) => Err(
                ProcessError::NotRestarted(cause),
            ),
            (_, RestartEvent::Failed(cause)) => Err(ProcessError::NotPolled(cause)),
            (_, _) => Err(ProcessError::NotPolled(String::new())),
        }
    }
}

/// Where a restart stands after a sequence of events.
pub open spec fn restart_run(step: RestartStep, events: Seq<Restarting>) -> Result<
    RestartStep,
    ProcessFault,
>
    decreases events.len(),
{
    if events.len() == 0 {
        Ok(step)
    } else {
        match restart_next(step, events[0]) {
            Ok(next) => restart_run(next, events.skip(1)),
            Err(fault) => Err(fault),
        }
    }
}

/// A restart starts the engine only when the process that ran has ended: by
/// itself, or because it was stopped and reaped.
pub proof fn law_engine_starts_after_the_old_one_ended(events: Seq<Restarting>)
    ensures
        restart_run(RestartStep::Poll, events) == Ok::<RestartStep, ProcessFault>(
            RestartStep::Spawn,
        ) <==> {
            ||| events == seq![Restarting::Ended]
            ||| events == seq![Restarting::Running, Restarting::Done, Restarting::Done]
        },
{
    reveal_with_fuel(restart_run, 6);
    let ended = seq![Restarting::Ended];
    let stopped = seq![Restarting::Running, Restarting::Done, Restarting::Done];
    assert(ended.skip(1) =~= Seq::<Restarting>::empty());
    assert(stopped.skip(1).skip(1).skip(1) =~= Seq::<Restarting>::empty());
    let rest = events.skip(1);
    if restart_run(RestartStep::Poll, events) == Ok::<RestartStep, ProcessFault>(
        RestartStep::Spawn,
    ) {
        if events[0] is Ended {
            assert(rest.len() == 0);
            assert(events =~= ended);
        } else {
            assert(rest[0] == events[1]);
            assert(rest.skip(1)[0] == events[2]);
            assert(rest.skip(1).skip(1).len() == 0);
            assert(events =~= stopped);
        }
    }
}

/// An engine is restarted exactly when it was started anew: after the one that
/// ran had ended, or was stopped and reaped.
pub proof fn law_restart_ends_with_a_start(step: RestartStep, event: Restarting)
    requires
        restart_fits(step, event),
    ensures
        restart_next(step, event) == Ok::<RestartStep, ProcessFault>(RestartStep::Restarted)
            <==> step == RestartStep::Spawn && event is Done,
        restart_run(RestartStep::Poll, seq![Restarting::Ended, Restarting::Done]) == Ok::<
            RestartStep,
            ProcessFault,
        >(RestartStep::Restarted),
        restart_run(
            RestartStep::Poll,
            seq![Restarting::Running, Restarting::Done, Restarting::Done, Restarting::Done],
        ) == Ok::<RestartStep, ProcessFault>(RestartStep::Restarted),
{
    let ended = seq![Restarting::Ended, Restarting::Done];
    let stopped = seq![
        Restarting::Running,
        Restarting::Done,
        Restarting::Done,
        Restarting::Done,
    ];
    assert(ended.skip(1) =~= seq![Restarting::Done]);
    assert(stopped.skip(1) =~= seq![Restarting::Done, Restarting::Done, Restarting::Done]);
    assert(stopped.skip(1).skip(1) =~= seq![Restarting::Done, Restarting::Done]);
    assert(stopped.skip(1).skip(1).skip(1) =~= seq![Restarting::Done]);
    assert(seq![Restarting::Done].skip(1) =~= Seq::empty());
    reveal_with_fuel(restart_run, 5);
}

/// A process is stopped exactly where it still runs, and reaped exactly where it
/// was stopped.
pub proof fn law_only_a_running_process_is_stopped(step: RestartStep, event: Restarting)
    requires
        restart_fits(step, event),
    ensures
        restart_next(step, event) == Ok::<RestartStep, ProcessFault>(RestartStep::Kill) <==> event
            is Running,
        restart_next(step, event) == Ok::<RestartStep, ProcessFault>(RestartStep::Reap) <==> step
            == RestartStep::Kill && event is Done,
        restart_next(step, event) != Ok::<RestartStep, ProcessFault>(RestartStep::Poll),
{
}

/// A restart fails exactly where a step of it fails. The error tells which step
/// that was, and ends with why.
pub proof fn law_failed_restart_tells_why(step: RestartStep, event: Restarting)
    requires
        restart_fits(step, event),
    ensures
        restart_next(step, event) is Err <==> event is Failed,
        match (event, restart_next(step, event)) {
            (Restarting::Failed(why), Err(fault)) => {
                &&& fault == match step {
                    RestartStep::Poll => ProcessFault::NotPolled(why),
                    RestartStep::Kill => ProcessFault::NotStopped(why),
                    RestartStep::Reap => ProcessFault::NotReaped(why),
                    _ => ProcessFault::NotRestarted(why),
                }
                &&& ends(process_message(fault), why)
            },
            _ => true,
        },
{
    if let Restarting::Failed(why) = event {
        if let Err(fault) = restart_next(step, event) {
            let message = process_message(fault);
            assert(message.skip(message.len() - why.len()) =~= why);
        }
    }
}

/// What is said of an engine that cannot be run names the path and the cause, or
/// the status.
pub proof fn law_process_error_tells_why(path: Seq<char>, why: Seq<char>)
    ensures
        ends(process_message(ProcessFault::NoMetadata(why)), why),
        ends(process_message(ProcessFault::NotAwaited(why)), why),
        ends(process_message(ProcessFault::Exited(why)), why),
        ends(process_message(ProcessFault::NotLaunched { path, cause: why }), path + ": "@ + why),
        occurs_in(process_message(ProcessFault::NotFound(path)), path),
{
    let lost = process_message(ProcessFault::NoMetadata(why));
    let waited = process_message(ProcessFault::NotAwaited(why));
    let exited = process_message(ProcessFault::Exited(why));
    let launched = process_message(ProcessFault::NotLaunched { path, cause: why });
    let missing = process_message(ProcessFault::NotFound(path));
    let both = path + ": "@ + why;
    assert(lost.skip(lost.len() - why.len()) =~= why);
    assert(waited.skip(waited.len() - why.len()) =~= why);
    assert(exited.skip(exited.len() - why.len()) =~= why);
    assert(launched.skip(launched.len() - both.len()) =~= both);
    let at = "Engine binary not found at "@.len() as int;
    assert(missing.subrange(at, at + path.len()) =~= path);
    assert(occurs_at(missing, path, at));
}

/// The engine binary of a release and that of any other build are in two
/// directories next to each other, named after their profiles, and are called
/// alike.
pub proof fn law_engine_binary_is_one_of_its_profile(
    host: Host,
    target_directory: Seq<char>,
    bin: Seq<char>,
)
    ensures
        exists|file: Seq<char>|
            {
                &&& engine_binary(host, target_directory, true, bin) == #[trigger] path_join(
                    host,
                    path_join(host, target_directory, "release"@),
                    file,
                )
                &&& engine_binary(host, target_directory, false, bin) == path_join(
                    host,
                    path_join(host, target_directory, "debug"@),
                    file,
                )
                &&& file == match host {
                    Host::Unix => bin,
                    Host::Windows => bin + ".exe"@,
                }
            },
{
    let file = binary_name(bin, host);
    assert(engine_binary(host, target_directory, true, bin) == path_join(
        host,
        path_join(host, target_directory, "release"@),
        file,
    ));
}

/// Each event is one that can come where it was asked for: how the process fares
/// where it is polled, and that a step was done anywhere else. Any step but the
/// last may fail, and nothing follows that one.
pub proof fn law_restart_event_comes_where_it_was_asked_for(step: RestartStep, event: Restarting)
    ensures
        restart_fits(step, event) <==> step != RestartStep::Restarted && match event {
            Restarting::Running | Restarting::Ended => step == RestartStep::Poll,
            Restarting::Done => step != RestartStep::Poll,
            Restarting::Failed(_) => true,
        },
{
}

/// What is said of an engine process is the same for every path and cause but for
/// those themselves.
pub proof fn law_process_error_is_the_same_but_for_its_parts(path: Seq<char>, why: Seq<char>)
    ensures
        ({
            let none = Seq::<char>::empty();
            let colon = ": "@;
            let unlaunched = process_message(ProcessFault::NotLaunched { path: none, cause: none });
            &&& process_message(ProcessFault::NoMetadata(why)) == process_message(
                ProcessFault::NoMetadata(none),
            ) + why
            &&& process_message(ProcessFault::NotAwaited(why)) == process_message(
                ProcessFault::NotAwaited(none),
            ) + why
            &&& process_message(ProcessFault::Exited(why)) == process_message(
                ProcessFault::Exited(none),
            ) + why
            &&& process_message(ProcessFault::NotStopped(why)) == process_message(
                ProcessFault::NotStopped(none),
            ) + why
            &&& process_message(ProcessFault::NotReaped(why)) == process_message(
                ProcessFault::NotReaped(none),
            ) + why
            &&& process_message(ProcessFault::NotPolled(why)) == why
            &&& process_message(ProcessFault::NotRestarted(why)) == why
            &&& process_message(ProcessFault::NotLaunched { path, cause: why }) == unlaunched.take(
                unlaunched.len() - colon.len(),
            ) + path + colon + why
            &&& process_message(ProcessFault::NotFound(path)).len() == process_message(
                ProcessFault::NotFound(none),
            ).len() + path.len()
        }),
{
    let none = Seq::<char>::empty();
    let colon = ": "@;
    let unlaunched = process_message(ProcessFault::NotLaunched { path: none, cause: none });
    assert(process_message(ProcessFault::NoMetadata(why)) =~= process_message(
        ProcessFault::NoMetadata(none),
    ) + why);
    assert(process_message(ProcessFault::NotAwaited(why)) =~= process_message(
        ProcessFault::NotAwaited(none),
    ) + why);
    assert(process_message(ProcessFault::Exited(why)) =~= process_message(ProcessFault::Exited(none))
        + why);
    assert(process_message(ProcessFault::NotStopped(why)) =~= process_message(
        ProcessFault::NotStopped(none),
    ) + why);
    assert(process_message(ProcessFault::NotReaped(why)) =~= process_message(
        ProcessFault::NotReaped(none),
    ) + why);
    assert(process_message(ProcessFault::NotLaunched { path, cause: why }) =~= unlaunched.take(
        unlaunched.len() - colon.len(),
    ) + path + colon + why);
}

/// Nothing is wrong with an engine process exactly where it ended with success.
/// What is said of any other one ends with its status, or with why it could not be
/// waited for.
pub proof fn law_engine_ends_well_only_with_success(end: EngineEnd)
    ensures
        end_fault(end) is None <==> end is Success,
        end_fault(end) matches Some(fault) ==> match end {
            EngineEnd::Success => false,
            EngineEnd::Status(status) => fault is Exited && ends(process_message(fault), status@),
            EngineEnd::Unknown(cause) => fault is NotAwaited && ends(
                process_message(fault),
                cause@,
            ),
        },
{
    match end {
        EngineEnd::Success => {},
        EngineEnd::Status(status) => law_process_error_tells_why(Seq::empty(), status@),
        EngineEnd::Unknown(cause) => law_process_error_tells_why(Seq::empty(), cause@),
    }
}

} // verus!
