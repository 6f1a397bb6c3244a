//! Rebuilding a mod and restarting the engine when the project changes.
//!
//! The watch polls the engine, waits, scans the project, and on a change takes
//! the project through a reload. Each phase asks for one action, and what came
//! of the action decides on the next phase.

use vstd::prelude::*;

use crate::text::{concat, same_text};
use crate::watch::state::{FileStamp, WatchState};

verus! {

/// How many seconds the watch waits between two looks at the project.
pub const PAUSE_SECONDS: u64 = 1;

/// What the watch is about to ask for.
#[derive(Debug, Clone, Copy, PartialEq, Eq, Structural)]
pub enum Phase {
    /// Tell whether the engine still runs.
    Polling,
    /// Wait for [`PAUSE_SECONDS`].
    Sleeping,
    /// Scan the project.
    Scanning,
    /// Load the project anew.
    Reloading,
    /// Sync the engine checkout to the loaded project.
    Syncing,
    /// Build the engine of the loaded project.
    Building,
    /// Build and package the mod of the loaded project.
    Packaging,
    /// Install the package into the engine.
    Installing,
    /// Stop the engine and start that of the loaded project.
    Restarting,
}

/// What came of an action.
#[derive(Debug)]
pub enum WatchEvent {
    /// The engine runs.
    Running,
    /// The engine has ended, and with what status.
    Exited(String),
    /// What the scan found.
    Scanned(WatchState),
    /// The engine commit and the engine binary of the loaded project.
    Reloaded { commit: String, engine_bin: String },
    /// The action was done.
    Done,
    /// The action failed, and why.
    Failed(String),
}

/// A [`WatchEvent`] with its contents as mathematical values.
pub enum Happening {
    Running,
    Exited(Seq<char>),
    Scanned(Map<Seq<u8>, FileStamp>),
    Reloaded { commit: Seq<char>, engine_bin: Seq<char> },
    Done,
    Failed(Seq<char>),
}

impl View for WatchEvent {
    type V = Happening;

    open spec fn view(&self) -> Happening {
        match self {
            WatchEvent::Running => Happening::Running,
            WatchEvent::Exited(status) => Happening::Exited(status@),
            WatchEvent::Scanned(files) => Happening::Scanned(files@),
            WatchEvent::Reloaded { commit, engine_bin } => Happening::Reloaded {
                commit: commit@,
                engine_bin: engine_bin@,
            },
            WatchEvent::Done => Happening::Done,
            WatchEvent::Failed(cause) => Happening::Failed(cause@),
        }
    }
}

/// What the user is told.
#[derive(Debug)]
pub enum Notice {
    Nothing,
    ChangeDetected,
    ReloadFailed(String),
}

/// A [`Notice`] with its text as a sequence.
pub enum Told {
    Nothing,
    ChangeDetected,
    ReloadFailed(Seq<char>),
}

impl View for Notice {
    type V = Told;

    open spec fn view(&self) -> Told {
        match self {
            Notice::Nothing => Told::Nothing,
            Notice::ChangeDetected => Told::ChangeDetected,
            Notice::ReloadFailed(cause) => Told::ReloadFailed(cause@),
        }
    }
}

/// Why the watch ended.
#[derive(Debug)]
pub enum WatchStop {
    PollFailed(String),
    EngineExited(String),
    ScanFailed(String),
    LoadFailed(String),
}

/// A [`WatchStop`] with its text as a sequence.
pub enum Ending {
    PollFailed(Seq<char>),
    EngineExited(Seq<char>),
    ScanFailed(Seq<char>),
    LoadFailed(Seq<char>),
}

impl View for WatchStop {
    type V = Ending;

    open spec fn view(&self) -> Ending {
        match self {
            WatchStop::PollFailed(cause) => Ending::PollFailed(cause@),
            WatchStop::EngineExited(status) => Ending::EngineExited(status@),
            WatchStop::ScanFailed(cause) => Ending::ScanFailed(cause@),
            WatchStop::LoadFailed(cause) => Ending::LoadFailed(cause@),
        }
    }
}

/// What a [`WatchStop`] says.
pub open spec fn ending_message(ending: Ending) -> Seq<char> {
    match ending {
        Ending::PollFailed(cause) => "failed to poll Engine process: "@ + cause,
        Ending::EngineExited(status) => "Engine exited with status "@ + status,
        Ending::ScanFailed(cause) => cause,
        Ending::LoadFailed(cause) => "failed to reload project state after change: "@ + cause,
    }
}

impl WatchStop {
    /// What is said of it.
    pub fn message(&self) -> (message: String)
        ensures
            message@ == ending_message(self@),
    {
        match self {
            WatchStop::PollFailed(cause) => concat(
                "failed to poll Engine process: ",
                cause.as_str(),
            ),
            WatchStop::EngineExited(status) => concat(
                "Engine exited with status ",
                status.as_str(),
            ),
            WatchStop::ScanFailed(cause) => cause.clone(),
            WatchStop::LoadFailed(cause) => concat(
                "failed to reload project state after change: ",
                cause.as_str(),
            ),
        }
    }
}

/// A watch under way: what the engine that runs was built from, what was last
/// seen of the project, and what was last loaded of it.
#[derive(Debug)]
pub struct HotReload {
    commit: String,
    engine_bin: String,
    files: WatchState,
    loaded_commit: String,
    loaded_bin: String,
    phase: Phase,
}

/// Where a watch stands.
pub struct Watch {
    /// The commit of the engine that runs.
    pub commit: Seq<char>,
    /// The binary of the engine that runs.
    pub engine_bin: Seq<char>,
    /// What was last seen of the project.
    pub files: Map<Seq<u8>, FileStamp>,
    /// The engine commit of the project as last loaded.
    pub loaded_commit: Seq<char>,
    /// The engine binary of the project as last loaded.
    pub loaded_bin: Seq<char>,
    pub phase: Phase,
}

impl View for HotReload {
    type V = Watch;

    closed spec fn view(&self) -> Watch {
        Watch {
            commit: self.commit@,
            engine_bin: self.engine_bin@,
            files: self.files@,
            loaded_commit: self.loaded_commit@,
            loaded_bin: self.loaded_bin@,
            phase: self.phase,
        }
    }
}

/// Whether a phase is part of a reload.
pub open spec fn is_reload(phase: Phase) -> bool {
    match phase {
        Phase::Syncing
        | Phase::Building
        | Phase::Packaging
        | Phase::Installing
        | Phase::Restarting => true,
        _ => false,
    }
}

/// Whether an event is one that the action of a phase can have.
pub open spec fn event_fits(phase: Phase, event: Happening) -> bool {
    match phase {
        Phase::Polling => event is Running || event is Exited || event is Failed,
        Phase::Sleeping => event is Done,
        Phase::Scanning => event is Scanned || event is Failed,
        Phase::Reloading => event is Reloaded || event is Failed,
        _ => event is Done || event is Failed,
    }
}

/// What follows an event: where the watch then stands and what the user is
/// told, or why the watch ends.
///
/// The engine is synced and built anew only where the project asks for another
/// one than runs. A reload that fails is given up, and the watch goes on.
pub open spec fn watch_next(watch: Watch, event: Happening) -> Result<(Watch, Told), Ending> {
    match (watch.phase, event) {
        (Phase::Polling, Happening::Running) => Ok(
            (Watch { phase: Phase::Sleeping, ..watch }, Told::Nothing),
        ),
        (Phase::Polling, Happening::Exited(status)) => Err(Ending::EngineExited(status)),
        (Phase::Polling, Happening::Failed(cause)) => Err(Ending::PollFailed(cause)),
        (Phase::Sleeping, Happening::Done) => Ok(
            (Watch { phase: Phase::Scanning, ..watch }, Told::Nothing),
        ),
        (Phase::Scanning, Happening::Scanned(files)) => if files == watch.files {
            Ok((Watch { phase: Phase::Polling, ..watch }, Told::Nothing))
        } else {
            Ok((Watch { phase: Phase::Reloading, files, ..watch }, Told::ChangeDetected))
        },
        (Phase::Scanning, Happening::Failed(cause)) => Err(Ending::ScanFailed(cause)),
        (Phase::Reloading, Happening::Reloaded { commit, engine_bin }) => {
            let phase = if commit != watch.commit || engine_bin != watch.engine_bin {
                Phase::Syncing
            } else {
                Phase::Packaging
            };
            Ok(
                (
                    Watch { phase, loaded_commit: commit, loaded_bin: engine_bin, ..watch },
                    Told::Nothing,
                ),
            )
        },
        (Phase::Reloading, Happening::Failed(cause)) => Err(Ending::LoadFailed(cause)),
        (Phase::Syncing, Happening::Done) => Ok(
            (Watch { phase: Phase::Building, ..watch }, Told::Nothing),
        ),
        (Phase::Building, Happening::Done) => Ok(
            (Watch { phase: Phase::Packaging, ..watch }, Told::Nothing),
        ),
        (Phase::Packaging, Happening::Done) => Ok(
            (Watch { phase: Phase::Installing, ..watch }, Told::Nothing),
        ),
        (Phase::Installing, Happening::Done) => Ok(
            (Watch { phase: Phase::Restarting, ..watch }, Told::Nothing),
        ),
        (Phase::Restarting, Happening::Done) => Ok(
            (
                Watch {
                    phase: Phase::Polling,
                    commit: watch.loaded_commit,
                    engine_bin: watch.loaded_bin,
                    ..watch
                },
                Told::Nothing,
            ),
        ),
        (_, Happening::Failed(cause)) => Ok(
            (Watch { phase: Phase::Polling, ..watch }, Told::ReloadFailed(cause)),
        ),
        (_, _) => Ok((watch, Told::Nothing)),
    }
}

/// Where a watch stands that was just started.
pub open spec fn watch_start(
    commit: Seq<char>,
    engine_bin: Seq<char>,
    files: Map<Seq<u8>, FileStamp>,
) -> Watch {
    Watch {
        commit,
        engine_bin,
        files,
        loaded_commit: commit,
        loaded_bin: engine_bin,
        phase: Phase::Polling,
    }
}

/// Starts to watch a project whose engine was just started.
pub fn watch_and_restart(commit: &str, engine_bin: &str, files: WatchState) -> (watch: HotReload)
    requires
        files.wf(),
    ensures
        watch.wf(),
        watch@ == watch_start(commit@, engine_bin@, files@),
{
    HotReload {
        commit: commit.to_owned(),
        engine_bin: engine_bin.to_owned(),
        files,
        loaded_commit: commit.to_owned(),
        loaded_bin: engine_bin.to_owned(),
        phase: Phase::Polling,
    }
}

impl HotReload {
    /// Whether what was last seen of the project is well kept.
    pub closed spec fn wf(&self) -> bool {
        self.files.wf()
    }

    /// What the watch asks for next.
    pub fn phase(&self) -> (phase: Phase)
        ensures
            phase == self@.phase,
    {
        self.phase
    }

    /// The binary of the project as last loaded, which is built and started.
    pub fn loaded_bin(&self) -> (engine_bin: String)
        ensures
            engine_bin@ == self@.loaded_bin,
    {
        self.loaded_bin.clone()
    }

    /// Whether an event is one that the action of the current phase can have.
    pub fn accepts(&self, event: &WatchEvent) -> (fits: bool)
        ensures
            fits == event_fits(self@.phase, event@),
    {
        match self.phase {
            Phase::Polling => matches!(
                event,
                WatchEvent::Running | WatchEvent::Exited(_) | WatchEvent::Failed(_)
            ),
            Phase::Sleeping => matches!(event, WatchEvent::Done),
            Phase::Scanning => matches!(event, WatchEvent::Scanned(_) | WatchEvent::Failed(_)),
            Phase::Reloading => matches!(
                event,
                WatchEvent::Reloaded { .. } | WatchEvent::Failed(_)
            ),
            _ => matches!(event, WatchEvent::Done | WatchEvent::Failed(_)),
        }
    }

    /// Moves on to what follows an event. A watch that ends stays where it is.
    pub fn advance(&mut self, event: WatchEvent) -> (outcome: Result<Notice, WatchStop>)
        requires
            old(self).wf(),
            event_fits(old(self)@.phase, event@),
            event matches WatchEvent::Scanned(files) ==> files.wf(),
        ensures
            final(self).wf(),
            match watch_next(old(self)@, event@) {
                Ok((next, told)) => final(self)@ == next && (outcome matches Ok(notice) && notice@
                    == told),
                Err(ending) => final(self)@ == old(self)@ && (outcome matches Err(stop) && stop@
                    == ending),
            },
    {
        match (self.phase, event) {
            (Phase::Polling, WatchEvent::Running) => {
                self.phase = Phase::Sleeping;
                Ok(Notice::Nothing)
            },
            (Phase::Polling, WatchEvent::Exited(status)) => Err(WatchStop::EngineExited(status)),
            (Phase::Polling, WatchEvent::Failed(cause)) => Err(WatchStop::PollFailed(cause)),
            (Phase::Sleeping, WatchEvent::Done) => {
                self.phase = Phase::Scanning;
                Ok(Notice::Nothing)
            },
            (Phase::Scanning, WatchEvent::Scanned(files)) => {
                if files.same_as(&self.files) {
                    self.phase = Phase::Polling;
                    Ok(Notice::Nothing)
                } else {
                    self.files = files;
                    self.phase = Phase::Reloading;
                    Ok(Notice::ChangeDetected)
                }
            },
            (Phase::Scanning, WatchEvent::Failed(cause)) => Err(WatchStop::ScanFailed(cause)),
            (Phase::Reloading, WatchEvent::Reloaded { commit, engine_bin }) => {
                let same = same_text(commit.as_str(), self.commit.as_str()) && same_text(
                    engine_bin.as_str(),
                    self.engine_bin.as_str(),
                );
                self.loaded_commit = commit;
                self.loaded_bin = engine_bin;
                self.phase = if same {
                    Phase::Packaging
                } else {
                    Phase::Syncing
                };
                Ok(Notice::Nothing)
            },
            (Phase::Reloading, WatchEvent::Failed(cause)) => Err(WatchStop::LoadFailed(cause)),
            (Phase::Syncing, WatchEvent::Done) => {
                self.phase = Phase::Building;
                Ok(Notice::Nothing)
            },
            (Phase::Building, WatchEvent::Done) => {
                self.phase = Phase::Packaging;
                Ok(Notice::Nothing)
            },
            (Phase::Packaging, WatchEvent::Done) => {
                self.phase = Phase::Installing;
                Ok(Notice::Nothing)
            },
            (Phase::Installing, WatchEvent::Done) => {
                self.phase = Phase::Restarting;
                Ok(Notice::Nothing)
            },
            (Phase::Restarting, WatchEvent::Done) => {
                self.commit = self.loaded_commit.clone();
                self.engine_bin = self.loaded_bin.clone();
                self.phase = Phase::Polling;
                Ok(Notice::Nothing)
            },
            (_, WatchEvent::Failed(cause)) => {
                self.phase = Phase::Polling;
                Ok(Notice::ReloadFailed(cause))
            },
            (_, _) => Ok(Notice::Nothing),
        }
    }
}

/// Where a watch stands after a sequence of events that none of them ends.
pub open spec fn watch_run(watch: Watch, events: Seq<Happening>) -> Result<Watch, Ending>
    decreases events.len(),
{
    if events.len() == 0 {
        Ok(watch)
    } else {
        match watch_next(watch, events[0]) {
            Ok((next, _)) => watch_run(next, events.skip(1)),
            Err(ending) => Err(ending),
        }
    }
}

/// A scan that shows nothing new changes nothing, and the watch goes on.
pub proof fn law_unchanged_project_is_left_alone(watch: Watch)
    requires
        watch.phase == Phase::Scanning,
    ensures
        watch_next(watch, Happening::Scanned(watch.files)) == Ok::<(Watch, Told), Ending>(
            (Watch { phase: Phase::Polling, ..watch }, Told::Nothing),
        ),
{
}

/// Any difference between two scans leads to a reload, and only once: the same
/// scan seen again leads to nothing.
pub proof fn law_each_change_is_seen_once(watch: Watch, files: Map<Seq<u8>, FileStamp>)
    requires
        watch.phase == Phase::Scanning,
        files != watch.files,
    ensures
        watch_next(watch, Happening::Scanned(files)) matches Ok((next, told)) && {
            &&& next.phase == Phase::Reloading
            &&& told == Told::ChangeDetected
            &&& watch_next(Watch { phase: Phase::Scanning, ..next }, Happening::Scanned(files))
                matches Ok((later, Told::Nothing)) && later.phase == Phase::Polling
        },
{
}

/// A failed reload does not end the watch. What is known of the running engine
/// stays, and so does what was seen of the project.
pub proof fn law_failed_reload_is_given_up(watch: Watch, cause: Seq<char>)
    requires
        is_reload(watch.phase),
    ensures
        watch_next(watch, Happening::Failed(cause)) == Ok::<(Watch, Told), Ending>(
            (Watch { phase: Phase::Polling, ..watch }, Told::ReloadFailed(cause)),
        ),
{
}

/// After a failed reload the next change takes the project through all of it
/// again: an engine that was not replaced is synced and built once more.
pub proof fn law_failed_engine_change_is_tried_again(
    watch: Watch,
    cause: Seq<char>,
    files: Map<Seq<u8>, FileStamp>,
)
    requires
        is_reload(watch.phase),
        watch.loaded_commit != watch.commit || watch.loaded_bin != watch.engine_bin,
        files != watch.files,
    ensures
        watch_run(
            watch,
            seq![
                Happening::Failed(cause),
                Happening::Running,
                Happening::Done,
                Happening::Scanned(files),
                Happening::Reloaded { commit: watch.loaded_commit, engine_bin: watch.loaded_bin },
            ],
        ) == Ok::<Watch, Ending>(Watch { phase: Phase::Syncing, files, ..watch }),
{
    let reloaded = Happening::Reloaded {
        commit: watch.loaded_commit,
        engine_bin: watch.loaded_bin,
    };
    let e0 = seq![
        Happening::Failed(cause),
        Happening::Running,
        Happening::Done,
        Happening::Scanned(files),
        reloaded,
    ];
    assert(e0.skip(1) =~= seq![
        Happening::Running,
        Happening::Done,
        Happening::Scanned(files),
        reloaded,
    ]);
    assert(e0.skip(1).skip(1) =~= seq![Happening::Done, Happening::Scanned(files), reloaded]);
    assert(e0.skip(1).skip(1).skip(1) =~= seq![Happening::Scanned(files), reloaded]);
    assert(e0.skip(1).skip(1).skip(1).skip(1) =~= seq![reloaded]);
    assert(e0.skip(1).skip(1).skip(1).skip(1).skip(1) =~= Seq::empty());
    reveal_with_fuel(watch_run, 6);
}

/// The engine is synced and built exactly where the loaded project asks for
/// another commit or another binary than runs.
pub proof fn law_engine_is_rebuilt_where_it_changed(
    watch: Watch,
    commit: Seq<char>,
    engine_bin: Seq<char>,
)
    requires
        watch.phase == Phase::Reloading,
    ensures
        watch_next(watch, Happening::Reloaded { commit, engine_bin }) matches Ok((next, _)) && {
            &&& next.phase == Phase::Syncing <==> commit != watch.commit || engine_bin
                != watch.engine_bin
            &&& next.phase == Phase::Packaging <==> commit == watch.commit && engine_bin
                == watch.engine_bin
        },
{
}

/// A reload whose actions are all done ends with the engine of the loaded
/// project running, and the watch goes on.
pub proof fn law_finished_reload_runs_the_loaded_engine(watch: Watch)
    requires
        watch.phase == Phase::Packaging,
    ensures
        watch_run(watch, seq![Happening::Done, Happening::Done, Happening::Done]) == Ok::<
            Watch,
            Ending,
        >(
            Watch {
                phase: Phase::Polling,
                commit: watch.loaded_commit,
                engine_bin: watch.loaded_bin,
                ..watch
            },
        ),
{
    let events = seq![Happening::Done, Happening::Done, Happening::Done];
    assert(events.skip(1) =~= seq![Happening::Done, Happening::Done]);
    assert(events.skip(1).skip(1) =~= seq![Happening::Done]);
    assert(events.skip(1).skip(1).skip(1) =~= Seq::empty());
    reveal_with_fuel(watch_run, 4);
}

/// The watch ends only because the engine ended or could not be polled, or
/// because the project could not be scanned or loaded.
pub proof fn law_watch_ends_only_outside_a_reload(watch: Watch, event: Happening)
    requires
        event_fits(watch.phase, event),
        watch_next(watch, event) is Err,
    ensures
        !is_reload(watch.phase),
        event is Exited || event is Failed,
        event is Exited ==> watch.phase == Phase::Polling,
{
}

/// What is known of the running engine changes only when an engine was started
/// in its place, and is then what was last loaded.
pub proof fn law_running_engine_changes_only_with_a_restart(watch: Watch, event: Happening)
    requires
        event_fits(watch.phase, event),
    ensures
        watch_next(watch, event) matches Ok((next, _)) ==> if watch.phase == Phase::Restarting
            && event is Done {
            next.commit == watch.loaded_commit && next.engine_bin == watch.loaded_bin
        } else {
            next.commit == watch.commit && next.engine_bin == watch.engine_bin
        },
{
}

/// What is known of the loaded project changes only when it was loaded, and is
/// then what was loaded.
pub proof fn law_loaded_project_changes_only_with_a_load(watch: Watch, event: Happening)
    requires
        event_fits(watch.phase, event),
    ensures
        watch_next(watch, event) matches Ok((next, _)) ==> match event {
            Happening::Reloaded { commit, engine_bin } => next.loaded_commit == commit
                && next.loaded_bin == engine_bin,
            _ => next.loaded_commit == watch.loaded_commit && next.loaded_bin == watch.loaded_bin,
        },
{
}

/// What is known of the project's files changes only with a scan, and is then
/// what the scan found.
pub proof fn law_seen_files_change_only_with_a_scan(watch: Watch, event: Happening)
    requires
        event_fits(watch.phase, event),
    ensures
        watch_next(watch, event) matches Ok((next, _)) ==> match event {
            Happening::Scanned(files) => next.files == files,
            _ => next.files == watch.files,
        },
{
}

/// The user is told of a change exactly where a scan finds one, and of a failure
/// exactly where an action after the load fails; of that, why.
pub proof fn law_user_is_told_of_changes_and_failures(watch: Watch, event: Happening)
    requires
        event_fits(watch.phase, event),
    ensures
        watch_next(watch, event) matches Ok((_, told)) ==> {
            &&& told is ChangeDetected <==> (event matches Happening::Scanned(files) && files
                != watch.files)
            &&& told is ReloadFailed <==> event is Failed
            &&& told matches Told::ReloadFailed(why) ==> event == Happening::Failed(why)
        },
{
}

/// The watch ends exactly where the engine has ended, or where the engine, the
/// files or the project could not be looked at. What is said of it ends with the
/// engine's status or with the cause.
pub proof fn law_watch_ends_where_it_cannot_go_on(watch: Watch, event: Happening)
    requires
        event_fits(watch.phase, event),
    ensures
        watch_next(watch, event) is Err <==> {
            ||| event is Exited
            ||| event is Failed && (watch.phase == Phase::Polling || watch.phase == Phase::Scanning
                || watch.phase == Phase::Reloading)
        },
        watch_next(watch, event) matches Err(ending) ==> match event {
            Happening::Exited(status) => ending == Ending::EngineExited(status),
            Happening::Failed(cause) => match watch.phase {
                Phase::Polling => ending == Ending::PollFailed(cause),
                Phase::Scanning => ending == Ending::ScanFailed(cause),
                _ => ending == Ending::LoadFailed(cause),
            },
            _ => false,
        },
{
}

/// What is said when the watch ends is the same for every status and cause but
/// for that itself, which it ends with; a failed scan speaks for itself.
pub proof fn law_ending_tells_why(why: Seq<char>)
    ensures
        ({
            let none = Seq::<char>::empty();
            &&& ending_message(Ending::PollFailed(why)) == ending_message(Ending::PollFailed(none))
                + why
            &&& ending_message(Ending::EngineExited(why)) == ending_message(
                Ending::EngineExited(none),
            ) + why
            &&& ending_message(Ending::LoadFailed(why)) == ending_message(Ending::LoadFailed(none))
                + why
            &&& ending_message(Ending::ScanFailed(why)) == why
        }),
{
    let none = Seq::<char>::empty();
    assert(ending_message(Ending::PollFailed(why)) =~= ending_message(Ending::PollFailed(none))
        + why);
    assert(ending_message(Ending::EngineExited(why)) =~= ending_message(Ending::EngineExited(none))
        + why);
    assert(ending_message(Ending::LoadFailed(why)) =~= ending_message(Ending::LoadFailed(none))
        + why);
}

/// Each event is one that can come where it was asked for, and nowhere else:
/// what the engine does where it is polled, a scan where the files are scanned, a
/// loaded project where it is loaded. An action can be done or fail wherever it
/// is one, and only a wait never fails.
pub proof fn law_event_comes_where_it_was_asked_for(phase: Phase, event: Happening)
    ensures
        event_fits(phase, event) <==> match event {
            Happening::Running | Happening::Exited(_) => phase == Phase::Polling,
            Happening::Scanned(_) => phase == Phase::Scanning,
            Happening::Reloaded { .. } => phase == Phase::Reloading,
            Happening::Done => phase != Phase::Polling && phase != Phase::Scanning && phase
                != Phase::Reloading,
            Happening::Failed(_) => phase != Phase::Sleeping,
        },
{
}

/// The phases that a watch goes through, one after each event.
pub open spec fn phases_run(watch: Watch, events: Seq<Happening>) -> Seq<Phase>
    decreases events.len(),
{
    if events.len() == 0 {
        Seq::empty()
    } else {
        match watch_next(watch, events[0]) {
            Ok((next, _)) => seq![next.phase] + phases_run(next, events.skip(1)),
            Err(_) => Seq::empty(),
        }
    }
}

/// A number of actions that were done.
pub open spec fn all_done(count: nat) -> Seq<Happening> {
    Seq::new(count, |i: int| Happening::Done)
}

proof fn lemma_all_done()
    ensures
        forall|n: nat| #[trigger] all_done(n).len() == n,
        forall|n: nat| n > 0 ==> #[trigger] all_done(n)[0] == Happening::Done,
        forall|n: nat| n > 0 ==> #[trigger] all_done(n).skip(1) == all_done((n - 1) as nat),
{
    assert forall|n: nat| n > 0 implies #[trigger] all_done(n).skip(1) == all_done(
        (n - 1) as nat,
    ) by {
        assert(all_done(n).skip(1) =~= all_done((n - 1) as nat));
    }
}

/// A loaded project goes through all of its reload in order: where it asks for
/// another engine, that is synced and built first; then the mod is packaged and
/// installed, and the engine is restarted. The loaded engine is then the one
/// that runs.
pub proof fn law_reload_goes_through_its_phases_in_order(
    watch: Watch,
    commit: Seq<char>,
    engine_bin: Seq<char>,
)
    requires
        watch.phase == Phase::Reloading,
    ensures
        ({
            let loaded = Happening::Reloaded { commit, engine_bin };
            let rest = seq![
                Phase::Packaging,
                Phase::Installing,
                Phase::Restarting,
                Phase::Polling,
            ];
            let end = Watch {
                phase: Phase::Polling,
                commit,
                engine_bin,
                loaded_commit: commit,
                loaded_bin: engine_bin,
                files: watch.files,
            };
            if commit == watch.commit && engine_bin == watch.engine_bin {
                &&& phases_run(watch, seq![loaded] + all_done(3)) == rest
                &&& watch_run(watch, seq![loaded] + all_done(3)) == Ok::<Watch, Ending>(end)
            } else {
                &&& phases_run(watch, seq![loaded] + all_done(5)) == seq![
                    Phase::Syncing,
                    Phase::Building,
                ] + rest
                &&& watch_run(watch, seq![loaded] + all_done(5)) == Ok::<Watch, Ending>(end)
            }
        }),
{
    let loaded = Happening::Reloaded { commit, engine_bin };
    lemma_all_done();
    assert((seq![loaded] + all_done(3)).skip(1) =~= all_done(3));
    assert((seq![loaded] + all_done(5)).skip(1) =~= all_done(5));
    assert(all_done(5).skip(1) == all_done(4));
    assert(all_done(4).skip(1) == all_done(3));
    assert(all_done(3).skip(1) == all_done(2));
    assert(all_done(2).skip(1) == all_done(1));
    assert(all_done(1).skip(1) == all_done(0));
    reveal_with_fuel(watch_run, 7);
    reveal_with_fuel(phases_run, 7);
}

proof fn lemma_run_in_two(watch: Watch, first: Seq<Happening>, second: Seq<Happening>)
    ensures
        watch_run(watch, first + second) == match watch_run(watch, first) {
            Ok(between) => watch_run(between, second),
            Err(ending) => Err(ending),
        },
    decreases first.len(),
{
    if first.len() == 0 {
        assert(first + second =~= second);
    } else {
        assert((first + second)[0] == first[0]);
        assert((first + second).skip(1) =~= first.skip(1) + second);
        if let Ok((next, _)) = watch_next(watch, first[0]) {
            lemma_run_in_two(next, first.skip(1), second);
        }
    }
}

/// A project that asks for another engine than runs is synced again after a
/// reload of it that failed, in whichever of its phases that was: the next
/// change that loads the same engine starts with the sync.
pub proof fn law_engine_change_is_not_forgotten(
    watch: Watch,
    commit: Seq<char>,
    engine_bin: Seq<char>,
    done: nat,
    cause: Seq<char>,
    files: Map<Seq<u8>, FileStamp>,
)
    requires
        watch.phase == Phase::Reloading,
        commit != watch.commit || engine_bin != watch.engine_bin,
        done <= 4,
        files != watch.files,
    ensures
        ({
            let loaded = Happening::Reloaded { commit, engine_bin };
            let failed = seq![loaded] + all_done(done) + seq![Happening::Failed(cause)];
            let again = seq![
                Happening::Running,
                Happening::Done,
                Happening::Scanned(files),
                loaded,
            ];
            watch_run(watch, failed + again) matches Ok(end) && {
                &&& end.phase == Phase::Syncing
                &&& end.commit == watch.commit
                &&& end.engine_bin == watch.engine_bin
                &&& end.loaded_commit == commit
                &&& end.loaded_bin == engine_bin
            }
        }),
{
    let loaded = Happening::Reloaded { commit, engine_bin };
    let failed = seq![loaded] + all_done(done) + seq![Happening::Failed(cause)];
    let again = seq![Happening::Running, Happening::Done, Happening::Scanned(files), loaded];
    lemma_all_done();
    let begun = seq![loaded] + all_done(done);
    let failure = seq![Happening::Failed(cause)];
    assert(begun.skip(1) =~= all_done(done));
    assert(all_done(4).skip(1) == all_done(3));
    assert(all_done(3).skip(1) == all_done(2));
    assert(all_done(2).skip(1) == all_done(1));
    assert(all_done(1).skip(1) == all_done(0));
    assert(watch_run(watch, begun) matches Ok(between) && is_reload(between.phase)
        && between.commit == watch.commit && between.engine_bin == watch.engine_bin
        && between.loaded_commit == commit && between.loaded_bin == engine_bin && between.files
        == watch.files) by {
        reveal_with_fuel(watch_run, 6);
    }
    let between = watch_run(watch, begun)->Ok_0;
    lemma_run_in_two(watch, begun, failure + again);
    assert(begun + (failure + again) =~= failed + again);
    assert(failure + again =~= seq![
        Happening::Failed(cause),
        Happening::Running,
        Happening::Done,
        Happening::Scanned(files),
        Happening::Reloaded { commit: between.loaded_commit, engine_bin: between.loaded_bin },
    ]);
    law_failed_engine_change_is_tried_again(between, cause, files);
}

/// While nothing changes, the watch polls, waits and scans in turn, and stands
/// where it stood.
pub proof fn law_idle_watch_goes_round(watch: Watch)
    requires
        watch.phase == Phase::Polling,
    ensures
        ({
            let round = seq![
                Happening::Running,
                Happening::Done,
                Happening::Scanned(watch.files),
            ];
            &&& watch_run(watch, round) == Ok::<Watch, Ending>(watch)
            &&& phases_run(watch, round) == seq![Phase::Sleeping, Phase::Scanning, Phase::Polling]
        }),
{
    let round = seq![Happening::Running, Happening::Done, Happening::Scanned(watch.files)];
    assert(round.skip(1) =~= seq![Happening::Done, Happening::Scanned(watch.files)]);
    assert(round.skip(1).skip(1) =~= seq![Happening::Scanned(watch.files)]);
    assert(round.skip(1).skip(1).skip(1) =~= Seq::empty());
    reveal_with_fuel(watch_run, 4);
    reveal_with_fuel(phases_run, 4);
}

/// A watch that was just started polls the engine, and knows which engine runs
/// and what the files are: the first change that asks for no other engine goes
/// straight to packaging, and one that does goes to the sync.
pub proof fn law_fresh_watch_knows_the_engine(
    commit: Seq<char>,
    engine_bin: Seq<char>,
    files: Map<Seq<u8>, FileStamp>,
    changed: Map<Seq<u8>, FileStamp>,
    new_commit: Seq<char>,
    new_bin: Seq<char>,
)
    requires
        files != changed,
    ensures
        ({
            let start = watch_start(commit, engine_bin, files);
            let events = seq![
                Happening::Running,
                Happening::Done,
                Happening::Scanned(changed),
                Happening::Reloaded { commit: new_commit, engine_bin: new_bin },
            ];
            &&& start.phase == Phase::Polling
            &&& watch_run(start, events) matches Ok(end) && {
                &&& end.commit == commit
                &&& end.engine_bin == engine_bin
                &&& end.files == changed
                &&& end.phase == if new_commit == commit && new_bin == engine_bin {
                    Phase::Packaging
                } else {
                    Phase::Syncing
                }
            }
        }),
{
    let start = watch_start(commit, engine_bin, files);
    let loaded = Happening::Reloaded { commit: new_commit, engine_bin: new_bin };
    let events = seq![Happening::Running, Happening::Done, Happening::Scanned(changed), loaded];
    assert(events.skip(1) =~= seq![Happening::Done, Happening::Scanned(changed), loaded]);
    assert(events.skip(1).skip(1) =~= seq![Happening::Scanned(changed), loaded]);
    assert(events.skip(1).skip(1).skip(1) =~= seq![loaded]);
    assert(events.skip(1).skip(1).skip(1).skip(1) =~= Seq::empty());
    reveal_with_fuel(watch_run, 5);
}

} // verus!
