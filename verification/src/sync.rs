//! Bringing the engine checkout up to date.
//!
//! A sync keeps a bare mirror of the engine repository and a worktree of it at
//! the pinned commit. It is a sequence of steps: each asks for one action, and
//! what came of the action decides on the next step.

use vstd::prelude::*;
use vstd::utf8::{encode_utf8, valid_utf8};

use crate::command::{
    command_failure, git, git_words, succeeded, undecoded, CommandEnd, CommandLine, CommandWords,
};
use crate::host::Host;
use crate::path::{parent, path_parent};
use crate::shell::slice_views;
use crate::text::{concat, ends, occurs_at, occurs_in, same_text, trim, trimmed};

verus! {

/// What a sync works on.
#[derive(Debug)]
pub struct SyncTarget {
    pub host: Host,
    pub project_root: String,
    pub mirror_dir: String,
    pub worktree_dir: String,
    pub repo_url: String,
    pub commit: String,
}

/// The texts of a [`SyncTarget`].
pub struct Target {
    pub host: Host,
    pub project_root: Seq<char>,
    pub mirror_dir: Seq<char>,
    pub worktree_dir: Seq<char>,
    pub repo_url: Seq<char>,
    pub commit: Seq<char>,
}

impl View for SyncTarget {
    type V = Target;

    open spec fn view(&self) -> Target {
        Target {
            host: self.host,
            project_root: self.project_root@,
            mirror_dir: self.mirror_dir@,
            worktree_dir: self.worktree_dir@,
            repo_url: self.repo_url@,
            commit: self.commit@,
        }
    }
}

/// Where a sync stands: the step whose action comes next.
#[derive(Debug, Clone, Copy, PartialEq, Eq, Structural)]
pub enum SyncStep {
    CreateMirrorParent,
    ProbeMirror,
    CloneMirror,
    ReadRemote,
    SetRemote,
    FetchMirror,
    CheckCommit,
    FetchCommit,
    RecheckCommit,
    CreateWorktreeParent,
    ProbeWorktree,
    ReadHead,
    /// `head_matches` says whether the worktree is at the pinned commit.
    ReadStatus { head_matches: bool },
    RemoveWorktree,
    ProbeLeftover,
    DeleteLeftover,
    ProbeAgain,
    AddWorktree,
    VerifyHead,
    Finished,
}

/// What a step asks for.
#[derive(Debug)]
pub enum SyncAction {
    /// Create a directory and the directories above it.
    CreateDir(String),
    /// Tell whether a path exists.
    Exists(String),
    /// Run a command that has to succeed.
    Run(CommandLine),
    /// Run a command that has to succeed, and hand back what it printed.
    Capture(CommandLine),
    /// Run a command in silence, and tell whether it succeeded.
    Probe(CommandLine),
    /// Run a command, and tell whether it started and succeeded.
    Attempt(CommandLine),
    /// Delete a directory and all it holds.
    DeleteDir(String),
}

/// A [`SyncAction`] with its texts as sequences.
pub enum Request {
    CreateDir(Seq<char>),
    Exists(Seq<char>),
    Run(CommandWords),
    Capture(CommandWords),
    Probe(CommandWords),
    Attempt(CommandWords),
    DeleteDir(Seq<char>),
}

impl View for SyncAction {
    type V = Request;

    open spec fn view(&self) -> Request {
        match self {
            SyncAction::CreateDir(path) => Request::CreateDir(path@),
            SyncAction::Exists(path) => Request::Exists(path@),
            SyncAction::Run(command) => Request::Run(command@),
            SyncAction::Capture(command) => Request::Capture(command@),
            SyncAction::Probe(command) => Request::Probe(command@),
            SyncAction::Attempt(command) => Request::Attempt(command@),
            SyncAction::DeleteDir(path) => Request::DeleteDir(path@),
        }
    }
}

/// What came of an action.
#[derive(Debug)]
pub enum SyncEvent {
    /// The action was done.
    Done,
    /// The answer to a question.
    Answer(bool),
    /// What a command printed.
    Output(String),
    /// The action failed, and why.
    Failed(String),
}

/// A [`SyncEvent`] with its text as a sequence.
pub enum Reply {
    Done,
    Answer(bool),
    Output(Seq<char>),
    Failed(Seq<char>),
}

impl View for SyncEvent {
    type V = Reply;

    open spec fn view(&self) -> Reply {
        match self {
            SyncEvent::Done => Reply::Done,
            SyncEvent::Answer(yes) => Reply::Answer(*yes),
            SyncEvent::Output(text) => Reply::Output(text@),
            SyncEvent::Failed(cause) => Reply::Failed(cause@),
        }
    }
}

/// Why a sync stopped short.
#[derive(Debug)]
pub enum SyncError {
    InvalidMirrorPath { path: String },
    CreateDir { path: String, cause: String },
    Clone { repo_url: String, cause: String },
    InspectRemote { cause: String },
    SetRemote { repo_url: String, cause: String },
    Fetch { cause: String },
    CheckCommit { commit: String, mirror_dir: String, cause: String },
    FetchCommit { commit: String, cause: String },
    MissingCommit { commit: String },
    InvalidWorktreePath { path: String },
    RemoveDir { path: String, cause: String },
    AddWorktree { path: String, cause: String },
    VerifyHead { cause: String },
    WrongHead { found: String, commit: String },
}

/// A [`SyncError`] with its texts as sequences.
pub enum SyncFault {
    InvalidMirrorPath { path: Seq<char> },
    CreateDir { path: Seq<char>, cause: Seq<char> },
    Clone { repo_url: Seq<char>, cause: Seq<char> },
    InspectRemote { cause: Seq<char> },
    SetRemote { repo_url: Seq<char>, cause: Seq<char> },
    Fetch { cause: Seq<char> },
    CheckCommit { commit: Seq<char>, mirror_dir: Seq<char>, cause: Seq<char> },
    FetchCommit { commit: Seq<char>, cause: Seq<char> },
    MissingCommit { commit: Seq<char> },
    InvalidWorktreePath { path: Seq<char> },
    RemoveDir { path: Seq<char>, cause: Seq<char> },
    AddWorktree { path: Seq<char>, cause: Seq<char> },
    VerifyHead { cause: Seq<char> },
    WrongHead { found: Seq<char>, commit: Seq<char> },
}

impl View for SyncError {
    type V = SyncFault;

    open spec fn view(&self) -> SyncFault {
        match self {
            SyncError::InvalidMirrorPath { path } => SyncFault::InvalidMirrorPath { path: path@ },
            SyncError::CreateDir { path, cause } => SyncFault::CreateDir {
                path: path@,
                cause: cause@,
            },
            SyncError::Clone { repo_url, cause } => SyncFault::Clone {
                repo_url: repo_url@,
                cause: cause@,
            },
            SyncError::InspectRemote { cause } => SyncFault::InspectRemote { cause: cause@ },
            SyncError::SetRemote { repo_url, cause } => SyncFault::SetRemote {
                repo_url: repo_url@,
                cause: cause@,
            },
            SyncError::Fetch { cause } => SyncFault::Fetch { cause: cause@ },
            SyncError::CheckCommit { commit, mirror_dir, cause } => SyncFault::CheckCommit {
                commit: commit@,
                mirror_dir: mirror_dir@,
                cause: cause@,
            },
            SyncError::FetchCommit { commit, cause } => SyncFault::FetchCommit {
                commit: commit@,
                cause: cause@,
            },
            SyncError::MissingCommit { commit } => SyncFault::MissingCommit { commit: commit@ },
            SyncError::InvalidWorktreePath { path } => SyncFault::InvalidWorktreePath {
                path: path@,
            },
            SyncError::RemoveDir { path, cause } => SyncFault::RemoveDir {
                path: path@,
                cause: cause@,
            },
            SyncError::AddWorktree { path, cause } => SyncFault::AddWorktree {
                path: path@,
                cause: cause@,
            },
            SyncError::VerifyHead { cause } => SyncFault::VerifyHead { cause: cause@ },
            SyncError::WrongHead { found, commit } => SyncFault::WrongHead {
                found: found@,
                commit: commit@,
            },
        }
    }
}

/// The directory above a path; empty where there is none.
pub open spec fn directory_of(host: Host, path: Seq<char>) -> Seq<char> {
    match path_parent(host, path) {
        Some(directory) => directory,
        None => Seq::empty(),
    }
}

/// The name under which `git` finds a commit, and nothing else.
pub open spec fn commit_name(commit: Seq<char>) -> Seq<char> {
    commit + "^{commit}"@
}

/// What each step asks for.
pub open spec fn sync_request(target: Target, step: SyncStep) -> Option<Request> {
    let mirror = target.mirror_dir;
    let worktree = target.worktree_dir;
    match step {
        SyncStep::CreateMirrorParent => Some(Request::CreateDir(directory_of(target.host, mirror))),
        SyncStep::ProbeMirror => Some(Request::Exists(mirror)),
        SyncStep::CloneMirror => Some(
            Request::Run(
                git_words(
                    seq!["clone"@, "--mirror"@, target.repo_url, mirror],
                    target.project_root,
                ),
            ),
        ),
        SyncStep::ReadRemote => Some(
            Request::Capture(git_words(seq!["remote"@, "get-url"@, "origin"@], mirror)),
        ),
        SyncStep::SetRemote => Some(
            Request::Run(
                git_words(seq!["remote"@, "set-url"@, "origin"@, target.repo_url], mirror),
            ),
        ),
        SyncStep::FetchMirror => Some(
            Request::Run(git_words(seq!["fetch"@, "--prune"@, "origin"@], mirror)),
        ),
        SyncStep::CheckCommit | SyncStep::RecheckCommit => Some(
            Request::Probe(
                git_words(seq!["rev-parse"@, "--verify"@, commit_name(target.commit)], mirror),
            ),
        ),
        SyncStep::FetchCommit => Some(
            Request::Run(git_words(seq!["fetch"@, "origin"@, target.commit], mirror)),
        ),
        SyncStep::CreateWorktreeParent => Some(Request::CreateDir(directory_of(target.host, worktree))),
        SyncStep::ProbeWorktree | SyncStep::ProbeLeftover | SyncStep::ProbeAgain => Some(
            Request::Exists(worktree),
        ),
        SyncStep::ReadHead | SyncStep::VerifyHead => Some(
            Request::Capture(git_words(seq!["rev-parse"@, "HEAD"@], worktree)),
        ),
        SyncStep::ReadStatus { .. } => Some(
            Request::Capture(git_words(seq!["status"@, "--porcelain"@], worktree)),
        ),
        SyncStep::RemoveWorktree => Some(
            Request::Attempt(
                git_words(seq!["worktree"@, "remove"@, "--force"@, worktree], mirror),
            ),
        ),
        SyncStep::DeleteLeftover => Some(Request::DeleteDir(worktree)),
        SyncStep::AddWorktree => Some(
            Request::Run(
                git_words(
                    seq!["worktree"@, "add"@, "--detach"@, worktree, target.commit],
                    mirror,
                ),
            ),
        ),
        SyncStep::Finished => None,
    }
}

/// Whether a reply is one that the step's action can have. The outcome of a
/// question is an answer, that of a capture is an output, and that of any other
/// action is that it was done; each of them may fail, except for the questions
/// whether a path exists and whether an attempt succeeded.
pub open spec fn reply_fits(step: SyncStep, reply: Reply) -> bool {
    match step {
        SyncStep::CreateMirrorParent
        | SyncStep::CloneMirror
        | SyncStep::SetRemote
        | SyncStep::FetchMirror
        | SyncStep::FetchCommit
        | SyncStep::CreateWorktreeParent
        | SyncStep::DeleteLeftover
        | SyncStep::AddWorktree => reply is Done || reply is Failed,
        SyncStep::CheckCommit | SyncStep::RecheckCommit => reply is Answer || reply is Failed,
        SyncStep::ProbeMirror
        | SyncStep::ProbeWorktree
        | SyncStep::ProbeLeftover
        | SyncStep::ProbeAgain
        | SyncStep::RemoveWorktree => reply is Answer,
        SyncStep::ReadRemote
        | SyncStep::ReadHead
        | SyncStep::ReadStatus { .. }
        | SyncStep::VerifyHead => reply is Output || reply is Failed,
        SyncStep::Finished => false,
    }
}

/// The first step on the mirror.
pub open spec fn sync_start(target: Target) -> Result<SyncStep, SyncFault> {
    match path_parent(target.host, target.mirror_dir) {
        Some(_) => Ok(SyncStep::CreateMirrorParent),
        None => Err(SyncFault::InvalidMirrorPath { path: target.mirror_dir }),
    }
}

/// The first step on the worktree.
pub open spec fn worktree_start(target: Target) -> Result<SyncStep, SyncFault> {
    match path_parent(target.host, target.worktree_dir) {
        Some(_) => Ok(SyncStep::CreateWorktreeParent),
        None => Err(SyncFault::InvalidWorktreePath { path: target.worktree_dir }),
    }
}

/// The step that follows one on the mirror.
///
/// A missing mirror is cloned; one that is there is pointed at the engine's
/// url. Either way it is fetched, and the commit is fetched by name where that
/// did not bring it. That the mirror has the commit is made sure of in the end.
pub open spec fn mirror_next(target: Target, step: SyncStep, reply: Reply) -> Result<
    SyncStep,
    SyncFault,
> {
    match (step, reply) {
        (SyncStep::CreateMirrorParent, Reply::Failed(cause)) => Err(
            SyncFault::CreateDir { path: directory_of(target.host, target.mirror_dir), cause },
        ),
        (SyncStep::CreateMirrorParent, _) => Ok(SyncStep::ProbeMirror),
        (SyncStep::ProbeMirror, Reply::Answer(true)) => Ok(SyncStep::ReadRemote),
        (SyncStep::ProbeMirror, _) => Ok(SyncStep::CloneMirror),
        (SyncStep::CloneMirror, Reply::Failed(cause)) => Err(
            SyncFault::Clone { repo_url: target.repo_url, cause },
        ),
        (SyncStep::CloneMirror, _) => Ok(SyncStep::FetchMirror),
        (SyncStep::ReadRemote, Reply::Failed(cause)) => Err(SyncFault::InspectRemote { cause }),
        (SyncStep::ReadRemote, Reply::Output(url)) => if trimmed(url) == target.repo_url {
            Ok(SyncStep::FetchMirror)
        } else {
            Ok(SyncStep::SetRemote)
        },
        (SyncStep::SetRemote, Reply::Failed(cause)) => Err(
            SyncFault::SetRemote { repo_url: target.repo_url, cause },
        ),
        (SyncStep::SetRemote, _) => Ok(SyncStep::FetchMirror),
        (SyncStep::FetchMirror, Reply::Failed(cause)) => Err(SyncFault::Fetch { cause }),
        (SyncStep::FetchMirror, _) => Ok(SyncStep::CheckCommit),
        (SyncStep::FetchCommit, Reply::Failed(cause)) => Err(
            SyncFault::FetchCommit { commit: target.commit, cause },
        ),
        (SyncStep::FetchCommit, _) => Ok(SyncStep::RecheckCommit),
        (_, Reply::Failed(cause)) => Err(
            SyncFault::CheckCommit { commit: target.commit, mirror_dir: target.mirror_dir, cause },
        ),
        (SyncStep::CheckCommit, Reply::Answer(true)) => Ok(SyncStep::RecheckCommit),
        (SyncStep::CheckCommit, _) => Ok(SyncStep::FetchCommit),
        (SyncStep::RecheckCommit, Reply::Answer(true)) => worktree_start(target),
        (_, _) => Err(SyncFault::MissingCommit { commit: target.commit }),
    }
}

/// The step that follows one on the worktree.
///
/// A worktree that is there is kept only where it is clean and at the commit;
/// any other one is removed. One that is missing then is added. The sync is
/// finished when the worktree is at the commit.
pub open spec fn worktree_next(target: Target, step: SyncStep, reply: Reply) -> Result<
    SyncStep,
    SyncFault,
> {
    match (step, reply) {
        (SyncStep::CreateWorktreeParent, Reply::Failed(cause)) => Err(
            SyncFault::CreateDir { path: directory_of(target.host, target.worktree_dir), cause },
        ),
        (SyncStep::CreateWorktreeParent, _) => Ok(SyncStep::ProbeWorktree),
        (SyncStep::ProbeWorktree, Reply::Answer(true)) => Ok(SyncStep::ReadHead),
        (SyncStep::ProbeWorktree, _) => Ok(SyncStep::ProbeAgain),
        (SyncStep::ReadHead, Reply::Output(head)) => Ok(
            SyncStep::ReadStatus { head_matches: trimmed(head) == target.commit },
        ),
        (SyncStep::ReadHead, _) => Ok(SyncStep::ReadStatus { head_matches: false }),
        (SyncStep::ReadStatus { head_matches: true }, Reply::Output(status)) => if trimmed(
            status,
        ).len() == 0 {
            Ok(SyncStep::ProbeAgain)
        } else {
            Ok(SyncStep::RemoveWorktree)
        },
        (SyncStep::ReadStatus { .. }, _) => Ok(SyncStep::RemoveWorktree),
        (SyncStep::RemoveWorktree, Reply::Answer(true)) => Ok(SyncStep::ProbeAgain),
        (SyncStep::RemoveWorktree, _) => Ok(SyncStep::ProbeLeftover),
        (SyncStep::ProbeLeftover, Reply::Answer(true)) => Ok(SyncStep::DeleteLeftover),
        (SyncStep::ProbeLeftover, _) => Ok(SyncStep::ProbeAgain),
        (SyncStep::DeleteLeftover, Reply::Failed(cause)) => Err(
            SyncFault::RemoveDir { path: target.worktree_dir, cause },
        ),
        (SyncStep::DeleteLeftover, _) => Ok(SyncStep::ProbeAgain),
        (SyncStep::ProbeAgain, Reply::Answer(true)) => Ok(SyncStep::VerifyHead),
        (SyncStep::ProbeAgain, _) => Ok(SyncStep::AddWorktree),
        (SyncStep::AddWorktree, Reply::Failed(cause)) => Err(
            SyncFault::AddWorktree { path: target.worktree_dir, cause },
        ),
        (SyncStep::AddWorktree, _) => Ok(SyncStep::VerifyHead),
        (_, Reply::Failed(cause)) => Err(SyncFault::VerifyHead { cause }),
        (_, Reply::Output(head)) => if trimmed(head) == target.commit {
            Ok(SyncStep::Finished)
        } else {
            Err(SyncFault::WrongHead { found: trimmed(head), commit: target.commit })
        },
        (_, _) => Err(SyncFault::VerifyHead { cause: Seq::empty() }),
    }
}

/// Whether a step is one on the mirror.
pub open spec fn on_mirror(step: SyncStep) -> bool {
    match step {
        SyncStep::CreateMirrorParent
        | SyncStep::ProbeMirror
        | SyncStep::CloneMirror
        | SyncStep::ReadRemote
        | SyncStep::SetRemote
        | SyncStep::FetchMirror
        | SyncStep::CheckCommit
        | SyncStep::FetchCommit
        | SyncStep::RecheckCommit => true,
        _ => false,
    }
}

/// The step that follows a step and what came of its action.
pub open spec fn sync_next(target: Target, step: SyncStep, reply: Reply) -> Result<
    SyncStep,
    SyncFault,
> {
    if on_mirror(step) {
        mirror_next(target, step, reply)
    } else {
        worktree_next(target, step, reply)
    }
}

/// The outcome of a step, with its texts as sequences.
pub open spec fn stepped(outcome: Result<SyncStep, SyncError>) -> Result<SyncStep, SyncFault> {
    match outcome {
        Ok(step) => Ok(step),
        Err(error) => Err(error@),
    }
}

fn directory(host: Host, path: &str) -> (directory: String)
    ensures
        directory@ == directory_of(host, path@),
{
    match parent(host, path) {
        Some(directory) => directory,
        None => String::new(),
    }
}

fn start_worktree(target: &SyncTarget) -> (outcome: Result<SyncStep, SyncError>)
    ensures
        stepped(outcome) == worktree_start(target@),
{
    match parent(target.host, target.worktree_dir.as_str()) {
        Some(_) => Ok(SyncStep::CreateWorktreeParent),
        None => Err(SyncError::InvalidWorktreePath { path: target.worktree_dir.clone() }),
    }
}

fn step_on_mirror(target: &SyncTarget, step: SyncStep, event: SyncEvent) -> (outcome: Result<
    SyncStep,
    SyncError,
>)
    requires
        on_mirror(step),
        reply_fits(step, event@),
    ensures
        stepped(outcome) == mirror_next(target@, step, event@),
{
    match (step, event) {
        (SyncStep::CreateMirrorParent, SyncEvent::Failed(cause)) => Err(
            SyncError::CreateDir {
                path: directory(target.host, target.mirror_dir.as_str()),
                cause,
            },
        ),
        (SyncStep::CreateMirrorParent, _) => Ok(SyncStep::ProbeMirror),
        (SyncStep::ProbeMirror, SyncEvent::Answer(true)) => Ok(SyncStep::ReadRemote),
        (SyncStep::ProbeMirror, _) => Ok(SyncStep::CloneMirror),
        (SyncStep::CloneMirror, SyncEvent::Failed(cause)) => Err(
            SyncError::Clone { repo_url: target.repo_url.clone(), cause },
        ),
        (SyncStep::CloneMirror, _) => Ok(SyncStep::FetchMirror),
        (SyncStep::ReadRemote, SyncEvent::Failed(cause)) => Err(
            SyncError::InspectRemote { cause },
        ),
        (SyncStep::ReadRemote, SyncEvent::Output(url)) => if same_text(
            trim(url.as_str()).as_str(),
            target.repo_url.as_str(),
        ) {
            Ok(SyncStep::FetchMirror)
        } else {
            Ok(SyncStep::SetRemote)
        },
        (SyncStep::SetRemote, SyncEvent::Failed(cause)) => Err(
            SyncError::SetRemote { repo_url: target.repo_url.clone(), cause },
        ),
        (SyncStep::SetRemote, _) => Ok(SyncStep::FetchMirror),
        (SyncStep::FetchMirror, SyncEvent::Failed(cause)) => Err(SyncError::Fetch { cause }),
        (SyncStep::FetchMirror, _) => Ok(SyncStep::CheckCommit),
        (SyncStep::FetchCommit, SyncEvent::Failed(cause)) => Err(
            SyncError::FetchCommit { commit: target.commit.clone(), cause },
        ),
        (SyncStep::FetchCommit, _) => Ok(SyncStep::RecheckCommit),
        (_, SyncEvent::Failed(cause)) => Err(
            SyncError::CheckCommit {
                commit: target.commit.clone(),
                mirror_dir: target.mirror_dir.clone(),
                cause,
            },
        ),
        (SyncStep::CheckCommit, SyncEvent::Answer(true)) => Ok(SyncStep::RecheckCommit),
        (SyncStep::CheckCommit, _) => Ok(SyncStep::FetchCommit),
        (SyncStep::RecheckCommit, SyncEvent::Answer(true)) => start_worktree(target),
        (_, _) => Err(SyncError::MissingCommit { commit: target.commit.clone() }),
    }
}

fn step_on_worktree(target: &SyncTarget, step: SyncStep, event: SyncEvent) -> (outcome: Result<
    SyncStep,
    SyncError,
>)
    requires
        !on_mirror(step),
        reply_fits(step, event@),
    ensures
        stepped(outcome) == worktree_next(target@, step, event@),
{
    match (step, event) {
        (SyncStep::CreateWorktreeParent, SyncEvent::Failed(cause)) => Err(
            SyncError::CreateDir {
                path: directory(target.host, target.worktree_dir.as_str()),
                cause,
            },
        ),
        (SyncStep::CreateWorktreeParent, _) => Ok(SyncStep::ProbeWorktree),
        (SyncStep::ProbeWorktree, SyncEvent::Answer(true)) => Ok(SyncStep::ReadHead),
        (SyncStep::ProbeWorktree, _) => Ok(SyncStep::ProbeAgain),
        (SyncStep::ReadHead, SyncEvent::Output(head)) => Ok(
            SyncStep::ReadStatus {
                head_matches: same_text(trim(head.as_str()).as_str(), target.commit.as_str()),
            },
        ),
        (SyncStep::ReadHead, _) => Ok(SyncStep::ReadStatus { head_matches: false }),
        (SyncStep::ReadStatus { head_matches: true }, SyncEvent::Output(status)) => {
            if trim(status.as_str()).as_str().is_empty() {
                Ok(SyncStep::ProbeAgain)
            } else {
                Ok(SyncStep::RemoveWorktree)
            }
        },
        (SyncStep::ReadStatus { .. }, _) => Ok(SyncStep::RemoveWorktree),
        (SyncStep::RemoveWorktree, SyncEvent::Answer(true)) => Ok(SyncStep::ProbeAgain),
        (SyncStep::RemoveWorktree, _) => Ok(SyncStep::ProbeLeftover),
        (SyncStep::ProbeLeftover, SyncEvent::Answer(true)) => Ok(SyncStep::DeleteLeftover),
        (SyncStep::ProbeLeftover, _) => Ok(SyncStep::ProbeAgain),
        (SyncStep::DeleteLeftover, SyncEvent::Failed(cause)) => Err(
            SyncError::RemoveDir { path: target.worktree_dir.clone(), cause },
        ),
        (SyncStep::DeleteLeftover, _) => Ok(SyncStep::ProbeAgain),
        (SyncStep::ProbeAgain, SyncEvent::Answer(true)) => Ok(SyncStep::VerifyHead),
        (SyncStep::ProbeAgain, _) => Ok(SyncStep::AddWorktree),
        (SyncStep::AddWorktree, SyncEvent::Failed(cause)) => Err(
            SyncError::AddWorktree { path: target.worktree_dir.clone(), cause },
        ),
        (SyncStep::AddWorktree, _) => Ok(SyncStep::VerifyHead),
        (_, SyncEvent::Failed(cause)) => Err(SyncError::VerifyHead { cause }),
        (_, SyncEvent::Output(head)) => {
            let found = trim(head.as_str());
            if same_text(found.as_str(), target.commit.as_str()) {
                Ok(SyncStep::Finished)
            } else {
                Err(SyncError::WrongHead { found, commit: target.commit.clone() })
            }
        },
        (_, _) => Err(SyncError::VerifyHead { cause: String::new() }),
    }
}

/// What a [`SyncError`] says: what failed, and the cause where there is one.
pub open spec fn sync_message(fault: SyncFault) -> Seq<char> {
    match fault {
        SyncFault::InvalidMirrorPath { path } => "invalid mirror path "@ + path,
        SyncFault::CreateDir { path, cause } => "failed to create "@ + path + ": "@ + cause,
        SyncFault::Clone { repo_url, cause } => "failed to clone Engine mirror from "@ + repo_url
            + ": "@ + cause,
        SyncFault::InspectRemote { cause } => "failed to inspect Engine mirror origin URL"@ + ": "@
            + cause,
        SyncFault::SetRemote { repo_url, cause } => "failed to update Engine mirror origin to "@
            + repo_url + ": "@ + cause,
        SyncFault::Fetch { cause } => "failed to fetch Engine mirror"@ + ": "@ + cause,
        SyncFault::CheckCommit { commit, mirror_dir, cause } => "failed to verify commit "@ + commit
            + " in "@ + mirror_dir + ": "@ + cause,
        SyncFault::FetchCommit { commit, cause } => "failed to fetch Engine commit "@ + commit
            + ": "@ + cause,
        SyncFault::MissingCommit { commit } => "Engine mirror does not contain required commit "@
            + commit + " after fetch"@,
        SyncFault::InvalidWorktreePath { path } => "invalid worktree path "@ + path,
        SyncFault::RemoveDir { path, cause } => "failed to remove "@ + path + ": "@ + cause,
        SyncFault::AddWorktree { path, cause } => "failed to create Engine worktree at "@ + path
            + ": "@ + cause,
        SyncFault::VerifyHead { cause } => "failed to verify Engine worktree commit"@ + ": "@
            + cause,
        SyncFault::WrongHead { found, commit } => "Engine worktree is at "@ + found
            + ", expected "@ + commit,
    }
}

fn with_cause(context: &str, subject: &str, cause: &str) -> (message: String)
    ensures
        message@ == context@ + subject@ + ": "@ + cause@,
{
    let failure = concat(context, subject);
    concat(concat(failure.as_str(), ": ").as_str(), cause)
}

impl SyncError {
    /// What the error says.
    pub fn message(&self) -> (message: String)
        ensures
            message@ == sync_message(self@),
    {
        match self {
            SyncError::InvalidMirrorPath { path } => concat("invalid mirror path ", path.as_str()),
            SyncError::CreateDir { path, cause } => with_cause(
                "failed to create ",
                path.as_str(),
                cause.as_str(),
            ),
            SyncError::Clone { repo_url, cause } => with_cause(
                "failed to clone Engine mirror from ",
                repo_url.as_str(),
                cause.as_str(),
            ),
            SyncError::InspectRemote { cause } => concat(
                concat("failed to inspect Engine mirror origin URL", ": ").as_str(),
                cause.as_str(),
            ),
            SyncError::SetRemote { repo_url, cause } => with_cause(
                "failed to update Engine mirror origin to ",
                repo_url.as_str(),
                cause.as_str(),
            ),
            SyncError::Fetch { cause } => concat(
                concat("failed to fetch Engine mirror", ": ").as_str(),
                cause.as_str(),
            ),
            SyncError::CheckCommit { commit, mirror_dir, cause } => {
                let subject = concat("failed to verify commit ", commit.as_str());
                with_cause(
                    concat(subject.as_str(), " in ").as_str(),
                    mirror_dir.as_str(),
                    cause.as_str(),
                )
            },
            SyncError::FetchCommit { commit, cause } => with_cause(
                "failed to fetch Engine commit ",
                commit.as_str(),
                cause.as_str(),
            ),
            SyncError::MissingCommit { commit } => concat(
                concat(
                    "Engine mirror does not contain required commit ",
                    commit.as_str(),
                ).as_str(),
                " after fetch",
            ),
            SyncError::InvalidWorktreePath { path } => concat(
                "invalid worktree path ",
                path.as_str(),
            ),
            SyncError::RemoveDir { path, cause } => with_cause(
                "failed to remove ",
                path.as_str(),
                cause.as_str(),
            ),
            SyncError::AddWorktree { path, cause } => with_cause(
                "failed to create Engine worktree at ",
                path.as_str(),
                cause.as_str(),
            ),
            SyncError::VerifyHead { cause } => concat(
                concat("failed to verify Engine worktree commit", ": ").as_str(),
                cause.as_str(),
            ),
            SyncError::WrongHead { found, commit } => {
                let place = concat("Engine worktree is at ", found.as_str());
                concat(concat(place.as_str(), ", expected ").as_str(), commit.as_str())
            },
        }
    }
}

/// A sync under way.
#[derive(Debug)]
pub struct EngineSync {
    pub target: SyncTarget,
    pub step: SyncStep,
}

/// Starts a sync.
pub fn sync_engine(target: SyncTarget) -> (sync: Result<EngineSync, SyncError>)
    ensures
        match sync {
            Ok(sync) => sync.target == target && sync_start(target@) == Ok::<SyncStep, SyncFault>(
                sync.step,
            ),
            Err(error) => sync_start(target@) == Err::<SyncStep, SyncFault>(error@),
        },
{
    match parent(target.host, target.mirror_dir.as_str()) {
        Some(_) => Ok(EngineSync { target, step: SyncStep::CreateMirrorParent }),
        None => Err(SyncError::InvalidMirrorPath { path: target.mirror_dir }),
    }
}

impl EngineSync {
    /// What the current step asks for; nothing where the sync is finished.
    pub fn action(&self) -> (action: Option<SyncAction>)
        ensures
            match action {
                Some(action) => sync_request(self.target@, self.step) == Some(action@),
                None => sync_request(self.target@, self.step) is None,
            },
    {
        let mirror = self.target.mirror_dir.as_str();
        let worktree = self.target.worktree_dir.as_str();
        let repo_url = self.target.repo_url.as_str();
        let commit = self.target.commit.as_str();
        match self.step {
            SyncStep::CreateMirrorParent => Some(
                SyncAction::CreateDir(directory(self.target.host, mirror)),
            ),
            SyncStep::ProbeMirror => Some(SyncAction::Exists(mirror.to_owned())),
            SyncStep::CloneMirror => {
                let args = vec!["clone", "--mirror", repo_url, mirror];
                assert(slice_views(args@) =~= seq!["clone"@, "--mirror"@, repo_url@, mirror@]);
                Some(SyncAction::Run(git(&args, self.target.project_root.as_str())))
            },
            SyncStep::ReadRemote => {
                let args = vec!["remote", "get-url", "origin"];
                assert(slice_views(args@) =~= seq!["remote"@, "get-url"@, "origin"@]);
                Some(SyncAction::Capture(git(&args, mirror)))
            },
            SyncStep::SetRemote => {
                let args = vec!["remote", "set-url", "origin", repo_url];
                assert(slice_views(args@) =~= seq!["remote"@, "set-url"@, "origin"@, repo_url@]);
                Some(SyncAction::Run(git(&args, mirror)))
            },
            SyncStep::FetchMirror => {
                let args = vec!["fetch", "--prune", "origin"];
                assert(slice_views(args@) =~= seq!["fetch"@, "--prune"@, "origin"@]);
                Some(SyncAction::Run(git(&args, mirror)))
            },
            SyncStep::CheckCommit | SyncStep::RecheckCommit => {
                let name = concat(commit, "^{commit}");
                let args = vec!["rev-parse", "--verify", name.as_str()];
                assert(slice_views(args@) =~= seq!["rev-parse"@, "--verify"@, name@]);
                Some(SyncAction::Probe(git(&args, mirror)))
            },
            SyncStep::FetchCommit => {
                let args = vec!["fetch", "origin", commit];
                assert(slice_views(args@) =~= seq!["fetch"@, "origin"@, commit@]);
                Some(SyncAction::Run(git(&args, mirror)))
            },
            SyncStep::CreateWorktreeParent => Some(
                SyncAction::CreateDir(directory(self.target.host, worktree)),
            ),
            SyncStep::ProbeWorktree | SyncStep::ProbeLeftover | SyncStep::ProbeAgain => Some(
                SyncAction::Exists(worktree.to_owned()),
            ),
            SyncStep::ReadHead | SyncStep::VerifyHead => {
                let args = vec!["rev-parse", "HEAD"];
                assert(slice_views(args@) =~= seq!["rev-parse"@, "HEAD"@]);
                Some(SyncAction::Capture(git(&args, worktree)))
            },
            SyncStep::ReadStatus { .. } => {
                let args = vec!["status", "--porcelain"];
                assert(slice_views(args@) =~= seq!["status"@, "--porcelain"@]);
                Some(SyncAction::Capture(git(&args, worktree)))
            },
            SyncStep::RemoveWorktree => {
                let args = vec!["worktree", "remove", "--force", worktree];
                assert(slice_views(args@) =~= seq![
                    "worktree"@,
                    "remove"@,
                    "--force"@,
                    worktree@,
                ]);
                Some(SyncAction::Attempt(git(&args, mirror)))
            },
            SyncStep::DeleteLeftover => Some(SyncAction::DeleteDir(worktree.to_owned())),
            SyncStep::AddWorktree => {
                let args = vec!["worktree", "add", "--detach", worktree, commit];
                assert(slice_views(args@) =~= seq![
                    "worktree"@,
                    "add"@,
                    "--detach"@,
                    worktree@,
                    commit@,
                ]);
                Some(SyncAction::Run(git(&args, mirror)))
            },
            SyncStep::Finished => None,
        }
    }

    /// Whether an event is one that the action of the current step can have.
    pub fn accepts(&self, event: &SyncEvent) -> (fits: bool)
        ensures
            fits == reply_fits(self.step, event@),
    {
        match self.step {
            SyncStep::CreateMirrorParent
            | SyncStep::CloneMirror
            | SyncStep::SetRemote
            | SyncStep::FetchMirror
            | SyncStep::FetchCommit
            | SyncStep::CreateWorktreeParent
            | SyncStep::DeleteLeftover
            | SyncStep::AddWorktree => matches!(event, SyncEvent::Done | SyncEvent::Failed(_)),
            SyncStep::CheckCommit | SyncStep::RecheckCommit => matches!(
                event,
                SyncEvent::Answer(_) | SyncEvent::Failed(_)
            ),
            SyncStep::ProbeMirror
            | SyncStep::ProbeWorktree
            | SyncStep::ProbeLeftover
            | SyncStep::ProbeAgain
            | SyncStep::RemoveWorktree => matches!(event, SyncEvent::Answer(_)),
            SyncStep::ReadRemote
            | SyncStep::ReadHead
            | SyncStep::ReadStatus { .. }
            | SyncStep::VerifyHead => matches!(event, SyncEvent::Output(_) | SyncEvent::Failed(_)),
            SyncStep::Finished => false,
        }
    }

    /// Moves on to the step that follows what came of the action. A sync that
    /// cannot go on stays where it is.
    pub fn advance(&mut self, event: SyncEvent) -> (outcome: Result<(), SyncError>)
        requires
            reply_fits(old(self).step, event@),
        ensures
            final(self).target == old(self).target,
            match sync_next(old(self).target@, old(self).step, event@) {
                Ok(step) => outcome is Ok && final(self).step == step,
                Err(fault) => outcome matches Err(error) && error@ == fault && final(self).step
                    == old(self).step,
            },
    {
        let next = match self.step {
            SyncStep::CreateMirrorParent
            | SyncStep::ProbeMirror
            | SyncStep::CloneMirror
            | SyncStep::ReadRemote
            | SyncStep::SetRemote
            | SyncStep::FetchMirror
            | SyncStep::CheckCommit
            | SyncStep::FetchCommit
            | SyncStep::RecheckCommit => step_on_mirror(&self.target, self.step, event),
            _ => step_on_worktree(&self.target, self.step, event),
        };
        match next {
            Ok(step) => {
                self.step = step;
                Ok(())
            },
            Err(error) => Err(error),
        }
    }
}

/// The reply to a [`Request::Run`] whose command ended so.
pub open spec fn run_reply(command: CommandWords, end: CommandEnd) -> Reply {
    if succeeded(end) {
        Reply::Done
    } else {
        Reply::Failed(command_failure(command, end))
    }
}

/// The reply to a [`Request::Probe`] whose command ended so.
pub open spec fn probe_reply(end: CommandEnd) -> Reply {
    match end {
        CommandEnd::NotStarted(cause) => Reply::Failed(cause@),
        CommandEnd::Ended { success, .. } => Reply::Answer(success),
    }
}

/// The reply to a [`Request::Attempt`] whose command ended so.
pub open spec fn attempt_reply(end: CommandEnd) -> Reply {
    Reply::Answer(succeeded(end))
}

/// What comes of [`SyncAction::Run`].
pub fn run_event(command: &CommandLine, end: CommandEnd) -> (event: SyncEvent)
    ensures
        event@ == run_reply(command@, end),
{
    match command.ran(end) {
        Ok(()) => SyncEvent::Done,
        Err(message) => SyncEvent::Failed(message),
    }
}

/// What comes of [`SyncAction::Capture`].
pub fn capture_event(command: &CommandLine, end: CommandEnd, stdout: Vec<u8>) -> (event: SyncEvent)
    ensures
        match event@ {
            Reply::Output(text) => succeeded(end) && valid_utf8(stdout@) && encode_utf8(text)
                == stdout@,
            Reply::Failed(message) => if succeeded(end) {
                !valid_utf8(stdout@) && message == undecoded(stdout@)
            } else {
                message == command_failure(command@, end)
            },
            _ => false,
        },
{
    match command.captured(end, stdout) {
        Ok(output) => SyncEvent::Output(output),
        Err(message) => SyncEvent::Failed(message),
    }
}

/// What comes of [`SyncAction::Probe`]: only a command that does not start fails.
pub fn probe_event(end: CommandEnd) -> (event: SyncEvent)
    ensures
        event@ == probe_reply(end),
{
    match end {
        CommandEnd::NotStarted(cause) => SyncEvent::Failed(cause),
        CommandEnd::Ended { success, .. } => SyncEvent::Answer(success),
    }
}

/// What comes of [`SyncAction::Attempt`], which never fails.
pub fn attempt_event(end: CommandEnd) -> (event: SyncEvent)
    ensures
        event@ == attempt_reply(end),
{
    match end {
        CommandEnd::NotStarted(_) => SyncEvent::Answer(false),
        CommandEnd::Ended { success, .. } => SyncEvent::Answer(success),
    }
}

/// How many steps a sync has before it at most.
pub open spec fn steps_left(step: SyncStep) -> nat {
    match step {
        SyncStep::CreateMirrorParent => 18,
        SyncStep::ProbeMirror => 17,
        SyncStep::ReadRemote => 16,
        SyncStep::CloneMirror => 15,
        SyncStep::SetRemote => 15,
        SyncStep::FetchMirror => 14,
        SyncStep::CheckCommit => 13,
        SyncStep::FetchCommit => 12,
        SyncStep::RecheckCommit => 11,
        SyncStep::CreateWorktreeParent => 10,
        SyncStep::ProbeWorktree => 9,
        SyncStep::ReadHead => 8,
        SyncStep::ReadStatus { .. } => 7,
        SyncStep::RemoveWorktree => 6,
        SyncStep::ProbeLeftover => 5,
        SyncStep::DeleteLeftover => 4,
        SyncStep::ProbeAgain => 3,
        SyncStep::AddWorktree => 2,
        SyncStep::VerifyHead => 1,
        SyncStep::Finished => 0,
    }
}

/// Where a sync stands after a sequence of replies.
pub open spec fn sync_run(target: Target, step: SyncStep, replies: Seq<Reply>) -> Result<
    SyncStep,
    SyncFault,
>
    decreases replies.len(),
{
    if replies.len() == 0 {
        Ok(step)
    } else {
        match sync_next(target, step, replies[0]) {
            Ok(next) => sync_run(target, next, replies.skip(1)),
            Err(fault) => Err(fault),
        }
    }
}

/// Whether each reply of a sequence is one that the action before it can have.
pub open spec fn replies_fit(target: Target, step: SyncStep, replies: Seq<Reply>) -> bool
    decreases replies.len(),
{
    replies.len() > 0 ==> reply_fits(step, replies[0]) && match sync_next(
        target,
        step,
        replies[0],
    ) {
        Ok(next) => replies_fit(target, next, replies.skip(1)),
        Err(_) => replies.len() == 1,
    }
}

/// Whether a reply of a sequence says that the mirror has the commit in the end.
pub open spec fn commit_was_found(target: Target, step: SyncStep, replies: Seq<Reply>) -> bool
    decreases replies.len(),
{
    replies.len() > 0 && {
        ||| step == SyncStep::RecheckCommit && replies[0] == Reply::Answer(true)
        ||| match sync_next(target, step, replies[0]) {
            Ok(next) => commit_was_found(target, next, replies.skip(1)),
            Err(_) => false,
        }
    }
}

/// Each step of a sync brings it closer to its end.
pub proof fn law_each_step_gets_closer(target: Target, step: SyncStep, reply: Reply)
    requires
        reply_fits(step, reply),
        sync_next(target, step, reply) is Ok,
    ensures
        steps_left(sync_next(target, step, reply)->Ok_0) < steps_left(step),
{
}

/// Whatever comes of its actions, a sync ends, and after few steps.
pub proof fn law_sync_ends(target: Target, step: SyncStep, replies: Seq<Reply>)
    requires
        replies_fit(target, step, replies),
    ensures
        replies.len() <= steps_left(step),
        sync_run(target, step, replies) matches Ok(last) ==> replies.len() + steps_left(last)
            <= steps_left(step),
    decreases replies.len(),
{
    if replies.len() > 0 && sync_next(target, step, replies[0]) is Ok {
        law_each_step_gets_closer(target, step, replies[0]);
        law_sync_ends(target, sync_next(target, step, replies[0])->Ok_0, replies.skip(1));
    }
}

proof fn lemma_finished_run(target: Target, step: SyncStep, replies: Seq<Reply>)
    requires
        step != SyncStep::Finished,
        replies_fit(target, step, replies),
        sync_run(target, step, replies) == Ok::<SyncStep, SyncFault>(SyncStep::Finished),
    ensures
        replies.len() > 0,
        replies.last() matches Reply::Output(head) && trimmed(head) == target.commit,
        on_mirror(step) ==> commit_was_found(target, step, replies),
    decreases replies.len(),
{
    assert(replies.len() > 0);
    let next = sync_next(target, step, replies[0])->Ok_0;
    let rest = replies.skip(1);
    if next == SyncStep::Finished {
        assert(replies_fit(target, next, rest));
        assert(rest.len() == 0);
        assert(replies.last() == replies[0]);
    } else {
        lemma_finished_run(target, next, rest);
        assert(replies.last() == rest.last());
    }
}

/// A sync that finished left the worktree at the pinned commit, and the mirror
/// has that commit: both were seen.
pub proof fn law_finished_sync_is_at_the_commit(target: Target, replies: Seq<Reply>)
    requires
        replies_fit(target, SyncStep::CreateMirrorParent, replies),
        sync_run(target, SyncStep::CreateMirrorParent, replies) == Ok::<SyncStep, SyncFault>(
            SyncStep::Finished,
        ),
    ensures
        replies.len() > 0,
        replies.last() matches Reply::Output(head) && trimmed(head) == target.commit,
        commit_was_found(target, SyncStep::CreateMirrorParent, replies),
{
    lemma_finished_run(target, SyncStep::CreateMirrorParent, replies);
}

/// A worktree is removed only after it was read, and exactly where it is at
/// another commit, has changes, or could not be read. What `git` leaves of it
/// is deleted only where something is left.
pub proof fn law_only_a_stale_worktree_is_removed(target: Target, step: SyncStep, reply: Reply)
    requires
        reply_fits(step, reply),
    ensures
        sync_next(target, step, reply) == Ok::<SyncStep, SyncFault>(SyncStep::RemoveWorktree) <==> {
            &&& step matches SyncStep::ReadStatus { head_matches }
            &&& !(head_matches && (reply matches Reply::Output(status) && trimmed(status).len()
                == 0))
        },
        sync_next(target, step, reply) == Ok::<SyncStep, SyncFault>(SyncStep::DeleteLeftover)
            <==> step == SyncStep::ProbeLeftover && reply == Reply::Answer(true),
        sync_next(target, step, reply) == Ok::<SyncStep, SyncFault>(SyncStep::ProbeLeftover)
            <==> step == SyncStep::RemoveWorktree && reply == Reply::Answer(false),
{
}

/// The mirror is cloned exactly where it is missing, its url is changed exactly
/// where it differs, the commit is fetched by name exactly where it is missing
/// from the mirror, and a worktree is added exactly where there is none.
pub proof fn law_work_is_done_where_needed(target: Target, step: SyncStep, reply: Reply)
    requires
        reply_fits(step, reply),
    ensures
        sync_next(target, step, reply) == Ok::<SyncStep, SyncFault>(SyncStep::CloneMirror) <==> step
            == SyncStep::ProbeMirror && reply == Reply::Answer(false),
        sync_next(target, step, reply) == Ok::<SyncStep, SyncFault>(SyncStep::SetRemote) <==> step
            == SyncStep::ReadRemote && (reply matches Reply::Output(url) && trimmed(url)
            != target.repo_url),
        sync_next(target, step, reply) == Ok::<SyncStep, SyncFault>(SyncStep::FetchCommit) <==> step
            == SyncStep::CheckCommit && reply == Reply::Answer(false),
        sync_next(target, step, reply) == Ok::<SyncStep, SyncFault>(SyncStep::AddWorktree) <==> step
            == SyncStep::ProbeAgain && reply == Reply::Answer(false),
{
}

/// A failed action ends the sync, except where the worktree could not be read:
/// such a worktree is removed.
pub proof fn law_failure_ends_the_sync(target: Target, step: SyncStep, cause: Seq<char>)
    requires
        reply_fits(step, Reply::Failed(cause)),
    ensures
        sync_next(target, step, Reply::Failed(cause)) is Ok <==> step == SyncStep::ReadHead || step
            is ReadStatus,
        step == SyncStep::ReadHead ==> sync_next(target, step, Reply::Failed(cause)) == Ok::<
            SyncStep,
            SyncFault,
        >(SyncStep::ReadStatus { head_matches: false }),
        step is ReadStatus ==> sync_next(target, step, Reply::Failed(cause)) == Ok::<
            SyncStep,
            SyncFault,
        >(SyncStep::RemoveWorktree),
{
}

/// A worktree counts as being at the pinned commit exactly where its head could
/// be read and is that commit, white space around it aside.
pub proof fn law_head_is_compared_with_the_commit(target: Target, reply: Reply)
    requires
        reply_fits(SyncStep::ReadHead, reply),
    ensures
        sync_next(target, SyncStep::ReadHead, reply) matches Ok(next) && {
            &&& next matches SyncStep::ReadStatus { head_matches }
            &&& head_matches <==> (reply matches Reply::Output(head) && trimmed(head)
                == target.commit)
        },
{
}

/// A worktree that is there is removed exactly where its head is not the pinned
/// commit, where it has changes, or where one of the two could not be read. Any
/// other one is left as it is.
pub proof fn law_worktree_is_kept_where_clean_and_at_the_commit(
    target: Target,
    head: Reply,
    status: Reply,
)
    requires
        head is Output || head is Failed,
        status is Output || status is Failed,
    ensures
        ({
            let kept = {
                &&& head matches Reply::Output(text) && trimmed(text) == target.commit
                &&& status matches Reply::Output(text) && trimmed(text).len() == 0
            };
            let end = sync_run(
                target,
                SyncStep::ProbeWorktree,
                seq![Reply::Answer(true), head, status],
            );
            &&& end == Ok::<SyncStep, SyncFault>(SyncStep::RemoveWorktree) <==> !kept
            &&& end == Ok::<SyncStep, SyncFault>(SyncStep::ProbeAgain) <==> kept
        }),
{
    let replies = seq![Reply::Answer(true), head, status];
    assert(replies.skip(1) =~= seq![head, status]);
    assert(replies.skip(1).skip(1) =~= seq![status]);
    assert(replies.skip(1).skip(1).skip(1) =~= Seq::empty());
    reveal_with_fuel(sync_run, 4);
}

/// A worktree that is kept is neither removed nor added: its head is verified
/// next. One that is gone is added, and then its head is verified.
pub proof fn law_worktree_is_there_before_it_is_verified(target: Target, step: SyncStep)
    requires
        step == SyncStep::ProbeWorktree || step == SyncStep::ProbeLeftover,
    ensures
        sync_run(
            target,
            step,
            seq![Reply::Answer(false), Reply::Answer(true)],
        ) == Ok::<SyncStep, SyncFault>(SyncStep::VerifyHead),
        sync_run(
            target,
            step,
            seq![Reply::Answer(false), Reply::Answer(false), Reply::Done],
        ) == Ok::<SyncStep, SyncFault>(SyncStep::VerifyHead),
        sync_run(
            target,
            SyncStep::RemoveWorktree,
            seq![Reply::Answer(true), Reply::Answer(false), Reply::Done],
        ) == Ok::<SyncStep, SyncFault>(SyncStep::VerifyHead),
        sync_run(
            target,
            SyncStep::DeleteLeftover,
            seq![Reply::Done, Reply::Answer(false), Reply::Done],
        ) == Ok::<SyncStep, SyncFault>(SyncStep::VerifyHead),
{
    let no = Reply::Answer(false);
    let yes = Reply::Answer(true);
    assert(seq![no, yes].skip(1) =~= seq![yes]);
    assert(seq![yes].skip(1) =~= Seq::empty());
    assert(seq![no, no, Reply::Done].skip(1) =~= seq![no, Reply::Done]);
    assert(seq![yes, no, Reply::Done].skip(1) =~= seq![no, Reply::Done]);
    assert(seq![Reply::Done, no, Reply::Done].skip(1) =~= seq![no, Reply::Done]);
    assert(seq![no, Reply::Done].skip(1) =~= seq![Reply::Done]);
    assert(seq![Reply::Done].skip(1) =~= Seq::empty());
    reveal_with_fuel(sync_run, 4);
}

/// The mirror is fetched whether it was missing, at another url or as it should
/// be, and only then is the commit looked for.
pub proof fn law_mirror_is_fetched_before_the_commit_is_looked_for(target: Target, url: Seq<char>)
    ensures
        sync_run(
            target,
            SyncStep::CreateMirrorParent,
            seq![Reply::Done, Reply::Answer(false), Reply::Done],
        ) == Ok::<SyncStep, SyncFault>(SyncStep::FetchMirror),
        trimmed(url) == target.repo_url ==> sync_run(
            target,
            SyncStep::CreateMirrorParent,
            seq![Reply::Done, Reply::Answer(true), Reply::Output(url)],
        ) == Ok::<SyncStep, SyncFault>(SyncStep::FetchMirror),
        trimmed(url) != target.repo_url ==> sync_run(
            target,
            SyncStep::CreateMirrorParent,
            seq![Reply::Done, Reply::Answer(true), Reply::Output(url), Reply::Done],
        ) == Ok::<SyncStep, SyncFault>(SyncStep::FetchMirror),
        forall|step: SyncStep, reply: Reply|
            reply_fits(step, reply) ==> (#[trigger] sync_next(target, step, reply) == Ok::<
                SyncStep,
                SyncFault,
            >(SyncStep::CheckCommit) <==> step == SyncStep::FetchMirror && reply == Reply::Done),
{
    let yes = Reply::Answer(true);
    let no = Reply::Answer(false);
    let read = Reply::Output(url);
    assert(seq![Reply::Done, no, Reply::Done].skip(1) =~= seq![no, Reply::Done]);
    assert(seq![no, Reply::Done].skip(1) =~= seq![Reply::Done]);
    assert(seq![Reply::Done].skip(1) =~= Seq::empty());
    assert(seq![Reply::Done, yes, read].skip(1) =~= seq![yes, read]);
    assert(seq![yes, read].skip(1) =~= seq![read]);
    assert(seq![read].skip(1) =~= Seq::empty());
    assert(seq![Reply::Done, yes, read, Reply::Done].skip(1) =~= seq![yes, read, Reply::Done]);
    assert(seq![yes, read, Reply::Done].skip(1) =~= seq![read, Reply::Done]);
    assert(seq![read, Reply::Done].skip(1) =~= seq![Reply::Done]);
    reveal_with_fuel(sync_run, 5);
}

/// The worktree is turned to exactly after the mirror was seen to have the
/// commit, for the second time. Where it was not, the sync ends.
pub proof fn law_worktree_follows_the_commit(target: Target, reply: Reply)
    requires
        reply_fits(SyncStep::RecheckCommit, reply),
        path_parent(target.host, target.worktree_dir) is Some,
    ensures
        sync_next(target, SyncStep::RecheckCommit, reply) == Ok::<SyncStep, SyncFault>(
            SyncStep::CreateWorktreeParent,
        ) <==> reply == Reply::Answer(true),
        sync_next(target, SyncStep::RecheckCommit, reply) is Err <==> reply != Reply::Answer(true),
        sync_next(target, SyncStep::CheckCommit, Reply::Answer(true)) == Ok::<SyncStep, SyncFault>(
            SyncStep::RecheckCommit,
        ),
        sync_next(target, SyncStep::FetchCommit, Reply::Done) == Ok::<SyncStep, SyncFault>(
            SyncStep::RecheckCommit,
        ),
        sync_next(target, SyncStep::CreateWorktreeParent, Reply::Done) == Ok::<SyncStep, SyncFault>(
            SyncStep::ProbeWorktree,
        ),
{
}

/// A sync is finished exactly where the head that is read last is the pinned
/// commit, white space around it aside. Another head ends it with an error that
/// tells the two apart.
pub proof fn law_sync_is_finished_at_the_commit(target: Target, step: SyncStep, reply: Reply)
    requires
        reply_fits(step, reply),
    ensures
        sync_next(target, step, reply) == Ok::<SyncStep, SyncFault>(SyncStep::Finished) <==> {
            &&& step == SyncStep::VerifyHead
            &&& reply matches Reply::Output(head) && trimmed(head) == target.commit
        },
        match reply {
            Reply::Output(head) => step == SyncStep::VerifyHead && trimmed(head) != target.commit
                ==> sync_next(target, step, reply) == Err::<SyncStep, SyncFault>(
                SyncFault::WrongHead { found: trimmed(head), commit: target.commit },
            ),
            _ => true,
        },
{
}

/// A step is answered the way its request asks: a question by an answer, a
/// capture by an output, and anything else by being done. Whether a path exists
/// and whether an attempt succeeded is always answered; anything else may fail.
pub proof fn law_reply_answers_the_request(target: Target, step: SyncStep, reply: Reply)
    ensures
        reply_fits(step, reply) <==> match sync_request(target, step) {
            None => false,
            Some(Request::Exists(_)) | Some(Request::Attempt(_)) => reply is Answer,
            Some(Request::Probe(_)) => reply is Answer || reply is Failed,
            Some(Request::Capture(_)) => reply is Output || reply is Failed,
            Some(Request::CreateDir(_)) | Some(Request::Run(_)) | Some(Request::DeleteDir(_)) => reply
                is Done || reply is Failed,
        },
{
}

/// The command that a request asks for, where it asks for one.
pub open spec fn requested_command(request: Option<Request>) -> Option<CommandWords> {
    match request {
        Some(Request::Run(command)) => Some(command),
        Some(Request::Capture(command)) => Some(command),
        Some(Request::Probe(command)) => Some(command),
        Some(Request::Attempt(command)) => Some(command),
        _ => None,
    }
}

/// The path that a request asks for, where it asks for one.
pub open spec fn requested_path(request: Option<Request>) -> Option<Seq<char>> {
    match request {
        Some(Request::CreateDir(path)) => Some(path),
        Some(Request::Exists(path)) => Some(path),
        Some(Request::DeleteDir(path)) => Some(path),
        _ => None,
    }
}

/// Nothing but the mirror, the worktree and the directories above them is
/// looked at or created, and nothing but the worktree is deleted or removed.
/// Every command is a `git` command; only the clone, which makes the mirror,
/// runs outside the mirror and the worktree.
pub proof fn law_sync_keeps_to_its_directories(target: Target, step: SyncStep)
    requires
        path_parent(target.host, target.mirror_dir) is Some,
        path_parent(target.host, target.worktree_dir) is Some,
    ensures
        match sync_request(target, step) {
            Some(Request::CreateDir(path)) => path_parent(target.host, target.mirror_dir) == Some(
                path,
            ) || path_parent(target.host, target.worktree_dir) == Some(path),
            Some(Request::Exists(path)) => path == target.mirror_dir || path
                == target.worktree_dir,
            Some(Request::DeleteDir(path)) => path == target.worktree_dir,
            _ => true,
        },
        requested_command(sync_request(target, step)) matches Some(command) ==> {
            &&& command.program == "git"@
            &&& step != SyncStep::CloneMirror ==> command.dir == target.mirror_dir || command.dir
                == target.worktree_dir
            &&& step == SyncStep::CloneMirror ==> command.dir == target.project_root
        },
        on_mirror(step) && step != SyncStep::CloneMirror ==> (requested_command(
            sync_request(target, step),
        ) matches Some(command) ==> command.dir == target.mirror_dir),
{
}

/// Where a step asks for something that names the target, it names what it
/// should: the clone is made from the engine's url into the mirror, the mirror's
/// url becomes the engine's, it is the pinned commit that is looked for, fetched
/// and checked out, and it is the worktree that is removed, deleted and added.
pub proof fn law_requests_name_the_target(target: Target)
    ensures
        requested_command(sync_request(target, SyncStep::CloneMirror)) matches Some(clone)
            && clone.args.len() == 4 && clone.args[2] == target.repo_url && clone.args[3]
            == target.mirror_dir,
        requested_command(sync_request(target, SyncStep::SetRemote)) matches Some(set)
            && set.args.last() == target.repo_url,
        requested_command(sync_request(target, SyncStep::FetchCommit)) matches Some(fetch)
            && fetch.args.last() == target.commit,
        requested_command(sync_request(target, SyncStep::CheckCommit)) matches Some(check)
            && check.args.last() == target.commit + "^{commit}"@,
        sync_request(target, SyncStep::RecheckCommit) == sync_request(
            target,
            SyncStep::CheckCommit,
        ),
        sync_request(target, SyncStep::VerifyHead) == sync_request(target, SyncStep::ReadHead),
        requested_command(sync_request(target, SyncStep::RemoveWorktree)) matches Some(remove)
            && remove.args.last() == target.worktree_dir && remove.dir == target.mirror_dir,
        requested_command(sync_request(target, SyncStep::AddWorktree)) matches Some(added)
            && added.args.len() == 5 && added.args[3] == target.worktree_dir && added.args[4]
            == target.commit && added.dir == target.mirror_dir,
        requested_command(sync_request(target, SyncStep::ReadHead)) matches Some(read) && read.dir
            == target.worktree_dir,
        forall|head_matches: bool|
            requested_command(
                #[trigger] sync_request(target, SyncStep::ReadStatus { head_matches }),
            ) matches Some(read) && read.dir == target.worktree_dir,
        requested_path(sync_request(target, SyncStep::ProbeMirror)) == Some(target.mirror_dir),
        requested_path(sync_request(target, SyncStep::ProbeWorktree)) == Some(target.worktree_dir),
        requested_path(sync_request(target, SyncStep::ProbeLeftover)) == Some(target.worktree_dir),
        requested_path(sync_request(target, SyncStep::ProbeAgain)) == Some(target.worktree_dir),
        requested_path(sync_request(target, SyncStep::DeleteLeftover)) == Some(
            target.worktree_dir,
        ),
{
}

/// The directory above the mirror is created before the mirror, and that above
/// the worktree before the worktree.
pub proof fn law_directories_above_are_created(target: Target)
    ensures
        path_parent(target.host, target.mirror_dir) matches Some(directory) ==> requested_path(
            sync_request(target, SyncStep::CreateMirrorParent),
        ) == Some(directory),
        path_parent(target.host, target.worktree_dir) matches Some(directory) ==> requested_path(
            sync_request(target, SyncStep::CreateWorktreeParent),
        ) == Some(directory),
        sync_start(target) is Ok <==> path_parent(target.host, target.mirror_dir) is Some,
        sync_start(target) matches Ok(first) ==> first == SyncStep::CreateMirrorParent,
        sync_start(target) matches Err(fault) ==> (fault matches SyncFault::InvalidMirrorPath {
            path,
        } && path == target.mirror_dir),
        sync_next(target, SyncStep::RecheckCommit, Reply::Answer(true)) is Err <==> path_parent(
            target.host,
            target.worktree_dir,
        ) is None,
{
}

/// Whether two words stand for the same: both for one part of the target, or
/// both for themselves.
pub open spec fn stand_for_the_same(
    first: Target,
    word: Seq<char>,
    second: Target,
    other: Seq<char>,
) -> bool {
    ||| word == other
    ||| word == first.project_root && other == second.project_root
    ||| word == first.mirror_dir && other == second.mirror_dir
    ||| word == first.worktree_dir && other == second.worktree_dir
    ||| word == first.repo_url && other == second.repo_url
    ||| word == first.commit && other == second.commit
    ||| word == first.commit + "^{commit}"@ && other == second.commit + "^{commit}"@
}

/// Two syncs ask for the same commands at the same steps, but for the parts of
/// their targets.
pub proof fn law_commands_differ_in_the_target_alone(first: Target, second: Target, step: SyncStep)
    ensures
        match (sync_request(first, step), sync_request(second, step)) {
            (None, None) => true,
            (Some(Request::CreateDir(_)), Some(Request::CreateDir(_))) => true,
            (Some(Request::Exists(path)), Some(Request::Exists(other))) => stand_for_the_same(
                first,
                path,
                second,
                other,
            ),
            (Some(Request::DeleteDir(path)), Some(Request::DeleteDir(other))) => stand_for_the_same(
                first,
                path,
                second,
                other,
            ),
            (Some(Request::Run(_)), Some(Request::Run(_))) => true,
            (Some(Request::Capture(_)), Some(Request::Capture(_))) => true,
            (Some(Request::Probe(_)), Some(Request::Probe(_))) => true,
            (Some(Request::Attempt(_)), Some(Request::Attempt(_))) => true,
            _ => false,
        },
        match (
            requested_command(sync_request(first, step)),
            requested_command(sync_request(second, step)),
        ) {
            (Some(command), Some(other)) => {
                &&& command.program == other.program
                &&& stand_for_the_same(first, command.dir, second, other.dir)
                &&& command.args.len() == other.args.len()
                &&& forall|i: int|
                    0 <= i < command.args.len() ==> stand_for_the_same(
                        first,
                        #[trigger] command.args[i],
                        second,
                        other.args[i],
                    )
            },
            (None, None) => true,
            _ => false,
        },
{
}

/// Whether two replies say the same to two syncs: the same answer, or outputs
/// that agree on being the commit, the url, or nothing.
pub open spec fn say_the_same(first: Target, reply: Reply, second: Target, other: Reply) -> bool {
    match (reply, other) {
        (Reply::Done, Reply::Done) => true,
        (Reply::Answer(yes), Reply::Answer(too)) => yes == too,
        (Reply::Output(text), Reply::Output(printed)) => {
            &&& trimmed(text) == first.commit <==> trimmed(printed) == second.commit
            &&& trimmed(text) == first.repo_url <==> trimmed(printed) == second.repo_url
            &&& trimmed(text).len() == 0 <==> trimmed(printed).len() == 0
        },
        (Reply::Failed(_), Reply::Failed(_)) => true,
        _ => false,
    }
}

/// Two syncs that are told the same go the same way, whatever their targets are.
pub proof fn law_syncs_told_the_same_go_the_same_way(
    first: Target,
    reply: Reply,
    second: Target,
    other: Reply,
    step: SyncStep,
)
    requires
        reply_fits(step, reply),
        say_the_same(first, reply, second, other),
        path_parent(first.host, first.worktree_dir) is Some <==> path_parent(
            second.host,
            second.worktree_dir,
        ) is Some,
    ensures
        match (sync_next(first, step, reply), sync_next(second, step, other)) {
            (Ok(next), Ok(also)) => next == also,
            (Err(_), Err(_)) => true,
            _ => false,
        },
{
}

/// The error of a sync whose action failed ends with why it failed, behind a
/// colon and a blank.
pub proof fn law_failed_sync_tells_why(target: Target, step: SyncStep, cause: Seq<char>)
    requires
        reply_fits(step, Reply::Failed(cause)),
    ensures
        sync_next(target, step, Reply::Failed(cause)) matches Err(fault) ==> exists|
            context: Seq<char>,
        | sync_message(fault) == #[trigger] (context + ": "@ + cause),
{
    if let Err(fault) = sync_next(target, step, Reply::Failed(cause)) {
        let context = match fault {
            SyncFault::CreateDir { path, .. } => "failed to create "@ + path,
            SyncFault::Clone { repo_url, .. } => "failed to clone Engine mirror from "@ + repo_url,
            SyncFault::InspectRemote { .. } => "failed to inspect Engine mirror origin URL"@,
            SyncFault::SetRemote { repo_url, .. } => "failed to update Engine mirror origin to "@
                + repo_url,
            SyncFault::Fetch { .. } => "failed to fetch Engine mirror"@,
            SyncFault::CheckCommit { commit, mirror_dir, .. } => "failed to verify commit "@ + commit
                + " in "@ + mirror_dir,
            SyncFault::FetchCommit { commit, .. } => "failed to fetch Engine commit "@ + commit,
            SyncFault::RemoveDir { path, .. } => "failed to remove "@ + path,
            SyncFault::AddWorktree { path, .. } => "failed to create Engine worktree at "@ + path,
            _ => "failed to verify Engine worktree commit"@,
        };
        assert(sync_message(fault) == context + ": "@ + cause);
    }
}

/// What a sync that failed says is the same for every target and cause but for
/// the parts that it names, each of them in full: it is what it says of nothing,
/// with the parts put in.
pub proof fn law_sync_error_names_its_parts(subject: Seq<char>, place: Seq<char>, cause: Seq<char>)
    ensures
        ({
            let none = Seq::<char>::empty();
            let colon = ": "@;
            let said = |blank: Seq<char>| blank.take(blank.len() - colon.len()) + subject + colon + cause;
            &&& sync_message(SyncFault::InvalidMirrorPath { path: subject }) == sync_message(
                SyncFault::InvalidMirrorPath { path: none },
            ) + subject
            &&& sync_message(SyncFault::InvalidWorktreePath { path: subject }) == sync_message(
                SyncFault::InvalidWorktreePath { path: none },
            ) + subject
            &&& sync_message(SyncFault::InspectRemote { cause }) == sync_message(
                SyncFault::InspectRemote { cause: none },
            ) + cause
            &&& sync_message(SyncFault::Fetch { cause }) == sync_message(
                SyncFault::Fetch { cause: none },
            ) + cause
            &&& sync_message(SyncFault::VerifyHead { cause }) == sync_message(
                SyncFault::VerifyHead { cause: none },
            ) + cause
            &&& sync_message(SyncFault::CreateDir { path: subject, cause }) == said(
                sync_message(SyncFault::CreateDir { path: none, cause: none }),
            )
            &&& sync_message(SyncFault::Clone { repo_url: subject, cause }) == said(
                sync_message(SyncFault::Clone { repo_url: none, cause: none }),
            )
            &&& sync_message(SyncFault::SetRemote { repo_url: subject, cause }) == said(
                sync_message(SyncFault::SetRemote { repo_url: none, cause: none }),
            )
            &&& sync_message(SyncFault::FetchCommit { commit: subject, cause }) == said(
                sync_message(SyncFault::FetchCommit { commit: none, cause: none }),
            )
            &&& sync_message(SyncFault::RemoveDir { path: subject, cause }) == said(
                sync_message(SyncFault::RemoveDir { path: none, cause: none }),
            )
            &&& sync_message(SyncFault::AddWorktree { path: subject, cause }) == said(
                sync_message(SyncFault::AddWorktree { path: none, cause: none }),
            )
            &&& ends(
                sync_message(
                    SyncFault::CheckCommit { commit: subject, mirror_dir: place, cause },
                ),
                subject + " in "@ + place + colon + cause,
            )
            &&& occurs_in(
                sync_message(SyncFault::MissingCommit { commit: subject }),
                " "@ + subject + " "@,
            )
            &&& ends(
                sync_message(SyncFault::WrongHead { found: subject, commit: place }),
                subject + ", expected "@ + place,
            )
        }),
{
    let none = Seq::<char>::empty();
    let colon = ": "@;
    reveal_strlit(" ");
    reveal_strlit("Engine mirror does not contain required commit ");
    reveal_strlit(" after fetch");
    assert(sync_message(SyncFault::InvalidMirrorPath { path: subject }) =~= sync_message(
        SyncFault::InvalidMirrorPath { path: none },
    ) + subject);
    assert(sync_message(SyncFault::InvalidWorktreePath { path: subject }) =~= sync_message(
        SyncFault::InvalidWorktreePath { path: none },
    ) + subject);
    assert(sync_message(SyncFault::InspectRemote { cause }) =~= sync_message(
        SyncFault::InspectRemote { cause: none },
    ) + cause);
    assert(sync_message(SyncFault::Fetch { cause }) =~= sync_message(
        SyncFault::Fetch { cause: none },
    ) + cause);
    assert(sync_message(SyncFault::VerifyHead { cause }) =~= sync_message(
        SyncFault::VerifyHead { cause: none },
    ) + cause);
    let created = sync_message(SyncFault::CreateDir { path: none, cause: none });
    assert(sync_message(SyncFault::CreateDir { path: subject, cause }) =~= created.take(
        created.len() - colon.len(),
    ) + subject + colon + cause);
    let cloned = sync_message(SyncFault::Clone { repo_url: none, cause: none });
    assert(sync_message(SyncFault::Clone { repo_url: subject, cause }) =~= cloned.take(
        cloned.len() - colon.len(),
    ) + subject + colon + cause);
    let set = sync_message(SyncFault::SetRemote { repo_url: none, cause: none });
    assert(sync_message(SyncFault::SetRemote { repo_url: subject, cause }) =~= set.take(
        set.len() - colon.len(),
    ) + subject + colon + cause);
    let fetched = sync_message(SyncFault::FetchCommit { commit: none, cause: none });
    assert(sync_message(SyncFault::FetchCommit { commit: subject, cause }) =~= fetched.take(
        fetched.len() - colon.len(),
    ) + subject + colon + cause);
    let removed = sync_message(SyncFault::RemoveDir { path: none, cause: none });
    assert(sync_message(SyncFault::RemoveDir { path: subject, cause }) =~= removed.take(
        removed.len() - colon.len(),
    ) + subject + colon + cause);
    let added = sync_message(SyncFault::AddWorktree { path: none, cause: none });
    assert(sync_message(SyncFault::AddWorktree { path: subject, cause }) =~= added.take(
        added.len() - colon.len(),
    ) + subject + colon + cause);
    let checked = sync_message(SyncFault::CheckCommit { commit: subject, mirror_dir: place, cause });
    let tail = subject + " in "@ + place + colon + cause;
    assert(checked.skip(checked.len() - tail.len()) =~= tail);
    let missing = sync_message(SyncFault::MissingCommit { commit: subject });
    let named = " "@ + subject + " "@;
    assert(missing.subrange(46, 46 + named.len() as int) =~= named);
    assert(occurs_at(missing, named, 46));
    let wrong = sync_message(SyncFault::WrongHead { found: subject, commit: place });
    let both = subject + ", expected "@ + place;
    assert(wrong.skip(wrong.len() - both.len()) =~= both);
}

/// The error of a step whose action failed is that of the step: it names the
/// directory that was asked for, or the url, the commit or the checkout that the
/// step was about, and it holds the cause.
pub proof fn law_failed_step_is_told(target: Target, step: SyncStep, cause: Seq<char>)
    requires
        reply_fits(step, Reply::Failed(cause)),
    ensures
        match sync_next(target, step, Reply::Failed(cause)) {
            Ok(_) => true,
            Err(SyncFault::CreateDir { path, cause: why }) => {
                &&& step == SyncStep::CreateMirrorParent || step == SyncStep::CreateWorktreeParent
                &&& sync_request(target, step) == Some(Request::CreateDir(path))
                &&& why == cause
            },
            Err(SyncFault::Clone { repo_url, cause: why }) => step == SyncStep::CloneMirror
                && repo_url == target.repo_url && why == cause,
            Err(SyncFault::InspectRemote { cause: why }) => step == SyncStep::ReadRemote && why
                == cause,
            Err(SyncFault::SetRemote { repo_url, cause: why }) => step == SyncStep::SetRemote
                && repo_url == target.repo_url && why == cause,
            Err(SyncFault::Fetch { cause: why }) => step == SyncStep::FetchMirror && why == cause,
            Err(SyncFault::CheckCommit { commit, mirror_dir, cause: why }) => {
                &&& step == SyncStep::CheckCommit || step == SyncStep::RecheckCommit
                &&& commit == target.commit
                &&& mirror_dir == target.mirror_dir
                &&& why == cause
            },
            Err(SyncFault::FetchCommit { commit, cause: why }) => step == SyncStep::FetchCommit
                && commit == target.commit && why == cause,
            Err(SyncFault::RemoveDir { path, cause: why }) => sync_request(target, step) == Some(
                Request::DeleteDir(path),
            ) && why == cause,
            Err(SyncFault::AddWorktree { path, cause: why }) => step == SyncStep::AddWorktree
                && path == target.worktree_dir && why == cause,
            Err(SyncFault::VerifyHead { cause: why }) => step == SyncStep::VerifyHead && why
                == cause,
            Err(_) => false,
        },
{
}

/// A mirror without the commit is an error that names the commit, and a checkout
/// that would be in no directory is one that names the checkout.
pub proof fn law_what_is_missing_is_told(target: Target)
    ensures
        sync_next(target, SyncStep::RecheckCommit, Reply::Answer(false)) matches Err(
            SyncFault::MissingCommit { commit },
        ) && commit == target.commit,
        sync_next(target, SyncStep::RecheckCommit, Reply::Answer(true)) matches Err(fault) ==> (
        fault matches SyncFault::InvalidWorktreePath { path } && path == target.worktree_dir),
{
}

/// A command that has to succeed is done exactly where an attempt at it would
/// have succeeded. A probe of one that ended is answered as an attempt is; of one
/// that did not start, a probe fails with the cause, and an attempt did not
/// succeed.
pub proof fn law_replies_to_a_command_agree(command: CommandWords, end: CommandEnd)
    ensures
        attempt_reply(end) is Answer,
        run_reply(command, end) == Reply::Done <==> attempt_reply(end) == Reply::Answer(true),
        run_reply(command, end) != Reply::Done ==> run_reply(command, end) is Failed,
        match end {
            CommandEnd::NotStarted(cause) => probe_reply(end) == Reply::Failed(cause@)
                && attempt_reply(end) == Reply::Answer(false),
            CommandEnd::Ended { success, .. } => probe_reply(end) == attempt_reply(end)
                && attempt_reply(end) == Reply::Answer(success),
        },
{
}

/// What comes of a command is always something that the step which asked for it
/// can have.
pub proof fn law_reply_to_a_command_fits(target: Target, step: SyncStep, end: CommandEnd)
    ensures
        match sync_request(target, step) {
            Some(Request::Run(command)) => reply_fits(step, run_reply(command, end)),
            Some(Request::Probe(_)) => reply_fits(step, probe_reply(end)),
            Some(Request::Attempt(_)) => reply_fits(step, attempt_reply(end)),
            _ => true,
        },
{
}

/// The steps whose actions are asked for while a sequence of replies comes in.
pub open spec fn steps_taken(target: Target, step: SyncStep, replies: Seq<Reply>) -> Seq<SyncStep>
    decreases replies.len(),
{
    if replies.len() == 0 {
        Seq::empty()
    } else {
        match sync_next(target, step, replies[0]) {
            Ok(next) => seq![step] + steps_taken(target, next, replies.skip(1)),
            Err(_) => seq![step],
        }
    }
}

proof fn lemma_step_taken(target: Target, step: SyncStep, replies: Seq<Reply>, at: int)
    requires
        0 <= at < replies.len(),
        sync_next(target, step, replies[at]) is Ok,
    ensures
        sync_run(target, step, replies.skip(at)) == sync_run(
            target,
            sync_next(target, step, replies[at])->Ok_0,
            replies.skip(at + 1),
        ),
        steps_taken(target, step, replies.skip(at)) == seq![step] + steps_taken(
            target,
            sync_next(target, step, replies[at])->Ok_0,
            replies.skip(at + 1),
        ),
{
    assert(replies.skip(at)[0] == replies[at]);
    assert(replies.skip(at).skip(1) =~= replies.skip(at + 1));
}

/// A sync of a mirror and a checkout that are as they should be looks at both,
/// fetches the mirror, and changes nothing else.
#[verifier::rlimit(40)]
pub proof fn law_settled_sync_only_fetches(
    target: Target,
    url: Seq<char>,
    head: Seq<char>,
    status: Seq<char>,
)
    requires
        trimmed(url) == target.repo_url,
        trimmed(head) == target.commit,
        trimmed(status).len() == 0,
        path_parent(target.host, target.worktree_dir) is Some,
    ensures
        ({
            let replies = seq![
                Reply::Done,
                Reply::Answer(true),
                Reply::Output(url),
                Reply::Done,
                Reply::Answer(true),
                Reply::Answer(true),
                Reply::Done,
                Reply::Answer(true),
                Reply::Output(head),
                Reply::Output(status),
                Reply::Answer(true),
                Reply::Output(head),
            ];
            let steps = steps_taken(target, SyncStep::CreateMirrorParent, replies);
            &&& sync_run(target, SyncStep::CreateMirrorParent, replies) == Ok::<SyncStep, SyncFault>(
                SyncStep::Finished,
            )
            &&& steps.len() == 12
            &&& steps.contains(SyncStep::FetchMirror)
            &&& !steps.contains(SyncStep::CloneMirror)
            &&& !steps.contains(SyncStep::SetRemote)
            &&& !steps.contains(SyncStep::FetchCommit)
            &&& !steps.contains(SyncStep::RemoveWorktree)
            &&& !steps.contains(SyncStep::DeleteLeftover)
            &&& !steps.contains(SyncStep::AddWorktree)
        }),
{
    let replies = seq![
        Reply::Done,
        Reply::Answer(true),
        Reply::Output(url),
        Reply::Done,
        Reply::Answer(true),
        Reply::Answer(true),
        Reply::Done,
        Reply::Answer(true),
        Reply::Output(head),
        Reply::Output(status),
        Reply::Answer(true),
        Reply::Output(head),
    ];
    assert(replies.skip(0) =~= replies);
    lemma_step_taken(target, SyncStep::CreateMirrorParent, replies, 0);
    lemma_step_taken(target, SyncStep::ProbeMirror, replies, 1);
    lemma_step_taken(target, SyncStep::ReadRemote, replies, 2);
    lemma_step_taken(target, SyncStep::FetchMirror, replies, 3);
    lemma_step_taken(target, SyncStep::CheckCommit, replies, 4);
    lemma_step_taken(target, SyncStep::RecheckCommit, replies, 5);
    lemma_step_taken(target, SyncStep::CreateWorktreeParent, replies, 6);
    lemma_step_taken(target, SyncStep::ProbeWorktree, replies, 7);
    lemma_step_taken(target, SyncStep::ReadHead, replies, 8);
    lemma_step_taken(target, SyncStep::ReadStatus { head_matches: true }, replies, 9);
    lemma_step_taken(target, SyncStep::ProbeAgain, replies, 10);
    lemma_step_taken(target, SyncStep::VerifyHead, replies, 11);
    assert(replies.skip(12) =~= Seq::empty());
    let steps = steps_taken(target, SyncStep::CreateMirrorParent, replies);
    assert(steps =~= seq![
        SyncStep::CreateMirrorParent,
        SyncStep::ProbeMirror,
        SyncStep::ReadRemote,
        SyncStep::FetchMirror,
        SyncStep::CheckCommit,
        SyncStep::RecheckCommit,
        SyncStep::CreateWorktreeParent,
        SyncStep::ProbeWorktree,
        SyncStep::ReadHead,
        SyncStep::ReadStatus { head_matches: true },
        SyncStep::ProbeAgain,
        SyncStep::VerifyHead,
    ]);
    assert(steps[3] == SyncStep::FetchMirror);
}

/// A first sync clones the mirror, fetches it, and adds the checkout; there is
/// nothing to remove.
#[verifier::rlimit(40)]
pub proof fn law_first_sync_clones_and_checks_out(target: Target, head: Seq<char>)
    requires
        trimmed(head) == target.commit,
        path_parent(target.host, target.worktree_dir) is Some,
    ensures
        ({
            let replies = seq![
                Reply::Done,
                Reply::Answer(false),
                Reply::Done,
                Reply::Done,
                Reply::Answer(true),
                Reply::Answer(true),
                Reply::Done,
                Reply::Answer(false),
                Reply::Answer(false),
                Reply::Done,
                Reply::Output(head),
            ];
            let steps = steps_taken(target, SyncStep::CreateMirrorParent, replies);
            &&& sync_run(target, SyncStep::CreateMirrorParent, replies) == Ok::<SyncStep, SyncFault>(
                SyncStep::Finished,
            )
            &&& steps.len() == 11
            &&& steps.contains(SyncStep::CloneMirror)
            &&& steps.contains(SyncStep::FetchMirror)
            &&& steps.contains(SyncStep::AddWorktree)
            &&& !steps.contains(SyncStep::RemoveWorktree)
            &&& !steps.contains(SyncStep::DeleteLeftover)
        }),
{
    let replies = seq![
        Reply::Done,
        Reply::Answer(false),
        Reply::Done,
        Reply::Done,
        Reply::Answer(true),
        Reply::Answer(true),
        Reply::Done,
        Reply::Answer(false),
        Reply::Answer(false),
        Reply::Done,
        Reply::Output(head),
    ];
    assert(replies.skip(0) =~= replies);
    lemma_step_taken(target, SyncStep::CreateMirrorParent, replies, 0);
    lemma_step_taken(target, SyncStep::ProbeMirror, replies, 1);
    lemma_step_taken(target, SyncStep::CloneMirror, replies, 2);
    lemma_step_taken(target, SyncStep::FetchMirror, replies, 3);
    lemma_step_taken(target, SyncStep::CheckCommit, replies, 4);
    lemma_step_taken(target, SyncStep::RecheckCommit, replies, 5);
    lemma_step_taken(target, SyncStep::CreateWorktreeParent, replies, 6);
    lemma_step_taken(target, SyncStep::ProbeWorktree, replies, 7);
    lemma_step_taken(target, SyncStep::ProbeAgain, replies, 8);
    lemma_step_taken(target, SyncStep::AddWorktree, replies, 9);
    lemma_step_taken(target, SyncStep::VerifyHead, replies, 10);
    assert(replies.skip(11) =~= Seq::empty());
    let steps = steps_taken(target, SyncStep::CreateMirrorParent, replies);
    assert(steps =~= seq![
        SyncStep::CreateMirrorParent,
        SyncStep::ProbeMirror,
        SyncStep::CloneMirror,
        SyncStep::FetchMirror,
        SyncStep::CheckCommit,
        SyncStep::RecheckCommit,
        SyncStep::CreateWorktreeParent,
        SyncStep::ProbeWorktree,
        SyncStep::ProbeAgain,
        SyncStep::AddWorktree,
        SyncStep::VerifyHead,
    ]);
    assert(steps[2] == SyncStep::CloneMirror);
    assert(steps[3] == SyncStep::FetchMirror);
    assert(steps[9] == SyncStep::AddWorktree);
}

/// Every sync that finished fetched the mirror.
pub proof fn law_finished_sync_fetched_the_mirror(
    target: Target,
    step: SyncStep,
    replies: Seq<Reply>,
)
    requires
        replies_fit(target, step, replies),
        sync_run(target, step, replies) == Ok::<SyncStep, SyncFault>(SyncStep::Finished),
        steps_left(step) >= steps_left(SyncStep::FetchMirror),
    ensures
        steps_taken(target, step, replies).contains(SyncStep::FetchMirror),
    decreases replies.len(),
{
    let next = sync_next(target, step, replies[0])->Ok_0;
    let steps = steps_taken(target, step, replies);
    let rest = steps_taken(target, next, replies.skip(1));
    assert(steps =~= seq![step] + rest);
    if step == SyncStep::FetchMirror {
        assert(steps[0] == SyncStep::FetchMirror);
    } else {
        law_finished_sync_fetched_the_mirror(target, next, replies.skip(1));
        let i = choose|i: int| 0 <= i < rest.len() && rest[i] == SyncStep::FetchMirror;
        assert(steps[i + 1] == SyncStep::FetchMirror);
    }
}

} // verus!
