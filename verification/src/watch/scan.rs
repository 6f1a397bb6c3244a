//! Reading the files of a project, directory by directory.
//!
//! A scan keeps the directories and entries that are still to be looked at.
//! Each request is for the one on top; what was read decides on what joins
//! them. What is left out of the watch is never asked for.

use vstd::prelude::*;

use crate::host::{lemma_names_are_unseparated, lists, names, path_separators, Host};
use crate::text::{concat, concat3, ends};
use crate::watch::ignore::{
    anchor, behind_root, below, components, copy_bytes, inside, is_generated, is_ignored,
    reads_alike, seen_from, should_ignore_watch_path, BACKSLASH, SLASH,
};
use crate::watch::state::{FileStamp, WatchState};

verus! {

/// What separates the components of a key.
pub open spec fn key_separator(host: Host) -> u8 {
    match host {
        Host::Unix => SLASH,
        Host::Windows => BACKSLASH,
    }
}

/// The path with these components: each behind the one before, with a separator
/// between them.
pub open spec fn key_of(host: Host, rest: Seq<Seq<u8>>) -> Seq<u8>
    decreases rest.len(),
{
    if rest.len() == 0 {
        Seq::empty()
    } else if rest.len() == 1 {
        rest[0]
    } else {
        key_of(host, rest.drop_last()).push(key_separator(host)) + rest.last()
    }
}

/// What is still to be looked at.
#[derive(Debug)]
pub enum Pending {
    /// A directory whose entries are to be listed.
    Dir(Vec<u8>),
    /// An entry of a directory.
    Entry(Vec<u8>),
}

/// A [`Pending`] with its path as a sequence.
pub enum Waiting {
    Dir(Seq<u8>),
    Entry(Seq<u8>),
}

impl View for Pending {
    type V = Waiting;

    open spec fn view(&self) -> Waiting {
        match self {
            Pending::Dir(path) => Waiting::Dir(path@),
            Pending::Entry(path) => Waiting::Entry(path@),
        }
    }
}

/// What an entry of a directory is, with no symbolic link followed.
#[derive(Debug, Clone, Copy, PartialEq, Eq, Structural)]
pub enum EntryKind {
    Dir,
    File,
    Other,
}

/// What a scan asks for.
#[derive(Debug)]
pub enum ScanRequest {
    /// The paths of the entries of a directory.
    ReadDir(Vec<u8>),
    /// The kind of an entry, its length and when it was written.
    ReadMetadata(Vec<u8>),
    /// Nothing: all was looked at.
    Finished,
}

/// What came of a request.
#[derive(Debug)]
pub enum ScanEvent {
    /// The paths of the entries of the directory.
    Listed(Vec<Vec<u8>>),
    /// The directory could not be listed, and why.
    NotListed(String),
    /// An entry of the directory could not be read, and why.
    EntryNotRead(String),
    /// What the entry is, and its stamp.
    Looked { kind: EntryKind, stamp: FileStamp },
    /// The entry could not be looked at, and why.
    NotLooked(String),
}

/// A [`ScanEvent`] with its contents as mathematical values.
pub enum Sight {
    Listed(Seq<Seq<u8>>),
    NotListed(Seq<char>),
    EntryNotRead(Seq<char>),
    Looked { kind: EntryKind, stamp: FileStamp },
    NotLooked(Seq<char>),
}

impl View for ScanEvent {
    type V = Sight;

    open spec fn view(&self) -> Sight {
        match self {
            ScanEvent::Listed(entries) => Sight::Listed(lists(entries@)),
            ScanEvent::NotListed(cause) => Sight::NotListed(cause@),
            ScanEvent::EntryNotRead(cause) => Sight::EntryNotRead(cause@),
            ScanEvent::Looked { kind, stamp } => Sight::Looked { kind: *kind, stamp: *stamp },
            ScanEvent::NotLooked(cause) => Sight::NotLooked(cause@),
        }
    }
}

/// Why a scan ended short.
#[derive(Debug)]
pub enum ScanError {
    /// The directory at the path could not be listed, and why.
    ReadDir { path: Vec<u8>, cause: String },
    /// An entry of the directory at the path could not be read, and why.
    ReadEntry { path: Vec<u8>, cause: String },
    /// The entry at the path could not be looked at, and why.
    ReadMetadata { path: Vec<u8>, cause: String },
}

/// A [`ScanError`] with its contents as sequences.
pub enum ScanFault {
    ReadDir { path: Seq<u8>, cause: Seq<char> },
    ReadEntry { path: Seq<u8>, cause: Seq<char> },
    ReadMetadata { path: Seq<u8>, cause: Seq<char> },
}

impl View for ScanError {
    type V = ScanFault;

    open spec fn view(&self) -> ScanFault {
        match self {
            ScanError::ReadDir { path, cause } => ScanFault::ReadDir { path: path@, cause: cause@ },
            ScanError::ReadEntry { path, cause } => ScanFault::ReadEntry {
                path: path@,
                cause: cause@,
            },
            ScanError::ReadMetadata { path, cause } => ScanFault::ReadMetadata {
                path: path@,
                cause: cause@,
            },
        }
    }
}

/// What a [`ScanError`] says, with its path as it is shown.
pub open spec fn scan_message(fault: ScanFault, shown: Seq<char>) -> Seq<char> {
    match fault {
        ScanFault::ReadDir { cause, .. } => "failed to read directory "@ + shown + ": "@ + cause,
        ScanFault::ReadEntry { cause, .. } => "failed to read directory entry in "@ + shown + ": "@
            + cause,
        ScanFault::ReadMetadata { cause, .. } => "failed to read metadata for "@ + shown + ": "@
            + cause,
    }
}

impl ScanError {
    /// The path that the error is about.
    pub fn path(&self) -> (bytes: Vec<u8>)
        ensures
            bytes@ == match self@ {
                ScanFault::ReadDir { path, .. } => path,
                ScanFault::ReadEntry { path, .. } => path,
                ScanFault::ReadMetadata { path, .. } => path,
            },
    {
        match self {
            ScanError::ReadDir { path, .. }
            | ScanError::ReadEntry { path, .. }
            | ScanError::ReadMetadata { path, .. } => copy_bytes(path.as_slice()),
        }
    }

    /// What the error says, with its path as it is shown.
    pub fn message(&self, shown: &str) -> (message: String)
        ensures
            message@ == scan_message(self@, shown@),
    {
        match self {
            ScanError::ReadDir { cause, .. } => {
                let failure = concat3("failed to read directory ", shown, ": ");
                concat(failure.as_str(), cause.as_str())
            },
            ScanError::ReadEntry { cause, .. } => {
                let failure = concat3("failed to read directory entry in ", shown, ": ");
                concat(failure.as_str(), cause.as_str())
            },
            ScanError::ReadMetadata { cause, .. } => {
                let failure = concat3("failed to read metadata for ", shown, ": ");
                concat(failure.as_str(), cause.as_str())
            },
        }
    }
}

/// A scan under way.
#[derive(Debug)]
pub struct WatchScan {
    host: Host,
    root: Vec<u8>,
    pending: Vec<Pending>,
    found: WatchState,
}

/// Where a scan stands.
pub struct Progress {
    pub host: Host,
    pub root: Seq<u8>,
    /// What is still to be looked at, the next of it last.
    pub pending: Seq<Waiting>,
    /// The stamps of the files that were looked at.
    pub found: Map<Seq<u8>, FileStamp>,
}

impl View for WatchScan {
    type V = Progress;

    closed spec fn view(&self) -> Progress {
        Progress {
            host: self.host,
            root: self.root@,
            pending: self.pending@.map_values(|item: Pending| item@),
            found: self.found@,
        }
    }
}

/// What joins the pending items when a directory was listed: each entry that
/// is watched, the first of them on top.
pub open spec fn stacked(host: Host, root: Seq<u8>, entries: Seq<Seq<u8>>) -> Seq<Waiting>
    decreases entries.len(),
{
    if entries.len() == 0 {
        Seq::empty()
    } else if is_ignored(host, root, entries[0]) {
        stacked(host, root, entries.skip(1))
    } else {
        stacked(host, root, entries.skip(1)).push(Waiting::Entry(entries[0]))
    }
}

/// Where a scan stands after a directory was listed.
pub open spec fn after_listing(progress: Progress, entries: Seq<Seq<u8>>) -> Progress {
    Progress {
        pending: progress.pending.drop_last() + stacked(progress.host, progress.root, entries),
        ..progress
    }
}

/// Where a scan stands after an entry was looked at: a directory is still to
/// be listed, a file is noted, and anything else is passed over.
pub open spec fn after_entry(
    progress: Progress,
    path: Seq<u8>,
    kind: EntryKind,
    stamp: FileStamp,
) -> Progress {
    let rest = progress.pending.drop_last();
    match kind {
        EntryKind::Dir => Progress { pending: rest.push(Waiting::Dir(path)), ..progress },
        EntryKind::File => Progress {
            pending: rest,
            found: match inside(progress.host, progress.root, path) {
                Some(components) => progress.found.insert(key_of(progress.host, components), stamp),
                None => progress.found,
            },
            ..progress
        },
        EntryKind::Other => Progress { pending: rest, ..progress },
    }
}

/// Whether what came of a request is what can come of the one for a pending
/// item.
pub open spec fn sight_fits(waiting: Waiting, sight: Sight) -> bool {
    match waiting {
        Waiting::Dir(_) => sight is Listed || sight is NotListed || sight is EntryNotRead,
        Waiting::Entry(_) => sight is Looked || sight is NotLooked,
    }
}

/// Where a scan stands after what came of a request, or why it ends. Whatever
/// cannot be read ends it.
pub open spec fn scan_next(progress: Progress, sight: Sight) -> Result<Progress, ScanFault> {
    match (progress.pending.last(), sight) {
        (Waiting::Dir(_), Sight::Listed(entries)) => Ok(after_listing(progress, entries)),
        (Waiting::Dir(path), Sight::EntryNotRead(cause)) => Err(
            ScanFault::ReadEntry { path, cause },
        ),
        (Waiting::Dir(path), Sight::NotListed(cause)) => Err(ScanFault::ReadDir { path, cause }),
        (Waiting::Dir(path), _) => Err(ScanFault::ReadDir { path, cause: Seq::empty() }),
        (Waiting::Entry(path), Sight::Looked { kind, stamp }) => Ok(
            after_entry(progress, path, kind, stamp),
        ),
        (Waiting::Entry(path), Sight::NotLooked(cause)) => Err(
            ScanFault::ReadMetadata { path, cause },
        ),
        (Waiting::Entry(path), _) => Err(ScanFault::ReadMetadata { path, cause: Seq::empty() }),
    }
}

fn key_bytes(host: Host, rest: &Vec<Vec<u8>>) -> (key: Vec<u8>)
    ensures
        key@ == key_of(host, lists(rest@)),
{
    let ghost wanted = lists(rest@);
    let mut key: Vec<u8> = Vec::new();
    let mut i: usize = 0;
    while i < rest.len()
        invariant
            i <= rest@.len(),
            wanted == lists(rest@),
            key@ == key_of(host, wanted.take(i as int)),
        decreases rest@.len() - i,
    {
        let ghost next = wanted.take(i + 1);
        assert(next.drop_last() =~= wanted.take(i as int));
        assert(next.last() == rest@[i as int]@);
        let mut piece = copy_bytes(rest[i].as_slice());
        if i > 0 {
            key.push(
                match host {
                    Host::Unix => SLASH,
                    Host::Windows => BACKSLASH,
                },
            );
        }
        key.append(&mut piece);
        proof {
            if i == 0 {
                assert(key@ =~= next[0]);
            }
        }
        i += 1;
    }
    assert(wanted.take(i as int) =~= wanted);
    key
}

/// Starts a scan of the project at `root`.
pub fn scan_watch_state(host: Host, root: &[u8]) -> (scan: WatchScan)
    ensures
        scan.wf(),
        scan@.host == host,
        scan@.root == root@,
        scan@.pending == seq![Waiting::Dir(root@)],
        scan@.found == Map::<Seq<u8>, FileStamp>::empty(),
{
    let mut pending: Vec<Pending> = Vec::new();
    pending.push(Pending::Dir(copy_bytes(root)));
    let scan = WatchScan { host, root: copy_bytes(root), pending, found: WatchState::new() };
    assert(scan@.pending =~= seq![Waiting::Dir(root@)]);
    scan
}

impl WatchScan {
    /// Whether what was found is well kept and each entry that is still to be
    /// looked at is watched.
    pub closed spec fn wf(&self) -> bool {
        &&& self.found.wf()
        &&& forall|i: int|
            0 <= i < self@.pending.len() ==> (#[trigger] self@.pending[i] matches Waiting::Entry(
                path,
            ) ==> !is_ignored(self.host, self.root@, path))
    }

    /// What the scan asks for next.
    pub fn request(&self) -> (request: ScanRequest)
        requires
            self.wf(),
        ensures
            match request {
                ScanRequest::ReadDir(path) => self@.pending.len() > 0 && self@.pending.last()
                    == Waiting::Dir(path@),
                ScanRequest::ReadMetadata(path) => self@.pending.len() > 0 && self@.pending.last()
                    == Waiting::Entry(path@) && !is_ignored(self@.host, self@.root, path@),
                ScanRequest::Finished => self@.pending.len() == 0,
            },
    {
        if self.pending.len() == 0 {
            return ScanRequest::Finished;
        }
        let top = self.pending.len() - 1;
        assert(self@.pending[top as int] == self.pending@[top as int]@);
        match &self.pending[top] {
            Pending::Dir(path) => ScanRequest::ReadDir(copy_bytes(path.as_slice())),
            Pending::Entry(path) => ScanRequest::ReadMetadata(copy_bytes(path.as_slice())),
        }
    }

    /// Takes in the paths of the entries of the directory that was asked for.
    pub fn scan_watch_dir(&mut self, entries: &Vec<Vec<u8>>)
        requires
            old(self).wf(),
            old(self)@.pending.len() > 0,
            old(self)@.pending.last() is Dir,
        ensures
            final(self).wf(),
            final(self)@ == after_listing(old(self)@, lists(entries@)),
    {
        let ghost before = self@;
        let ghost list = lists(entries@);
        let dropped = self.pending.pop();
        let ghost base = before.pending.drop_last();
        assert(self@.pending =~= base);
        let mut i: usize = entries.len();
        assert(list.skip(i as int) =~= Seq::empty());
        assert(base + Seq::empty() =~= base);
        while i > 0
            invariant
                i <= entries@.len(),
                list == lists(entries@),
                self.found == old(self).found,
                self.host == old(self).host,
                self.root == old(self).root,
                before == old(self)@,
                old(self).wf(),
                base == before.pending.drop_last(),
                self@.pending == base + stacked(before.host, before.root, list.skip(i as int)),
                forall|j: int|
                    0 <= j < self@.pending.len() ==> (
                    #[trigger] self@.pending[j] matches Waiting::Entry(path) ==> !is_ignored(
                        before.host,
                        before.root,
                        path,
                    )),
            decreases i,
        {
            i -= 1;
            let ghost stack = self@.pending;
            proof {
                assert(list.skip(i as int).skip(1) =~= list.skip(i + 1));
                assert(list.skip(i as int)[0] == entries@[i as int]@);
            }
            if !should_ignore_watch_path(self.host, self.root.as_slice(), entries[i].as_slice()) {
                let path = copy_bytes(entries[i].as_slice());
                self.pending.push(Pending::Entry(path));
                proof {
                    assert(self@.pending =~= stack.push(Waiting::Entry(list[i as int])));
                    assert(self@.pending =~= base + stacked(
                        before.host,
                        before.root,
                        list.skip(i as int),
                    ));
                }
            }
        }
        assert(list.skip(0) =~= list);
    }

    /// Takes in what the entry that was asked for is.
    pub fn record(&mut self, kind: EntryKind, stamp: FileStamp)
        requires
            old(self).wf(),
            old(self)@.pending.len() > 0,
            old(self)@.pending.last() is Entry,
        ensures
            final(self).wf(),
            final(self)@ == after_entry(
                old(self)@,
                old(self)@.pending.last()->Entry_0,
                kind,
                stamp,
            ),
    {
        let ghost before = self@;
        let ghost last = before.pending.len() - 1;
        assert(before.pending[last] == self.pending@[last]@);
        let item = self.pending.pop();
        assert(self@.pending =~= before.pending.drop_last());
        assert forall|j: int| 0 <= j < self@.pending.len() implies (
        #[trigger] self@.pending[j] matches Waiting::Entry(path) ==> !is_ignored(
            before.host,
            before.root,
            path,
        )) by {
            assert(self@.pending[j] == before.pending[j]);
        }
        if let Some(Pending::Entry(path)) = item {
            match kind {
                EntryKind::Dir => {
                    let ghost stack = self@.pending;
                    self.pending.push(Pending::Dir(path));
                    assert(self@.pending =~= stack.push(Waiting::Dir(path@)));
                },
                EntryKind::File => {
                    if let Some(rest) = seen_from(self.host, self.root.as_slice(), path.as_slice()) {
                        let key = key_bytes(self.host, &rest);
                        self.found.insert(key, stamp);
                    }
                },
                EntryKind::Other => {},
            }
        }
    }

    /// Whether an event is what can come of the request.
    pub fn accepts(&self, event: &ScanEvent) -> (fits: bool)
        ensures
            fits == (self@.pending.len() > 0 && sight_fits(self@.pending.last(), event@)),
    {
        if self.pending.len() == 0 {
            return false;
        }
        let top = self.pending.len() - 1;
        assert(self@.pending[top as int] == self.pending@[top as int]@);
        match &self.pending[top] {
            Pending::Dir(_) => matches!(
                event,
                ScanEvent::Listed(_) | ScanEvent::NotListed(_) | ScanEvent::EntryNotRead(_)
            ),
            Pending::Entry(_) => matches!(
                event,
                ScanEvent::Looked { .. } | ScanEvent::NotLooked(_)
            ),
        }
    }

    /// Takes in what came of the request. A scan that ends short stays where it
    /// is.
    pub fn advance(&mut self, event: ScanEvent) -> (outcome: Result<(), ScanError>)
        requires
            old(self).wf(),
            old(self)@.pending.len() > 0,
            sight_fits(old(self)@.pending.last(), event@),
        ensures
            final(self).wf(),
            match scan_next(old(self)@, event@) {
                Ok(next) => outcome is Ok && final(self)@ == next,
                Err(fault) => (outcome matches Err(error) && error@ == fault) && final(self)@
                    == old(self)@,
            },
    {
        match event {
            ScanEvent::Listed(entries) => {
                self.scan_watch_dir(&entries);
                Ok(())
            },
            ScanEvent::Looked { kind, stamp } => {
                self.record(kind, stamp);
                Ok(())
            },
            ScanEvent::NotListed(cause) => Err(ScanError::ReadDir { path: self.top(), cause }),
            ScanEvent::EntryNotRead(cause) => Err(
                ScanError::ReadEntry { path: self.top(), cause },
            ),
            ScanEvent::NotLooked(cause) => Err(
                ScanError::ReadMetadata { path: self.top(), cause },
            ),
        }
    }

    /// The path of what is asked for.
    fn top(&self) -> (path: Vec<u8>)
        requires
            self@.pending.len() > 0,
        ensures
            path@ == match self@.pending.last() {
                Waiting::Dir(path) => path,
                Waiting::Entry(path) => path,
            },
    {
        let top = self.pending.len() - 1;
        assert(self@.pending[top as int] == self.pending@[top as int]@);
        match &self.pending[top] {
            Pending::Dir(path) => copy_bytes(path.as_slice()),
            Pending::Entry(path) => copy_bytes(path.as_slice()),
        }
    }

    /// What the scan found.
    pub fn into_state(self) -> (state: WatchState)
        requires
            self.wf(),
        ensures
            state.wf(),
            state@ == self@.found,
    {
        self.found
    }
}

/// What lies at a path: a directory with the paths of its entries and what
/// lies at them, a file, or something else; or something that cannot be read,
/// and why.
pub enum FileTree {
    Dir(Seq<(Seq<u8>, FileTree)>),
    File(FileStamp),
    Other,
    /// A directory that cannot be listed.
    ClosedDir(Seq<char>),
    /// A directory with an entry that cannot be read.
    BrokenDir(Seq<char>),
    /// An entry that cannot be looked at.
    Unseen(Seq<char>),
}

/// Whether a directory lies there.
pub open spec fn is_dir(tree: FileTree) -> bool {
    tree is Dir || tree is ClosedDir || tree is BrokenDir
}

/// Whether all can be read that a scan reads of what lies at a path.
pub open spec fn readable(host: Host, root: Seq<u8>, tree: FileTree) -> bool
    decreases tree,
{
    match tree {
        FileTree::Dir(entries) => readable_in(host, root, entries),
        FileTree::File(_) | FileTree::Other => true,
        FileTree::ClosedDir(_) | FileTree::BrokenDir(_) | FileTree::Unseen(_) => false,
    }
}

/// Whether all can be read that a scan reads of the entries of a directory: what
/// is left out of the watch is not read.
pub open spec fn readable_in(
    host: Host,
    root: Seq<u8>,
    entries: Seq<(Seq<u8>, FileTree)>,
) -> bool
    decreases entries,
{
    entries.len() > 0 ==> {
        let (path, tree) = entries[0];
        &&& is_ignored(host, root, path) || readable(host, root, tree)
        &&& readable_in(host, root, entries.skip(1))
    }
}

/// Whether all can be read of a list of trees.
pub open spec fn all_readable(host: Host, root: Seq<u8>, trees: Seq<FileTree>) -> bool
    decreases trees.len(),
{
    trees.len() > 0 ==> readable(host, root, trees.last()) && all_readable(
        host,
        root,
        trees.drop_last(),
    )
}

/// The stamps that are known when the entry at `path` was looked at, and all
/// that lies below it.
pub open spec fn watched(
    host: Host,
    root: Seq<u8>,
    found: Map<Seq<u8>, FileStamp>,
    path: Seq<u8>,
    tree: FileTree,
) -> Map<Seq<u8>, FileStamp>
    decreases tree,
{
    match tree {
        FileTree::Dir(entries) => watched_in(host, root, found, entries),
        FileTree::File(stamp) => match inside(host, root, path) {
            Some(components) => found.insert(key_of(host, components), stamp),
            None => found,
        },
        _ => found,
    }
}

/// The stamps that are known when the entries of a directory were looked at,
/// one after the other, and what is left out of the watch was passed over.
pub open spec fn watched_in(
    host: Host,
    root: Seq<u8>,
    found: Map<Seq<u8>, FileStamp>,
    entries: Seq<(Seq<u8>, FileTree)>,
) -> Map<Seq<u8>, FileStamp>
    decreases entries,
{
    if entries.len() == 0 {
        found
    } else {
        let (path, tree) = entries[0];
        let next = if is_ignored(host, root, path) {
            found
        } else {
            watched(host, root, found, path, tree)
        };
        watched_in(host, root, next, entries.skip(1))
    }
}

/// The paths of the entries of a directory.
pub open spec fn paths_in(entries: Seq<(Seq<u8>, FileTree)>) -> Seq<Seq<u8>> {
    entries.map_values(|entry: (Seq<u8>, FileTree)| entry.0)
}

/// What lies at the entries that join the pending items when a directory was
/// listed, in the order of [`stacked`].
pub open spec fn stacked_trees(
    host: Host,
    root: Seq<u8>,
    entries: Seq<(Seq<u8>, FileTree)>,
) -> Seq<FileTree>
    decreases entries.len(),
{
    if entries.len() == 0 {
        Seq::empty()
    } else if is_ignored(host, root, entries[0].0) {
        stacked_trees(host, root, entries.skip(1))
    } else {
        stacked_trees(host, root, entries.skip(1)).push(entries[0].1)
    }
}

/// Whether `trees` says for each pending item what lies at it.
pub open spec fn trees_fit(pending: Seq<Waiting>, trees: Seq<FileTree>) -> bool {
    &&& pending.len() == trees.len()
    &&& forall|i: int| 0 <= i < pending.len() && #[trigger] pending[i] is Dir ==> is_dir(
        trees[i],
    )
}

/// The stamps that are known when all pending items were looked at.
pub open spec fn completed(
    host: Host,
    root: Seq<u8>,
    found: Map<Seq<u8>, FileStamp>,
    pending: Seq<Waiting>,
    trees: Seq<FileTree>,
) -> Map<Seq<u8>, FileStamp>
    decreases pending.len(),
{
    if pending.len() == 0 {
        found
    } else {
        let next = match pending.last() {
            Waiting::Dir(path) => watched(host, root, found, path, trees.last()),
            Waiting::Entry(path) => watched(host, root, found, path, trees.last()),
        };
        completed(host, root, next, pending.drop_last(), trees.drop_last())
    }
}

/// How many requests an entry takes at most.
pub open spec fn weight(tree: FileTree) -> nat
    decreases tree,
{
    match tree {
        FileTree::Dir(entries) => 2 + weights(entries),
        FileTree::ClosedDir(_) | FileTree::BrokenDir(_) => 2,
        _ => 1,
    }
}

/// How many requests the entries of a directory take at most.
pub open spec fn weights(entries: Seq<(Seq<u8>, FileTree)>) -> nat
    decreases entries,
{
    if entries.len() == 0 {
        0
    } else {
        weight(entries[0].1) + weights(entries.skip(1))
    }
}

/// How many requests the pending items take at most.
pub open spec fn work_left(pending: Seq<Waiting>, trees: Seq<FileTree>) -> nat
    decreases pending.len(),
{
    if pending.len() == 0 {
        0
    } else {
        let top = match (pending.last(), trees.last()) {
            (Waiting::Dir(_), FileTree::Dir(entries)) => 1 + weights(entries),
            (Waiting::Dir(_), _) => 1,
            _ => weight(trees.last()),
        };
        top + work_left(pending.drop_last(), trees.drop_last())
    }
}

/// What comes of the request for a pending item where `tree` lies at it.
pub open spec fn sight_of(waiting: Waiting, tree: FileTree) -> Sight {
    let unstamped = FileStamp { modified_millis: 0, len: 0 };
    match (waiting, tree) {
        (Waiting::Dir(_), FileTree::Dir(entries)) => Sight::Listed(paths_in(entries)),
        (Waiting::Dir(_), FileTree::ClosedDir(cause)) => Sight::NotListed(cause),
        (Waiting::Dir(_), FileTree::BrokenDir(cause)) => Sight::EntryNotRead(cause),
        (Waiting::Dir(_), _) => Sight::NotListed(Seq::empty()),
        (Waiting::Entry(_), FileTree::File(stamp)) => Sight::Looked {
            kind: EntryKind::File,
            stamp,
        },
        (Waiting::Entry(_), FileTree::Other) => Sight::Looked {
            kind: EntryKind::Other,
            stamp: unstamped,
        },
        (Waiting::Entry(_), FileTree::Unseen(cause)) => Sight::NotLooked(cause),
        (Waiting::Entry(_), _) => Sight::Looked { kind: EntryKind::Dir, stamp: unstamped },
    }
}

/// Where a scan stands after one request for what lies there, or why it ends.
pub open spec fn faithful_step(progress: Progress, trees: Seq<FileTree>) -> Result<
    Progress,
    ScanFault,
> {
    scan_next(progress, sight_of(progress.pending.last(), trees.last()))
}

/// What lies at the items that are pending after one request.
pub open spec fn trees_after(progress: Progress, trees: Seq<FileTree>) -> Seq<FileTree> {
    match (progress.pending.last(), trees.last()) {
        (Waiting::Dir(_), FileTree::Dir(entries)) => trees.drop_last() + stacked_trees(
            progress.host,
            progress.root,
            entries,
        ),
        (Waiting::Entry(_), tree) => if is_dir(tree) {
            trees
        } else {
            trees.drop_last()
        },
        (Waiting::Dir(_), _) => trees.drop_last(),
    }
}

proof fn lemma_stacked(
    host: Host,
    root: Seq<u8>,
    entries: Seq<(Seq<u8>, FileTree)>,
    found: Map<Seq<u8>, FileStamp>,
    pending: Seq<Waiting>,
    trees: Seq<FileTree>,
)
    requires
        trees_fit(pending, trees),
    ensures
        trees_fit(
            pending + stacked(host, root, paths_in(entries)),
            trees + stacked_trees(host, root, entries),
        ),
        completed(
            host,
            root,
            found,
            pending + stacked(host, root, paths_in(entries)),
            trees + stacked_trees(host, root, entries),
        ) == completed(host, root, watched_in(host, root, found, entries), pending, trees),
        all_readable(host, root, trees + stacked_trees(host, root, entries)) <==> readable_in(
            host,
            root,
            entries,
        ) && all_readable(host, root, trees),
        work_left(
            pending + stacked(host, root, paths_in(entries)),
            trees + stacked_trees(host, root, entries),
        ) <= weights(entries) + work_left(pending, trees),
    decreases entries.len(),
{
    let stack = stacked(host, root, paths_in(entries));
    let trunk = stacked_trees(host, root, entries);
    if entries.len() == 0 {
        assert(pending + stack =~= pending);
        assert(trees + trunk =~= trees);
    } else {
        let rest = entries.skip(1);
        let path = entries[0].0;
        let tree = entries[0].1;
        assert(paths_in(entries)[0] == path);
        assert(paths_in(entries).skip(1) =~= paths_in(rest));
        if is_ignored(host, root, path) {
            lemma_stacked(host, root, rest, found, pending, trees);
        } else {
            let next = watched(host, root, found, path, tree);
            lemma_stacked(host, root, rest, next, pending, trees);
            let short_stack = stacked(host, root, paths_in(rest));
            let short_trunk = stacked_trees(host, root, rest);
            assert((pending + stack).drop_last() =~= pending + short_stack);
            assert((trees + trunk).drop_last() =~= trees + short_trunk);
            assert((pending + stack).last() == Waiting::Entry(path));
            assert((trees + trunk).last() == tree);
            assert forall|i: int|
                0 <= i < (pending + stack).len() && #[trigger] (pending + stack)[i] is Dir implies is_dir(
                (trees + trunk)[i],
            ) by {
                if i < (pending + short_stack).len() {
                    assert((pending + short_stack)[i] is Dir);
                    assert(is_dir((trees + short_trunk)[i]));
                }
            }
        }
    }
}

/// A request for what lies there ends the scan exactly where it cannot be
/// answered. One that is answered changes nothing of what will be known in the
/// end nor of what can be read, and leaves less to do.
pub proof fn law_scan_step(progress: Progress, trees: Seq<FileTree>)
    requires
        progress.pending.len() > 0,
        trees_fit(progress.pending, trees),
    ensures
        sight_fits(progress.pending.last(), sight_of(progress.pending.last(), trees.last())),
        match faithful_step(progress, trees) {
            Err(_) => !readable(progress.host, progress.root, trees.last()),
            Ok(next) => {
                &&& next.host == progress.host
                &&& next.root == progress.root
                &&& trees_fit(next.pending, trees_after(progress, trees))
                &&& completed(
                    progress.host,
                    progress.root,
                    next.found,
                    next.pending,
                    trees_after(progress, trees),
                ) == completed(
                    progress.host,
                    progress.root,
                    progress.found,
                    progress.pending,
                    trees,
                )
                &&& all_readable(progress.host, progress.root, trees_after(progress, trees))
                    <==> all_readable(progress.host, progress.root, trees)
                &&& work_left(next.pending, trees_after(progress, trees)) < work_left(
                    progress.pending,
                    trees,
                )
            },
        },
{
    let pending = progress.pending;
    let base = pending.drop_last();
    let rest = trees.drop_last();
    assert(trees_fit(base, rest)) by {
        assert forall|i: int| 0 <= i < base.len() && #[trigger] base[i] is Dir implies is_dir(
            rest[i],
        ) by {
            assert(pending[i] is Dir);
        }
    }
    match (pending.last(), trees.last()) {
        (Waiting::Dir(path), FileTree::Dir(entries)) => {
            lemma_stacked(progress.host, progress.root, entries, progress.found, base, rest);
        },
        (Waiting::Dir(path), _) => {
            assert(pending[pending.len() - 1] is Dir);
        },
        (Waiting::Entry(path), tree) => {
            if is_dir(tree) {
                let more = base.push(Waiting::Dir(path));
                assert(more.drop_last() =~= base);
                assert forall|i: int|
                    0 <= i < more.len() && #[trigger] more[i] is Dir implies is_dir(trees[i]) by {
                    if i < base.len() {
                        assert(base[i] is Dir);
                        assert(is_dir(rest[i]));
                    }
                }
            }
        },
    }
}

/// What a scan that reads what lies there comes to: what it knows in the end, or
/// why it ended short.
pub open spec fn scanned(progress: Progress, trees: Seq<FileTree>) -> Result<
    Map<Seq<u8>, FileStamp>,
    ScanFault,
>
    decreases work_left(progress.pending, trees),
    when trees_fit(progress.pending, trees)
    via scanned_ends
{
    if progress.pending.len() == 0 {
        Ok(progress.found)
    } else {
        match faithful_step(progress, trees) {
            Ok(next) => scanned(next, trees_after(progress, trees)),
            Err(fault) => Err(fault),
        }
    }
}

#[via_fn]
proof fn scanned_ends(progress: Progress, trees: Seq<FileTree>) {
    if progress.pending.len() > 0 {
        law_scan_step(progress, trees);
    }
}

proof fn lemma_scanned(progress: Progress, trees: Seq<FileTree>)
    requires
        trees_fit(progress.pending, trees),
    ensures
        match scanned(progress, trees) {
            Ok(found) => all_readable(progress.host, progress.root, trees) && found == completed(
                progress.host,
                progress.root,
                progress.found,
                progress.pending,
                trees,
            ),
            Err(_) => !all_readable(progress.host, progress.root, trees),
        },
    decreases work_left(progress.pending, trees),
{
    if progress.pending.len() > 0 {
        law_scan_step(progress, trees);
        if let Ok(next) = faithful_step(progress, trees) {
            lemma_scanned(next, trees_after(progress, trees));
        }
    }
}

/// A scan of a project ends. Where all that it reads can be read, it finds the
/// stamps of the watched files and nothing else: it goes through each directory
/// that is not left out and notes each file there that is not left out. Where
/// something of that cannot be read, and only there, it ends in an error: what
/// is left out of the watch is not read.
pub proof fn law_scan_finds_the_watched_files(host: Host, root: Seq<u8>, tree: FileTree)
    requires
        is_dir(tree),
    ensures
        scanned(
            Progress { host, root, pending: seq![Waiting::Dir(root)], found: Map::empty() },
            seq![tree],
        ) is Err <==> !readable(host, root, tree),
        tree matches FileTree::Dir(entries) ==> readable_in(host, root, entries) ==> scanned(
            Progress { host, root, pending: seq![Waiting::Dir(root)], found: Map::empty() },
            seq![tree],
        ) == Ok::<Map<Seq<u8>, FileStamp>, ScanFault>(
            watched_in(host, root, Map::empty(), entries),
        ),
{
    let pending = seq![Waiting::Dir(root)];
    let trees = seq![tree];
    let start = Progress { host, root, pending, found: Map::empty() };
    lemma_scanned(start, trees);
    assert(pending.drop_last() =~= Seq::empty());
    assert(trees.drop_last() =~= Seq::empty());
    assert(all_readable(host, root, Seq::empty()));
    let found = watched(host, root, Map::empty(), root, tree);
    assert(completed(host, root, found, Seq::empty(), Seq::empty()) == found);
}

/// What lies at an entry that is left out of the watch plays no part, be it
/// readable or not.
pub proof fn law_ignored_entries_play_no_part(
    host: Host,
    root: Seq<u8>,
    found: Map<Seq<u8>, FileStamp>,
    one: Seq<(Seq<u8>, FileTree)>,
    two: Seq<(Seq<u8>, FileTree)>,
)
    requires
        one.len() == two.len(),
        forall|i: int|
            0 <= i < one.len() ==> (#[trigger] one[i]).0 == two[i].0 && (is_ignored(
                host,
                root,
                one[i].0,
            ) || one[i].1 == two[i].1),
    ensures
        readable_in(host, root, one) == readable_in(host, root, two),
        watched_in(host, root, found, one) == watched_in(host, root, found, two),
    decreases one.len(),
{
    if one.len() > 0 {
        let (path, tree) = one[0];
        assert(two[0].0 == path);
        let next = if is_ignored(host, root, path) {
            found
        } else {
            watched(host, root, found, path, tree)
        };
        assert forall|i: int| 0 <= i < one.skip(1).len() implies (#[trigger] one.skip(1)[i]).0
            == two.skip(1)[i].0 && (is_ignored(host, root, one.skip(1)[i].0) || one.skip(1)[i].1
            == two.skip(1)[i].1) by {
            assert(one[i + 1].0 == two[i + 1].0);
        }
        law_ignored_entries_play_no_part(host, root, next, one.skip(1), two.skip(1));
    }
}

/// Whether each path that is noted is that of something watched.
pub open spec fn only_watched(host: Host, found: Map<Seq<u8>, FileStamp>) -> bool {
    forall|key: Seq<u8>| #[trigger]
        found.contains_key(key) ==> exists|rest: Seq<Seq<u8>>|
            key == #[trigger] key_of(host, rest) && !is_generated(rest)
}

/// Whether a watched file lies at `file` with this stamp, where `tree` is what
/// lies at `path`.
pub open spec fn file_at(
    host: Host,
    root: Seq<u8>,
    path: Seq<u8>,
    tree: FileTree,
    file: Seq<u8>,
    stamp: FileStamp,
) -> bool
    decreases tree,
{
    match tree {
        FileTree::Dir(entries) => file_in(host, root, entries, file, stamp),
        FileTree::File(found) => file == path && stamp == found,
        _ => false,
    }
}

/// Whether a watched file lies at `file` with this stamp, among the entries of a
/// directory or anywhere below them.
pub open spec fn file_in(
    host: Host,
    root: Seq<u8>,
    entries: Seq<(Seq<u8>, FileTree)>,
    file: Seq<u8>,
    stamp: FileStamp,
) -> bool
    decreases entries,
{
    entries.len() > 0 && {
        let (path, tree) = entries[0];
        ||| !is_ignored(host, root, path) && file_at(host, root, path, tree, file, stamp)
        ||| file_in(host, root, entries.skip(1), file, stamp)
    }
}

/// The key that a file is noted under.
pub open spec fn file_key(host: Host, root: Seq<u8>, file: Seq<u8>) -> Seq<u8> {
    match inside(host, root, file) {
        Some(rest) => key_of(host, rest),
        None => Seq::empty(),
    }
}

/// Whether the entries are what a directory with these components holds: each
/// is named once, its path reads as it does when seen from the root, and so on
/// for the directories among them.
pub open spec fn is_listing(
    host: Host,
    root: Seq<u8>,
    directory: Seq<Seq<u8>>,
    entries: Seq<(Seq<u8>, FileTree)>,
) -> bool
    decreases entries,
{
    entries.len() > 0 ==> {
        let (path, tree) = entries[0];
        let own = components(host, path);
        &&& own.len() == directory.len() + 1
        &&& own.take(directory.len() as int) == directory
        &&& reads_alike(host, root, path)
        &&& forall|j: int|
            0 < j < entries.len() ==> components(host, (#[trigger] entries[j]).0) != own
        &&& match tree {
            FileTree::Dir(inner) => is_listing(host, root, own, inner),
            _ => true,
        }
        &&& is_listing(host, root, directory, entries.skip(1))
    }
}

/// Whether a key is noted in one way: two files with the same key have the same
/// stamp.
spec fn one_stamp_each(host: Host, root: Seq<u8>, entries: Seq<(Seq<u8>, FileTree)>) -> bool {
    forall|a: Seq<u8>, s: FileStamp, b: Seq<u8>, t: FileStamp|
        #[trigger] file_in(host, root, entries, a, s) && #[trigger] file_in(
            host,
            root,
            entries,
            b,
            t,
        ) && file_key(host, root, a) == file_key(host, root, b) ==> s == t
}

proof fn lemma_file_is_watched_at(
    host: Host,
    root: Seq<u8>,
    path: Seq<u8>,
    tree: FileTree,
    file: Seq<u8>,
    stamp: FileStamp,
)
    requires
        !is_ignored(host, root, path),
        file_at(host, root, path, tree, file, stamp),
    ensures
        !is_ignored(host, root, file),
    decreases tree,
{
    if let FileTree::Dir(entries) = tree {
        lemma_file_is_watched_in(host, root, entries, file, stamp);
    }
}

proof fn lemma_file_is_watched_in(
    host: Host,
    root: Seq<u8>,
    entries: Seq<(Seq<u8>, FileTree)>,
    file: Seq<u8>,
    stamp: FileStamp,
)
    requires
        file_in(host, root, entries, file, stamp),
    ensures
        !is_ignored(host, root, file),
    decreases entries,
{
    let (path, tree) = entries[0];
    if !is_ignored(host, root, path) && file_at(host, root, path, tree, file, stamp) {
        lemma_file_is_watched_at(host, root, path, tree, file, stamp);
    } else {
        lemma_file_is_watched_in(host, root, entries.skip(1), file, stamp);
    }
}

/// What is noted at `path` and below it: what was noted before, and the files
/// there.
proof fn lemma_noted_at(
    host: Host,
    root: Seq<u8>,
    found: Map<Seq<u8>, FileStamp>,
    path: Seq<u8>,
    tree: FileTree,
    key: Seq<u8>,
)
    requires
        !is_ignored(host, root, path),
    ensures
        ({
            let noted = watched(host, root, found, path, tree);
            &&& noted.contains_key(key) <==> found.contains_key(key) || exists|
                file: Seq<u8>,
                stamp: FileStamp,
            | #[trigger]
                file_at(host, root, path, tree, file, stamp) && file_key(host, root, file) == key
            &&& noted.contains_key(key) ==> (found.contains_key(key) && noted[key] == found[key])
                || exists|file: Seq<u8>| #[trigger]
                file_at(host, root, path, tree, file, noted[key]) && file_key(host, root, file)
                    == key
        }),
    decreases tree,
{
    let noted = watched(host, root, found, path, tree);
    match tree {
        FileTree::Dir(entries) => {
            lemma_noted_in(host, root, found, entries, key);
            if exists|file: Seq<u8>, stamp: FileStamp| #[trigger]
                file_at(host, root, path, tree, file, stamp) && file_key(host, root, file)
                    == key {
                let (file, stamp) = choose|file: Seq<u8>, stamp: FileStamp| #[trigger]
                    file_at(host, root, path, tree, file, stamp) && file_key(host, root, file)
                        == key;
                assert(file_in(host, root, entries, file, stamp));
            }
            if exists|file: Seq<u8>, stamp: FileStamp| #[trigger]
                file_in(host, root, entries, file, stamp) && file_key(host, root, file) == key {
                let (file, stamp) = choose|file: Seq<u8>, stamp: FileStamp| #[trigger]
                    file_in(host, root, entries, file, stamp) && file_key(host, root, file) == key;
                assert(file_at(host, root, path, tree, file, stamp));
            }
            if noted.contains_key(key) && exists|file: Seq<u8>| #[trigger]
                file_in(host, root, entries, file, noted[key]) && file_key(host, root, file)
                    == key {
                let file = choose|file: Seq<u8>| #[trigger]
                    file_in(host, root, entries, file, noted[key]) && file_key(host, root, file)
                        == key;
                assert(file_at(host, root, path, tree, file, noted[key]));
            }
        },
        FileTree::File(stamp) => {
            assert(file_at(host, root, path, tree, path, stamp));
        },
        _ => {},
    }
}

proof fn lemma_noted_in(
    host: Host,
    root: Seq<u8>,
    found: Map<Seq<u8>, FileStamp>,
    entries: Seq<(Seq<u8>, FileTree)>,
    key: Seq<u8>,
)
    ensures
        ({
            let noted = watched_in(host, root, found, entries);
            &&& noted.contains_key(key) <==> found.contains_key(key) || exists|
                file: Seq<u8>,
                stamp: FileStamp,
            | #[trigger]
                file_in(host, root, entries, file, stamp) && file_key(host, root, file) == key
            &&& noted.contains_key(key) ==> (found.contains_key(key) && noted[key] == found[key])
                || exists|file: Seq<u8>| #[trigger]
                file_in(host, root, entries, file, noted[key]) && file_key(host, root, file) == key
        }),
    decreases entries,
{
    if entries.len() > 0 {
        let (path, tree) = entries[0];
        let rest = entries.skip(1);
        let ignored = is_ignored(host, root, path);
        let next = if ignored {
            found
        } else {
            watched(host, root, found, path, tree)
        };
        let noted = watched_in(host, root, found, entries);
        if !ignored {
            lemma_noted_at(host, root, found, path, tree, key);
        }
        lemma_noted_in(host, root, next, rest, key);
        if !ignored && exists|file: Seq<u8>, stamp: FileStamp| #[trigger]
            file_at(host, root, path, tree, file, stamp) && file_key(host, root, file) == key {
            let (file, stamp) = choose|file: Seq<u8>, stamp: FileStamp| #[trigger]
                file_at(host, root, path, tree, file, stamp) && file_key(host, root, file) == key;
            assert(file_in(host, root, entries, file, stamp));
        }
        if exists|file: Seq<u8>, stamp: FileStamp| #[trigger]
            file_in(host, root, rest, file, stamp) && file_key(host, root, file) == key {
            let (file, stamp) = choose|file: Seq<u8>, stamp: FileStamp| #[trigger]
                file_in(host, root, rest, file, stamp) && file_key(host, root, file) == key;
            assert(file_in(host, root, entries, file, stamp));
        }
        if exists|file: Seq<u8>, stamp: FileStamp| #[trigger]
            file_in(host, root, entries, file, stamp) && file_key(host, root, file) == key {
            let (file, stamp) = choose|file: Seq<u8>, stamp: FileStamp| #[trigger]
                file_in(host, root, entries, file, stamp) && file_key(host, root, file) == key;
            if !ignored && file_at(host, root, path, tree, file, stamp) {
            } else {
                assert(file_in(host, root, rest, file, stamp));
            }
        }
        if noted.contains_key(key) {
            if exists|file: Seq<u8>| #[trigger]
                file_in(host, root, rest, file, noted[key]) && file_key(host, root, file) == key {
                let file = choose|file: Seq<u8>| #[trigger]
                    file_in(host, root, rest, file, noted[key]) && file_key(host, root, file)
                        == key;
                assert(file_in(host, root, entries, file, noted[key]));
            } else if !ignored && exists|file: Seq<u8>| #[trigger]
                file_at(host, root, path, tree, file, noted[key]) && file_key(host, root, file)
                    == key {
                let file = choose|file: Seq<u8>| #[trigger]
                    file_at(host, root, path, tree, file, noted[key]) && file_key(host, root, file)
                        == key;
                assert(file_in(host, root, entries, file, noted[key]));
            }
        }
    }
}

/// A key is noted exactly where a watched file with that key lies, and the stamp
/// that is noted is that of such a file.
pub proof fn law_key_is_noted_where_a_file_lies(
    host: Host,
    root: Seq<u8>,
    entries: Seq<(Seq<u8>, FileTree)>,
    key: Seq<u8>,
)
    ensures
        watched_in(host, root, Map::empty(), entries).contains_key(key) <==> exists|
            file: Seq<u8>,
            stamp: FileStamp,
        | #[trigger]
            file_in(host, root, entries, file, stamp) && file_key(host, root, file) == key,
        watched_in(host, root, Map::empty(), entries).contains_key(key) ==> exists|file: Seq<u8>|
            #[trigger]
            file_in(
                host,
                root,
                entries,
                file,
                watched_in(host, root, Map::empty(), entries)[key],
            ) && file_key(host, root, file) == key,
{
    lemma_noted_in(host, root, Map::empty(), entries, key);
}

proof fn lemma_watched(
    host: Host,
    root: Seq<u8>,
    found: Map<Seq<u8>, FileStamp>,
    path: Seq<u8>,
    tree: FileTree,
)
    requires
        only_watched(host, found),
        !is_ignored(host, root, path),
    ensures
        only_watched(host, watched(host, root, found, path, tree)),
    decreases tree,
{
    match tree {
        FileTree::Dir(entries) => {
            lemma_watched_in(host, root, found, entries);
        },
        FileTree::File(stamp) => {
            let rest = inside(host, root, path)->0;
            let more = watched(host, root, found, path, tree);
            assert forall|key: Seq<u8>| #[trigger] more.contains_key(key) implies exists|
                inner: Seq<Seq<u8>>,
            |
                key == #[trigger] key_of(host, inner) && !is_generated(inner) by {
                if key == key_of(host, rest) {
                    assert(!is_generated(rest));
                } else {
                    assert(found.contains_key(key));
                }
            }
        },
        _ => {},
    }
}

proof fn lemma_watched_in(
    host: Host,
    root: Seq<u8>,
    found: Map<Seq<u8>, FileStamp>,
    entries: Seq<(Seq<u8>, FileTree)>,
)
    requires
        only_watched(host, found),
    ensures
        only_watched(host, watched_in(host, root, found, entries)),
    decreases entries,
{
    if entries.len() > 0 {
        let (path, tree) = entries[0];
        if is_ignored(host, root, path) {
            lemma_watched_in(host, root, found, entries.skip(1));
        } else {
            lemma_watched(host, root, found, path, tree);
            lemma_watched_in(
                host,
                root,
                watched(host, root, found, path, tree),
                entries.skip(1),
            );
        }
    }
}

/// Nothing generated is ever noted.
pub proof fn law_nothing_generated_is_noted(
    host: Host,
    root: Seq<u8>,
    entries: Seq<(Seq<u8>, FileTree)>,
)
    ensures
        only_watched(host, watched_in(host, root, Map::empty(), entries)),
{
    lemma_watched_in(host, root, Map::empty(), entries);
}

/// Whether components are names: none is empty and none holds a separator.
spec fn are_names(host: Host, list: Seq<Seq<u8>>) -> bool {
    forall|i: int|
        0 <= i < list.len() ==> #[trigger] list[i].len() > 0 && !list[i].contains(
            key_separator(host),
        )
}

proof fn lemma_key_is_unique(host: Host, a: Seq<Seq<u8>>, b: Seq<Seq<u8>>)
    requires
        are_names(host, a),
        are_names(host, b),
        key_of(host, a) == key_of(host, b),
    ensures
        a == b,
    decreases a.len(),
{
    let separator = key_separator(host);
    let key = key_of(host, a);
    if a.len() == 0 || b.len() == 0 {
        if a.len() == 0 && b.len() > 0 {
            assert(b[0].len() > 0);
            assert(key_of(host, b).len() > 0);
        }
        if b.len() == 0 && a.len() > 0 {
            assert(a[0].len() > 0);
            assert(key_of(host, a).len() > 0);
        }
        assert(a =~= b);
    } else {
        let x = a[a.len() - 1];
        let y = b[b.len() - 1];
        if a.len() == 1 && b.len() == 1 {
            assert(a =~= b);
        } else if a.len() == 1 {
            let at = key_of(host, b.drop_last()).len() as int;
            assert(key[at] == separator);
            assert(a[0].contains(separator));
        } else if b.len() == 1 {
            let at = key_of(host, a.drop_last()).len() as int;
            assert(key[at] == separator);
            assert(b[0].contains(separator));
        } else {
            let front = key_of(host, a.drop_last());
            let other = key_of(host, b.drop_last());
            assert(key =~= front.push(separator) + x);
            assert(key =~= other.push(separator) + y);
            if front.len() < other.len() {
                assert(key[other.len() as int] == separator);
                assert(x[other.len() - front.len() - 1] == separator);
                assert(x.contains(separator));
            } else if other.len() < front.len() {
                assert(key[front.len() as int] == separator);
                assert(y[front.len() - other.len() - 1] == separator);
                assert(y.contains(separator));
            }
            assert(front =~= key.take(front.len() as int));
            assert(other =~= key.take(front.len() as int));
            assert(x =~= key.skip(front.len() as int + 1));
            assert(y =~= key.skip(front.len() as int + 1));
            let short_a = a.drop_last();
            let short_b = b.drop_last();
            assert forall|i: int| 0 <= i < short_a.len() implies #[trigger] short_a[i].len() > 0
                && !short_a[i].contains(separator) by {
                assert(a[i].len() > 0);
            }
            assert forall|i: int| 0 <= i < short_b.len() implies #[trigger] short_b[i].len() > 0
                && !short_b[i].contains(separator) by {
                assert(b[i].len() > 0);
            }
            lemma_key_is_unique(host, short_a, short_b);
            assert(a =~= short_a.push(x));
            assert(b =~= short_b.push(y));
        }
    }
}

proof fn lemma_below_are_names(host: Host, root: Seq<u8>, path: Seq<u8>)
    requires
        components(host, root).len() > 0,
        below(host, root, path) is Some,
    ensures
        are_names(host, below(host, root, path)->0),
{
    let separators = path_separators(host, path);
    let body = behind_root(host, path);
    lemma_names_are_unseparated(separators, key_separator(host), body);
    let list = names(separators, body);
    let first = anchor(host, path);
    let whole = components(host, path);
    let n = components(host, root).len() as int;
    let rest = whole.skip(n);
    assert forall|i: int| 0 <= i < rest.len() implies #[trigger] rest[i].len() > 0
        && !rest[i].contains(key_separator(host)) by {
        assert(rest[i] == whole[i + n]);
        if i + n < first.len() {
            assert(first[1] == seq![SLASH]);
            assert(whole[i + n] == first[1]);
        } else {
            assert(whole[i + n] == list[i + n - first.len()]);
        }
    }
}

/// Two paths below a project root are noted under the same key only where they
/// have the same components.
pub proof fn law_each_file_has_its_own_key(host: Host, root: Seq<u8>, a: Seq<u8>, b: Seq<u8>)
    requires
        components(host, root).len() > 0,
        inside(host, root, a) is Some,
        inside(host, root, b) is Some,
        reads_alike(host, root, a),
        reads_alike(host, root, b),
        key_of(host, inside(host, root, a)->0) == key_of(host, inside(host, root, b)->0),
    ensures
        components(host, a) == components(host, b),
{
    lemma_below_are_names(host, root, a);
    lemma_below_are_names(host, root, b);
    lemma_key_is_unique(host, below(host, root, a)->0, below(host, root, b)->0);
    let n = components(host, root).len() as int;
    assert(components(host, a) =~= components(host, a).take(n) + components(host, a).skip(n));
    assert(components(host, b) =~= components(host, b).take(n) + components(host, b).skip(n));
}

proof fn lemma_file_at_is_inside(
    host: Host,
    root: Seq<u8>,
    path: Seq<u8>,
    tree: FileTree,
    file: Seq<u8>,
    stamp: FileStamp,
)
    requires
        tree matches FileTree::Dir(inner) ==> is_listing(host, root, components(host, path), inner),
        file_at(host, root, path, tree, file, stamp),
        reads_alike(host, root, path),
    ensures
        reads_alike(host, root, file),
        components(host, file).len() >= components(host, path).len(),
        components(host, file).take(components(host, path).len() as int) == components(host, path),
    decreases tree,
{
    let own = components(host, path);
    match tree {
        FileTree::Dir(entries) => {
            let j = lemma_file_in_is_inside(host, root, own, entries, file, stamp);
            let whole = components(host, file);
            let inner = components(host, entries[j].0);
            assert(whole.take(own.len() as int) =~= inner.take(own.len() as int)) by {
                assert forall|i: int| 0 <= i < own.len() implies whole[i] == inner[i] by {
                    assert(whole.take(inner.len() as int)[i] == inner[i]);
                }
            }
        },
        _ => {
            assert(own.take(own.len() as int) =~= own);
        },
    }
}

/// Among which entry of a directory a file lies.
proof fn lemma_file_in_is_inside(
    host: Host,
    root: Seq<u8>,
    directory: Seq<Seq<u8>>,
    entries: Seq<(Seq<u8>, FileTree)>,
    file: Seq<u8>,
    stamp: FileStamp,
) -> (j: int)
    requires
        is_listing(host, root, directory, entries),
        file_in(host, root, entries, file, stamp),
    ensures
        0 <= j < entries.len(),
        components(host, entries[j].0).len() == directory.len() + 1,
        components(host, entries[j].0).take(directory.len() as int) == directory,
        reads_alike(host, root, file),
        components(host, file).len() > directory.len(),
        components(host, file).take(directory.len() as int + 1) == components(host, entries[j].0),
    decreases entries,
{
    let (path, tree) = entries[0];
    if !is_ignored(host, root, path) && file_at(host, root, path, tree, file, stamp) {
        lemma_file_at_is_inside(host, root, path, tree, file, stamp);
        0
    } else {
        let rest = entries.skip(1);
        let j = lemma_file_in_is_inside(host, root, directory, rest, file, stamp);
        assert(rest[j] == entries[j + 1]);
        j + 1
    }
}

proof fn lemma_one_stamp_at(
    host: Host,
    root: Seq<u8>,
    path: Seq<u8>,
    tree: FileTree,
    a: Seq<u8>,
    s: FileStamp,
    b: Seq<u8>,
    t: FileStamp,
)
    requires
        tree matches FileTree::Dir(inner) ==> is_listing(host, root, components(host, path), inner),
        file_at(host, root, path, tree, a, s),
        file_at(host, root, path, tree, b, t),
        components(host, a) == components(host, b),
    ensures
        s == t,
    decreases tree,
{
    if let FileTree::Dir(entries) = tree {
        lemma_one_stamp_in(host, root, components(host, path), entries, a, s, b, t);
    }
}

proof fn lemma_one_stamp_in(
    host: Host,
    root: Seq<u8>,
    directory: Seq<Seq<u8>>,
    entries: Seq<(Seq<u8>, FileTree)>,
    a: Seq<u8>,
    s: FileStamp,
    b: Seq<u8>,
    t: FileStamp,
)
    requires
        is_listing(host, root, directory, entries),
        file_in(host, root, entries, a, s),
        file_in(host, root, entries, b, t),
        components(host, a) == components(host, b),
    ensures
        s == t,
    decreases entries,
{
    let (path, tree) = entries[0];
    let rest = entries.skip(1);
    let watched_here = !is_ignored(host, root, path);
    if watched_here && file_at(host, root, path, tree, a, s) {
        lemma_file_at_is_inside(host, root, path, tree, a, s);
        if file_at(host, root, path, tree, b, t) {
            lemma_one_stamp_at(host, root, path, tree, a, s, b, t);
        } else {
            let j = lemma_file_in_is_inside(host, root, directory, rest, b, t);
            assert(rest[j] == entries[j + 1]);
        }
    } else if watched_here && file_at(host, root, path, tree, b, t) {
        lemma_file_at_is_inside(host, root, path, tree, b, t);
        let j = lemma_file_in_is_inside(host, root, directory, rest, a, s);
        assert(rest[j] == entries[j + 1]);
    } else {
        lemma_one_stamp_in(host, root, directory, rest, a, s, b, t);
    }
}

proof fn lemma_one_stamp_each(host: Host, root: Seq<u8>, entries: Seq<(Seq<u8>, FileTree)>)
    requires
        components(host, root).len() > 0,
        is_listing(host, root, components(host, root), entries),
    ensures
        one_stamp_each(host, root, entries),
{
    assert forall|a: Seq<u8>, s: FileStamp, b: Seq<u8>, t: FileStamp|
        #[trigger] file_in(host, root, entries, a, s) && #[trigger] file_in(
            host,
            root,
            entries,
            b,
            t,
        ) && file_key(host, root, a) == file_key(host, root, b) implies s == t by {
        lemma_file_is_watched_in(host, root, entries, a, s);
        lemma_file_is_watched_in(host, root, entries, b, t);
        let i = lemma_file_in_is_inside(host, root, components(host, root), entries, a, s);
        let j = lemma_file_in_is_inside(host, root, components(host, root), entries, b, t);
        law_each_file_has_its_own_key(host, root, a, b);
        lemma_one_stamp_in(host, root, components(host, root), entries, a, s, b, t);
    }
}

/// Whether a watched file with this key and this stamp lies among the entries of
/// a directory or anywhere below them.
pub open spec fn stamped(
    host: Host,
    root: Seq<u8>,
    entries: Seq<(Seq<u8>, FileTree)>,
    key: Seq<u8>,
    stamp: FileStamp,
) -> bool {
    exists|file: Seq<u8>| #[trigger]
        file_in(host, root, entries, file, stamp) && file_key(host, root, file) == key
}

/// A scan notes each watched file of a project under its key, with its stamp,
/// and nothing else.
pub proof fn law_scan_notes_each_file(
    host: Host,
    root: Seq<u8>,
    entries: Seq<(Seq<u8>, FileTree)>,
    key: Seq<u8>,
    stamp: FileStamp,
)
    requires
        components(host, root).len() > 0,
        is_listing(host, root, components(host, root), entries),
    ensures
        watched_in(host, root, Map::empty(), entries).contains_key(key) && watched_in(
            host,
            root,
            Map::empty(),
            entries,
        )[key] == stamp <==> stamped(host, root, entries, key, stamp),
{
    let noted = watched_in(host, root, Map::empty(), entries);
    law_key_is_noted_where_a_file_lies(host, root, entries, key);
    lemma_one_stamp_each(host, root, entries);
    if stamped(host, root, entries, key, stamp) {
        let file = choose|file: Seq<u8>| #[trigger]
            file_in(host, root, entries, file, stamp) && file_key(host, root, file) == key;
        assert(noted.contains_key(key));
        let other = choose|other: Seq<u8>| #[trigger]
            file_in(host, root, entries, other, noted[key]) && file_key(host, root, other) == key;
        assert(file_in(host, root, entries, other, noted[key]));
    }
}

/// Two scans of a project are equal exactly where the same watched files lay
/// there with the same stamps, whatever the order in which they were listed.
pub proof fn law_scans_agree_where_the_files_do(
    host: Host,
    root: Seq<u8>,
    one: Seq<(Seq<u8>, FileTree)>,
    two: Seq<(Seq<u8>, FileTree)>,
)
    requires
        components(host, root).len() > 0,
        is_listing(host, root, components(host, root), one),
        is_listing(host, root, components(host, root), two),
    ensures
        watched_in(host, root, Map::empty(), one) == watched_in(host, root, Map::empty(), two)
            <==> forall|key: Seq<u8>, stamp: FileStamp|
            stamped(host, root, one, key, stamp) <==> stamped(host, root, two, key, stamp),
{
    let first = watched_in(host, root, Map::empty(), one);
    let second = watched_in(host, root, Map::empty(), two);
    if first == second {
        assert forall|key: Seq<u8>, stamp: FileStamp|
            stamped(host, root, one, key, stamp) <==> stamped(host, root, two, key, stamp) by {
            law_scan_notes_each_file(host, root, one, key, stamp);
            law_scan_notes_each_file(host, root, two, key, stamp);
        }
    }
    if forall|key: Seq<u8>, stamp: FileStamp|
        stamped(host, root, one, key, stamp) <==> stamped(host, root, two, key, stamp) {
        assert forall|key: Seq<u8>| first.contains_key(key) <==> second.contains_key(key) by {
            law_scan_notes_each_file(host, root, one, key, first[key]);
            law_scan_notes_each_file(host, root, two, key, first[key]);
            law_scan_notes_each_file(host, root, one, key, second[key]);
            law_scan_notes_each_file(host, root, two, key, second[key]);
        }
        assert forall|key: Seq<u8>| first.contains_key(key) implies first[key] == second[key] by {
            law_scan_notes_each_file(host, root, one, key, first[key]);
            law_scan_notes_each_file(host, root, two, key, first[key]);
        }
        assert(first =~= second);
    }
}

/// A scan ends short exactly where something that it asks for cannot be read. The
/// error names what it asked for, and why it could not be read.
pub proof fn law_scan_ends_where_it_cannot_read(progress: Progress, sight: Sight)
    requires
        progress.pending.len() > 0,
        sight_fits(progress.pending.last(), sight),
    ensures
        scan_next(progress, sight) is Err <==> sight is NotListed || sight is EntryNotRead || sight
            is NotLooked,
        match (progress.pending.last(), sight, scan_next(progress, sight)) {
            (Waiting::Dir(asked), Sight::NotListed(why), Err(fault)) => fault
                == (ScanFault::ReadDir { path: asked, cause: why }),
            (Waiting::Dir(asked), Sight::EntryNotRead(why), Err(fault)) => fault
                == (ScanFault::ReadEntry { path: asked, cause: why }),
            (Waiting::Entry(asked), Sight::NotLooked(why), Err(fault)) => fault
                == (ScanFault::ReadMetadata { path: asked, cause: why }),
            (_, _, Err(_)) => false,
            (_, _, Ok(_)) => true,
        },
{
}

/// A step of a scan takes away what was looked at, leaves the rest as it waits,
/// and never looks at anything outside the watch.
pub proof fn law_scan_asks_only_for_what_is_watched(progress: Progress, entries: Seq<Seq<u8>>)
    requires
        progress.pending.len() > 0,
        progress.pending.last() is Dir,
    ensures
        scan_next(progress, Sight::Listed(entries)) matches Ok(next) && {
            let n = progress.pending.len() - 1;
            &&& next.found == progress.found
            &&& next.pending.len() >= n
            &&& next.pending.take(n) == progress.pending.take(n)
            &&& forall|path: Seq<u8>|
                #[trigger] next.pending.skip(n).contains(Waiting::Entry(path))
                    <==> entries.contains(path) && !is_ignored(progress.host, progress.root, path)
            &&& forall|i: int| n <= i < next.pending.len() ==> #[trigger] next.pending[i] is Entry
        },
{
    let n = progress.pending.len() - 1;
    let stack = stacked(progress.host, progress.root, entries);
    let next = after_listing(progress, entries);
    assert(next.pending.take(n) =~= progress.pending.take(n));
    assert(next.pending.skip(n) =~= stack);
    lemma_stack_is_of_the_watched(progress.host, progress.root, entries);
    assert forall|i: int| n <= i < next.pending.len() implies #[trigger] next.pending[i] is Entry by {
        assert(next.pending[i] == stack[i - n]);
    }
}

proof fn lemma_stack_is_of_the_watched(host: Host, root: Seq<u8>, entries: Seq<Seq<u8>>)
    ensures
        forall|path: Seq<u8>|
            #[trigger] stacked(host, root, entries).contains(Waiting::Entry(path))
                <==> entries.contains(path) && !is_ignored(host, root, path),
        forall|i: int|
            0 <= i < stacked(host, root, entries).len() ==> #[trigger] stacked(
                host,
                root,
                entries,
            )[i] is Entry,
    decreases entries.len(),
{
    let all = stacked(host, root, entries);
    if entries.len() > 0 {
        let rest = entries.skip(1);
        let below = stacked(host, root, rest);
        lemma_stack_is_of_the_watched(host, root, rest);
        assert forall|path: Seq<u8>| #[trigger] all.contains(Waiting::Entry(path))
            <==> entries.contains(path) && !is_ignored(host, root, path) by {
            assert(entries.contains(path) <==> path == entries[0] || rest.contains(path)) by {
                if entries.contains(path) {
                    let i = choose|i: int| 0 <= i < entries.len() && entries[i] == path;
                    if i > 0 {
                        assert(rest[i - 1] == path);
                    }
                }
                if rest.contains(path) {
                    let i = choose|i: int| 0 <= i < rest.len() && rest[i] == path;
                    assert(entries[i + 1] == path);
                }
            }
            assert(below.contains(Waiting::Entry(path)) <==> rest.contains(path) && !is_ignored(
                host,
                root,
                path,
            ));
            if !is_ignored(host, root, entries[0]) {
                let item = Waiting::Entry(path);
                if below.contains(item) {
                    let i = choose|i: int| 0 <= i < below.len() && below[i] == item;
                    assert(all[i] == item);
                }
                if path == entries[0] {
                    assert(all[below.len() as int] == item);
                }
                if all.contains(item) {
                    let i = choose|i: int| 0 <= i < all.len() && all[i] == item;
                    if i < below.len() {
                        assert(below[i] == item);
                    }
                }
            }
        }
    }
}

/// Of the entries that are looked at, a directory is to be listed next, a file is
/// noted with its stamp under its own key and changes nothing of the others, and
/// anything else is passed over.
pub proof fn law_entry_is_taken_for_what_it_is(
    progress: Progress,
    path: Seq<u8>,
    stamp: FileStamp,
)
    requires
        progress.pending.len() > 0,
        progress.pending.last() == Waiting::Entry(path),
        inside(progress.host, progress.root, path) is Some,
    ensures
        scan_next(progress, Sight::Looked { kind: EntryKind::Dir, stamp }) matches Ok(next)
            && next.found == progress.found && next.pending == progress.pending.drop_last().push(
            Waiting::Dir(path),
        ),
        scan_next(progress, Sight::Looked { kind: EntryKind::File, stamp }) matches Ok(next) && {
            let key = file_key(progress.host, progress.root, path);
            &&& next.pending == progress.pending.drop_last()
            &&& next.found.contains_key(key) && next.found[key] == stamp
            &&& next.found.remove(key) == progress.found.remove(key)
        },
        scan_next(progress, Sight::Looked { kind: EntryKind::Other, stamp }) matches Ok(next)
            && next.found == progress.found && next.pending == progress.pending.drop_last(),
{
    let key = file_key(progress.host, progress.root, path);
    let found = progress.found;
    assert(found.insert(key, stamp).remove(key) =~= found.remove(key));
}

/// What is said of a scan that ended short ends with the path as it is shown and
/// why.
pub proof fn law_scan_error_tells_why(fault: ScanFault, shown: Seq<char>)
    ensures
        ends(
            scan_message(fault, shown),
            shown + ": "@ + match fault {
                ScanFault::ReadDir { cause, .. } => cause,
                ScanFault::ReadEntry { cause, .. } => cause,
                ScanFault::ReadMetadata { cause, .. } => cause,
            },
        ),
{
    let message = scan_message(fault, shown);
    let tail = shown + ": "@ + match fault {
        ScanFault::ReadDir { cause, .. } => cause,
        ScanFault::ReadEntry { cause, .. } => cause,
        ScanFault::ReadMetadata { cause, .. } => cause,
    };
    assert(message.skip(message.len() - tail.len()) =~= tail);
}

} // verus!
