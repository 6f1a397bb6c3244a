//! Hosts, and how each of them reads a path.
//!
//! On Unix a path is made of segments between slashes, and it is absolute when
//! it begins with one. On Windows a backslash separates segments as well, and a
//! path may begin with a prefix that names a drive or a share.

use vstd::prelude::*;

verus! {

/// The hosts that the tool runs on, as far as they read paths differently.
#[derive(Debug, Clone, Copy, PartialEq, Eq, Structural)]
pub enum Host {
    Unix,
    Windows,
}

/// What a path is made of: the characters of a text or the bytes of a name.
pub trait PathUnit: Copy {
    /// The number of the unit, which is its ASCII code where it has one.
    spec fn code(self) -> int;

    fn unit_code(self) -> (code: u32)
        ensures
            code == self.code(),
    ;
}

fn code_of_char(c: char) -> (code: u32)
    ensures
        code == c as int,
{
    c as u32
}

impl PathUnit for char {
    open spec fn code(self) -> int {
        self as int
    }

    fn unit_code(self) -> (code: u32) {
        code_of_char(self)
    }
}

impl PathUnit for u8 {
    open spec fn code(self) -> int {
        self as int
    }

    fn unit_code(self) -> (code: u32) {
        self as u32
    }
}

/// The code of `.`.
pub const DOT_CODE: u32 = 46;

/// The code of `/`.
pub const SLASH_CODE: u32 = 47;

/// The code of `:`.
pub const COLON_CODE: u32 = 58;

/// The code of `?`.
pub const QUESTION_CODE: u32 = 63;

/// The code of the backslash.
pub const BACKSLASH_CODE: u32 = 92;

/// What separates the segments of a path.
#[derive(Debug, Clone, Copy, PartialEq, Eq, Structural)]
pub enum Separators {
    Slash,
    Backslash,
    Both,
}

/// Whether a unit separates segments.
pub open spec fn separates(separators: Separators, code: int) -> bool {
    match separators {
        Separators::Slash => code == SLASH_CODE,
        Separators::Backslash => code == BACKSLASH_CODE,
        Separators::Both => code == SLASH_CODE || code == BACKSLASH_CODE,
    }
}

/// What separates the segments of a path that has no prefix.
pub open spec fn host_separators(host: Host) -> Separators {
    match host {
        Host::Unix => Separators::Slash,
        Host::Windows => Separators::Both,
    }
}

/// The kinds of prefixes that a Windows path may begin with.
#[derive(Debug, Clone, Copy, PartialEq, Eq, Structural)]
pub enum PrefixKind {
    /// `\\?\name`
    Verbatim,
    /// `\\?\UNC\server\share`
    VerbatimShare,
    /// `\\?\C:`
    VerbatimDrive,
    /// `\\.\device`
    Device,
    /// `\\server\share`
    Share,
    /// `C:`
    Drive,
}

/// Whether what follows a prefix of this kind is taken as it is written: only a
/// backslash separates, and a `.` is a segment like any other.
pub open spec fn is_verbatim(kind: PrefixKind) -> bool {
    kind == PrefixKind::Verbatim || kind == PrefixKind::VerbatimShare || kind
        == PrefixKind::VerbatimDrive
}

/// Where the first separator from `from` on stands; the end where there is none.
pub open spec fn next_separator<T: PathUnit>(
    path: Seq<T>,
    from: nat,
    separators: Separators,
) -> nat
    decreases path.len() - from,
{
    if from >= path.len() {
        path.len()
    } else if separates(separators, path[from as int].code()) {
        from
    } else {
        next_separator(path, from + 1, separators)
    }
}

/// Whether a unit is an ASCII letter.
pub open spec fn is_letter(code: int) -> bool {
    65 <= code <= 90 || 97 <= code <= 122
}

/// Whether a drive stands at `at`: a letter and a colon.
pub open spec fn drive_at<T: PathUnit>(path: Seq<T>, at: int) -> bool {
    at + 1 < path.len() && is_letter(path[at].code()) && path[at + 1].code() == COLON_CODE
}

/// Whether `UNC` and a separator stand behind the first four units.
pub open spec fn share_marked<T: PathUnit>(path: Seq<T>) -> bool {
    path.len() >= 8 && path[4].code() == 85 && path[5].code() == 78 && path[6].code() == 67
        && separates(Separators::Both, path[7].code())
}

/// Whether a path begins with `\\?\`, written with backslashes alone.
pub open spec fn verbatim_marked<T: PathUnit>(path: Seq<T>) -> bool {
    path.len() >= 4 && path[0].code() == BACKSLASH_CODE && path[1].code() == BACKSLASH_CODE
        && path[2].code() == QUESTION_CODE && path[3].code() == BACKSLASH_CODE
}

/// The prefix of a path that begins with `\\?\`, and its length.
pub open spec fn verbatim_prefix<T: PathUnit>(path: Seq<T>) -> (PrefixKind, nat) {
    if share_marked(path) {
        let server = next_separator(path, 8, Separators::Backslash);
        let share = next_separator(path, server + 1, Separators::Backslash);
        (
            PrefixKind::VerbatimShare,
            if share > server + 1 {
                share
            } else {
                server
            },
        )
    } else if drive_at(path, 4) && (path.len() == 6 || separates(
        Separators::Both,
        path[6].code(),
    )) {
        (PrefixKind::VerbatimDrive, 6)
    } else {
        (PrefixKind::Verbatim, next_separator(path, 4, Separators::Backslash))
    }
}

/// The prefix that a path begins with on Windows, and its length.
pub open spec fn windows_prefix<T: PathUnit>(path: Seq<T>) -> Option<(PrefixKind, nat)> {
    if path.len() >= 2 && separates(Separators::Both, path[0].code()) && separates(
        Separators::Both,
        path[1].code(),
    ) {
        if verbatim_marked(path) {
            Some(verbatim_prefix(path))
        } else if path.len() >= 4 && path[2].code() == DOT_CODE && separates(
            Separators::Both,
            path[3].code(),
        ) {
            Some((PrefixKind::Device, next_separator(path, 4, Separators::Both)))
        } else {
            let server = next_separator(path, 2, Separators::Both);
            let share = next_separator(path, server + 1, Separators::Both);
            if server > 2 && share > server + 1 {
                Some((PrefixKind::Share, share))
            } else {
                None
            }
        }
    } else if drive_at(path, 0) {
        Some((PrefixKind::Drive, 2))
    } else {
        None
    }
}

/// The prefix that a path begins with, and its length.
pub open spec fn path_prefix<T: PathUnit>(host: Host, path: Seq<T>) -> Option<(PrefixKind, nat)> {
    match host {
        Host::Unix => None,
        Host::Windows => windows_prefix(path),
    }
}

/// How long the prefix of a path is.
pub open spec fn prefix_len<T: PathUnit>(host: Host, path: Seq<T>) -> nat {
    match path_prefix(host, path) {
        Some((_, len)) => len,
        None => 0,
    }
}

/// What separates the segments of a path behind its prefix.
pub open spec fn path_separators<T: PathUnit>(host: Host, path: Seq<T>) -> Separators {
    match path_prefix(host, path) {
        Some((kind, _)) if is_verbatim(kind) => Separators::Backslash,
        _ => host_separators(host),
    }
}

/// Whether a separator stands right behind the prefix of a path.
pub open spec fn shows_root<T: PathUnit>(host: Host, path: Seq<T>) -> bool {
    let at = prefix_len(host, path);
    path.len() > at && separates(host_separators(host), path[at as int].code())
}

/// Whether a path begins at a root directory: it shows one, or its prefix is
/// more than a drive.
pub open spec fn begins_at_root<T: PathUnit>(host: Host, path: Seq<T>) -> bool {
    shows_root(host, path) || match path_prefix(host, path) {
        Some((kind, _)) => kind != PrefixKind::Drive,
        None => false,
    }
}

/// Whether a `.` stands by itself right behind the prefix of a path that begins
/// at no root directory.
pub open spec fn begins_here<T: PathUnit>(host: Host, path: Seq<T>) -> bool {
    let at = prefix_len(host, path);
    !begins_at_root(host, path) && path.len() > at && path[at as int].code() == DOT_CODE && (
    path.len() == at + 1 || separates(host_separators(host), path[at as int + 1].code()))
}

/// Where the segments of a path begin: behind its prefix, the root separator,
/// and a leading `.` that stands by itself.
pub open spec fn body_start<T: PathUnit>(host: Host, path: Seq<T>) -> nat {
    let at = prefix_len(host, path);
    if shows_root(host, path) || begins_here(host, path) {
        at + 1
    } else {
        at
    }
}

/// The segments of a path that are complete, and the one that its end is in.
pub open spec fn split<T: PathUnit>(separators: Separators, path: Seq<T>) -> (Seq<Seq<T>>, Seq<T>)
    decreases path.len(),
{
    if path.len() == 0 {
        (Seq::empty(), Seq::empty())
    } else {
        let (complete, open) = split(separators, path.drop_last());
        if separates(separators, path.last().code()) {
            (complete.push(open), Seq::empty())
        } else {
            (complete, open.push(path.last()))
        }
    }
}

/// What stands between the separators of a path.
pub open spec fn segments<T: PathUnit>(separators: Separators, path: Seq<T>) -> Seq<Seq<T>> {
    split(separators, path).0.push(split(separators, path).1)
}

/// Whether a segment is a `.`, which stands for the directory itself.
pub open spec fn is_dot<T: PathUnit>(segment: Seq<T>) -> bool {
    segment.len() == 1 && segment[0].code() == DOT_CODE
}

/// Whether a segment leads anywhere: it is not empty, and no `.` where such a
/// segment says nothing.
pub open spec fn leads<T: PathUnit>(separators: Separators, segment: Seq<T>) -> bool {
    segment.len() > 0 && (separators == Separators::Backslash || !is_dot(segment))
}

/// The segments that lead anywhere, in order.
pub open spec fn names<T: PathUnit>(separators: Separators, path: Seq<T>) -> Seq<Seq<T>> {
    segments(separators, path).filter(|segment: Seq<T>| leads(separators, segment))
}

/// The contents of a list of vectors.
pub open spec fn lists<T>(list: Seq<Vec<T>>) -> Seq<Seq<T>> {
    list.map_values(|part: Vec<T>| part@)
}

/// Whether a unit separates segments.
pub(crate) fn is_separator(separators: Separators, code: u32) -> (found: bool)
    ensures
        found == separates(separators, code as int),
{
    match separators {
        Separators::Slash => code == SLASH_CODE,
        Separators::Backslash => code == BACKSLASH_CODE,
        Separators::Both => code == SLASH_CODE || code == BACKSLASH_CODE,
    }
}

/// What separates the segments of a path that has no prefix.
pub(crate) fn separators_of(host: Host) -> (separators: Separators)
    ensures
        separators == host_separators(host),
{
    match host {
        Host::Unix => Separators::Slash,
        Host::Windows => Separators::Both,
    }
}

pub(crate) fn find_separator<T: PathUnit>(path: &[T], len: usize, from: usize, separators: Separators) -> (at:
    usize)
    requires
        len <= path@.len(),
    ensures
        at == next_separator(path@.take(len as int), from as nat, separators),
        at <= len,
        from <= len ==> from <= at,
{
    if from >= len {
        return len;
    }
    let mut at: usize = from;
    while at < len && !is_separator(separators, path[at].unit_code())
        invariant
            from <= at <= len <= path@.len(),
            next_separator(path@.take(len as int), at as nat, separators) == next_separator(
                path@.take(len as int),
                from as nat,
                separators,
            ),
        decreases len - at,
    {
        at += 1;
    }
    at
}

fn has_drive<T: PathUnit>(path: &[T], len: usize, at: usize) -> (found: bool)
    requires
        len <= path@.len(),
        at <= 4,
    ensures
        found == drive_at(path@.take(len as int), at as int),
{
    if at + 1 >= len {
        return false;
    }
    let letter: u32 = path[at].unit_code();
    ((65 <= letter && letter <= 90) || (97 <= letter && letter <= 122)) && path[at + 1].unit_code()
        == COLON_CODE
}

fn find_verbatim_prefix<T: PathUnit>(path: &[T], len: usize) -> (prefix: (PrefixKind, usize))
    requires
        len <= path@.len(),
        verbatim_marked(path@.take(len as int)),
    ensures
        prefix.0 == verbatim_prefix(path@.take(len as int)).0,
        prefix.1 == verbatim_prefix(path@.take(len as int)).1,
        prefix.1 <= len,
{
    if len >= 8 && path[4].unit_code() == 85 && path[5].unit_code() == 78 && path[6].unit_code()
        == 67 && is_separator(Separators::Both, path[7].unit_code()) {
        let server = find_separator(path, len, 8, Separators::Backslash);
        if server == len {
            return (PrefixKind::VerbatimShare, server);
        }
        let share = find_separator(path, len, server + 1, Separators::Backslash);
        if share > server + 1 {
            (PrefixKind::VerbatimShare, share)
        } else {
            (PrefixKind::VerbatimShare, server)
        }
    } else if has_drive(path, len, 4) && (len == 6 || is_separator(
        Separators::Both,
        path[6].unit_code(),
    )) {
        (PrefixKind::VerbatimDrive, 6)
    } else {
        (PrefixKind::Verbatim, find_separator(path, len, 4, Separators::Backslash))
    }
}

/// The prefix that the first `len` units of a path begin with, and its length.
pub(crate) fn find_prefix<T: PathUnit>(host: Host, path: &[T], len: usize) -> (prefix: Option<
    (PrefixKind, usize),
>)
    requires
        len <= path@.len(),
    ensures
        match prefix {
            Some((kind, end)) => path_prefix(host, path@.take(len as int)) == Some(
                (kind, end as nat),
            ) && end <= len,
            None => path_prefix(host, path@.take(len as int)) is None,
        },
{
    match host {
        Host::Unix => {
            return None;
        },
        Host::Windows => {},
    }
    if len >= 2 && is_separator(Separators::Both, path[0].unit_code()) && is_separator(
        Separators::Both,
        path[1].unit_code(),
    ) {
        if len >= 4 && path[0].unit_code() == BACKSLASH_CODE && path[1].unit_code()
            == BACKSLASH_CODE && path[2].unit_code() == QUESTION_CODE && path[3].unit_code()
            == BACKSLASH_CODE {
            Some(find_verbatim_prefix(path, len))
        } else if len >= 4 && path[2].unit_code() == DOT_CODE && is_separator(
            Separators::Both,
            path[3].unit_code(),
        ) {
            Some((PrefixKind::Device, find_separator(path, len, 4, Separators::Both)))
        } else {
            let server = find_separator(path, len, 2, Separators::Both);
            if server == 2 || server == len {
                return None;
            }
            let share = find_separator(path, len, server + 1, Separators::Both);
            if share > server + 1 {
                Some((PrefixKind::Share, share))
            } else {
                None
            }
        }
    } else if has_drive(path, len, 0) {
        Some((PrefixKind::Drive, 2))
    } else {
        None
    }
}

/// How a path begins.
pub(crate) struct Beginning {
    pub(crate) prefix: Option<PrefixKind>,
    pub(crate) prefix_len: usize,
    pub(crate) separators: Separators,
    pub(crate) root: bool,
    pub(crate) here: bool,
    pub(crate) body: usize,
}

/// How the first `len` units of a path begin.
pub(crate) fn beginning<T: PathUnit>(host: Host, path: &[T], len: usize) -> (found: Beginning)
    requires
        len <= path@.len(),
    ensures
        found.prefix == match path_prefix(host, path@.take(len as int)) {
            Some((kind, _)) => Some(kind),
            None => None,
        },
        found.prefix_len == prefix_len(host, path@.take(len as int)),
        found.separators == path_separators(host, path@.take(len as int)),
        found.root == shows_root(host, path@.take(len as int)),
        found.here == begins_here(host, path@.take(len as int)),
        found.body == body_start(host, path@.take(len as int)),
        found.prefix_len <= found.body <= len,
{
    let prefix = find_prefix(host, path, len);
    let (kind, at): (Option<PrefixKind>, usize) = match prefix {
        Some((kind, end)) => (Some(kind), end),
        None => (None, 0),
    };
    let common = separators_of(host);
    let root = at < len && is_separator(common, path[at].unit_code());
    let rooted = root || match kind {
        Some(kind) => kind != PrefixKind::Drive,
        None => false,
    };
    let here = !rooted && at < len && path[at].unit_code() == DOT_CODE && (at + 1 == len
        || is_separator(common, path[at + 1].unit_code()));
    let verbatim = match kind {
        Some(kind) => kind == PrefixKind::Verbatim || kind == PrefixKind::VerbatimShare || kind
            == PrefixKind::VerbatimDrive,
        None => false,
    };
    Beginning {
        prefix: kind,
        prefix_len: at,
        separators: if verbatim {
            Separators::Backslash
        } else {
            common
        },
        root,
        here,
        body: if root || here {
            at + 1
        } else {
            at
        },
    }
}

pub(crate) proof fn lemma_filter_push<T: PathUnit>(
    separators: Separators,
    list: Seq<Seq<T>>,
    last: Seq<T>,
)
    ensures
        list.push(last).filter(|segment: Seq<T>| leads(separators, segment)) == if leads(
            separators,
            last,
        ) {
            list.filter(|segment: Seq<T>| leads(separators, segment)).push(last)
        } else {
            list.filter(|segment: Seq<T>| leads(separators, segment))
        },
{
    reveal(Seq::filter);
    assert(list.push(last).drop_last() =~= list);
}

fn push_segment<T: PathUnit>(separators: Separators, list: &mut Vec<Vec<T>>, segment: Vec<T>)
    ensures
        lists(final(list)@) == if leads(separators, segment@) {
            lists(old(list)@).push(segment@)
        } else {
            lists(old(list)@)
        },
{
    let ghost before = lists(list@);
    let dot = segment.len() == 1 && segment[0].unit_code() == DOT_CODE;
    if segment.len() > 0 && (separators == Separators::Backslash || !dot) {
        list.push(segment);
        assert(lists(list@) =~= before.push(segment@));
    }
}

/// The segments from `from` on that lead anywhere, in order.
pub(crate) fn names_of<T: PathUnit>(separators: Separators, path: &[T], from: usize) -> (list: Vec<
    Vec<T>,
>)
    requires
        from <= path@.len(),
    ensures
        lists(list@) == names(separators, path@.skip(from as int)),
{
    let ghost body = path@.skip(from as int);
    let mut list: Vec<Vec<T>> = Vec::new();
    let mut open: Vec<T> = Vec::new();
    let mut i: usize = from;
    proof {
        reveal(Seq::filter);
        assert(lists(list@) =~= Seq::empty());
    }
    while i < path.len()
        invariant
            from <= i <= path@.len(),
            body == path@.skip(from as int),
            open@ == split(separators, body.take(i - from)).1,
            lists(list@) == split(separators, body.take(i - from)).0.filter(
                |segment: Seq<T>| leads(separators, segment),
            ),
        decreases path@.len() - i,
    {
        let ghost complete = split(separators, body.take(i - from)).0;
        assert(body.take(i - from + 1).drop_last() =~= body.take(i - from));
        assert(body.take(i - from + 1).last() == path@[i as int]);
        if is_separator(separators, path[i].unit_code()) {
            proof {
                lemma_filter_push(separators, complete, open@);
            }
            push_segment(separators, &mut list, open);
            open = Vec::new();
        } else {
            open.push(path[i]);
        }
        i += 1;
    }
    assert(body.take(i - from) =~= body);
    proof {
        lemma_filter_push(separators, split(separators, body).0, open@);
    }
    push_segment(separators, &mut list, open);
    list
}

/// The segments of a path in two parts: those of the one, with its last segment
/// continued by the first of the other, and the rest of the other.
pub(crate) proof fn lemma_segments_of_two<T: PathUnit>(
    separators: Separators,
    x: Seq<T>,
    y: Seq<T>,
)
    ensures
        segments(separators, x).len() > 0,
        segments(separators, y).len() > 0,
        segments(separators, x + y) == segments(separators, x).drop_last().push(
            segments(separators, x).last() + segments(separators, y)[0],
        ) + segments(separators, y).skip(1),
    decreases y.len(),
{
    let first = segments(separators, x);
    let second = segments(separators, y);
    if y.len() == 0 {
        assert(x + y =~= x);
        assert(second =~= seq![Seq::<T>::empty()]);
        assert(first.last() + second[0] =~= first.last());
        assert(first.drop_last().push(first.last()) =~= first);
        assert(first =~= first.drop_last().push(first.last() + second[0]) + second.skip(1));
    } else {
        let shorter = y.drop_last();
        let before = segments(separators, shorter);
        let whole = segments(separators, x + y);
        lemma_segments_of_two(separators, x, shorter);
        assert((x + y).drop_last() =~= x + shorter);
        assert((x + y).last() == y.last());
        let joint = segments(separators, x + shorter);
        if separates(separators, y.last().code()) {
            assert(whole =~= joint.push(Seq::empty()));
            assert(second =~= before.push(Seq::empty()));
            assert(whole =~= first.drop_last().push(first.last() + second[0]) + second.skip(1));
        } else {
            let end = y.last();
            assert(whole =~= joint.drop_last().push(joint.last().push(end)));
            assert(second =~= before.drop_last().push(before.last().push(end)));
            if before.len() == 1 {
                assert((first.last() + before[0]).push(end) =~= first.last() + second[0]);
            }
            assert(whole =~= first.drop_last().push(first.last() + second[0]) + second.skip(1));
        }
    }
}

/// The segments on both sides of a separator are those of the whole.
pub(crate) proof fn lemma_segments_at_separator<T: PathUnit>(
    separators: Separators,
    x: Seq<T>,
    unit: T,
    y: Seq<T>,
)
    requires
        separates(separators, unit.code()),
    ensures
        segments(separators, x.push(unit) + y) == segments(separators, x) + segments(
            separators,
            y,
        ),
        names(separators, x.push(unit) + y) == names(separators, x) + names(separators, y),
{
    let first = segments(separators, x);
    let second = segments(separators, y);
    lemma_segments_of_two(separators, x.push(unit), y);
    assert(x.push(unit).drop_last() =~= x);
    let both = segments(separators, x.push(unit));
    assert(both =~= first.push(Seq::empty()));
    assert(both.drop_last() =~= first);
    assert(both.last() + second[0] =~= second[0]);
    assert(first.push(second[0]) + second.skip(1) =~= first + second);
    Seq::filter_distributes_over_add(first, second, |segment: Seq<T>| leads(separators, segment));
}

pub(crate) proof fn lemma_next_separator<T: PathUnit>(
    path: Seq<T>,
    from: nat,
    separators: Separators,
)
    requires
        from <= path.len(),
    ensures
        from <= next_separator(path, from, separators) <= path.len(),
        next_separator(path, from, separators) < path.len() ==> separates(
            separators,
            path[next_separator(path, from, separators) as int].code(),
        ),
        forall|i: int|
            from <= i < next_separator(path, from, separators) ==> !separates(
                separators,
                (#[trigger] path[i]).code(),
            ),
    decreases path.len() - from,
{
    if from < path.len() && !separates(separators, path[from as int].code()) {
        lemma_next_separator(path, from + 1, separators);
    }
}

/// The next separator is that of the rest of the path.
pub(crate) proof fn lemma_next_separator_of_rest<T: PathUnit>(
    path: Seq<T>,
    from: nat,
    at: nat,
    separators: Separators,
)
    requires
        from + at <= path.len(),
    ensures
        next_separator(path, from + at, separators) == from + next_separator(
            path.skip(from as int),
            at,
            separators,
        ),
    decreases path.len() - from - at,
{
    let rest = path.skip(from as int);
    if from + at < path.len() {
        assert(rest[at as int] == path[(from + at) as int]);
        if !separates(separators, rest[at as int].code()) {
            lemma_next_separator_of_rest(path, from, at + 1, separators);
        }
    }
}

/// A path without separators is one segment.
pub(crate) proof fn lemma_unseparated<T: PathUnit>(separators: Separators, name: Seq<T>)
    requires
        forall|i: int|
            0 <= i < name.len() ==> !separates(separators, (#[trigger] name[i]).code()),
    ensures
        split(separators, name) == (Seq::<Seq<T>>::empty(), name),
        segments(separators, name) == seq![name],
    decreases name.len(),
{
    if name.len() > 0 {
        let shorter = name.drop_last();
        assert forall|i: int| 0 <= i < shorter.len() implies !separates(
            separators,
            (#[trigger] shorter[i]).code(),
        ) by {
            assert(shorter[i] == name[i]);
        }
        lemma_unseparated(separators, shorter);
        assert(name[name.len() - 1] == name.last());
        assert(shorter.push(name.last()) =~= name);
    } else {
        assert(name =~= Seq::empty());
    }
    assert(segments(separators, name) =~= seq![name]);
}

/// The names of a path are its first segment, where it leads anywhere, and the
/// names behind it.
pub(crate) proof fn lemma_names_from_the_front<T: PathUnit>(
    separators: Separators,
    body: Seq<T>,
)
    requires
        body.len() > 0,
    ensures
        ({
            let end = next_separator(body, 0, separators);
            let first = body.take(end as int);
            let behind = if end < body.len() {
                names(separators, body.skip(end as int + 1))
            } else {
                Seq::empty()
            };
            &&& end <= body.len()
            &&& names(separators, body) == if leads(separators, first) {
                seq![first] + behind
            } else {
                behind
            }
        }),
{
    let end = next_separator(body, 0, separators);
    let first = body.take(end as int);
    lemma_next_separator(body, 0, separators);
    assert forall|i: int| 0 <= i < first.len() implies !separates(
        separators,
        (#[trigger] first[i]).code(),
    ) by {
        assert(first[i] == body[i]);
    }
    lemma_unseparated(separators, first);
    lemma_filter_push(separators, Seq::<Seq<T>>::empty(), first);
    reveal(Seq::filter);
    assert(seq![first] =~= Seq::<Seq<T>>::empty().push(first));
    assert(names(separators, first) =~= if leads(separators, first) {
        seq![first]
    } else {
        Seq::empty()
    });
    if end < body.len() {
        let tail = body.skip(end as int + 1);
        lemma_segments_at_separator(separators, first, body[end as int], tail);
        assert(first.push(body[end as int]) + tail =~= body);
        assert(names(separators, body) == names(separators, first) + names(separators, tail));
        assert(Seq::<Seq<T>>::empty() + names(separators, tail) =~= names(separators, tail));
    } else {
        assert(first =~= body);
        assert(seq![first] + Seq::<Seq<T>>::empty() =~= seq![first]);
    }
}

/// Where the last segment begins, looking no further back than `floor`.
pub open spec fn segment_start<T: PathUnit>(path: Seq<T>, floor: nat, separators: Separators) -> nat
    decreases path.len(),
{
    if path.len() <= floor {
        floor
    } else if separates(separators, path.last().code()) {
        path.len()
    } else {
        segment_start(path.drop_last(), floor, separators)
    }
}

pub(crate) proof fn lemma_segment_start<T: PathUnit>(
    path: Seq<T>,
    floor: nat,
    separators: Separators,
)
    requires
        floor <= path.len(),
    ensures
        floor <= segment_start(path, floor, separators) <= path.len(),
        segment_start(path, floor, separators) > floor ==> separates(
            separators,
            path[segment_start(path, floor, separators) - 1].code(),
        ),
    decreases path.len(),
{
    if path.len() > floor && !separates(separators, path.last().code()) {
        lemma_segment_start(path.drop_last(), floor, separators);
    }
}

/// Where the last segment of the first `len` units begins.
pub(crate) fn start_of_segment<T: PathUnit>(
    path: &[T],
    len: usize,
    floor: usize,
    separators: Separators,
) -> (start: usize)
    requires
        floor <= len <= path@.len(),
    ensures
        start == segment_start(path@.take(len as int), floor as nat, separators),
        floor <= start <= len,
{
    let mut end: usize = len;
    while end > floor && !is_separator(separators, path[end - 1].unit_code())
        invariant
            floor <= end <= len <= path@.len(),
            segment_start(path@.take(end as int), floor as nat, separators) == segment_start(
                path@.take(len as int),
                floor as nat,
                separators,
            ),
        decreases end,
    {
        assert(path@.take(end as int).drop_last() =~= path@.take(end - 1));
        end -= 1;
    }
    end
}

proof fn lemma_split_is_unseparated<T: PathUnit>(separators: Separators, unit: T, path: Seq<T>)
    requires
        separates(separators, unit.code()),
    ensures
        forall|i: int|
            0 <= i < split(separators, path).0.len() ==> !(#[trigger] split(
                separators,
                path,
            ).0[i]).contains(unit),
        !split(separators, path).1.contains(unit),
    decreases path.len(),
{
    if path.len() > 0 {
        lemma_split_is_unseparated(separators, unit, path.drop_last());
        let (complete, open) = split(separators, path.drop_last());
        if !separates(separators, path.last().code()) {
            let more = open.push(path.last());
            assert forall|i: int| 0 <= i < more.len() implies more[i] != unit by {
                if i < open.len() {
                    assert(open.contains(open[i]));
                }
            }
        }
    }
}

proof fn lemma_filtered_are_unseparated<T: PathUnit>(
    separators: Separators,
    unit: T,
    list: Seq<Seq<T>>,
)
    requires
        forall|i: int| 0 <= i < list.len() ==> !(#[trigger] list[i]).contains(unit),
    ensures
        ({
            let kept = list.filter(|segment: Seq<T>| leads(separators, segment));
            forall|i: int|
                0 <= i < kept.len() ==> #[trigger] kept[i].len() > 0 && !kept[i].contains(unit)
        }),
    decreases list.len(),
{
    reveal(Seq::filter);
    if list.len() > 0 {
        let shorter = list.drop_last();
        assert forall|i: int| 0 <= i < shorter.len() implies !(
        #[trigger] shorter[i]).contains(unit) by {
            assert(!list[i].contains(unit));
        }
        lemma_filtered_are_unseparated(separators, unit, shorter);
        assert(!list[list.len() - 1].contains(unit));
        lemma_filter_push(separators, shorter, list.last());
        assert(shorter.push(list.last()) =~= list);
    }
}

/// No name is empty, and none holds a separator.
pub(crate) proof fn lemma_names_are_unseparated<T: PathUnit>(
    separators: Separators,
    unit: T,
    path: Seq<T>,
)
    requires
        separates(separators, unit.code()),
    ensures
        ({
            let list = names(separators, path);
            forall|i: int|
                0 <= i < list.len() ==> #[trigger] list[i].len() > 0 && !list[i].contains(unit)
        }),
{
    lemma_split_is_unseparated(separators, unit, path);
    lemma_filtered_are_unseparated(separators, unit, segments(separators, path));
}

/// What the next separator is told by.
pub(crate) proof fn lemma_next_separator_is<T: PathUnit>(
    path: Seq<T>,
    from: nat,
    at: nat,
    separators: Separators,
)
    requires
        from <= at <= path.len(),
        forall|i: int| from <= i < at ==> !separates(separators, (#[trigger] path[i]).code()),
        at < path.len() ==> separates(separators, path[at as int].code()),
    ensures
        next_separator(path, from, separators) == at,
    decreases at - from,
{
    if from < at {
        assert(!separates(separators, path[from as int].code()));
        lemma_next_separator_is(path, from + 1, at, separators);
    }
}

/// Only on Windows has a path a prefix. It is a drive exactly where the path begins
/// with an ASCII letter and a colon.
pub proof fn law_drive_is_a_letter_and_a_colon(path: Seq<char>)
    ensures
        path_prefix(Host::Unix, path) is None,
        path_prefix(Host::Windows, path) matches Some((PrefixKind::Drive, _)) <==> {
            &&& path.len() >= 2
            &&& 'a' <= path[0] <= 'z' || 'A' <= path[0] <= 'Z'
            &&& path[1] == ':'
        },
        path_prefix(Host::Windows, path) matches Some((PrefixKind::Drive, len)) ==> len == 2,
{
}

/// A server and a share behind two separators are a prefix on Windows, which ends
/// where the share does, whichever way the separators lean.
pub proof fn law_share_is_a_server_and_a_share(
    server: Seq<char>,
    share: Seq<char>,
    rest: Seq<char>,
    lead: Seq<char>,
    between: char,
)
    requires
        server.len() > 0,
        share.len() > 0,
        server != seq!['.'],
        server != seq!['?'],
        forall|i: int|
            0 <= i < server.len() ==> !separates(Separators::Both, (#[trigger] server[i]).code()),
        forall|i: int|
            0 <= i < share.len() ==> !separates(Separators::Both, (#[trigger] share[i]).code()),
        rest.len() > 0 ==> separates(Separators::Both, rest[0].code()),
        lead.len() == 2,
        separates(Separators::Both, lead[0].code()),
        separates(Separators::Both, lead[1].code()),
        separates(Separators::Both, between.code()),
    ensures
        path_prefix(Host::Windows, lead + server + seq![between] + share + rest) == Some(
            (PrefixKind::Share, 3 + server.len() + share.len()),
        ),
{
    let both = Separators::Both;
    let path = lead + server + seq![between] + share + rest;
    let n = 2 + server.len();
    let m = n + 1 + share.len();
    assert(path[0] == lead[0] && path[1] == lead[1]);
    assert forall|i: int| 2 <= i < n implies !separates(both, (#[trigger] path[i]).code()) by {
        assert(path[i] == server[i - 2]);
    }
    assert(path[n as int] == between);
    assert forall|i: int| n + 1 <= i < m implies !separates(both, (#[trigger] path[i]).code()) by {
        assert(path[i] == share[i - n - 1]);
    }
    if rest.len() > 0 {
        assert(path[m as int] == rest[0]);
    }
    lemma_next_separator_is(path, 2, n, both);
    lemma_next_separator_is(path, n + 1, m, both);
    assert(path[2] == server[0]);
    assert(!separates(both, server[0].code()));
    if server.len() == 1 {
        assert(server[0] != '.') by {
            if server[0] == '.' {
                assert(server =~= seq!['.']);
            }
        }
        assert(server[0] != '?') by {
            if server[0] == '?' {
                assert(server =~= seq!['?']);
            }
        }
    } else {
        assert(path[3] == server[1]);
        assert(!separates(both, path[3].code()));
    }
}

/// A dot between separators behind two separators marks a device on Windows: the
/// prefix ends where the name of the device does.
pub proof fn law_device_is_a_name_behind_a_dot(
    lead: Seq<char>,
    between: char,
    name: Seq<char>,
    rest: Seq<char>,
)
    requires
        lead.len() == 2,
        separates(Separators::Both, lead[0].code()),
        separates(Separators::Both, lead[1].code()),
        separates(Separators::Both, between.code()),
        forall|i: int|
            0 <= i < name.len() ==> !separates(Separators::Both, (#[trigger] name[i]).code()),
        rest.len() > 0 ==> separates(Separators::Both, rest[0].code()),
    ensures
        path_prefix(Host::Windows, lead + seq!['.', between] + name + rest) == Some(
            (PrefixKind::Device, 4 + name.len()),
        ),
{
    let both = Separators::Both;
    let path = lead + seq!['.', between] + name + rest;
    let m = 4 + name.len();
    assert(path[0] == lead[0] && path[1] == lead[1] && path[2] == '.' && path[3] == between);
    assert forall|i: int| 4 <= i < m implies !separates(both, (#[trigger] path[i]).code()) by {
        assert(path[i] == name[i - 4]);
    }
    if rest.len() > 0 {
        assert(path[m as int] == rest[0]);
    }
    lemma_next_separator_is(path, 4, m, both);
}

/// A drive behind `\\?\` is a prefix of its own on Windows, which ends behind the
/// colon, where the path does or a separator follows.
pub proof fn law_verbatim_drive_ends_behind_the_colon(letter: char, rest: Seq<char>)
    requires
        'a' <= letter <= 'z' || 'A' <= letter <= 'Z',
        rest.len() > 0 ==> separates(Separators::Both, rest[0].code()),
    ensures
        path_prefix(Host::Windows, seq!['\\', '\\', '?', '\\', letter, ':'] + rest) == Some(
            (PrefixKind::VerbatimDrive, 6nat),
        ),
{
    let path = seq!['\\', '\\', '?', '\\', letter, ':'] + rest;
    assert(path[0] == '\\' && path[1] == '\\' && path[2] == '?' && path[3] == '\\' && path[4]
        == letter && path[5] == ':');
    if rest.len() > 0 {
        assert(path[6] == rest[0]);
    }
}

/// Any other name behind `\\?\` is a prefix with it on Windows, which ends where a
/// backslash follows: a slash separates nothing there.
pub proof fn law_verbatim_name_ends_at_a_backslash(name: Seq<char>, rest: Seq<char>)
    requires
        name.len() > 2,
        !name.contains('\\'),
        name[1] != ':',
        name.take(3) != seq!['U', 'N', 'C'],
        rest.len() > 0 ==> rest[0] == '\\',
    ensures
        path_prefix(Host::Windows, seq!['\\', '\\', '?', '\\'] + name + rest) == Some(
            (PrefixKind::Verbatim, 4 + name.len()),
        ),
{
    let path = seq!['\\', '\\', '?', '\\'] + name + rest;
    let m = 4 + name.len();
    assert(path[0] == '\\' && path[1] == '\\' && path[2] == '?' && path[3] == '\\');
    assert(path[4] == name[0] && path[5] == name[1] && path[6] == name[2]);
    assert(!share_marked(path)) by {
        if share_marked(path) {
            assert(name.take(3) =~= seq!['U', 'N', 'C']);
        }
    }
    assert forall|i: int| 4 <= i < m implies !separates(
        Separators::Backslash,
        (#[trigger] path[i]).code(),
    ) by {
        assert(path[i] == name[i - 4]);
        assert(name.contains(name[i - 4]));
    }
    if rest.len() > 0 {
        assert(path[m as int] == rest[0]);
    }
    lemma_next_separator_is(path, 4, m, Separators::Backslash);
}

} // verus!
