//! Which files of a project are watched.
//!
//! Below the project root a file may have any name, so the paths here are
//! bytes. A path is read as its components: the prefix, the root directory, a
//! leading `.`, and each segment that leads anywhere.

use vstd::prelude::*;
use vstd::utf8::encode_utf8;

use crate::host::{
    beginning, begins_here, body_start, find_separator, leads, lemma_filter_push,
    lemma_names_from_the_front,
    lemma_next_separator, lemma_next_separator_of_rest, lemma_segment_start,
    lemma_segments_at_separator, lemma_unseparated, lists, names, names_of, next_separator,
    path_prefix, path_separators, prefix_len, segment_start, segments, separates, shows_root,
    split, start_of_segment, Host, PathUnit, PrefixKind, Separators, DOT_CODE,
};

verus! {

/// The slash that stands for a root directory.
pub const SLASH: u8 = 47;

/// The backslash, which separates segments on Windows.
pub const BACKSLASH: u8 = 92;

/// The dot that stands for the directory itself.
pub const DOT: u8 = 46;

/// A letter as a capital.
pub open spec fn capital(byte: u8) -> u8 {
    if 97 <= byte <= 122 {
        (byte - 32) as u8
    } else {
        byte
    }
}

/// One byte of a prefix, written in the one way that all prefixes for the same
/// drive or share are written in: a drive with a capital letter, and the
/// separators of a prefix all alike.
pub open spec fn prefix_byte(kind: PrefixKind, at: int, byte: u8) -> u8 {
    match kind {
        PrefixKind::Drive => if at == 0 {
            capital(byte)
        } else {
            byte
        },
        PrefixKind::VerbatimDrive => if at == 4 {
            capital(byte)
        } else {
            byte
        },
        PrefixKind::VerbatimShare => if at == 7 {
            BACKSLASH
        } else {
            byte
        },
        PrefixKind::Device => if at < 4 && byte == SLASH {
            BACKSLASH
        } else {
            byte
        },
        PrefixKind::Share => if byte == BACKSLASH {
            SLASH
        } else {
            byte
        },
        PrefixKind::Verbatim => byte,
    }
}

/// A prefix, written in the one way for all that mean the same.
pub open spec fn prefix_name(kind: PrefixKind, prefix: Seq<u8>) -> Seq<u8> {
    Seq::new(prefix.len(), |i: int| prefix_byte(kind, i, prefix[i]))
}

/// The components that a path begins with before its segments.
pub open spec fn anchor(host: Host, path: Seq<u8>) -> Seq<Seq<u8>> {
    let root = seq![seq![SLASH]];
    match path_prefix(host, path) {
        Some((kind, len)) => {
            let prefix = seq![prefix_name(kind, path.take(len as int))];
            if shows_root(host, path) || kind == PrefixKind::Share || kind == PrefixKind::Device {
                prefix + root
            } else {
                prefix
            }
        },
        None => if shows_root(host, path) {
            root
        } else if begins_here(host, path) {
            seq![seq![DOT]]
        } else {
            Seq::empty()
        },
    }
}

/// What follows the prefix and the root directory of a path.
pub open spec fn behind_root(host: Host, path: Seq<u8>) -> Seq<u8> {
    let at = prefix_len(host, path) as int;
    path.skip(
        if shows_root(host, path) {
            at + 1
        } else {
            at
        },
    )
}

/// The components of a path.
pub open spec fn components(host: Host, path: Seq<u8>) -> Seq<Seq<u8>> {
    anchor(host, path) + names(path_separators(host, path), behind_root(host, path))
}

/// The components of `path` below `root`; nothing where `path` is not below it.
pub open spec fn below(host: Host, root: Seq<u8>, path: Seq<u8>) -> Option<Seq<Seq<u8>>> {
    let base = components(host, root);
    let whole = components(host, path);
    if base.len() <= whole.len() && whole.take(base.len() as int) == base {
        Some(whole.skip(base.len() as int))
    } else {
        None
    }
}

/// What stands from the next name on, behind `count` names of a path.
pub open spec fn behind_names(separators: Separators, body: Seq<u8>, count: nat) -> Seq<u8>
    decreases body.len(),
{
    let end = next_separator(body, 0, separators);
    let leading = leads(separators, body.take(end as int));
    if body.len() == 0 || (count == 0 && leading) {
        body
    } else {
        behind_names(
            separators,
            if end < body.len() {
                body.skip(end as int + 1)
            } else {
                Seq::empty()
            },
            if leading {
                (count - 1) as nat
            } else {
                count
            },
        )
    }
}

/// A path without the segments at its end that lead nowhere, down to its first
/// `floor` bytes.
pub open spec fn settled_end(separators: Separators, path: Seq<u8>, floor: nat) -> Seq<u8>
    decreases path.len(),
    via settled_end_ends
{
    let start = segment_start(path, floor, separators);
    if path.len() > floor && !leads(separators, path.skip(start as int)) {
        settled_end(
            separators,
            path.take(
                if start > floor {
                    start - 1
                } else {
                    floor as int
                },
            ),
            floor,
        )
    } else {
        path
    }
}

#[via_fn]
proof fn settled_end_ends(separators: Separators, path: Seq<u8>, floor: nat) {
    if path.len() > floor {
        lemma_segment_start(path, floor, separators);
    }
}

/// What stands in a path behind its first `count` components, as it is written
/// there.
pub open spec fn behind_components(host: Host, path: Seq<u8>, count: nat) -> Seq<u8> {
    let separators = path_separators(host, path);
    let at = prefix_len(host, path);
    let body = body_start(host, path);
    if count == 0 {
        settled_end(separators, path, body)
    } else if count == 1 && path_prefix(host, path) is Some {
        settled_end(separators, path.skip(at as int), (body - at) as nat)
    } else {
        let names_before = (count - anchor(host, path).len()) as nat;
        settled_end(
            separators,
            behind_names(separators, behind_root(host, path), names_before),
            0,
        )
    }
}

/// The components of `path` as seen from `root`: what stands in `path` behind
/// `root` is read as a path of its own. Nothing where `path` is not below `root`.
///
/// On Unix the components are the same as in `path`. On Windows a name may read
/// differently when it stands at the beginning, such as one that looks like a
/// drive.
pub open spec fn inside(host: Host, root: Seq<u8>, path: Seq<u8>) -> Option<Seq<Seq<u8>>> {
    match below(host, root, path) {
        None => None,
        Some(rest) => Some(
            match host {
                Host::Unix => rest,
                Host::Windows => components(
                    host,
                    behind_components(host, path, components(host, root).len()),
                ),
            },
        ),
    }
}

/// Whether what stands in `path` behind `root` reads as it does in `path`:
/// always on Unix, and on Windows wherever no name there could begin a path of
/// another kind.
pub open spec fn reads_alike(host: Host, root: Seq<u8>, path: Seq<u8>) -> bool {
    inside(host, root, path) == below(host, root, path)
}

/// The names at the top of a project under which everything is generated.
pub open spec fn is_generated_root(name: Seq<u8>) -> bool {
    ||| name == encode_utf8(".git"@)
    ||| name == encode_utf8(".rustforge"@)
    ||| name == encode_utf8("target"@)
    ||| name == encode_utf8("dist"@)
}

/// Whether the components of a path below the root are those of something
/// generated: the first is a generated root, or one of them is `target`.
pub open spec fn is_generated(rest: Seq<Seq<u8>>) -> bool {
    rest.len() > 0 && (is_generated_root(rest[0]) || rest.contains(encode_utf8("target"@)))
}

/// Whether a path is left out of the watch: it is not below the root, or it is
/// generated.
pub open spec fn is_ignored(host: Host, root: Seq<u8>, path: Seq<u8>) -> bool {
    match inside(host, root, path) {
        Some(rest) => is_generated(rest),
        None => true,
    }
}

/// A copy of some bytes.
pub(crate) fn copy_bytes(bytes: &[u8]) -> (copy: Vec<u8>)
    ensures
        copy@ == bytes@,
{
    let mut copy: Vec<u8> = Vec::new();
    let mut i: usize = 0;
    while i < bytes.len()
        invariant
            i <= bytes@.len(),
            copy@ =~= bytes@.take(i as int),
        decreases bytes@.len() - i,
    {
        copy.push(bytes[i]);
        i += 1;
    }
    copy
}

/// Whether some bytes are the same.
pub(crate) fn same_bytes(a: &[u8], b: &[u8]) -> (same: bool)
    ensures
        same == (a@ == b@),
{
    if a.len() != b.len() {
        return false;
    }
    let mut i: usize = 0;
    while i < a.len()
        invariant
            i <= a@.len(),
            a@.len() == b@.len(),
            forall|j: int| 0 <= j < i ==> a@[j] == b@[j],
        decreases a@.len() - i,
    {
        if a[i] != b[i] {
            return false;
        }
        i += 1;
    }
    assert(a@ =~= b@);
    true
}

fn prefix_of(kind: PrefixKind, path: &[u8], len: usize) -> (name: Vec<u8>)
    requires
        len <= path@.len(),
    ensures
        name@ == prefix_name(kind, path@.take(len as int)),
{
    let mut name: Vec<u8> = Vec::new();
    let mut i: usize = 0;
    while i < len
        invariant
            i <= len <= path@.len(),
            name@.len() == i,
            forall|j: int| 0 <= j < i ==> name@[j] == prefix_byte(kind, j, path@[j]),
        decreases len - i,
    {
        let byte: u8 = path[i];
        let large: u8 = if 97 <= byte && byte <= 122 {
            byte - 32
        } else {
            byte
        };
        let written: u8 = match kind {
            PrefixKind::Drive => if i == 0 {
                large
            } else {
                byte
            },
            PrefixKind::VerbatimDrive => if i == 4 {
                large
            } else {
                byte
            },
            PrefixKind::VerbatimShare => if i == 7 {
                BACKSLASH
            } else {
                byte
            },
            PrefixKind::Device => if i < 4 && byte == SLASH {
                BACKSLASH
            } else {
                byte
            },
            PrefixKind::Share => if byte == BACKSLASH {
                SLASH
            } else {
                byte
            },
            PrefixKind::Verbatim => byte,
        };
        name.push(written);
        i += 1;
    }
    assert(name@ =~= prefix_name(kind, path@.take(len as int)));
    name
}

/// The components of a path.
pub(crate) fn components_of(host: Host, path: &[u8]) -> (list: Vec<Vec<u8>>)
    ensures
        lists(list@) == components(host, path@),
{
    assert(path@.take(path@.len() as int) =~= path@);
    let found = beginning(host, path, path.len());
    let mut list: Vec<Vec<u8>> = Vec::new();
    let mut rooted = found.root;
    if let Some(kind) = found.prefix {
        list.push(prefix_of(kind, path, found.prefix_len));
        rooted = rooted || kind == PrefixKind::Share || kind == PrefixKind::Device;
    }
    let root = vec![SLASH];
    let here = vec![DOT];
    assert(root@ =~= seq![SLASH]);
    assert(here@ =~= seq![DOT]);
    if rooted {
        list.push(root);
    } else if found.prefix.is_none() && found.here {
        list.push(here);
    }
    assert(lists(list@) =~= anchor(host, path@));
    let from: usize = if found.root {
        found.prefix_len + 1
    } else {
        found.prefix_len
    };
    let ghost first = lists(list@);
    let mut rest = names_of(found.separators, path, from);
    let ghost more = lists(rest@);
    list.append(&mut rest);
    assert(lists(list@) =~= first + more);
    list
}

/// The components of `path` below `root`.
fn relative(host: Host, root: &[u8], path: &[u8]) -> (rest: Option<Vec<Vec<u8>>>)
    ensures
        match rest {
            Some(list) => below(host, root@, path@) == Some(lists(list@)),
            None => below(host, root@, path@) is None,
        },
{
    let base = components_of(host, root);
    let whole = components_of(host, path);
    if base.len() > whole.len() {
        return None;
    }
    let ghost wanted = components(host, path@);
    let mut i: usize = 0;
    while i < base.len()
        invariant
            i <= base@.len() <= whole@.len(),
            lists(base@) == components(host, root@),
            lists(whole@) == components(host, path@),
            forall|j: int| 0 <= j < i ==> lists(base@)[j] == lists(whole@)[j],
        decreases base@.len() - i,
    {
        if !same_bytes(base[i].as_slice(), whole[i].as_slice()) {
            assert(lists(whole@).take(base@.len() as int)[i as int] != lists(base@)[i as int]);
            return None;
        }
        i += 1;
    }
    assert(wanted.take(base@.len() as int) =~= lists(base@));
    let mut rest: Vec<Vec<u8>> = Vec::new();
    while i < whole.len()
        invariant
            base@.len() <= i <= whole@.len(),
            lists(whole@) == wanted,
            lists(rest@) =~= wanted.subrange(base@.len() as int, i as int),
        decreases whole@.len() - i,
    {
        let ghost before = lists(rest@);
        rest.push(copy_bytes(whole[i].as_slice()));
        assert(lists(rest@) =~= before.push(lists(whole@)[i as int]));
        i += 1;
    }
    assert(lists(rest@) =~= wanted.skip(base@.len() as int));
    Some(rest)
}

/// Where what is behind `count` names begins.
fn skip_names(separators: Separators, path: &[u8], from: usize, count: usize) -> (at: usize)
    requires
        from <= path@.len(),
    ensures
        from <= at <= path@.len(),
        path@.skip(at as int) == behind_names(separators, path@.skip(from as int), count as nat),
{
    let ghost wanted = behind_names(separators, path@.skip(from as int), count as nat);
    let mut at: usize = from;
    let mut left: usize = count;
    assert(path@.take(path@.len() as int) =~= path@);
    while at < path.len()
        invariant
            from <= at <= path@.len(),
            path@.take(path@.len() as int) == path@,
            wanted == behind_names(separators, path@.skip(from as int), count as nat),
            behind_names(separators, path@.skip(at as int), left as nat) == wanted,
        decreases path@.len() - at,
    {
        let ghost body = path@.skip(at as int);
        let end = find_separator(path, path.len(), at, separators);
        proof {
            lemma_next_separator_of_rest(path@, at as nat, 0, separators);
            assert(body.take(end - at) =~= path@.subrange(at as int, end as int));
            if end < path@.len() {
                assert(body.skip(end - at + 1) =~= path@.skip(end + 1));
            }
        }
        let dot = end - at == 1 && path[at].unit_code() == DOT_CODE;
        let leading = end > at && (separators == Separators::Backslash || !dot);
        assert(leading == leads(separators, body.take(end - at)));
        if leading {
            if left == 0 {
                return at;
            }
            left -= 1;
        }
        if end == path.len() {
            proof {
                let nothing = Seq::<u8>::empty();
                assert(behind_names(separators, nothing, left as nat) == nothing);
                assert(path@.skip(path@.len() as int) =~= nothing);
            }
            return end;
        }
        at = end + 1;
    }
    at
}

fn settle_end(separators: Separators, path: &[u8], floor: usize) -> (end: usize)
    requires
        floor <= path@.len(),
    ensures
        floor <= end <= path@.len(),
        path@.take(end as int) == settled_end(separators, path@, floor as nat),
{
    let mut end: usize = path.len();
    assert(path@.take(path@.len() as int) =~= path@);
    loop
        invariant
            floor <= end <= path@.len(),
            settled_end(separators, path@.take(end as int), floor as nat) == settled_end(
                separators,
                path@,
                floor as nat,
            ),
        decreases end,
    {
        let ghost shown = path@.take(end as int);
        let start = start_of_segment(path, end, floor, separators);
        let ghost last = shown.skip(start as int);
        let dot = end - start == 1 && path[start].unit_code() == DOT_CODE;
        let leading = end > start && (separators == Separators::Backslash || !dot);
        proof {
            if end - start == 1 {
                assert(last[0] == path@[start as int]);
            }
            assert(leading == leads(separators, last));
        }
        if end == floor || leading {
            return end;
        }
        let next: usize = if start > floor {
            start - 1
        } else {
            floor
        };
        assert(shown.take(next as int) =~= path@.take(next as int));
        end = next;
    }
}

fn copy_from(path: &[u8], from: usize) -> (copy: Vec<u8>)
    requires
        from <= path@.len(),
    ensures
        copy@ == path@.skip(from as int),
{
    let mut copy: Vec<u8> = Vec::new();
    let mut i: usize = from;
    while i < path.len()
        invariant
            from <= i <= path@.len(),
            copy@ =~= path@.subrange(from as int, i as int),
        decreases path@.len() - i,
    {
        copy.push(path[i]);
        i += 1;
    }
    assert(copy@ =~= path@.skip(from as int));
    copy
}

fn settle(separators: Separators, path: Vec<u8>, floor: usize) -> (settled: Vec<u8>)
    requires
        floor <= path@.len(),
    ensures
        settled@ == settled_end(separators, path@, floor as nat),
{
    let end = settle_end(separators, path.as_slice(), floor);
    let mut settled = path;
    settled.truncate(end);
    assert(settled@ =~= path@.take(end as int));
    settled
}

proof fn lemma_anchor_len(host: Host, path: Seq<u8>)
    ensures
        anchor(host, path).len() <= 2,
        path_prefix(host, path) is None ==> anchor(host, path).len() <= 1,
{
}

/// What stands in a path behind its first `count` components.
fn text_behind(host: Host, path: &[u8], count: usize) -> (text: Vec<u8>)
    requires
        count <= components(host, path@).len(),
    ensures
        text@ == behind_components(host, path@, count as nat),
{
    assert(path@.take(path@.len() as int) =~= path@);
    let found = beginning(host, path, path.len());
    proof {
        lemma_anchor_len(host, path@);
    }
    if count == 0 {
        assert(path@.skip(0) =~= path@);
        return settle(found.separators, copy_from(path, 0), found.body);
    }
    if count == 1 && found.prefix.is_some() {
        let rest = copy_from(path, found.prefix_len);
        return settle(found.separators, rest, found.body - found.prefix_len);
    }
    let from: usize = if found.root {
        found.prefix_len + 1
    } else {
        found.prefix_len
    };
    let anchored: usize = match found.prefix {
        Some(kind) => if found.root || kind == PrefixKind::Share || kind == PrefixKind::Device {
            2
        } else {
            1
        },
        None => if found.root || found.here {
            1
        } else {
            0
        },
    };
    assert(anchored == anchor(host, path@).len());
    let at = skip_names(found.separators, path, from, count - anchored);
    settle(found.separators, copy_from(path, at), 0)
}

/// The components of `path` as seen from `root`.
pub(crate) fn seen_from(host: Host, root: &[u8], path: &[u8]) -> (rest: Option<Vec<Vec<u8>>>)
    ensures
        match rest {
            Some(list) => inside(host, root@, path@) == Some(lists(list@)),
            None => inside(host, root@, path@) is None,
        },
{
    let rest = match relative(host, root, path) {
        Some(rest) => rest,
        None => {
            return None;
        },
    };
    match host {
        Host::Unix => Some(rest),
        Host::Windows => {
            let count = components_of(host, root).len();
            let text = text_behind(host, path, count);
            Some(components_of(host, text.as_slice()))
        },
    }
}

/// Whether a path is left out of the watch on the project at `root`.
pub fn should_ignore_watch_path(host: Host, root: &[u8], path: &[u8]) -> (ignored: bool)
    ensures
        ignored == is_ignored(host, root@, path@),
{
    let rest = match seen_from(host, root, path) {
        Some(rest) => rest,
        None => {
            return true;
        },
    };
    if rest.len() == 0 {
        return false;
    }
    let first = rest[0].as_slice();
    assert(lists(rest@)[0] == first@);
    if same_bytes(first, ".git".as_bytes()) || same_bytes(first, ".rustforge".as_bytes())
        || same_bytes(first, "target".as_bytes()) || same_bytes(first, "dist".as_bytes()) {
        return true;
    }
    let mut i: usize = 0;
    while i < rest.len()
        invariant
            i <= rest@.len(),
            rest@.len() > 0,
            inside(host, root@, path@) == Some(lists(rest@)),
            forall|j: int| 0 <= j < i ==> lists(rest@)[j] != encode_utf8("target"@),
        decreases rest@.len() - i,
    {
        if same_bytes(rest[i].as_slice(), "target".as_bytes()) {
            assert(lists(rest@)[i as int] == encode_utf8("target"@));
            assert(lists(rest@).contains(encode_utf8("target"@)));
            return true;
        }
        i += 1;
    }
    false
}

proof fn lemma_no_names_in_nothing(separators: Separators)
    ensures
        names(separators, Seq::<u8>::empty()) == Seq::<Seq<u8>>::empty(),
{
    let nothing = Seq::<u8>::empty();
    reveal(Seq::filter);
    lemma_filter_push(separators, Seq::<Seq<u8>>::empty(), nothing);
    assert(split(separators, nothing).0.push(nothing) =~= Seq::<Seq<u8>>::empty().push(nothing));
}

proof fn lemma_nothing_behind_all_names(separators: Separators, body: Seq<u8>)
    ensures
        behind_names(separators, body, names(separators, body).len()) == Seq::<u8>::empty(),
    decreases body.len(),
{
    if body.len() > 0 {
        let end = next_separator(body, 0, separators);
        lemma_names_from_the_front(separators, body);
        if end < body.len() {
            lemma_nothing_behind_all_names(separators, body.skip(end as int + 1));
        } else {
            lemma_no_names_in_nothing(separators);
            lemma_nothing_behind_all_names(separators, Seq::empty());
        }
    } else {
        assert(body =~= Seq::empty());
    }
}

proof fn lemma_last_segment(separators: Separators, path: Seq<u8>, floor: nat)
    requires
        floor <= path.len(),
    ensures
        split(separators, path.skip(floor as int)).1 == path.skip(
            segment_start(path, floor, separators) as int,
        ),
    decreases path.len(),
{
    let body = path.skip(floor as int);
    lemma_segment_start(path, floor, separators);
    if path.len() > floor {
        let shorter = path.drop_last();
        lemma_segment_start(shorter, floor, separators);
        lemma_last_segment(separators, shorter, floor);
        assert(body.drop_last() =~= shorter.skip(floor as int));
        assert(body.last() == path.last());
        if separates(separators, path.last().code()) {
            assert(path.skip(path.len() as int) =~= Seq::empty());
        } else {
            let start = segment_start(path, floor, separators) as int;
            assert(path.skip(start) =~= shorter.skip(start).push(path.last()));
        }
    } else {
        assert(body =~= Seq::empty());
        assert(path.skip(floor as int) =~= Seq::empty());
    }
}

/// Where no name follows, all segments at the end lead nowhere.
proof fn lemma_settles_to_the_floor(separators: Separators, path: Seq<u8>, floor: nat)
    requires
        floor <= path.len(),
        names(separators, path.skip(floor as int)).len() == 0,
    ensures
        settled_end(separators, path, floor) == path.take(floor as int),
    decreases path.len(),
{
    let body = path.skip(floor as int);
    let start = segment_start(path, floor, separators);
    let last = path.skip(start as int);
    lemma_segment_start(path, floor, separators);
    lemma_last_segment(separators, path, floor);
    lemma_filter_push(separators, split(separators, body).0, last);
    assert(!leads(separators, last));
    if path.len() > floor {
        if start > floor {
            let shorter = path.take(start - 1);
            let front = shorter.skip(floor as int);
            lemma_segments_at_separator(separators, front, path[start - 1], last);
            assert(front.push(path[start - 1]) + last =~= body);
            assert(names(separators, front).len() == 0);
            lemma_settles_to_the_floor(separators, shorter, floor);
            assert(shorter.take(floor as int) =~= path.take(floor as int));
        } else {
            let shorter = path.take(floor as int);
            lemma_segment_start(shorter, floor, separators);
            assert(settled_end(separators, shorter, floor) == shorter);
        }
    } else {
        assert(path.take(floor as int) =~= path);
    }
}

proof fn lemma_no_components_in_nothing(host: Host)
    ensures
        components(host, Seq::<u8>::empty()) == Seq::<Seq<u8>>::empty(),
{
    let nothing = Seq::<u8>::empty();
    lemma_no_names_in_nothing(path_separators(host, nothing));
    assert(behind_root(host, nothing) =~= nothing);
    assert(components(host, nothing) =~= Seq::empty());
}

proof fn lemma_generated_names_are_long()
    ensures
        encode_utf8(".git"@).len() > 1,
        encode_utf8(".rustforge"@).len() > 1,
        encode_utf8("target"@).len() > 1,
        encode_utf8("dist"@).len() > 1,
{
    reveal_strlit(".git");
    reveal_strlit(".rustforge");
    reveal_strlit("target");
    reveal_strlit("dist");
    vstd::utf8::is_ascii_chars_encode_utf8(".git"@);
    vstd::utf8::is_ascii_chars_encode_utf8(".rustforge"@);
    vstd::utf8::is_ascii_chars_encode_utf8("target"@);
    vstd::utf8::is_ascii_chars_encode_utf8("dist"@);
}

proof fn lemma_dot_is_one_component()
    ensures
        components(Host::Windows, seq![DOT]) == seq![seq![DOT]],
{
    let host = Host::Windows;
    let dot = seq![DOT];
    assert(path_prefix(host, dot) is None);
    assert(behind_root(host, dot) =~= dot);
    assert(next_separator(dot, 0, Separators::Both) == 1) by {
        reveal_with_fuel(next_separator, 2);
    }
    lemma_names_from_the_front(Separators::Both, dot);
    assert(dot.take(1) =~= dot);
    assert(components(host, dot) =~= seq![dot]);
}

/// The project root itself is watched.
pub proof fn law_root_is_watched(host: Host, root: Seq<u8>)
    ensures
        !is_ignored(host, root, root),
{
    let base = components(host, root);
    let separators = path_separators(host, root);
    assert(base.take(base.len() as int) =~= base);
    assert(base.skip(base.len() as int).len() == 0);
    if host == Host::Windows {
        let nothing = Seq::<u8>::empty();
        lemma_no_components_in_nothing(host);
        lemma_anchor_len(host, root);
        lemma_no_names_in_nothing(separators);
        assert(settled_end(separators, nothing, 0) == nothing);
        let rest = behind_root(host, root);
        if base.len() == 0 {
            if root.len() > 0 {
                assert(rest =~= root);
                lemma_names_from_the_front(separators, root);
                lemma_next_separator(root, 0, separators);
                let end = next_separator(root, 0, separators);
                assert(root.take(end as int).len() == end);
                if end > 0 {
                    assert(root.take(end as int)[0] == root[0]);
                }
            }
            assert(root =~= nothing);
        } else if base.len() == 1 && path_prefix(host, root) is Some {
            assert(names(separators, rest).len() == 0);
            assert(rest =~= root.skip(prefix_len(host, root) as int));
            if begins_here(host, root) {
                lemma_dot_is_one_component();
                let dot = seq![DOT];
                assert(rest.take(1) =~= dot);
                if rest.len() > 1 {
                    let more = rest.skip(2);
                    lemma_segments_at_separator(separators, dot, rest[1], more);
                    assert(dot.push(rest[1]) + more =~= rest);
                    lemma_segments_at_separator(separators, nothing, rest[1], more);
                    assert(nothing.push(rest[1]) + more =~= rest.skip(1));
                } else {
                    assert(rest.skip(1) =~= nothing);
                }
                lemma_settles_to_the_floor(separators, rest, 1);
                lemma_generated_names_are_long();
                assert(!is_generated(seq![dot]));
            } else {
                assert(rest.skip(0) =~= rest);
                lemma_settles_to_the_floor(separators, rest, 0);
                assert(rest.take(0) =~= nothing);
            }
        } else {
            lemma_nothing_behind_all_names(separators, rest);
            assert(names(separators, rest).len() == base.len() - anchor(host, root).len());
        }
    }
}

/// What lies below something generated is generated too: a directory that is
/// left out needs no look inside.
pub proof fn law_nothing_below_is_watched(host: Host, root: Seq<u8>, path: Seq<u8>, inner: Seq<u8>)
    requires
        below(host, root, path) is Some,
        is_ignored(host, root, path),
        reads_alike(host, root, path),
        reads_alike(host, root, inner),
        components(host, path).len() <= components(host, inner).len(),
        components(host, inner).take(components(host, path).len() as int) == components(host, path),
    ensures
        is_ignored(host, root, inner),
{
    let base = components(host, root);
    let whole = components(host, path);
    let more = components(host, inner);
    let n = base.len() as int;
    assert(more.take(n) =~= whole.take(n)) by {
        assert forall|i: int| 0 <= i < n implies more[i] == whole[i] by {
            assert(more.take(whole.len() as int)[i] == whole[i]);
        }
    }
    let rest = whole.skip(n);
    let inner_rest = more.skip(n);
    assert forall|i: int| 0 <= i < rest.len() implies inner_rest[i] == rest[i] by {
        assert(more.take(whole.len() as int)[i + n] == whole[i + n]);
    }
    if rest.contains(encode_utf8("target"@)) {
        let i = choose|i: int| 0 <= i < rest.len() && rest[i] == encode_utf8("target"@);
        assert(inner_rest[i] == encode_utf8("target"@));
        assert(inner_rest.contains(encode_utf8("target"@)));
    }
}

/// A `target` directory is left out wherever in the project it stands.
pub proof fn law_target_is_never_watched(host: Host, root: Seq<u8>, path: Seq<u8>, at: int)
    requires
        components(host, root).len() <= at < components(host, path).len(),
        components(host, path)[at] == encode_utf8("target"@),
        reads_alike(host, root, path),
    ensures
        is_ignored(host, root, path),
{
    let base = components(host, root);
    let rest = components(host, path).skip(base.len() as int);
    assert(rest[at - base.len()] == encode_utf8("target"@));
    assert(rest.contains(encode_utf8("target"@)));
}

/// A path as seen from a directory, on Unix.
pub open spec fn bytes_joined(directory: Seq<u8>, path: Seq<u8>) -> Seq<u8> {
    if directory.len() == 0 || (path.len() > 0 && path[0] == SLASH) {
        path
    } else if directory.last() == SLASH {
        directory + path
    } else {
        directory.push(SLASH) + path
    }
}

/// On Unix the components of a relative path continue those of the directory
/// that it is seen from.
pub proof fn law_joined_path_continues(directory: Seq<u8>, path: Seq<u8>)
    requires
        path.len() == 0 || path[0] != SLASH,
    ensures
        ({
            let before = components(Host::Unix, directory);
            let after = components(Host::Unix, bytes_joined(directory, path));
            &&& before.len() <= after.len()
            &&& after.take(before.len() as int) == before
        }),
{
    let host = Host::Unix;
    let joined = bytes_joined(directory, path);
    let before = components(host, directory);
    let after = components(host, joined);
    if directory.len() == 0 {
        assert(directory =~= Seq::empty());
        lemma_no_components_in_nothing(host);
        assert(after.take(0) =~= before);
    } else {
        let body = behind_root(host, directory);
        let more = behind_root(host, joined);
        assert(joined[0] == directory[0]);
        assert(anchor(host, joined) == anchor(host, directory));
        if directory.last() == SLASH {
            if body.len() == 0 {
                assert(more =~= path);
                lemma_no_names_in_nothing(Separators::Slash);
                assert(body =~= Seq::empty());
            } else {
                let front = body.drop_last();
                lemma_segments_at_separator(Separators::Slash, front, SLASH, path);
                lemma_segments_at_separator(Separators::Slash, front, SLASH, Seq::empty());
                lemma_no_names_in_nothing(Separators::Slash);
                assert(body.last() == SLASH);
                assert(front.push(SLASH) + Seq::<u8>::empty() =~= body);
                assert(front.push(SLASH) + path =~= more);
                assert(names(Separators::Slash, front) + Seq::<Seq<u8>>::empty() =~= names(
                    Separators::Slash,
                    front,
                ));
            }
        } else {
            lemma_segments_at_separator(Separators::Slash, body, SLASH, path);
            assert(body.push(SLASH) + path =~= more);
        }
        assert(after.take(before.len() as int) =~= before);
    }
}

/// On Unix nothing below an ignored directory of the project is watched: not
/// looking inside loses no watched file.
pub proof fn law_joined_path_is_ignored_too(root: Seq<u8>, directory: Seq<u8>, path: Seq<u8>)
    requires
        below(Host::Unix, root, directory) is Some,
        is_ignored(Host::Unix, root, directory),
        path.len() == 0 || path[0] != SLASH,
    ensures
        is_ignored(Host::Unix, root, bytes_joined(directory, path)),
{
    law_joined_path_continues(directory, path);
    law_nothing_below_is_watched(Host::Unix, root, directory, bytes_joined(directory, path));
}

/// Whether bytes are a name on Unix: there are some, none of them is a slash,
/// and they are more than a dot.
pub open spec fn is_plain_name(name: Seq<u8>) -> bool {
    name.len() > 0 && !name.contains(SLASH) && name != seq![DOT]
}

proof fn lemma_plain_name(name: Seq<u8>)
    requires
        is_plain_name(name),
    ensures
        names(Separators::Slash, name) == seq![name],
        name[0] != SLASH,
{
    assert forall|i: int| 0 <= i < name.len() implies !separates(
        Separators::Slash,
        (#[trigger] name[i]).code(),
    ) by {
        assert(name.contains(name[i]));
    }
    lemma_unseparated(Separators::Slash, name);
    assert(leads(Separators::Slash, name)) by {
        if name.len() == 1 && name[0] == DOT {
            assert(name =~= seq![DOT]);
        }
    }
    lemma_filter_push(Separators::Slash, Seq::<Seq<u8>>::empty(), name);
    reveal(Seq::filter);
    assert(segments(Separators::Slash, name) =~= Seq::<Seq<u8>>::empty().push(name));
    assert(Seq::<Seq<u8>>::empty().push(name) =~= seq![name]);
    assert(name.contains(name[0]));
}

/// On Unix a name behind a directory is the last component of the path, and the
/// ones before it are those of the directory.
pub proof fn law_name_is_the_last_component(directory: Seq<u8>, name: Seq<u8>)
    requires
        is_plain_name(name),
    ensures
        components(Host::Unix, bytes_joined(directory, name)) == components(
            Host::Unix,
            directory,
        ).push(name),
{
    let host = Host::Unix;
    let slash = Separators::Slash;
    let joined = bytes_joined(directory, name);
    let before = components(host, directory);
    lemma_plain_name(name);
    if directory.len() == 0 {
        assert(directory =~= Seq::empty());
        lemma_no_components_in_nothing(host);
        assert(!begins_here(host, name)) by {
            if begins_here(host, name) {
                if name.len() == 1 {
                    assert(name =~= seq![DOT]);
                } else {
                    assert(name.contains(name[1]));
                }
            }
        }
        assert(behind_root(host, name) =~= name);
        assert(components(host, joined) =~= before.push(name));
    } else {
        let body = behind_root(host, directory);
        let more = behind_root(host, joined);
        assert(joined[0] == directory[0]);
        assert(anchor(host, joined) == anchor(host, directory));
        if directory.last() == SLASH {
            if body.len() == 0 {
                assert(more =~= name);
                lemma_no_names_in_nothing(slash);
                assert(body =~= Seq::empty());
            } else {
                let front = body.drop_last();
                lemma_segments_at_separator(slash, front, SLASH, name);
                lemma_segments_at_separator(slash, front, SLASH, Seq::empty());
                lemma_no_names_in_nothing(slash);
                assert(body.last() == SLASH);
                assert(front.push(SLASH) + Seq::<u8>::empty() =~= body);
                assert(front.push(SLASH) + name =~= more);
                assert(names(slash, front) + Seq::<Seq<u8>>::empty() =~= names(slash, front));
            }
        } else {
            lemma_segments_at_separator(slash, body, SLASH, name);
            assert(body.push(SLASH) + name =~= more);
        }
        assert(components(host, joined) =~= before.push(name));
    }
}

/// On Unix, what is named in a directory of the project is left out of the watch
/// exactly where the directory is, where it is called `target`, or where it is
/// called `.git`, `.rustforge` or `dist` and lies at the top of the project.
pub proof fn law_watch_leaves_out_what_is_generated(
    root: Seq<u8>,
    directory: Seq<u8>,
    name: Seq<u8>,
)
    requires
        below(Host::Unix, root, directory) is Some,
        is_plain_name(name),
    ensures
        is_ignored(Host::Unix, root, bytes_joined(directory, name)) <==> {
            ||| is_ignored(Host::Unix, root, directory)
            ||| name == encode_utf8("target"@)
            ||| components(Host::Unix, directory) == components(Host::Unix, root) && (name
                == encode_utf8(".git"@) || name == encode_utf8(".rustforge"@) || name
                == encode_utf8("dist"@))
        },
{
    let host = Host::Unix;
    let target = encode_utf8("target"@);
    let base = components(host, root);
    let n = base.len() as int;
    let whole = components(host, directory);
    law_name_is_the_last_component(directory, name);
    let rest = whole.skip(n);
    let more = rest.push(name);
    assert(whole.push(name).take(n) =~= whole.take(n));
    assert(whole.push(name).skip(n) =~= more);
    assert(rest.len() == 0 <==> whole == base) by {
        if rest.len() == 0 {
            assert(whole =~= whole.take(n));
        }
    }
    assert(more.contains(target) <==> rest.contains(target) || name == target) by {
        if rest.contains(target) {
            let i = choose|i: int| 0 <= i < rest.len() && rest[i] == target;
            assert(more[i] == target);
        }
        if name == target {
            assert(more[rest.len() as int] == target);
        }
        if more.contains(target) {
            let i = choose|i: int| 0 <= i < more.len() && more[i] == target;
            if i < rest.len() {
                assert(rest[i] == target);
            }
        }
    }
    if rest.len() > 0 {
        assert(more[0] == rest[0]);
    }
}

/// What does not lie below the project is left out of the watch, on any host.
pub proof fn law_watch_keeps_to_the_project(host: Host, root: Seq<u8>, path: Seq<u8>)
    requires
        components(host, path).len() < components(host, root).len() || components(
            host,
            path,
        ).take(components(host, root).len() as int) != components(host, root),
    ensures
        is_ignored(host, root, path),
{
}

/// What reads below the project as it stands in the path is left out of the watch
/// exactly where its first component is `.git`, `.rustforge`, `target` or `dist`,
/// or where one of them is `target`. This is so on any host.
pub proof fn law_watch_goes_by_names(host: Host, root: Seq<u8>, path: Seq<u8>)
    requires
        below(host, root, path) is Some,
        reads_alike(host, root, path),
    ensures
        ({
            let base = components(host, root).len() as int;
            let whole = components(host, path);
            is_ignored(host, root, path) <==> whole.len() > base && {
                ||| whole[base] == encode_utf8(".git"@)
                ||| whole[base] == encode_utf8(".rustforge"@)
                ||| whole[base] == encode_utf8("dist"@)
                ||| exists|i: int|
                    base <= i < whole.len() && #[trigger] whole[i] == encode_utf8("target"@)
            }
        }),
{
    let target = encode_utf8("target"@);
    let base = components(host, root).len() as int;
    let whole = components(host, path);
    let rest = whole.skip(base);
    if rest.contains(target) {
        let i = choose|i: int| 0 <= i < rest.len() && rest[i] == target;
        assert(whole[base + i] == target);
    }
    if exists|i: int| base <= i < whole.len() && #[trigger] whole[i] == target {
        let i = choose|i: int| base <= i < whole.len() && #[trigger] whole[i] == target;
        assert(rest[i - base] == target);
    }
    if whole.len() > base {
        assert(rest[0] == whole[base]);
        if rest[0] == target {
            assert(whole[base] == target);
        }
    }
}

/// On Windows it makes no difference to the components of a path whether the
/// letter of its drive is a capital.
pub proof fn law_drive_letter_may_be_a_capital(path: Seq<u8>, other: Seq<u8>)
    requires
        path.len() == other.len(),
        path.len() >= 2,
        97 <= path[0] <= 122,
        other[0] == path[0] - 32,
        path[1] == 58,
        path.skip(1) == other.skip(1),
    ensures
        components(Host::Windows, path) == components(Host::Windows, other),
{
    let host = Host::Windows;
    assert forall|i: int| 1 <= i < path.len() implies path[i] == other[i] by {
        assert(path.skip(1)[i - 1] == other.skip(1)[i - 1]);
    }
    assert(path_prefix(host, path) == Some((PrefixKind::Drive, 2nat)));
    assert(path_prefix(host, other) == Some((PrefixKind::Drive, 2nat)));
    assert(prefix_name(PrefixKind::Drive, path.take(2)) =~= prefix_name(
        PrefixKind::Drive,
        other.take(2),
    ));
    assert(path.skip(2) =~= other.skip(2));
    if path.len() > 2 {
        assert(path.skip(3) =~= other.skip(3));
    }
    assert(behind_root(host, path) =~= behind_root(host, other));
}

/// Two prefixes for a share that differ in how their separators lean are the same,
/// and so are two for a device that differ so before its name, and two verbatim
/// drives whose letters differ in being a capital.
pub proof fn law_prefixes_are_told_by_what_they_mean(one: Seq<u8>, other: Seq<u8>)
    requires
        one.len() == other.len(),
    ensures
        (forall|i: int|
            0 <= i < one.len() ==> #[trigger] one[i] == other[i] || (one[i] == SLASH || one[i]
                == BACKSLASH) && (other[i] == SLASH || other[i] == BACKSLASH)) ==> prefix_name(
            PrefixKind::Share,
            one,
        ) == prefix_name(PrefixKind::Share, other),
        (forall|i: int|
            0 <= i < one.len() ==> #[trigger] one[i] == other[i] || i < 4 && (one[i] == SLASH
                || one[i] == BACKSLASH) && (other[i] == SLASH || other[i] == BACKSLASH))
            ==> prefix_name(PrefixKind::Device, one) == prefix_name(PrefixKind::Device, other),
        (forall|i: int|
            0 <= i < one.len() ==> #[trigger] one[i] == other[i] || i == 4 && 97 <= one[i] <= 122
                && other[i] == one[i] - 32) ==> prefix_name(PrefixKind::VerbatimDrive, one)
            == prefix_name(PrefixKind::VerbatimDrive, other),
{
    if forall|i: int|
        0 <= i < one.len() ==> #[trigger] one[i] == other[i] || (one[i] == SLASH || one[i]
            == BACKSLASH) && (other[i] == SLASH || other[i] == BACKSLASH) {
        assert(prefix_name(PrefixKind::Share, one) =~= prefix_name(PrefixKind::Share, other));
    }
    if forall|i: int|
        0 <= i < one.len() ==> #[trigger] one[i] == other[i] || i < 4 && (one[i] == SLASH
            || one[i] == BACKSLASH) && (other[i] == SLASH || other[i] == BACKSLASH) {
        assert(prefix_name(PrefixKind::Device, one) =~= prefix_name(PrefixKind::Device, other));
    }
    if forall|i: int|
        0 <= i < one.len() ==> #[trigger] one[i] == other[i] || i == 4 && 97 <= one[i] <= 122
            && other[i] == one[i] - 32 {
        assert(prefix_name(PrefixKind::VerbatimDrive, one) =~= prefix_name(
            PrefixKind::VerbatimDrive,
            other,
        ));
    }
}

} // verus!
