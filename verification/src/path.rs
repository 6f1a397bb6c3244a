//! Paths of the project, as text.
//!
//! Repeated separators and `.` segments say nothing, except for a `.` at the
//! very beginning and behind a verbatim prefix.

use vstd::prelude::*;

use crate::host::{
    begins_at_root, begins_here, beginning, body_start, host_separators, is_dot, is_separator,
    is_verbatim, leads, lemma_filter_push, lemma_names_are_unseparated, lemma_next_separator,
    lemma_next_separator_is, lemma_segment_start, lemma_segments_of_two, lemma_unseparated, lists,
    names, names_of, next_separator, path_prefix, path_separators, prefix_len, segment_start,
    segments, separates, shows_root, split, start_of_segment, verbatim_marked, Host, PathUnit, PrefixKind, Separators, DOT_CODE,
};
use crate::text::{chars_of, concat, ends, joined, lemma_ends_behind, text_of};

verus! {

/// Whether `path` stands by itself: it begins at a root directory and, on
/// Windows, says on which drive or share.
pub open spec fn is_absolute_path(host: Host, path: Seq<char>) -> bool {
    begins_at_root(host, path) && (host == Host::Unix || path_prefix(host, path) is Some)
}

/// Whether `path` is a drive and nothing else.
pub open spec fn is_bare_drive(path: Seq<char>) -> bool {
    path_prefix(Host::Windows, path) == Some((PrefixKind::Drive, path.len()))
}

/// Whether `path` has a verbatim prefix.
pub open spec fn is_verbatim_path(host: Host, path: Seq<char>) -> bool {
    match path_prefix(host, path) {
        Some((kind, _)) => is_verbatim(kind),
        None => false,
    }
}

/// Whether a segment names something, rather than a directory seen from where
/// it stands.
pub open spec fn is_name(segment: Seq<char>) -> bool {
    segment != seq!['.'] && segment != seq!['.', '.']
}

/// Where one segment leads from a directory: `..` leads out of a name, and out
/// of nothing else.
pub open spec fn stepped_into(directory: Seq<Seq<char>>, segment: Seq<char>) -> Seq<Seq<char>> {
    if segment == seq!['.', '.'] {
        if directory.len() > 0 && is_name(directory.last()) {
            directory.drop_last()
        } else {
            directory
        }
    } else {
        directory.push(segment)
    }
}

/// Where segments lead from a directory, one after the other.
pub open spec fn walked(directory: Seq<Seq<char>>, segments: Seq<Seq<char>>) -> Seq<Seq<char>>
    decreases segments.len(),
{
    if segments.len() == 0 {
        directory
    } else {
        walked(stepped_into(directory, segments[0]), segments.skip(1))
    }
}

/// `path` as seen from a base with a verbatim prefix, which takes no `.` and no
/// `..`: they are followed.
pub open spec fn verbatim_join(base: Seq<char>, path: Seq<char>) -> Seq<char> {
    let host = Host::Windows;
    let prefix = base.take(prefix_len(host, base) as int);
    let inside = if shows_root(host, path) {
        Seq::empty()
    } else {
        names(Separators::Backslash, base.skip(body_start(host, base) as int))
    };
    let reached = walked(inside, names(Separators::Both, path));
    if shows_root(host, base) || shows_root(host, path) || reached.len() > 0 {
        prefix + seq!['\\'] + joined(reached, seq!['\\'])
    } else {
        prefix
    }
}

/// `path` as seen from `base` on Windows: a path with a prefix stands by itself,
/// one that only begins at a root directory keeps the prefix of `base`, and any
/// other path continues `base`.
pub open spec fn windows_join(base: Seq<char>, path: Seq<char>) -> Seq<char> {
    let host = Host::Windows;
    if path_prefix(host, path) is Some {
        path
    } else if is_verbatim_path(host, base) && path.len() > 0 {
        verbatim_join(base, path)
    } else if shows_root(host, path) {
        base.take(prefix_len(host, base) as int) + path
    } else if base.len() == 0 || separates(Separators::Both, base.last().code())
        || is_bare_drive(base) {
        base + path
    } else {
        base + seq!['\\'] + path
    }
}

/// `path` as seen from `base`: an absolute path stands by itself, any other
/// path continues `base`.
pub open spec fn path_join(host: Host, base: Seq<char>, path: Seq<char>) -> Seq<char> {
    match host {
        Host::Unix => if is_absolute_path(host, path) || base.len() == 0 {
            path
        } else if base.last() == '/' {
            base + path
        } else {
            base + seq!['/'] + path
        },
        Host::Windows => windows_join(base, path),
    }
}

/// Where the last segment of `path` begins.
pub open spec fn last_start(host: Host, path: Seq<char>) -> nat {
    segment_start(path, body_start(host, path), path_separators(host, path))
}

/// `path` without its last segment and the separator before it.
pub open spec fn without_last(host: Host, path: Seq<char>) -> Seq<char> {
    let floor = body_start(host, path);
    let start = last_start(host, path);
    if start > floor {
        path.take(start - 1)
    } else {
        path.take(floor as int)
    }
}

/// Whether the last segment of `path` says nothing.
pub open spec fn ends_idle(host: Host, path: Seq<char>) -> bool {
    path.len() > body_start(host, path) && !leads(
        path_separators(host, path),
        path.skip(last_start(host, path) as int),
    )
}

proof fn lemma_without_last_is_shorter(host: Host, path: Seq<char>)
    requires
        path.len() > body_start(host, path),
    ensures
        without_last(host, path).len() < path.len(),
{
    lemma_segment_start(path, body_start(host, path), path_separators(host, path));
}

/// `path` without the segments at its end that say nothing.
pub open spec fn settled(host: Host, path: Seq<char>) -> Seq<char>
    decreases path.len(),
    via settled_decreases
{
    if ends_idle(host, path) {
        settled(host, without_last(host, path))
    } else {
        path
    }
}

#[via_fn]
proof fn settled_decreases(host: Host, path: Seq<char>) {
    if ends_idle(host, path) {
        lemma_without_last_is_shorter(host, path);
    }
}

/// The directory that holds `path`. A root directory, a mere prefix and the
/// empty path are in no directory.
pub open spec fn path_parent(host: Host, path: Seq<char>) -> Option<Seq<char>> {
    let whole = settled(host, path);
    if whole.len() > body_start(host, whole) {
        Some(settled(host, without_last(host, whole)))
    } else if path_prefix(host, whole) is None && begins_here(host, whole) {
        Some(Seq::empty())
    } else {
        None
    }
}

fn same_chars(a: &Vec<char>, b: &Vec<char>) -> (same: bool)
    ensures
        same == (a@ == b@),
{
    if a.len() != b.len() {
        return false;
    }
    let mut i: usize = 0;
    while i < a.len()
        invariant
            i <= a@.len(),
            a@.len() == b@.len(),
            forall|j: int| 0 <= j < i ==> a@[j] == b@[j],
        decreases a@.len() - i,
    {
        if a[i] != b[i] {
            return false;
        }
        i += 1;
    }
    assert(a@ =~= b@);
    true
}

fn names_something(segment: &Vec<char>) -> (found: bool)
    ensures
        found == is_name(segment@),
{
    let here = vec!['.'];
    let out = vec!['.', '.'];
    assert(here@ =~= seq!['.']);
    assert(out@ =~= seq!['.', '.']);
    !same_chars(segment, &here) && !same_chars(segment, &out)
}

fn step_into(directory: &mut Vec<Vec<char>>, segment: Vec<char>)
    ensures
        lists(final(directory)@) == stepped_into(lists(old(directory)@), segment@),
{
    let ghost before = lists(directory@);
    let out = vec!['.', '.'];
    assert(out@ =~= seq!['.', '.']);
    if same_chars(&segment, &out) {
        let count = directory.len();
        if count > 0 {
            assert(before.last() == directory@[count - 1]@);
            if names_something(&directory[count - 1]) {
                let dropped = directory.pop();
                assert(lists(directory@) =~= before.drop_last());
            }
        }
    } else {
        directory.push(segment);
        assert(lists(directory@) =~= before.push(segment@));
    }
}

fn copy_chars(chars: &Vec<char>) -> (copy: Vec<char>)
    ensures
        copy@ == chars@,
{
    let mut copy: Vec<char> = Vec::new();
    let mut i: usize = 0;
    while i < chars.len()
        invariant
            i <= chars@.len(),
            copy@ =~= chars@.take(i as int),
        decreases chars@.len() - i,
    {
        copy.push(chars[i]);
        i += 1;
    }
    copy
}

fn walk(directory: Vec<Vec<char>>, segments: &Vec<Vec<char>>) -> (reached: Vec<Vec<char>>)
    ensures
        lists(reached@) == walked(lists(directory@), lists(segments@)),
{
    let ghost all = lists(segments@);
    let ghost wanted = walked(lists(directory@), all);
    let mut reached = directory;
    let mut i: usize = 0;
    assert(all.skip(0) =~= all);
    while i < segments.len()
        invariant
            i <= segments@.len(),
            all == lists(segments@),
            walked(lists(reached@), all.skip(i as int)) == wanted,
        decreases segments@.len() - i,
    {
        assert(all.skip(i as int)[0] == segments@[i as int]@);
        assert(all.skip(i as int).skip(1) =~= all.skip(i + 1));
        step_into(&mut reached, copy_chars(&segments[i]));
        i += 1;
    }
    reached
}

fn push_chars(text: &mut String, chars: &Vec<char>)
    ensures
        final(text)@ == old(text)@ + chars@,
{
    let mut i: usize = 0;
    assert(text@ =~= old(text)@ + chars@.take(0));
    while i < chars.len()
        invariant
            i <= chars@.len(),
            text@ == old(text)@ + chars@.take(i as int),
        decreases chars@.len() - i,
    {
        text.push(chars[i]);
        assert(text@ =~= old(text)@ + chars@.take(i + 1));
        i += 1;
    }
    assert(chars@.take(i as int) =~= chars@);
}

fn push_joined(text: &mut String, segments: &Vec<Vec<char>>)
    ensures
        final(text)@ == old(text)@ + joined(lists(segments@), seq!['\\']),
{
    let ghost all = lists(segments@);
    let mut i: usize = 0;
    assert(text@ =~= old(text)@ + joined(all.take(0), seq!['\\']));
    while i < segments.len()
        invariant
            i <= segments@.len(),
            all == lists(segments@),
            text@ == old(text)@ + joined(all.take(i as int), seq!['\\']),
        decreases segments@.len() - i,
    {
        let ghost next = all.take(i + 1);
        assert(next.drop_last() =~= all.take(i as int));
        assert(next.last() == segments@[i as int]@);
        if i > 0 {
            text.push('\\');
        }
        push_chars(text, &segments[i]);
        proof {
            if i == 0 {
                assert(joined(all.take(0), seq!['\\']) =~= Seq::empty());
            }
            assert(text@ =~= old(text)@ + joined(next, seq!['\\']));
        }
        i += 1;
    }
    assert(all.take(i as int) =~= all);
}

fn join_verbatim(base: &Vec<char>, path: &Vec<char>) -> (result: String)
    requires
        is_verbatim_path(Host::Windows, base@),
    ensures
        result@ == verbatim_join(base@, path@),
{
    let host = Host::Windows;
    assert(base@.take(base@.len() as int) =~= base@);
    assert(path@.take(path@.len() as int) =~= path@);
    let whole = beginning(host, base.as_slice(), base.len());
    let next = beginning(host, path.as_slice(), path.len());
    let inside: Vec<Vec<char>> = if next.root {
        Vec::new()
    } else {
        names_of(Separators::Backslash, base.as_slice(), whole.body)
    };
    assert(next.root ==> lists(inside@) =~= Seq::empty());
    assert(path@.skip(0) =~= path@);
    let segments = names_of(Separators::Both, path.as_slice(), 0);
    let reached = walk(inside, &segments);
    let mut result = text_of(base, 0, whole.prefix_len);
    assert(result@ =~= base@.take(whole.prefix_len as int));
    if whole.root || next.root || reached.len() > 0 {
        result.push('\\');
        assert(result@ =~= base@.take(whole.prefix_len as int) + seq!['\\']);
        push_joined(&mut result, &reached);
    }
    result
}

fn join_on_windows(base: &str, path: &str) -> (result: String)
    ensures
        result@ == windows_join(base@, path@),
{
    let host = Host::Windows;
    let base_chars = chars_of(base);
    let path_chars = chars_of(path);
    assert(base@.take(base@.len() as int) =~= base@);
    assert(path@.take(path@.len() as int) =~= path@);
    let whole = beginning(host, base_chars.as_slice(), base_chars.len());
    let next = beginning(host, path_chars.as_slice(), path_chars.len());
    if next.prefix.is_some() {
        return path.to_owned();
    }
    let verbatim = whole.separators == Separators::Backslash;
    if verbatim && path_chars.len() > 0 {
        return join_verbatim(&base_chars, &path_chars);
    }
    if next.root {
        let prefix = text_of(&base_chars, 0, whole.prefix_len);
        assert(prefix@ =~= base@.take(whole.prefix_len as int));
        return concat(prefix.as_str(), path);
    }
    let count = base_chars.len();
    let bare_drive = match whole.prefix {
        Some(kind) => kind == PrefixKind::Drive && whole.prefix_len == count,
        None => false,
    };
    if count == 0 || is_separator(Separators::Both, base_chars[count - 1].unit_code())
        || bare_drive {
        concat(base, path)
    } else {
        let mut result = base.to_owned();
        result.push('\\');
        result.append(path);
        assert(result@ =~= base@ + seq!['\\'] + path@);
        result
    }
}

/// `path` as seen from `base`.
pub fn join_path(host: Host, base: &str, path: &str) -> (result: String)
    ensures
        result@ == path_join(host, base@, path@),
{
    match host {
        Host::Unix => {
            let chars = chars_of(base);
            let path_chars = chars_of(path);
            if (path_chars.len() > 0 && path_chars[0] == '/') || chars.len() == 0 {
                path.to_owned()
            } else if chars[chars.len() - 1] == '/' {
                concat(base, path)
            } else {
                let mut result = base.to_owned();
                result.push('/');
                result.append(path);
                assert(result@ =~= base@ + seq!['/'] + path@);
                result
            }
        },
        Host::Windows => join_on_windows(base, path),
    }
}

fn drop_segment(host: Host, chars: &Vec<char>, len: usize) -> (end: usize)
    requires
        len <= chars@.len(),
        len > body_start(host, chars@.take(len as int)),
    ensures
        end < len,
        chars@.take(end as int) == without_last(host, chars@.take(len as int)),
{
    let found = beginning(host, chars.as_slice(), len);
    let floor = found.body;
    let start = start_of_segment(chars.as_slice(), len, floor, found.separators);
    let end: usize = if start > floor {
        start - 1
    } else {
        floor
    };
    assert(chars@.take(len as int).take(end as int) =~= chars@.take(end as int));
    end
}

fn settle(host: Host, chars: &Vec<char>, len: usize) -> (end: usize)
    requires
        len <= chars@.len(),
    ensures
        end <= len,
        chars@.take(end as int) == settled(host, chars@.take(len as int)),
{
    let mut end: usize = len;
    loop
        invariant
            end <= len <= chars@.len(),
            settled(host, chars@.take(end as int)) == settled(host, chars@.take(len as int)),
        decreases end,
    {
        let found = beginning(host, chars.as_slice(), end);
        let floor = found.body;
        let start = start_of_segment(chars.as_slice(), end, floor, found.separators);
        let ghost last = chars@.take(end as int).skip(start as int);
        let dot = end - start == 1 && chars[start].unit_code() == DOT_CODE;
        let idle = end > floor && (start == end || (found.separators != Separators::Backslash
            && dot));
        proof {
            assert(last.len() == end - start);
            if end - start == 1 {
                assert(last[0] == chars@[start as int]);
            }
            assert(idle == ends_idle(host, chars@.take(end as int)));
        }
        if !idle {
            return end;
        }
        end = drop_segment(host, chars, end);
    }
}

/// The directory that holds `path`.
pub fn parent(host: Host, path: &str) -> (directory: Option<String>)
    ensures
        match directory {
            Some(text) => path_parent(host, path@) == Some(text@),
            None => path_parent(host, path@) is None,
        },
{
    let chars = chars_of(path);
    assert(chars@.take(chars@.len() as int) =~= path@);
    let whole = settle(host, &chars, chars.len());
    let found = beginning(host, chars.as_slice(), whole);
    if whole > found.body {
        let shorter = drop_segment(host, &chars, whole);
        let end = settle(host, &chars, shorter);
        assert(chars@.subrange(0, end as int) =~= chars@.take(end as int));
        Some(text_of(&chars, 0, end))
    } else if found.prefix.is_none() && found.here {
        Some(String::new())
    } else {
        None
    }
}

proof fn lemma_last_name(path: Seq<char>)
    requires
        path.len() > 0,
        !separates(Separators::Both, path.last().code()),
        path.last() != '.',
    ensures
        names(Separators::Both, path).len() > 0,
        names(Separators::Both, path).last() == split(Separators::Both, path).1,
        names(Separators::Both, path).last().len() > 0,
        names(Separators::Both, path).last().last() == path.last(),
        is_name(names(Separators::Both, path).last()),
{
    let (complete, open) = split(Separators::Both, path);
    lemma_filter_push(Separators::Both, complete, open);
    assert(open.last() == path.last());
    assert(open != seq!['.'] && open != seq!['.', '.']) by {
        assert(seq!['.'].last() == '.');
        assert(seq!['.', '.'].last() == '.');
    }
}

proof fn lemma_walked_to_a_name(
    directory: Seq<Seq<char>>,
    segments: Seq<Seq<char>>,
)
    requires
        segments.len() > 0,
        is_name(segments.last()),
    ensures
        walked(directory, segments).len() > 0,
        walked(directory, segments).last() == segments.last(),
    decreases segments.len(),
{
    let rest = segments.skip(1);
    let next = stepped_into(directory, segments[0]);
    if segments.len() == 1 {
        assert(walked(next, rest) == next);
    } else {
        assert(rest.last() == segments.last());
        lemma_walked_to_a_name(next, rest);
    }
}

/// A path that ends in a name ends alike wherever it is seen from.
pub(crate) proof fn lemma_join_ends_alike(host: Host, base: Seq<char>, path: Seq<char>)
    requires
        path.len() > 0,
        !separates(Separators::Both, path.last().code()),
        path.last() != '.',
    ensures
        path_join(host, base, path).len() > 0,
        path_join(host, base, path).last() == path.last(),
{
    if host == Host::Windows && path_prefix(host, path) is None && is_verbatim_path(host, base) {
        let segments = names(Separators::Both, path);
        let inside = if shows_root(host, path) {
            Seq::empty()
        } else {
            names(Separators::Backslash, base.skip(body_start(host, base) as int))
        };
        let reached = walked(inside, segments);
        lemma_last_name(path);
        lemma_walked_to_a_name(inside, segments);
        let end = joined(reached, seq!['\\']);
        assert(end.len() > 0 && end.last() == reached.last().last());
    }
}

/// Whether no segment leads out of where it stands.
pub open spec fn stays_inside(segments: Seq<Seq<char>>) -> bool {
    forall|i: int| 0 <= i < segments.len() ==> #[trigger] segments[i] != seq!['.', '.']
}

/// Whether two different texts that begin alike are told apart by what they lead
/// to from a base: always on Unix. On Windows, both have a path prefix or none
/// has; and a verbatim base, which follows what it is given, is given different
/// names and none that leads out.
pub open spec fn are_told_apart(host: Host, base: Seq<char>, a: Seq<char>, b: Seq<char>) -> bool {
    host == Host::Unix || {
        &&& path_prefix(host, a) is Some <==> path_prefix(host, b) is Some
        &&& path_prefix(host, a) is None && is_verbatim_path(host, base) ==> {
            &&& names(Separators::Both, a) != names(Separators::Both, b)
            &&& stays_inside(names(Separators::Both, a))
            &&& stays_inside(names(Separators::Both, b))
        }
    }
}

proof fn lemma_walked_inside(directory: Seq<Seq<char>>, segments: Seq<Seq<char>>)
    requires
        stays_inside(segments),
    ensures
        walked(directory, segments) == directory + segments,
    decreases segments.len(),
{
    if segments.len() == 0 {
        assert(directory + segments =~= directory);
    } else {
        let rest = segments.skip(1);
        assert(segments[0] != seq!['.', '.']);
        assert forall|i: int| 0 <= i < rest.len() implies #[trigger] rest[i] != seq!['.', '.'] by {
            assert(segments[i + 1] != seq!['.', '.']);
        }
        lemma_walked_inside(directory.push(segments[0]), rest);
        assert(directory.push(segments[0]) + rest =~= directory + segments);
    }
}

/// Whether no segment is empty or holds a backslash.
spec fn are_plain(list: Seq<Seq<char>>) -> bool {
    forall|i: int| 0 <= i < list.len() ==> #[trigger] list[i].len() > 0 && !list[i].contains('\\')
}

proof fn lemma_joined_is_unique(a: Seq<Seq<char>>, b: Seq<Seq<char>>)
    requires
        are_plain(a),
        are_plain(b),
        joined(a, seq!['\\']) == joined(b, seq!['\\']),
    ensures
        a == b,
    decreases a.len(),
{
    let separator = seq!['\\'];
    let text = joined(a, separator);
    if a.len() == 0 || b.len() == 0 {
        if a.len() == 0 && b.len() > 0 {
            assert(b[b.len() - 1].len() > 0);
        }
        if b.len() == 0 && a.len() > 0 {
            assert(a[a.len() - 1].len() > 0);
        }
        assert(a =~= b);
    } else {
        let x = a[a.len() - 1];
        let y = b[b.len() - 1];
        assert(!x.contains('\\') && !y.contains('\\'));
        if a.len() == 1 && b.len() == 1 {
            assert(a =~= b);
        } else if a.len() == 1 {
            let at = joined(b.drop_last(), separator).len() as int;
            assert(text[at] == '\\');
            assert(a[0].contains('\\'));
        } else if b.len() == 1 {
            let at = joined(a.drop_last(), separator).len() as int;
            assert(text[at] == '\\');
            assert(b[0].contains('\\'));
        } else {
            let short_a = a.drop_last();
            let short_b = b.drop_last();
            let front = joined(short_a, separator);
            let other = joined(short_b, separator);
            assert(text =~= front + separator + x);
            assert(text =~= other + separator + y);
            if front.len() < other.len() {
                assert(text[other.len() as int] == '\\');
                assert(x[other.len() - front.len() - 1] == '\\');
            } else if other.len() < front.len() {
                assert(text[front.len() as int] == '\\');
                assert(y[front.len() - other.len() - 1] == '\\');
            }
            assert(front =~= text.take(front.len() as int));
            assert(other =~= text.take(front.len() as int));
            assert(x =~= text.skip(front.len() as int + 1));
            assert(y =~= text.skip(front.len() as int + 1));
            assert forall|i: int| 0 <= i < short_a.len() implies #[trigger] short_a[i].len() > 0
                && !short_a[i].contains('\\') by {
                assert(a[i].len() > 0);
            }
            assert forall|i: int| 0 <= i < short_b.len() implies #[trigger] short_b[i].len() > 0
                && !short_b[i].contains('\\') by {
                assert(b[i].len() > 0);
            }
            lemma_joined_is_unique(short_a, short_b);
            assert(a =~= short_a.push(x));
            assert(b =~= short_b.push(y));
        }
    }
}

proof fn lemma_verbatim_joins_differ(base: Seq<char>, a: Seq<char>, b: Seq<char>)
    requires
        shows_root(Host::Windows, a) == shows_root(Host::Windows, b),
        names(Separators::Both, a).len() > 0,
        names(Separators::Both, b).len() > 0,
        names(Separators::Both, a) != names(Separators::Both, b),
        stays_inside(names(Separators::Both, a)),
        stays_inside(names(Separators::Both, b)),
    ensures
        verbatim_join(base, a) != verbatim_join(base, b),
{
    let host = Host::Windows;
    let body = base.skip(body_start(host, base) as int);
    let inside = if shows_root(host, a) {
        Seq::empty()
    } else {
        names(Separators::Backslash, body)
    };
    let more_a = names(Separators::Both, a);
    let more_b = names(Separators::Both, b);
    lemma_walked_inside(inside, more_a);
    lemma_walked_inside(inside, more_b);
    if verbatim_join(base, a) == verbatim_join(base, b) {
        let head = base.take(prefix_len(host, base) as int) + seq!['\\'];
        let m = head.len() as int;
        let first = joined(inside + more_a, seq!['\\']);
        let second = joined(inside + more_b, seq!['\\']);
        assert(first =~= (head + first).skip(m));
        assert(second =~= (head + second).skip(m));
        lemma_names_are_unseparated(Separators::Backslash, '\\', body);
        lemma_names_are_unseparated(Separators::Both, '\\', a);
        lemma_names_are_unseparated(Separators::Both, '\\', b);
        lemma_joined_is_unique(inside + more_a, inside + more_b);
        assert(more_a =~= (inside + more_a).skip(inside.len() as int));
        assert(more_b =~= (inside + more_b).skip(inside.len() as int));
    }
}

proof fn lemma_same_head(head: Seq<char>, a: Seq<char>, b: Seq<char>)
    requires
        head + a == head + b,
    ensures
        a == b,
{
    assert(a =~= (head + a).skip(head.len() as int));
    assert(b =~= (head + b).skip(head.len() as int));
}

/// Two texts that begin alike, end in names and are told apart from a base lead
/// to different paths.
pub(crate) proof fn lemma_joins_differ(host: Host, base: Seq<char>, a: Seq<char>, b: Seq<char>)
    requires
        a != b,
        a.len() > 0,
        b.len() > 0,
        a[0] == b[0],
        !separates(Separators::Both, a.last().code()),
        !separates(Separators::Both, b.last().code()),
        a.last() != '.',
        b.last() != '.',
        are_told_apart(host, base, a, b),
    ensures
        path_join(host, base, a) != path_join(host, base, b),
{
    if host == Host::Windows && path_prefix(host, a) is Some {
    } else if host == Host::Windows && is_verbatim_path(host, base) {
        lemma_last_name(a);
        lemma_last_name(b);
        lemma_verbatim_joins_differ(base, a, b);
    } else {
        let head = if shows_root(host, a) {
            if host == Host::Unix {
                Seq::empty()
            } else {
                base.take(prefix_len(host, base) as int)
            }
        } else if base.len() == 0 || separates(host_separators(host), base.last().code()) || (host
            == Host::Windows && is_bare_drive(base)) {
            base
        } else if host == Host::Unix {
            base + seq!['/']
        } else {
            base + seq!['\\']
        };
        assert(path_join(host, base, a) =~= head + a);
        assert(path_join(host, base, b) =~= head + b);
        if head + a == head + b {
            lemma_same_head(head, a, b);
        }
    }
}

/// Whether a text holds no separator of any host.
pub open spec fn is_unseparated(text: Seq<char>) -> bool {
    forall|i: int|
        0 <= i < text.len() ==> !separates(Separators::Both, (#[trigger] text[i]).code())
}

/// Whether there is a prefix is told by the texts around one without separators
/// that does not stand at the beginning.
proof fn lemma_prefixes_are_alike(
    head: Seq<char>,
    a: Seq<char>,
    b: Seq<char>,
    tail: Seq<char>,
)
    requires
        head.len() > 0,
        head.last() == '-',
        is_unseparated(a),
        is_unseparated(b),
        path_prefix(Host::Windows, head + a + tail) is Some,
    ensures
        path_prefix(Host::Windows, head + b + tail) is Some,
{
    let both = Separators::Both;
    let p = head + a + tail;
    let q = head + b + tail;
    let n = head.len() as int;
    assert(p[n - 1] == '-' && q[n - 1] == '-');
    assert forall|i: int| 0 <= i < n implies p[i] == q[i] by {}
    if separates(both, p[0].code()) && separates(both, p[1].code()) {
        assert(n >= 3);
        if verbatim_marked(p) {
            assert(n >= 4);
            assert(verbatim_marked(q));
        } else if p.len() >= 4 && p[2].code() == DOT_CODE && separates(both, p[3].code()) {
            assert(n >= 4);
        } else {
            let server = next_separator(p, 2, both);
            let share = next_separator(p, server + 1, both);
            lemma_next_separator(p, 2, both);
            assert(server + 1 < p.len());
            assert(!separates(both, p[server as int + 1].code()));
            let there: nat = if server < n {
                server
            } else {
                (server - a.len() + b.len()) as nat
            };
            if server < n {
                assert(server < n - 1);
                assert forall|i: int| 2 <= i < there implies !separates(
                    both,
                    (#[trigger] q[i]).code(),
                ) by {
                    assert(p[i] == q[i]);
                }
            } else {
                assert(server >= n + a.len()) by {
                    if server < n + a.len() {
                        assert(p[server as int] == a[server - n]);
                    }
                }
                assert forall|i: int| 2 <= i < there implies !separates(
                    both,
                    (#[trigger] q[i]).code(),
                ) by {
                    if i < n {
                        assert(p[i] == q[i]);
                    } else if i < n + b.len() {
                        assert(q[i] == b[i - n]);
                    } else {
                        assert(q[i] == p[i - b.len() + a.len()]);
                    }
                }
                assert(q[there as int] == p[server as int]);
                assert(q[there as int + 1] == p[server as int + 1]);
            }
            lemma_next_separator_is(q, 2, there, both);
            lemma_next_separator(q, (there + 1) as nat, both);
            assert(next_separator(q, (there + 1) as nat, both) > there + 1);
            assert(!verbatim_marked(q) ==> path_prefix(Host::Windows, q) is Some);
        }
    } else {
        assert(n >= 2);
    }
}

/// Texts without separators show in the names of what they stand in.
proof fn lemma_names_show_the_middle(
    head: Seq<char>,
    a: Seq<char>,
    b: Seq<char>,
    tail: Seq<char>,
)
    requires
        head.len() > 0,
        head.last() == '-',
        is_unseparated(a),
        is_unseparated(b),
        names(Separators::Both, head + a + tail) == names(Separators::Both, head + b + tail),
    ensures
        a == b,
{
    let both = Separators::Both;
    let leading = |segment: Seq<char>| leads(both, segment);
    let first = segments(both, head);
    let last = segments(both, tail);
    lemma_segments_of_two(both, head, tail);
    let before = first.drop_last();
    let after = last.skip(1);
    let mid_a = first.last() + (a + last[0]);
    let mid_b = first.last() + (b + last[0]);
    assert(first.last().last() == '-');
    lemma_names_around(head, a, tail);
    lemma_names_around(head, b, tail);
    let k = before.filter(leading).len() as int;
    let list_a = before.filter(leading).push(mid_a) + after.filter(leading);
    let list_b = before.filter(leading).push(mid_b) + after.filter(leading);
    assert(list_a[k] == mid_a);
    assert(list_b[k] == mid_b);
    let m = first.last().len() as int;
    assert(a.len() == b.len());
    assert(a =~= mid_a.subrange(m, m + a.len()));
    assert(b =~= mid_b.subrange(m, m + a.len()));
}

proof fn lemma_names_around(head: Seq<char>, a: Seq<char>, tail: Seq<char>)
    requires
        head.len() > 0,
        head.last() == '-',
        is_unseparated(a),
    ensures
        ({
            let first = segments(Separators::Both, head);
            let last = segments(Separators::Both, tail);
            let leading = |segment: Seq<char>| leads(Separators::Both, segment);
            names(Separators::Both, head + a + tail) == first.drop_last().filter(leading).push(
                first.last() + (a + last[0]),
            ) + last.skip(1).filter(leading)
        }),
{
    let both = Separators::Both;
    let leading = |segment: Seq<char>| leads(both, segment);
    let first = segments(both, head);
    let last = segments(both, tail);
    let mid = first.last() + (a + last[0]);
    lemma_unseparated(both, a);
    lemma_segments_of_two(both, a, tail);
    let rest = segments(both, a + tail);
    assert(seq![a].drop_last() =~= Seq::empty());
    assert(rest =~= seq![a + last[0]] + last.skip(1));
    lemma_segments_of_two(both, head, a + tail);
    assert(head + (a + tail) =~= head + a + tail);
    assert(rest.skip(1) =~= last.skip(1));
    assert(segments(both, head + a + tail) == first.drop_last().push(mid) + last.skip(1));
    assert(first.last().last() == '-');
    assert(mid[first.last().len() - 1] == '-');
    assert(leads(both, mid));
    Seq::filter_distributes_over_add(first.drop_last().push(mid), last.skip(1), leading);
    lemma_filter_push(both, first.drop_last(), mid);
}

/// Different texts without separators are told apart in the same surroundings,
/// unless a verbatim base is led out by something there.
pub(crate) proof fn lemma_plain_texts_are_told_apart(
    host: Host,
    base: Seq<char>,
    head: Seq<char>,
    a: Seq<char>,
    b: Seq<char>,
    tail: Seq<char>,
)
    requires
        a != b,
        head.len() > 0,
        head.last() == '-',
        is_unseparated(a),
        is_unseparated(b),
        is_verbatim_path(host, base) ==> stays_inside(names(Separators::Both, head + a + tail))
            && stays_inside(names(Separators::Both, head + b + tail)),
    ensures
        are_told_apart(host, base, head + a + tail, head + b + tail),
{
    if host == Host::Windows {
        if path_prefix(host, head + a + tail) is Some {
            lemma_prefixes_are_alike(head, a, b, tail);
        }
        if path_prefix(host, head + b + tail) is Some {
            lemma_prefixes_are_alike(head, b, a, tail);
        }
        if names(Separators::Both, head + a + tail) == names(Separators::Both, head + b + tail) {
            lemma_names_show_the_middle(head, a, b, tail);
        }
    }
}

/// A path that is more than a prefix, and whose last character is neither a
/// separator nor a dot, names something in a directory.
pub proof fn law_named_path_has_parent(host: Host, path: Seq<char>)
    requires
        path.len() > prefix_len(host, path),
        !separates(host_separators(host), path.last().code()),
        path.last() != '.',
    ensures
        path_parent(host, path) is Some,
{
    let floor = body_start(host, path);
    let start = last_start(host, path);
    let last = path.skip(start as int);
    lemma_segment_start(path, floor, path_separators(host, path));
    assert(path.len() > floor);
    assert(start < path.len());
    assert(last.last() == path.last());
    assert(!ends_idle(host, path));
}

/// A path that ends in a name without separators ends alike wherever it is seen
/// from.
pub proof fn law_joined_path_keeps_its_ending(
    host: Host,
    base: Seq<char>,
    path: Seq<char>,
    tail: Seq<char>,
)
    requires
        tail.len() > 0,
        is_unseparated(tail),
        tail.last() != '.',
        ends(path, tail),
    ensures
        ends(path_join(host, base, path), tail),
{
    let both = Separators::Both;
    let whole = path_join(host, base, path);
    assert(path.last() == path.skip(path.len() - tail.len()).last());
    assert(!separates(both, tail[tail.len() - 1].code()));
    if host == Host::Windows && path_prefix(host, path) is None && is_verbatim_path(host, base) {
        let inside = if shows_root(host, path) {
            Seq::empty()
        } else {
            names(Separators::Backslash, base.skip(body_start(host, base) as int))
        };
        let list = names(both, path);
        let reached = walked(inside, list);
        lemma_last_name(path);
        lemma_walked_to_a_name(inside, list);
        let head = path.take(path.len() - tail.len());
        assert(path =~= head + tail);
        lemma_segments_of_two(both, head, tail);
        lemma_unseparated(both, tail);
        let parts = segments(both, path);
        assert(parts.last() == segments(both, head).last() + tail);
        assert(reached.last() == parts.last());
        assert(ends(tail, tail)) by {
            assert(tail.skip(0) =~= tail);
        }
        lemma_ends_behind(segments(both, head).last(), tail, tail);
        let text = joined(reached, seq!['\\']);
        if reached.len() == 1 {
            assert(text == reached.last());
        } else {
            lemma_ends_behind(
                joined(reached.drop_last(), seq!['\\']) + seq!['\\'],
                reached.last(),
                tail,
            );
        }
        lemma_ends_behind(
            base.take(prefix_len(host, base) as int) + seq!['\\'],
            text,
            tail,
        );
    } else if whole != path {
        let head = whole.take(whole.len() - path.len());
        assert(whole =~= head + path);
        lemma_ends_behind(head, path, tail);
    }
}

/// A relative path continues the base that it is seen from: both stand in the
/// joined path as they are, with at most one separator between them, and with
/// one exactly where the base is there and does not end in one. An absolute path
/// stands alone. This is so on Unix.
pub proof fn law_relative_path_continues_its_base(base: Seq<char>, path: Seq<char>)
    ensures
        path.len() > 0 && path[0] == '/' ==> path_join(Host::Unix, base, path) == path,
        !(path.len() > 0 && path[0] == '/') ==> exists|between: Seq<char>|
            {
                &&& path_join(Host::Unix, base, path) == #[trigger] (base + between + path)
                &&& between.len() == 0 <==> base.len() == 0 || base.last() == '/'
                &&& between.len() > 0 ==> between == seq!['/']
            },
{
    if !(path.len() > 0 && path[0] == '/') {
        let between: Seq<char> = if base.len() == 0 || base.last() == '/' {
            Seq::empty()
        } else {
            seq!['/']
        };
        assert(path_join(Host::Unix, base, path) =~= base + between + path);
    }
}

/// On Windows a path with neither prefix nor root continues a base that is not
/// verbatim in the same way, and a path with a prefix stands alone.
pub proof fn law_relative_path_continues_its_base_on_windows(base: Seq<char>, path: Seq<char>)
    ensures
        path_prefix(Host::Windows, path) is Some ==> path_join(Host::Windows, base, path) == path,
        path_prefix(Host::Windows, path) is None && !shows_root(Host::Windows, path)
            && !is_verbatim_path(Host::Windows, base) ==> exists|between: Seq<char>|
            {
                &&& path_join(Host::Windows, base, path) == #[trigger] (base + between + path)
                &&& between.len() == 0 <==> {
                    ||| base.len() == 0
                    ||| base.last() == '/' || base.last() == '\\'
                    ||| is_bare_drive(base)
                }
                &&& between.len() > 0 ==> between == seq!['\\']
            },
        path_prefix(Host::Windows, path) is None && shows_root(Host::Windows, path)
            && !is_verbatim_path(Host::Windows, base) ==> path_join(Host::Windows, base, path)
            == base.take(prefix_len(Host::Windows, base) as int) + path,
{
    if path_prefix(Host::Windows, path) is None && !shows_root(Host::Windows, path)
        && !is_verbatim_path(Host::Windows, base) {
        let between: Seq<char> = if base.len() == 0 || base.last() == '/' || base.last() == '\\'
            || is_bare_drive(base) {
            Seq::empty()
        } else {
            seq!['\\']
        };
        assert(path_join(Host::Windows, base, path) =~= base + between + path);
    }
}

/// To go to a place from a base, and from there on, is to go there at once. This
/// is so on Unix.
pub proof fn law_joins_can_be_done_in_any_order(base: Seq<char>, a: Seq<char>, b: Seq<char>)
    ensures
        path_join(Host::Unix, path_join(Host::Unix, base, a), b) == path_join(
            Host::Unix,
            base,
            path_join(Host::Unix, a, b),
        ),
{
    let first = path_join(Host::Unix, base, a);
    let second = path_join(Host::Unix, a, b);
    assert(path_join(Host::Unix, first, b) =~= path_join(Host::Unix, base, second));
}

proof fn lemma_start_behind_a_slash(directory: Seq<char>, name: Seq<char>, floor: nat)
    requires
        floor <= directory.len() + 1,
        !name.contains('/'),
    ensures
        segment_start(directory + seq!['/'] + name, floor, Separators::Slash) == directory.len()
            + 1,
    decreases name.len(),
{
    let path = directory + seq!['/'] + name;
    if name.len() == 0 {
        assert(path.last() == '/');
    } else {
        let shorter = name.drop_last();
        assert(name.contains(name[name.len() - 1]));
        assert forall|i: int| 0 <= i < shorter.len() implies shorter[i] != '/' by {
            assert(name.contains(name[i]));
        }
        assert(path.drop_last() =~= directory + seq!['/'] + shorter);
        lemma_start_behind_a_slash(directory, shorter, floor);
    }
}

proof fn lemma_parent_of_named(directory: Seq<char>, name: Seq<char>)
    requires
        directory.len() > 0,
        name.len() > 0,
        !name.contains('/'),
        name != seq!['.'],
    ensures
        path_parent(Host::Unix, directory + seq!['/'] + name) == Some(
            settled(Host::Unix, directory),
        ),
{
    let host = Host::Unix;
    let path = directory + seq!['/'] + name;
    let floor = body_start(host, path);
    assert(path[0] == directory[0]);
    lemma_start_behind_a_slash(directory, name, floor);
    assert(path.skip(directory.len() as int + 1) =~= name);
    assert(!is_dot(name)) by {
        if is_dot(name) {
            assert(name =~= seq!['.']);
        }
    }
    assert(!ends_idle(host, path));
    assert(path.take(directory.len() as int) =~= directory);
}

proof fn lemma_idle_end(path: Seq<char>, idle: Seq<char>)
    requires
        path.len() > 0,
        idle == Seq::<char>::empty() || idle == seq!['.'],
    ensures
        settled(Host::Unix, path + seq!['/'] + idle) == settled(Host::Unix, path),
{
    let host = Host::Unix;
    let whole = path + seq!['/'] + idle;
    assert(whole[0] == path[0]);
    assert(!idle.contains('/'));
    lemma_start_behind_a_slash(path, idle, body_start(host, whole));
    assert(whole.skip(path.len() as int + 1) =~= idle);
    assert(ends_idle(host, whole));
    assert(whole.take(path.len() as int) =~= path);
}

/// The directory of what is named behind a directory is that directory. This is
/// so on Unix, for a directory whose own path ends in a name, and for any name
/// that is neither empty nor a mere dot.
pub proof fn law_directory_holds_what_is_named_in_it(directory: Seq<char>, name: Seq<char>)
    requires
        directory.len() > 0,
        directory.last() != '/',
        directory.last() != '.',
        name.len() > 0,
        !name.contains('/'),
        name != seq!['.'],
    ensures
        path_parent(Host::Unix, directory + seq!['/'] + name) == Some(directory),
{
    let host = Host::Unix;
    lemma_parent_of_named(directory, name);
    assert(!ends_idle(host, directory)) by {
        let low = body_start(host, directory);
        if directory.len() > low {
            lemma_segment_start(directory.drop_last(), low, Separators::Slash);
            let last = directory.skip(last_start(host, directory) as int);
            assert(last.last() == directory.last());
            assert(!is_dot(last));
        }
    }
}

/// On Unix it makes no difference to the directory of a path whether a slash or a
/// dot behind one is added at its end, or before its last name.
pub proof fn law_idle_segments_play_no_part(directory: Seq<char>, name: Seq<char>)
    requires
        directory.len() > 0,
        name.len() > 0,
        !name.contains('/'),
        name != seq!['.'],
    ensures
        ({
            let host = Host::Unix;
            let path = directory + seq!['/'] + name;
            &&& path_parent(host, path + seq!['/']) == path_parent(host, path)
            &&& path_parent(host, path + seq!['/', '.']) == path_parent(host, path)
            &&& path_parent(host, directory + seq!['/', '/'] + name) == path_parent(host, path)
            &&& path_parent(host, directory + seq!['/', '.', '/'] + name) == path_parent(
                host,
                path,
            )
        }),
{
    let host = Host::Unix;
    let slash = seq!['/'];
    let none = Seq::<char>::empty();
    let path = directory + slash + name;
    lemma_idle_end(path, none);
    lemma_idle_end(path, seq!['.']);
    assert(path + slash + none =~= path + slash);
    assert(path + slash + seq!['.'] =~= path + seq!['/', '.']);
    lemma_idle_end(directory, none);
    lemma_idle_end(directory, seq!['.']);
    lemma_parent_of_named(directory, name);
    lemma_parent_of_named(directory + slash + none, name);
    lemma_parent_of_named(directory + slash + seq!['.'], name);
    assert(directory + slash + none + slash + name =~= directory + seq!['/', '/'] + name);
    assert(directory + slash + seq!['.'] + slash + name =~= directory + seq!['/', '.', '/']
        + name);
}

proof fn lemma_start_behind_a_separator(
    directory: Seq<char>,
    name: Seq<char>,
    floor: nat,
    separators: Separators,
)
    requires
        floor <= directory.len() + 1,
        separators != Separators::Slash,
        is_unseparated(name),
    ensures
        segment_start(directory + seq!['\\'] + name, floor, separators) == directory.len() + 1,
    decreases name.len(),
{
    let path = directory + seq!['\\'] + name;
    if name.len() == 0 {
        assert(path.last() == '\\');
    } else {
        let shorter = name.drop_last();
        assert(!separates(Separators::Both, name[name.len() - 1].code()));
        assert forall|i: int| 0 <= i < shorter.len() implies !separates(
            Separators::Both,
            (#[trigger] shorter[i]).code(),
        ) by {
            assert(shorter[i] == name[i]);
        }
        assert(path.drop_last() =~= directory + seq!['\\'] + shorter);
        lemma_start_behind_a_separator(directory, shorter, floor, separators);
    }
}

/// The directory of what is named behind a directory is that directory, on
/// Windows too: for a directory whose own path is more than its beginning and
/// ends in a name, and for any name without separators that is neither empty nor
/// a mere dot. The name must not make another prefix of what stands before it.
pub proof fn law_directory_holds_what_is_named_in_it_on_windows(
    directory: Seq<char>,
    name: Seq<char>,
)
    requires
        directory.len() > body_start(Host::Windows, directory),
        !separates(Separators::Both, directory.last().code()),
        directory.last() != '.',
        name.len() > 0,
        is_unseparated(name),
        name != seq!['.'],
        path_prefix(Host::Windows, directory + seq!['\\'] + name) == path_prefix(
            Host::Windows,
            directory,
        ),
    ensures
        path_parent(Host::Windows, directory + seq!['\\'] + name) == Some(directory),
{
    let host = Host::Windows;
    let path = directory + seq!['\\'] + name;
    let at = prefix_len(host, directory) as int;
    let separators = path_separators(host, directory);
    assert(path[at] == directory[at]);
    assert(directory.len() > at + 1 ==> path[at + 1] == directory[at + 1]);
    assert(shows_root(host, path) == shows_root(host, directory));
    assert(begins_here(host, path) == begins_here(host, directory)) by {
        if directory.len() == at + 1 {
            assert(directory[at] == directory.last());
        }
    }
    let floor = body_start(host, path);
    assert(floor == body_start(host, directory));
    lemma_start_behind_a_separator(directory, name, floor, separators);
    assert(path.skip(directory.len() as int + 1) =~= name);
    assert(!is_dot(name)) by {
        if is_dot(name) {
            assert(name =~= seq!['.']);
        }
    }
    assert(!ends_idle(host, path));
    assert(path.take(directory.len() as int) =~= directory);
    assert(!ends_idle(host, directory)) by {
        lemma_segment_start(directory.drop_last(), floor, separators);
        let last = directory.skip(last_start(host, directory) as int);
        assert(last.last() == directory.last());
        assert(!is_dot(last));
    }
}

/// `..` takes back the name before it, and leads out of nothing else; any other
/// segment leads further in.
pub proof fn law_name_is_taken_back(directory: Seq<Seq<char>>, segment: Seq<char>)
    ensures
        segment != seq!['.'] && segment != seq!['.', '.'] ==> stepped_into(
            stepped_into(directory, segment),
            seq!['.', '.'],
        ) == directory,
        directory.len() == 0 || directory.last() == seq!['.'] || directory.last() == seq!['.', '.']
            ==> stepped_into(directory, seq!['.', '.']) == directory,
        segment != seq!['.', '.'] ==> stepped_into(directory, segment) == directory.push(segment),
{
    assert(directory.push(segment).drop_last() =~= directory);
}

/// To join nothing to a base leaves the base as it is, but for a separator at its
/// end. This is so on any host, below a verbatim prefix too.
pub proof fn law_nothing_adds_at_most_a_separator(host: Host, base: Seq<char>)
    ensures
        ({
            let whole = path_join(host, base, Seq::empty());
            ||| whole == base
            ||| whole == base.push('/') && host == Host::Unix
            ||| whole == base.push('\\') && host == Host::Windows
        }),
{
    let none = Seq::<char>::empty();
    assert(base + none =~= base);
    assert(base + seq!['/'] + none =~= base.push('/'));
    assert(base + seq!['\\'] + none =~= base.push('\\'));
}

} // verus!
