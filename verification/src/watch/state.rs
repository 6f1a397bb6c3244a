//! What is known of the files of a project at one moment.

use vstd::prelude::*;

use crate::watch::ignore::same_bytes;

verus! {

/// When a file was last written, and how long it is.
#[derive(Debug, Clone, Copy, PartialEq, Eq, PartialOrd, Ord, Structural)]
pub struct FileStamp {
    pub modified_millis: u128,
    pub len: u64,
}

/// The stamp of a file that was written at a time, where that is known.
pub open spec fn stamp_of(modified_millis: Option<u128>, len: u64) -> FileStamp {
    FileStamp {
        modified_millis: match modified_millis {
            Some(millis) => millis,
            None => 0,
        },
        len,
    }
}

/// The stamp of a file. The time is counted from the Unix epoch; a file whose
/// time is unknown, or lies before the epoch, counts as written at the epoch.
pub fn stamp_for(modified_millis: Option<u128>, len: u64) -> (stamp: FileStamp)
    ensures
        stamp == stamp_of(modified_millis, len),
{
    let modified_millis: u128 = match modified_millis {
        Some(millis) => millis,
        None => 0,
    };
    FileStamp { modified_millis, len }
}

/// The order of byte strings: that of their first difference.
pub open spec fn precedes(a: Seq<u8>, b: Seq<u8>) -> bool
    decreases a.len(),
{
    if b.len() == 0 {
        false
    } else if a.len() == 0 {
        true
    } else if a[0] != b[0] {
        a[0] < b[0]
    } else {
        precedes(a.skip(1), b.skip(1))
    }
}

/// Whether the keys of a list stand in their order, each of them once.
pub open spec fn ordered(entries: Seq<(Seq<u8>, FileStamp)>) -> bool {
    forall|i: int, j: int|
        0 <= i < j < entries.len() ==> precedes(#[trigger] entries[i].0, #[trigger] entries[j].0)
}

/// The stamps that a list of entries gives, a later entry counting over an
/// earlier one.
pub open spec fn stamps(entries: Seq<(Seq<u8>, FileStamp)>) -> Map<Seq<u8>, FileStamp>
    decreases entries.len(),
{
    if entries.len() == 0 {
        Map::empty()
    } else {
        stamps(entries.drop_last()).insert(entries.last().0, entries.last().1)
    }
}

/// The stamp of each watched file, by its path below the project root.
#[derive(Debug)]
pub struct WatchState {
    entries: Vec<(Vec<u8>, FileStamp)>,
}

impl View for WatchState {
    type V = Map<Seq<u8>, FileStamp>;

    closed spec fn view(&self) -> Map<Seq<u8>, FileStamp> {
        stamps(self.listed())
    }
}

proof fn lemma_precedes_is_strict(a: Seq<u8>)
    ensures
        !precedes(a, a),
    decreases a.len(),
{
    if a.len() > 0 {
        lemma_precedes_is_strict(a.skip(1));
    }
}

proof fn lemma_precedes_is_transitive(a: Seq<u8>, b: Seq<u8>, c: Seq<u8>)
    requires
        precedes(a, b),
        precedes(b, c),
    ensures
        precedes(a, c),
    decreases a.len(),
{
    if a.len() > 0 && b.len() > 0 && c.len() > 0 && a[0] == b[0] && b[0] == c[0] {
        lemma_precedes_is_transitive(a.skip(1), b.skip(1), c.skip(1));
    }
}

proof fn lemma_precedes_is_total(a: Seq<u8>, b: Seq<u8>)
    ensures
        a == b || precedes(a, b) || precedes(b, a),
    decreases a.len(),
{
    if a.len() == 0 {
        if b.len() == 0 {
            assert(a =~= b);
        }
    } else if b.len() > 0 && a[0] == b[0] {
        lemma_precedes_is_total(a.skip(1), b.skip(1));
        if a.skip(1) == b.skip(1) {
            assert(a =~= seq![a[0]] + a.skip(1));
            assert(b =~= seq![b[0]] + b.skip(1));
        }
    }
}

/// In an ordered list each entry gives its stamp, and nothing else does.
proof fn lemma_stamps(entries: Seq<(Seq<u8>, FileStamp)>)
    requires
        ordered(entries),
    ensures
        forall|i: int|
            0 <= i < entries.len() ==> stamps(entries).contains_key(#[trigger] entries[i].0)
                && stamps(entries)[entries[i].0] == entries[i].1,
        forall|key: Seq<u8>| #[trigger]
            stamps(entries).contains_key(key) ==> exists|i: int|
                0 <= i < entries.len() && #[trigger] entries[i].0 == key,
    decreases entries.len(),
{
    if entries.len() > 0 {
        let shorter = entries.drop_last();
        let last = entries.len() - 1;
        assert forall|i: int, j: int| 0 <= i < j < shorter.len() implies precedes(
            #[trigger] shorter[i].0,
            #[trigger] shorter[j].0,
        ) by {
            assert(precedes(entries[i].0, entries[j].0));
        }
        lemma_stamps(shorter);
        assert forall|i: int| 0 <= i < entries.len() implies stamps(entries).contains_key(
            #[trigger] entries[i].0,
        ) && stamps(entries)[entries[i].0] == entries[i].1 by {
            if i < last {
                assert(precedes(entries[i].0, entries[last].0));
                lemma_precedes_is_strict(entries[last].0);
                assert(shorter[i] == entries[i]);
            }
        }
        assert forall|key: Seq<u8>| #[trigger] stamps(entries).contains_key(key) implies exists|
            i: int,
        |
            0 <= i < entries.len() && #[trigger] entries[i].0 == key by {
            if key == entries[last].0 {
            } else {
                assert(stamps(shorter).contains_key(key));
                let i = choose|i: int| 0 <= i < shorter.len() && #[trigger] shorter[i].0 == key;
                assert(entries[i].0 == key);
            }
        }
    }
}

/// Two ordered lists that give the same stamps are the same list.
proof fn lemma_ordered_lists_are_unique(
    a: Seq<(Seq<u8>, FileStamp)>,
    b: Seq<(Seq<u8>, FileStamp)>,
)
    requires
        ordered(a),
        ordered(b),
        stamps(a) == stamps(b),
    ensures
        a == b,
    decreases a.len(),
{
    lemma_stamps(a);
    lemma_stamps(b);
    if a.len() == 0 {
        if b.len() > 0 {
            assert(stamps(b).contains_key(b[0].0));
        }
        assert(a =~= b);
    } else {
        let m = a.len() - 1;
        assert(stamps(b).contains_key(a[m].0));
        assert(b.len() > 0);
        let n = b.len() - 1;
        assert(stamps(a).contains_key(b[n].0));
        let i = choose|i: int| 0 <= i < b.len() && #[trigger] b[i].0 == a[m].0;
        let j = choose|j: int| 0 <= j < a.len() && #[trigger] a[j].0 == b[n].0;
        assert(a[m].0 == b[n].0) by {
            if i < n && j < m {
                assert(precedes(b[i].0, b[n].0));
                assert(precedes(a[j].0, a[m].0));
                lemma_precedes_is_transitive(a[m].0, b[n].0, a[m].0);
                lemma_precedes_is_strict(a[m].0);
            }
        }
        assert(a[m].1 == b[n].1);
        let short_a = a.drop_last();
        let short_b = b.drop_last();
        assert forall|p: int, q: int| 0 <= p < q < short_a.len() implies precedes(
            #[trigger] short_a[p].0,
            #[trigger] short_a[q].0,
        ) by {
            assert(precedes(a[p].0, a[q].0));
        }
        assert forall|p: int, q: int| 0 <= p < q < short_b.len() implies precedes(
            #[trigger] short_b[p].0,
            #[trigger] short_b[q].0,
        ) by {
            assert(precedes(b[p].0, b[q].0));
        }
        lemma_stamps(short_a);
        lemma_stamps(short_b);
        let key = a[m].0;
        assert(!stamps(short_a).contains_key(key)) by {
            if stamps(short_a).contains_key(key) {
                let p = choose|p: int| 0 <= p < short_a.len() && #[trigger] short_a[p].0 == key;
                assert(precedes(a[p].0, a[m].0));
                lemma_precedes_is_strict(key);
            }
        }
        assert(!stamps(short_b).contains_key(key)) by {
            if stamps(short_b).contains_key(key) {
                let p = choose|p: int| 0 <= p < short_b.len() && #[trigger] short_b[p].0 == key;
                assert(precedes(b[p].0, b[n].0));
                lemma_precedes_is_strict(key);
            }
        }
        assert(stamps(short_a) =~= stamps(a).remove(key));
        assert(stamps(short_b) =~= stamps(b).remove(key));
        lemma_ordered_lists_are_unique(short_a, short_b);
        assert(a =~= short_a.push(a[m]));
        assert(b =~= short_b.push(b[n]));
    }
}

/// An ordered list with one entry put at its place gives one stamp more.
proof fn lemma_stamps_insert(
    entries: Seq<(Seq<u8>, FileStamp)>,
    at: int,
    key: Seq<u8>,
    stamp: FileStamp,
)
    requires
        ordered(entries),
        0 <= at <= entries.len(),
        forall|i: int| 0 <= i < at ==> precedes(#[trigger] entries[i].0, key),
        forall|i: int| at <= i < entries.len() ==> precedes(key, #[trigger] entries[i].0),
    ensures
        ordered(entries.insert(at, (key, stamp))),
        stamps(entries.insert(at, (key, stamp))) == stamps(entries).insert(key, stamp),
{
    let more = entries.insert(at, (key, stamp));
    assert forall|i: int, j: int| 0 <= i < j < more.len() implies precedes(
        #[trigger] more[i].0,
        #[trigger] more[j].0,
    ) by {
        let p = if i < at { i } else { i - 1 };
        let q = if j < at { j } else { j - 1 };
        if i != at {
            assert(more[i] == entries[p]);
        }
        if j != at {
            assert(more[j] == entries[q]);
        }
        if i != at && j != at {
            assert(precedes(entries[p].0, entries[q].0));
        }
    }
    lemma_stamps(entries);
    lemma_stamps(more);
    let wanted = stamps(entries).insert(key, stamp);
    assert forall|k: Seq<u8>| stamps(more).contains_key(k) <==> wanted.contains_key(k) by {
        if stamps(more).contains_key(k) {
            let i = choose|i: int| 0 <= i < more.len() && #[trigger] more[i].0 == k;
            if i < at {
                assert(entries[i].0 == k);
            } else if i > at {
                assert(entries[i - 1].0 == k);
            }
        }
        if wanted.contains_key(k) {
            if k == key {
                assert(more[at].0 == k);
            } else {
                let i = choose|i: int| 0 <= i < entries.len() && #[trigger] entries[i].0 == k;
                let j = if i < at { i } else { i + 1 };
                assert(more[j].0 == k);
            }
        }
    }
    assert forall|k: Seq<u8>| stamps(more).contains_key(k) implies stamps(more)[k]
        == wanted[k] by {
        let i = choose|i: int| 0 <= i < more.len() && #[trigger] more[i].0 == k;
        assert(stamps(more)[more[i].0] == more[i].1);
        if i == at {
        } else {
            let j = if i < at { i } else { i - 1 };
            assert(more[i] == entries[j]);
            if k == key {
                lemma_precedes_is_strict(key);
            }
        }
    }
    assert(stamps(more) =~= wanted);
}

/// An ordered list with one stamp replaced gives the new stamp.
proof fn lemma_stamps_update(
    entries: Seq<(Seq<u8>, FileStamp)>,
    at: int,
    stamp: FileStamp,
)
    requires
        ordered(entries),
        0 <= at < entries.len(),
    ensures
        ordered(entries.update(at, (entries[at].0, stamp))),
        stamps(entries.update(at, (entries[at].0, stamp))) == stamps(entries).insert(
            entries[at].0,
            stamp,
        ),
{
    let key = entries[at].0;
    let other = entries.update(at, (key, stamp));
    assert forall|i: int, j: int| 0 <= i < j < other.len() implies precedes(
        #[trigger] other[i].0,
        #[trigger] other[j].0,
    ) by {
        assert(other[i].0 == entries[i].0 && other[j].0 == entries[j].0);
    }
    lemma_stamps(entries);
    lemma_stamps(other);
    let wanted = stamps(entries).insert(key, stamp);
    assert forall|k: Seq<u8>| stamps(other).contains_key(k) <==> wanted.contains_key(k) by {
        if stamps(other).contains_key(k) {
            let i = choose|i: int| 0 <= i < other.len() && #[trigger] other[i].0 == k;
            assert(entries[i].0 == k);
        }
        if wanted.contains_key(k) {
            if k == key {
                assert(other[at].0 == k);
            } else {
                let i = choose|i: int| 0 <= i < entries.len() && #[trigger] entries[i].0 == k;
                assert(other[i].0 == k);
            }
        }
    }
    assert forall|k: Seq<u8>| stamps(other).contains_key(k) implies stamps(other)[k]
        == wanted[k] by {
        let i = choose|i: int| 0 <= i < other.len() && #[trigger] other[i].0 == k;
        assert(stamps(other)[other[i].0] == other[i].1);
        assert(entries[i].0 == k);
        if i != at && k == key {
            lemma_precedes_is_strict(key);
            if i < at {
                assert(precedes(entries[i].0, entries[at].0));
            } else {
                assert(precedes(entries[at].0, entries[i].0));
            }
        }
    }
    assert(stamps(other) =~= wanted);
}

/// Whether `a` comes before `b`.
fn comes_before(a: &[u8], b: &[u8]) -> (before: bool)
    ensures
        before == precedes(a@, b@),
{
    let mut i: usize = 0;
    assert(a@.skip(0) =~= a@);
    assert(b@.skip(0) =~= b@);
    loop
        invariant
            i <= a@.len(),
            i <= b@.len(),
            precedes(a@.skip(i as int), b@.skip(i as int)) == precedes(a@, b@),
        decreases a@.len() - i,
    {
        if i == b.len() {
            return false;
        }
        if i == a.len() {
            return true;
        }
        if a[i] != b[i] {
            return a[i] < b[i];
        }
        assert(a@.skip(i as int).skip(1) =~= a@.skip(i + 1));
        assert(b@.skip(i as int).skip(1) =~= b@.skip(i + 1));
        i += 1;
    }
}

impl WatchState {
    /// The entries in their order.
    pub closed spec fn listed(&self) -> Seq<(Seq<u8>, FileStamp)> {
        self.entries@.map_values(|entry: (Vec<u8>, FileStamp)| (entry.0@, entry.1))
    }

    /// Whether the entries are kept in their order, each path once.
    pub closed spec fn wf(&self) -> bool {
        ordered(self.listed())
    }

    /// Nothing is known of any file.
    pub fn new() -> (state: Self)
        ensures
            state.wf(),
            state@ == Map::<Seq<u8>, FileStamp>::empty(),
    {
        WatchState { entries: Vec::new() }
    }

    /// How many entries come before `key`.
    fn place(&self, key: &[u8]) -> (at: usize)
        requires
            self.wf(),
        ensures
            at <= self.listed().len(),
            forall|i: int| 0 <= i < at ==> precedes(#[trigger] self.listed()[i].0, key@),
            forall|i: int|
                at <= i < self.listed().len() ==> !precedes(#[trigger] self.listed()[i].0, key@),
    {
        let ghost list = self.listed();
        let mut low: usize = 0;
        let mut high: usize = self.entries.len();
        while low < high
            invariant
                self.wf(),
                list == self.listed(),
                low <= high <= list.len(),
                list.len() == self.entries@.len(),
                forall|i: int| 0 <= i < low ==> precedes(#[trigger] list[i].0, key@),
                forall|i: int| high <= i < list.len() ==> !precedes(#[trigger] list[i].0, key@),
            decreases high - low,
        {
            let middle: usize = low + (high - low) / 2;
            if comes_before(self.entries[middle].0.as_slice(), key) {
                proof {
                    assert(precedes(list[middle as int].0, key@));
                    assert forall|i: int| 0 <= i < middle + 1 implies precedes(
                        #[trigger] list[i].0,
                        key@,
                    ) by {
                        if i < middle {
                            assert(precedes(list[i].0, list[middle as int].0));
                            lemma_precedes_is_transitive(list[i].0, list[middle as int].0, key@);
                        }
                    }
                }
                low = middle + 1;
            } else {
                proof {
                    assert(!precedes(list[middle as int].0, key@));
                    assert forall|i: int| middle <= i < list.len() implies !precedes(
                        #[trigger] list[i].0,
                        key@,
                    ) by {
                        if i > middle && precedes(list[i].0, key@) {
                            assert(precedes(list[middle as int].0, list[i].0));
                            lemma_precedes_is_transitive(list[middle as int].0, list[i].0, key@);
                        }
                    }
                }
                high = middle;
            }
        }
        low
    }

    /// Notes the stamp of a file.
    pub fn insert(&mut self, key: Vec<u8>, stamp: FileStamp)
        requires
            old(self).wf(),
        ensures
            final(self).wf(),
            final(self)@ == old(self)@.insert(key@, stamp),
    {
        let ghost list = self.listed();
        let at = self.place(key.as_slice());
        if at < self.entries.len() && same_bytes(self.entries[at].0.as_slice(), key.as_slice()) {
            proof {
                assert(list[at as int].0 == key@);
                lemma_stamps_update(list, at as int, stamp);
            }
            self.entries.set(at, (key, stamp));
            assert(self.listed() =~= list.update(at as int, (list[at as int].0, stamp)));
        } else {
            proof {
                assert forall|i: int| at <= i < list.len() implies precedes(
                    key@,
                    #[trigger] list[i].0,
                ) by {
                    lemma_precedes_is_total(key@, list[i].0);
                    if list[i].0 == key@ && i > at {
                        lemma_precedes_is_total(list[at as int].0, key@);
                        assert(precedes(list[at as int].0, list[i].0));
                    }
                }
                lemma_stamps_insert(list, at as int, key@, stamp);
            }
            self.entries.insert(at, (key, stamp));
            assert(self.listed() =~= list.insert(at as int, (key@, stamp)));
        }
    }

    /// The stamp that is known of a file.
    pub fn get(&self, key: &[u8]) -> (stamp: Option<FileStamp>)
        requires
            self.wf(),
        ensures
            match stamp {
                Some(found) => self@.contains_key(key@) && self@[key@] == found,
                None => !self@.contains_key(key@),
            },
    {
        let ghost list = self.listed();
        let at = self.place(key);
        proof {
            lemma_stamps(list);
        }
        if at < self.entries.len() && same_bytes(self.entries[at].0.as_slice(), key) {
            assert(list[at as int].0 == key@);
            Some(self.entries[at].1)
        } else {
            proof {
                if self@.contains_key(key@) {
                    let i = choose|i: int| 0 <= i < list.len() && #[trigger] list[i].0 == key@;
                    lemma_precedes_is_strict(key@);
                    assert(i >= at);
                    if i > at {
                        assert(precedes(list[at as int].0, list[i].0));
                    }
                    assert(list[i].0 == self.entries@[i].0@);
                }
            }
            None
        }
    }

    /// Whether two states know the same of the same files.
    pub fn same_as(&self, other: &WatchState) -> (same: bool)
        requires
            self.wf(),
            other.wf(),
        ensures
            same == (self@ == other@),
    {
        let ghost mine = self.listed();
        let ghost theirs = other.listed();
        proof {
            if self@ == other@ {
                lemma_ordered_lists_are_unique(mine, theirs);
            }
        }
        if self.entries.len() != other.entries.len() {
            assert(mine.len() != theirs.len());
            return false;
        }
        let mut i: usize = 0;
        while i < self.entries.len()
            invariant
                i <= self.entries@.len(),
                self.entries@.len() == other.entries@.len(),
                mine == self.listed(),
                theirs == other.listed(),
                mine == theirs <==> self@ == other@,
                forall|j: int| 0 <= j < i ==> mine[j] == theirs[j],
            decreases self.entries@.len() - i,
        {
            if self.entries[i].1 != other.entries[i].1 || !same_bytes(
                self.entries[i].0.as_slice(),
                other.entries[i].0.as_slice(),
            ) {
                assert(mine[i as int] != theirs[i as int]);
                return false;
            }
            assert(mine[i as int] == theirs[i as int]);
            i += 1;
        }
        assert(mine =~= theirs);
        true
    }
}

/// Two files have the same stamp exactly where they are as long and were written
/// at the same time, an unknown time being that of the epoch.
pub proof fn law_stamp_tells_time_and_length(
    modified_millis: Option<u128>,
    len: u64,
    other_millis: Option<u128>,
    other_len: u64,
)
    ensures
        stamp_of(modified_millis, len) == stamp_of(other_millis, other_len) <==> {
            &&& len == other_len
            &&& modified_millis == other_millis || modified_millis is None && other_millis == Some(
                0u128,
            ) || other_millis is None && modified_millis == Some(0u128)
        },
        stamp_of(modified_millis, len).len == len,
        modified_millis matches Some(millis) ==> stamp_of(
            modified_millis,
            len,
        ).modified_millis == millis,
{
}

} // verus!
