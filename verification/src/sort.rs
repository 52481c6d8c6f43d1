//! The order of a listing: directories first, then the keys the switches ask for.

use vstd::prelude::*;
use vstd::seq_lib::seq_to_set_is_finite;
use vstd::set_lib::{lemma_int_range, lemma_subset_equality, set_int_range};
use crate::cli::Flags;
use crate::entry::{Entry, FileType, Timestamp};
use crate::merge::merge_sort;

verus! {

/// What an entry is ordered by. A part that was not asked for is `None` in every key,
/// so it never tells two entries apart.
#[derive(Debug, Clone, Copy)]
pub struct SortKey {
    /// Directories come before everything else.
    pub kind: FileType,
    /// `u64::MAX - size`, so that the larger entry has the smaller key.
    pub size: Option<u64>,
    /// Nanoseconds since the last change, so that the newer entry has the smaller key;
    /// `None` also where the time is unknown or lies ahead.
    pub elapsed: Option<u128>,
}

/// The place of a kind in the order.
pub open spec fn kind_rank(kind: FileType) -> int {
    if kind is Dir {
        0
    } else {
        1
    }
}

impl SortKey {
    /// The place of the size part in the order: an absent one comes first.
    pub open spec fn size_rank(self) -> int {
        match self.size {
            None => -1,
            Some(v) => v as int,
        }
    }

    /// The place of the age part in the order: an absent one comes first.
    pub open spec fn elapsed_rank(self) -> int {
        match self.elapsed {
            None => -1,
            Some(v) => v as int,
        }
    }

    /// Whether the parts after the kind put `self` strictly before `other`:
    /// by size first, by age where the sizes tie.
    pub open spec fn detail_before(self, other: SortKey) -> bool {
        self.size_rank() < other.size_rank() || (self.size_rank() == other.size_rank()
            && self.elapsed_rank() < other.elapsed_rank())
    }

    /// Whether `self` comes strictly before `other`. The kind decides first and is never
    /// reversed; `reverse` turns round what the other parts say.
    pub open spec fn before(self, other: SortKey, reverse: bool) -> bool {
        kind_rank(self.kind) < kind_rank(other.kind) || (self.kind == other.kind && if reverse {
            other.detail_before(self)
        } else {
            self.detail_before(other)
        })
    }

    /// Computes [`SortKey::before`].
    pub fn is_before(&self, other: &SortKey, reverse: bool) -> (earlier: bool)
        ensures
            earlier == self.before(*other, reverse),
    {
        if self.kind.is_dir() != other.kind.is_dir() {
            return self.kind.is_dir();
        }
        if reverse {
            detail_is_before(other, self)
        } else {
            detail_is_before(self, other)
        }
    }
}

fn detail_is_before(a: &SortKey, b: &SortKey) -> (earlier: bool)
    ensures
        earlier == a.detail_before(*b),
{
    match (a.size, b.size) {
        (None, Some(_)) => {
            return true;
        },
        (Some(_), None) => {
            return false;
        },
        (Some(x), Some(y)) => {
            if x != y {
                return x < y;
            }
        },
        (None, None) => {},
    }
    match (a.elapsed, b.elapsed) {
        (None, None) => false,
        (None, Some(_)) => true,
        (Some(_), None) => false,
        (Some(x), Some(y)) => x < y,
    }
}

/// The key of `entry` under `flags`, with `now` as the present.
pub open spec fn key_of(entry: Entry, flags: Flags, now: Timestamp) -> SortKey {
    SortKey {
        kind: entry.kind,
        size: if flags.sort_by_size {
            Some((u64::MAX - entry.metadata.size) as u64)
        } else {
            None
        },
        elapsed: match entry.metadata.modified {
            Ok(at) if flags.sort_by_modified_time && at.total_nanos() <= now.total_nanos() => Some(
                (now.total_nanos() - at.total_nanos()) as u128,
            ),
            _ => None,
        },
    }
}

/// Computes [`key_of`].
pub fn sort_key(entry: &Entry, flags: &Flags, now: &Timestamp) -> (key: SortKey)
    ensures
        key == key_of(*entry, *flags, *now),
{
    let size = if flags.sort_by_size {
        Some(u64::MAX - entry.metadata.size)
    } else {
        None
    };
    let mut elapsed: Option<u128> = None;
    if flags.sort_by_modified_time {
        match &entry.metadata.modified {
            Ok(at) => {
                let then: i128 = at.as_nanos();
                let present: i128 = now.as_nanos();
                if then <= present {
                    elapsed = Some((present - then) as u128);
                }
            },
            Err(_) => {},
        }
    }
    SortKey { kind: entry.kind, size, elapsed }
}

/// Whether `a` is listed strictly before `b` whatever their places were.
pub open spec fn entry_before(a: Entry, b: Entry, flags: Flags, now: Timestamp) -> bool {
    key_of(a, flags, now).before(key_of(b, flags, now), flags.reverse_sort)
}

/// How many of the leading entries of `sorted` stay in front of `entry`: those that come
/// strictly before it.
pub open spec fn place_of(sorted: Seq<Entry>, entry: Entry, flags: Flags, now: Timestamp) -> int
    decreases sorted.len(),
{
    if sorted.len() == 0 || !entry_before(sorted[0], entry, flags, now) {
        0
    } else {
        1 + place_of(sorted.drop_first(), entry, flags, now)
    }
}

/// `entries` in listing order: each entry goes in front of the later ones that do not
/// come strictly before it, so entries that tie keep the order in which they came.
pub open spec fn sorted_entries(entries: Seq<Entry>, flags: Flags, now: Timestamp) -> Seq<Entry>
    decreases entries.len(),
{
    if entries.len() == 0 {
        entries
    } else {
        let rest = sorted_entries(entries.drop_first(), flags, now);
        rest.insert(place_of(rest, entries[0], flags, now), entries[0])
    }
}

/// Puts `entries` in listing order. The sort is stable.
pub fn sort_entries(entries: Vec<Entry>, flags: &Flags, now: &Timestamp) -> (sorted: Vec<Entry>)
    ensures
        sorted@ == sorted_entries(entries@, *flags, *now),
{
    merge_sort(entries, flags, now)
}

/// For each place in the listing of `entries`, the place that its entry had in `entries`.
pub open spec fn sorted_places(entries: Seq<Entry>, flags: Flags, now: Timestamp) -> Seq<int>
    decreases entries.len(),
{
    if entries.len() == 0 {
        Seq::empty()
    } else {
        let rest = sorted_entries(entries.drop_first(), flags, now);
        let places = sorted_places(entries.drop_first(), flags, now).map_values(|k: int| k + 1);
        places.insert(place_of(rest, entries[0], flags, now), 0)
    }
}

/// `sorted` holds the entries of `entries`, each once, with `places` telling where each
/// came from; no entry stands behind one that it comes before, and of two entries that
/// neither comes before the other, the one that came first stands first.
pub open spec fn arranged(
    sorted: Seq<Entry>,
    places: Seq<int>,
    entries: Seq<Entry>,
    flags: Flags,
    now: Timestamp,
) -> bool {
    &&& sorted.len() == entries.len()
    &&& places.len() == entries.len()
    &&& forall|i: int|
        0 <= i < places.len() ==> 0 <= #[trigger] places[i] < entries.len() && sorted[i]
            == entries[places[i]]
    &&& forall|i: int, j: int|
        0 <= i < j < places.len() ==> #[trigger] places[i] != #[trigger] places[j]
    &&& forall|i: int, j: int|
        #![trigger sorted[i], sorted[j]]
        0 <= i < j < sorted.len() ==> !entry_before(sorted[j], sorted[i], flags, now) && (
        entry_before(sorted[i], sorted[j], flags, now) || places[i] < places[j])
}

/// The order of keys is strict: nothing comes before itself, and what does not come before
/// `x` comes after everything that does.
pub proof fn lemma_before_is_strict(a: SortKey, b: SortKey, x: SortKey, reverse: bool)
    ensures
        !a.before(a, reverse),
        a.before(b, reverse) ==> !b.before(a, reverse),
        a.before(x, reverse) && !b.before(x, reverse) ==> a.before(b, reverse),
        a.before(b, reverse) && b.before(x, reverse) ==> a.before(x, reverse),
{
}

/// The place of an entry lies within the list; everything in front of it comes strictly
/// before the entry, and what stands at the place does not.
pub proof fn lemma_place_of(sorted: Seq<Entry>, entry: Entry, flags: Flags, now: Timestamp)
    ensures
        0 <= place_of(sorted, entry, flags, now) <= sorted.len(),
        forall|i: int|
            0 <= i < place_of(sorted, entry, flags, now) ==> entry_before(
                #[trigger] sorted[i],
                entry,
                flags,
                now,
            ),
        place_of(sorted, entry, flags, now) < sorted.len() ==> !entry_before(
            sorted[place_of(sorted, entry, flags, now)],
            entry,
            flags,
            now,
        ),
    decreases sorted.len(),
{
    if sorted.len() > 0 && entry_before(sorted[0], entry, flags, now) {
        let tail = sorted.drop_first();
        lemma_place_of(tail, entry, flags, now);
        let k = place_of(tail, entry, flags, now);
        assert forall|i: int| 0 <= i < k + 1 implies entry_before(
            #[trigger] sorted[i],
            entry,
            flags,
            now,
        ) by {
            if i > 0 {
                assert(sorted[i] == tail[i - 1]);
            }
        }
        if k + 1 < sorted.len() {
            assert(sorted[k + 1] == tail[k]);
        }
    }
}

/// The listing holds every entry once, in order, and keeps ties as they came.
pub proof fn lemma_sorted_is_arranged(entries: Seq<Entry>, flags: Flags, now: Timestamp)
    ensures
        arranged(
            sorted_entries(entries, flags, now),
            sorted_places(entries, flags, now),
            entries,
            flags,
            now,
        ),
    decreases entries.len(),
{
    if entries.len() > 0 {
        let tail = entries.drop_first();
        let first = entries[0];
        let rest = sorted_entries(tail, flags, now);
        let rest_places = sorted_places(tail, flags, now);
        let shifted = rest_places.map_values(|k: int| k + 1);
        let k = place_of(rest, first, flags, now);
        let sorted = sorted_entries(entries, flags, now);
        let places = sorted_places(entries, flags, now);
        lemma_sorted_is_arranged(tail, flags, now);
        lemma_place_of(rest, first, flags, now);
        assert(sorted == rest.insert(k, first));
        assert(places == shifted.insert(k, 0));
        assert forall|i: int| 0 <= i < places.len() implies 0 <= #[trigger] places[i]
            < entries.len() && sorted[i] == entries[places[i]] by {
            if i < k {
                assert(places[i] == rest_places[i] + 1);
                assert(sorted[i] == rest[i]);
                assert(tail[rest_places[i]] == entries[rest_places[i] + 1]);
            } else if i > k {
                assert(places[i] == rest_places[i - 1] + 1);
                assert(sorted[i] == rest[i - 1]);
                assert(tail[rest_places[i - 1]] == entries[rest_places[i - 1] + 1]);
            }
        }
        assert forall|i: int, j: int| 0 <= i < j < places.len() implies #[trigger] places[i]
            != #[trigger] places[j] by {
            let a = if i < k { i } else { i - 1 };
            let b = if j < k { j } else { j - 1 };
            if i != k && j != k {
                assert(places[i] == rest_places[a] + 1);
                assert(places[j] == rest_places[b] + 1);
            } else if i == k {
                assert(places[j] == rest_places[b] + 1);
            } else {
                assert(places[i] == rest_places[a] + 1);
            }
        }
        assert forall|i: int, j: int|
            #![trigger sorted[i], sorted[j]]
            0 <= i < j < sorted.len() implies !entry_before(sorted[j], sorted[i], flags, now) && (
        entry_before(sorted[i], sorted[j], flags, now) || places[i] < places[j]) by {
            let a = if i < k { i } else { i - 1 };
            let b = if j < k { j } else { j - 1 };
            let key = key_of(first, flags, now);
            if i != k && j != k {
                assert(sorted[i] == rest[a] && sorted[j] == rest[b]);
                assert(places[i] == rest_places[a] + 1);
                assert(places[j] == rest_places[b] + 1);
            } else if j == k {
                assert(sorted[i] == rest[i]);
                lemma_before_is_strict(
                    key_of(rest[i], flags, now),
                    key,
                    key,
                    flags.reverse_sort,
                );
            } else {
                assert(sorted[j] == rest[b]);
                assert(places[j] == rest_places[b] + 1);
                if b > k {
                    assert(!entry_before(rest[b], rest[k], flags, now));
                }
                lemma_before_is_strict(
                    key_of(rest[b], flags, now),
                    key_of(rest[k], flags, now),
                    key,
                    flags.reverse_sort,
                );
            }
        }
    }
}

/// As many different places as there are entries hold every place.
proof fn lemma_places_hold_all(places: Seq<int>, place: int)
    requires
        forall|i: int| 0 <= i < places.len() ==> 0 <= #[trigger] places[i] < places.len(),
        forall|i: int, j: int|
            0 <= i < j < places.len() ==> #[trigger] places[i] != #[trigger] places[j],
        0 <= place < places.len(),
    ensures
        exists|k: int| 0 <= k < places.len() && #[trigger] places[k] == place,
{
    let held = places.to_set();
    let all = set_int_range(0, places.len() as int);
    assert(places.no_duplicates()) by {
        assert forall|i: int, j: int|
            0 <= i < places.len() && 0 <= j < places.len() && i != j implies places[i]
            != places[j] by {
            if i < j {
                assert(places[i] != places[j]);
            } else {
                assert(places[j] != places[i]);
            }
        }
    }
    places.unique_seq_to_set();
    lemma_int_range(0, places.len() as int);
    seq_to_set_is_finite(places);
    assert(held.subset_of(all)) by {
        assert forall|v: int| held.contains(v) implies all.contains(v) by {
            let i = choose|i: int| 0 <= i < places.len() && places[i] == v;
            assert(0 <= places[i] < places.len());
        }
    }
    lemma_subset_equality(held, all);
    assert(all.contains(place));
    assert(places.contains(place));
}

/// An entry has the place in front of which everything comes strictly before it, if
/// what stands at that place does not.
proof fn lemma_place_is(sorted: Seq<Entry>, entry: Entry, place: int, flags: Flags, now: Timestamp)
    requires
        0 <= place <= sorted.len(),
        forall|i: int| 0 <= i < place ==> entry_before(#[trigger] sorted[i], entry, flags, now),
        place < sorted.len() ==> !entry_before(sorted[place], entry, flags, now),
    ensures
        place_of(sorted, entry, flags, now) == place,
    decreases place,
{
    if place > 0 {
        let tail = sorted.drop_first();
        assert(entry_before(sorted[0], entry, flags, now));
        assert forall|i: int| 0 <= i < place - 1 implies entry_before(
            #[trigger] tail[i],
            entry,
            flags,
            now,
        ) by {
            assert(tail[i] == sorted[i + 1]);
        }
        if place < sorted.len() {
            assert(tail[place - 1] == sorted[place]);
        }
        lemma_place_is(tail, entry, place - 1, flags, now);
    }
}

/// There is one listing only: whatever holds every entry once, in order, with ties as
/// they came, is the listing.
pub proof fn lemma_arranged_is_sorted(
    sorted: Seq<Entry>,
    places: Seq<int>,
    entries: Seq<Entry>,
    flags: Flags,
    now: Timestamp,
)
    requires
        arranged(sorted, places, entries, flags, now),
    ensures
        sorted == sorted_entries(entries, flags, now),
    decreases entries.len(),
{
    if entries.len() == 0 {
        assert(sorted =~= entries);
    } else {
        lemma_places_hold_all(places, 0);
        let k = choose|k: int| 0 <= k < places.len() && #[trigger] places[k] == 0;
        let first = entries[0];
        let tail = entries.drop_first();
        let rest = sorted.remove(k);
        let rest_places = places.remove(k).map_values(|v: int| v - 1);
        assert(sorted[k] == first);
        assert forall|i: int| 0 <= i < rest_places.len() implies 0 <= #[trigger] rest_places[i]
            < tail.len() && rest[i] == tail[rest_places[i]] by {
            let o = if i < k { i } else { i + 1 };
            if o < k {
                assert(places[o] != places[k]);
            } else {
                assert(places[k] != places[o]);
            }
            assert(rest_places[i] == places[o] - 1);
            assert(rest[i] == sorted[o]);
            assert(tail[places[o] - 1] == entries[places[o]]);
        }
        assert forall|i: int, j: int| 0 <= i < j < rest_places.len() implies #[trigger] rest_places[i]
            != #[trigger] rest_places[j] by {
            let a = if i < k { i } else { i + 1 };
            let b = if j < k { j } else { j + 1 };
            assert(rest_places[i] == places[a] - 1);
            assert(rest_places[j] == places[b] - 1);
            assert(places[a] != places[b]);
        }
        assert forall|i: int, j: int|
            #![trigger rest[i], rest[j]]
            0 <= i < j < rest.len() implies !entry_before(rest[j], rest[i], flags, now) && (
        entry_before(rest[i], rest[j], flags, now) || rest_places[i] < rest_places[j]) by {
            let a = if i < k { i } else { i + 1 };
            let b = if j < k { j } else { j + 1 };
            assert(rest[i] == sorted[a] && rest[j] == sorted[b]);
            assert(rest_places[i] == places[a] - 1);
            assert(rest_places[j] == places[b] - 1);
        }
        lemma_arranged_is_sorted(rest, rest_places, tail, flags, now);
        assert forall|i: int| 0 <= i < k implies entry_before(
            #[trigger] rest[i],
            first,
            flags,
            now,
        ) by {
            assert(rest[i] == sorted[i]);
            assert(!entry_before(sorted[k], sorted[i], flags, now) && (entry_before(
                sorted[i],
                sorted[k],
                flags,
                now,
            ) || places[i] < places[k]));
            assert(0 <= places[i]);
        }
        if k < rest.len() {
            assert(rest[k] == sorted[k + 1]);
            assert(!entry_before(sorted[k + 1], sorted[k], flags, now));
        }
        lemma_place_is(rest, first, k, flags, now);
        assert(sorted =~= rest.insert(k, first));
    }
}

/// Directories stand before all other entries, whatever the switches say.
pub proof fn lemma_directories_first(entries: Seq<Entry>, flags: Flags, now: Timestamp)
    ensures
        sorted_entries(entries, flags, now).len() == entries.len(),
        forall|i: int, j: int|
            #![trigger sorted_entries(entries, flags, now)[i], sorted_entries(entries, flags, now)[j]]
            0 <= i < j < entries.len() && sorted_entries(entries, flags, now)[j].kind is Dir
                ==> sorted_entries(entries, flags, now)[i].kind is Dir,
{
    lemma_sorted_is_arranged(entries, flags, now);
}

/// Where neither sorting by size nor by time is asked for, the listing does not depend on
/// the other switches: reversing alone changes nothing.
pub proof fn lemma_reverse_alone_changes_nothing(
    entries: Seq<Entry>,
    plain: Flags,
    reversed: Flags,
    now: Timestamp,
)
    requires
        !plain.sort_by_size && !plain.sort_by_modified_time,
        !reversed.sort_by_size && !reversed.sort_by_modified_time,
    ensures
        sorted_entries(entries, plain, now) == sorted_entries(entries, reversed, now),
    decreases entries.len(),
{
    if entries.len() > 0 {
        lemma_reverse_alone_changes_nothing(entries.drop_first(), plain, reversed, now);
        lemma_same_place(
            sorted_entries(entries.drop_first(), plain, now),
            entries[0],
            plain,
            reversed,
            now,
        );
    }
}

proof fn lemma_same_place(
    sorted: Seq<Entry>,
    entry: Entry,
    plain: Flags,
    reversed: Flags,
    now: Timestamp,
)
    requires
        !plain.sort_by_size && !plain.sort_by_modified_time,
        !reversed.sort_by_size && !reversed.sort_by_modified_time,
    ensures
        place_of(sorted, entry, plain, now) == place_of(sorted, entry, reversed, now),
    decreases sorted.len(),
{
    if sorted.len() > 0 {
        lemma_same_place(sorted.drop_first(), entry, plain, reversed, now);
    }
}

} // verus!
