//! Sorting by merging: how a listing is put in order.

use vstd::prelude::*;
use crate::cli::Flags;
use crate::entry::{Entry, Timestamp};
use crate::sort::{
    arranged, entry_before, key_of, lemma_arranged_is_sorted, lemma_before_is_strict,
    lemma_sorted_is_arranged, sort_key, sorted_entries, sorted_places,
};

verus! {

/// Two lists merged from their ends: the last entry of the second list goes last unless
/// it comes strictly before the last entry of the first.
pub open spec fn merged(a: Seq<Entry>, b: Seq<Entry>, flags: Flags, now: Timestamp) -> Seq<Entry>
    decreases a.len() + b.len(),
{
    if a.len() == 0 {
        b
    } else if b.len() == 0 {
        a
    } else if entry_before(b.last(), a.last(), flags, now) {
        merged(a.drop_last(), b, flags, now).push(a.last())
    } else {
        merged(a, b.drop_last(), flags, now).push(b.last())
    }
}

/// The places of the entries of two merged lists, merged as the entries are.
spec fn merged_places(
    a: Seq<Entry>,
    a_places: Seq<int>,
    b: Seq<Entry>,
    b_places: Seq<int>,
    flags: Flags,
    now: Timestamp,
) -> Seq<int>
    decreases a.len() + b.len(),
{
    if a.len() == 0 {
        b_places
    } else if b.len() == 0 {
        a_places
    } else if entry_before(b.last(), a.last(), flags, now) {
        merged_places(a.drop_last(), a_places.drop_last(), b, b_places, flags, now).push(
            a_places.last(),
        )
    } else {
        merged_places(a, a_places, b.drop_last(), b_places.drop_last(), flags, now).push(
            b_places.last(),
        )
    }
}

/// `list` holds entries of `entries` at the given places, in order and with ties as
/// they came.
spec fn in_order(
    list: Seq<Entry>,
    places: Seq<int>,
    entries: Seq<Entry>,
    flags: Flags,
    now: Timestamp,
) -> bool {
    &&& places.len() == list.len()
    &&& forall|k: int|
        0 <= k < list.len() ==> 0 <= #[trigger] places[k] < entries.len() && list[k]
            == entries[places[k]]
    &&& forall|k: int, l: int|
        #![trigger list[k], list[l]]
        0 <= k < l < list.len() ==> !entry_before(list[l], list[k], flags, now) && (
        entry_before(list[k], list[l], flags, now) || places[k] < places[l])
}

/// Whether the entry `x` at place `p` may stand behind the entry `y` at place `q`.
spec fn may_follow(x: Entry, p: int, y: Entry, q: int, flags: Flags, now: Timestamp) -> bool {
    !entry_before(x, y, flags, now) && (entry_before(y, x, flags, now) || q < p)
}

/// Merging two lists that are in order, of which the first holds the earlier places,
/// gives a list in order that holds the entries of both.
proof fn lemma_merged_in_order(
    a: Seq<Entry>,
    a_places: Seq<int>,
    b: Seq<Entry>,
    b_places: Seq<int>,
    entries: Seq<Entry>,
    flags: Flags,
    now: Timestamp,
)
    requires
        in_order(a, a_places, entries, flags, now),
        in_order(b, b_places, entries, flags, now),
        forall|x: int, y: int|
            0 <= x < a.len() && 0 <= y < b.len() ==> #[trigger] a_places[x] < #[trigger] b_places[y],
    ensures
        in_order(
            merged(a, b, flags, now),
            merged_places(a, a_places, b, b_places, flags, now),
            entries,
            flags,
            now,
        ),
        merged(a, b, flags, now).len() == a.len() + b.len(),
        forall|k: int|
            #![trigger merged(a, b, flags, now)[k]]
            0 <= k < a.len() + b.len() ==> (exists|x: int|
                0 <= x < a.len() && #[trigger] a[x] == merged(a, b, flags, now)[k] && a_places[x]
                    == merged_places(a, a_places, b, b_places, flags, now)[k]) || (exists|y: int|
                0 <= y < b.len() && #[trigger] b[y] == merged(a, b, flags, now)[k] && b_places[y]
                    == merged_places(a, a_places, b, b_places, flags, now)[k]),
    decreases a.len() + b.len(),
{
    let all = merged(a, b, flags, now);
    let places = merged_places(a, a_places, b, b_places, flags, now);
    if a.len() == 0 {
        assert forall|k: int| #![trigger all[k]] 0 <= k < a.len() + b.len() implies (exists|y: int|
            0 <= y < b.len() && #[trigger] b[y] == all[k] && b_places[y] == places[k]) by {
            assert(b[k] == all[k]);
        }
    } else if b.len() == 0 {
        assert forall|k: int| #![trigger all[k]] 0 <= k < a.len() + b.len() implies (exists|x: int|
            0 <= x < a.len() && #[trigger] a[x] == all[k] && a_places[x] == places[k]) by {
            assert(a[k] == all[k]);
        }
    } else {
        let from_a = entry_before(b.last(), a.last(), flags, now);
        let a_rest = if from_a { a.drop_last() } else { a };
        let a_rest_places = if from_a { a_places.drop_last() } else { a_places };
        let b_rest = if from_a { b } else { b.drop_last() };
        let b_rest_places = if from_a { b_places } else { b_places.drop_last() };
        let last = if from_a { a.last() } else { b.last() };
        let last_place = if from_a { a_places.last() } else { b_places.last() };
        let front = merged(a_rest, b_rest, flags, now);
        let front_places = merged_places(a_rest, a_rest_places, b_rest, b_rest_places, flags, now);
        assert(in_order(a_rest, a_rest_places, entries, flags, now)) by {
            assert forall|k: int, l: int|
                #![trigger a_rest[k], a_rest[l]]
                0 <= k < l < a_rest.len() implies !entry_before(a_rest[l], a_rest[k], flags, now)
                && (entry_before(a_rest[k], a_rest[l], flags, now) || a_rest_places[k]
                < a_rest_places[l]) by {
                assert(a_rest[k] == a[k] && a_rest[l] == a[l]);
            }
        }
        assert(in_order(b_rest, b_rest_places, entries, flags, now)) by {
            assert forall|k: int, l: int|
                #![trigger b_rest[k], b_rest[l]]
                0 <= k < l < b_rest.len() implies !entry_before(b_rest[l], b_rest[k], flags, now)
                && (entry_before(b_rest[k], b_rest[l], flags, now) || b_rest_places[k]
                < b_rest_places[l]) by {
                assert(b_rest[k] == b[k] && b_rest[l] == b[l]);
            }
        }
        assert forall|x: int, y: int|
            0 <= x < a_rest.len() && 0 <= y < b_rest.len() implies #[trigger] a_rest_places[x]
            < #[trigger] b_rest_places[y] by {
            assert(a_rest_places[x] == a_places[x]);
            assert(b_rest_places[y] == b_places[y]);
        }
        lemma_merged_in_order(a_rest, a_rest_places, b_rest, b_rest_places, entries, flags, now);
        assert(all == front.push(last));
        assert(places == front_places.push(last_place));
        // The entry that goes last may follow every entry of both lists.
        assert forall|x: int| 0 <= x < a_rest.len() implies may_follow(
            last,
            last_place,
            #[trigger] a_rest[x],
            a_rest_places[x],
            flags,
            now,
        ) by {
            assert(a_rest[x] == a[x] && a_rest_places[x] == a_places[x]);
            if from_a {
                assert(!entry_before(a[a.len() - 1], a[x], flags, now));
            } else {
                assert(a_places[x] < b_places[b.len() - 1]);
                if x < a.len() - 1 {
                    assert(!entry_before(a[a.len() - 1], a[x], flags, now));
                }
                lemma_before_is_strict(
                    key_of(b.last(), flags, now),
                    key_of(a.last(), flags, now),
                    key_of(a[x], flags, now),
                    flags.reverse_sort,
                );
            }
        }
        assert forall|y: int| 0 <= y < b_rest.len() implies may_follow(
            last,
            last_place,
            #[trigger] b_rest[y],
            b_rest_places[y],
            flags,
            now,
        ) by {
            assert(b_rest[y] == b[y] && b_rest_places[y] == b_places[y]);
            if from_a {
                if y < b.len() - 1 {
                    assert(!entry_before(b[b.len() - 1], b[y], flags, now));
                }
                lemma_before_is_strict(
                    key_of(b.last(), flags, now),
                    key_of(b[y], flags, now),
                    key_of(a.last(), flags, now),
                    flags.reverse_sort,
                );
                lemma_before_is_strict(
                    key_of(b[y], flags, now),
                    key_of(a.last(), flags, now),
                    key_of(a.last(), flags, now),
                    flags.reverse_sort,
                );
            } else {
                assert(!entry_before(b[b.len() - 1], b[y], flags, now));
            }
        }
        assert forall|k: int| 0 <= k < front.len() implies may_follow(
            last,
            last_place,
            #[trigger] front[k],
            front_places[k],
            flags,
            now,
        ) by {
            if exists|x: int|
                0 <= x < a_rest.len() && #[trigger] a_rest[x] == front[k] && a_rest_places[x]
                    == front_places[k] {
                let x = choose|x: int|
                    0 <= x < a_rest.len() && #[trigger] a_rest[x] == front[k] && a_rest_places[x]
                        == front_places[k];
                assert(may_follow(last, last_place, a_rest[x], a_rest_places[x], flags, now));
            } else {
                let y = choose|y: int|
                    0 <= y < b_rest.len() && #[trigger] b_rest[y] == front[k] && b_rest_places[y]
                        == front_places[k];
                assert(may_follow(last, last_place, b_rest[y], b_rest_places[y], flags, now));
            }
        }
        assert forall|k: int|
            0 <= k < all.len() implies 0 <= #[trigger] places[k] < entries.len() && all[k]
            == entries[places[k]] by {
            if k < front.len() {
                assert(places[k] == front_places[k] && all[k] == front[k]);
            } else if from_a {
                assert(places[k] == a_places[a.len() - 1]);
            } else {
                assert(places[k] == b_places[b.len() - 1]);
            }
        }
        assert forall|k: int, l: int|
            #![trigger all[k], all[l]]
            0 <= k < l < all.len() implies !entry_before(all[l], all[k], flags, now) && (
        entry_before(all[k], all[l], flags, now) || places[k] < places[l]) by {
            assert(all[k] == front[k] && places[k] == front_places[k]);
            if l < front.len() {
                assert(all[l] == front[l] && places[l] == front_places[l]);
            } else {
                assert(may_follow(last, last_place, front[k], front_places[k], flags, now));
            }
        }
        assert forall|k: int| #![trigger all[k]] 0 <= k < a.len() + b.len() implies (exists|x: int|
            0 <= x < a.len() && #[trigger] a[x] == all[k] && a_places[x] == places[k]) || (exists|
            y: int,
        | 0 <= y < b.len() && #[trigger] b[y] == all[k] && b_places[y] == places[k]) by {
            if k == front.len() {
                if from_a {
                    assert(a[a.len() - 1] == all[k]);
                } else {
                    assert(b[b.len() - 1] == all[k]);
                }
            } else {
                assert(all[k] == front[k] && places[k] == front_places[k]);
                if exists|x: int|
                    0 <= x < a_rest.len() && #[trigger] a_rest[x] == front[k] && a_rest_places[x]
                        == front_places[k] {
                    let x = choose|x: int|
                        0 <= x < a_rest.len() && #[trigger] a_rest[x] == front[k]
                            && a_rest_places[x] == front_places[k];
                    assert(a[x] == all[k] && a_places[x] == places[k]);
                } else {
                    let y = choose|y: int|
                        0 <= y < b_rest.len() && #[trigger] b_rest[y] == front[k]
                            && b_rest_places[y] == front_places[k];
                    assert(b[y] == all[k] && b_places[y] == places[k]);
                }
            }
        }
    }
}

/// Merging the listings of two lists gives the listing of the two lists joined.
pub proof fn lemma_merge_sorts(left: Seq<Entry>, right: Seq<Entry>, flags: Flags, now: Timestamp)
    ensures
        merged(sorted_entries(left, flags, now), sorted_entries(right, flags, now), flags, now)
            == sorted_entries(left + right, flags, now),
{
    let entries = left + right;
    let a = sorted_entries(left, flags, now);
    let b = sorted_entries(right, flags, now);
    let a_places = sorted_places(left, flags, now);
    let b_own = sorted_places(right, flags, now);
    let b_places = b_own.map_values(|p: int| p + left.len());
    lemma_sorted_is_arranged(left, flags, now);
    lemma_sorted_is_arranged(right, flags, now);
    assert(in_order(a, a_places, entries, flags, now)) by {
        assert forall|k: int| 0 <= k < a.len() implies 0 <= #[trigger] a_places[k] < entries.len()
            && a[k] == entries[a_places[k]] by {
            assert(left[a_places[k]] == entries[a_places[k]]);
        }
    }
    assert(in_order(b, b_places, entries, flags, now)) by {
        assert forall|k: int| 0 <= k < b.len() implies 0 <= #[trigger] b_places[k] < entries.len()
            && b[k] == entries[b_places[k]] by {
            assert(b_places[k] == b_own[k] + left.len());
            assert(right[b_own[k]] == entries[b_own[k] + left.len()]);
        }
        assert forall|k: int, l: int|
            #![trigger b[k], b[l]]
            0 <= k < l < b.len() implies !entry_before(b[l], b[k], flags, now) && (entry_before(
            b[k],
            b[l],
            flags,
            now,
        ) || b_places[k] < b_places[l]) by {
            assert(b_places[k] == b_own[k] + left.len());
            assert(b_places[l] == b_own[l] + left.len());
        }
    }
    assert forall|x: int, y: int| 0 <= x < a.len() && 0 <= y < b.len() implies #[trigger] a_places[x]
        < #[trigger] b_places[y] by {
        assert(b_places[y] == b_own[y] + left.len());
        assert(0 <= b_own[y]);
        assert(a_places[x] < left.len());
    }
    lemma_merged_in_order(a, a_places, b, b_places, entries, flags, now);
    let all = merged(a, b, flags, now);
    let places = merged_places(a, a_places, b, b_places, flags, now);
    assert(arranged(all, places, entries, flags, now)) by {
        assert forall|i: int, j: int| 0 <= i < j < places.len() implies #[trigger] places[i]
            != #[trigger] places[j] by {
            assert(!entry_before(all[j], all[i], flags, now) && (entry_before(
                all[i],
                all[j],
                flags,
                now,
            ) || places[i] < places[j]));
            assert(all[i] == entries[places[i]] && all[j] == entries[places[j]]);
            lemma_before_is_strict(
                key_of(all[i], flags, now),
                key_of(all[j], flags, now),
                key_of(all[j], flags, now),
                flags.reverse_sort,
            );
        }
    }
    lemma_arranged_is_sorted(all, places, entries, flags, now);
}

/// `list` from its end to its start.
spec fn backwards(list: Seq<Entry>) -> Seq<Entry> {
    Seq::new(list.len(), |k: int| list[list.len() - 1 - k])
}

/// Merges two lists from their ends.
fn merge(a: Vec<Entry>, b: Vec<Entry>, flags: &Flags, now: &Timestamp) -> (all: Vec<Entry>)
    ensures
        all@ == merged(a@, b@, *flags, *now),
{
    let ghost whole = merged(a@, b@, *flags, *now);
    let mut a = a;
    let mut b = b;
    let mut taken: Vec<Entry> = Vec::new();
    assert(merged(a@, b@, *flags, *now) + backwards(taken@) =~= whole);
    while a.len() > 0 && b.len() > 0
        invariant
            merged(a@, b@, *flags, *now) + backwards(taken@) == whole,
        decreases a.len() + b.len(),
    {
        let ghost a_before = a@;
        let ghost b_before = b@;
        let ghost taken_before = taken@;
        let from_a = sort_key(&b[b.len() - 1], flags, now).is_before(
            &sort_key(&a[a.len() - 1], flags, now),
            flags.reverse_sort,
        );
        let last = if from_a {
            a.pop().unwrap()
        } else {
            b.pop().unwrap()
        };
        taken.push(last);
        proof {
            assert(a@ == if from_a { a_before.drop_last() } else { a_before });
            assert(b@ == if from_a { b_before } else { b_before.drop_last() });
            assert(merged(a_before, b_before, *flags, *now) == merged(a@, b@, *flags, *now).push(
                last,
            ));
            assert(backwards(taken@) =~= seq![last] + backwards(taken_before));
            assert(merged(a@, b@, *flags, *now) + backwards(taken@) =~= merged(
                a_before,
                b_before,
                *flags,
                *now,
            ) + backwards(taken_before));
        }
    }
    let mut all = if a.len() > 0 {
        a
    } else {
        b
    };
    while taken.len() > 0
        invariant
            all@ + backwards(taken@) == whole,
        decreases taken.len(),
    {
        let ghost all_before = all@;
        let ghost taken_before = taken@;
        let next = taken.pop().unwrap();
        all.push(next);
        proof {
            assert(backwards(taken_before) =~= seq![next] + backwards(taken@));
            assert(all@ + backwards(taken@) =~= all_before + backwards(taken_before));
        }
    }
    assert(all@ + backwards(taken@) =~= all@);
    all
}

/// Puts `entries` in listing order by sorting both halves and merging them.
pub fn merge_sort(entries: Vec<Entry>, flags: &Flags, now: &Timestamp) -> (sorted: Vec<Entry>)
    ensures
        sorted@ == sorted_entries(entries@, *flags, *now),
    decreases entries.len(),
{
    if entries.len() < 2 {
        proof {
            reveal_with_fuel(sorted_entries, 2);
            reveal_with_fuel(crate::sort::place_of, 2);
            if entries.len() == 1 {
                assert(sorted_entries(entries@, *flags, *now) =~= entries@);
            }
        }
        return entries;
    }
    let mut left = entries;
    let right = left.split_off(left.len() / 2);
    proof {
        assert(entries@ =~= left@ + right@);
        lemma_merge_sorts(left@, right@, *flags, *now);
    }
    let a = merge_sort(left, flags, now);
    let b = merge_sort(right, flags, now);
    merge(a, b, flags, now)
}

} // verus!
