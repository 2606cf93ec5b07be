//! The mathematical model of a bucket store.
//!
//! A store is a sequence of slots, each empty or holding one entry.  Its
//! abstract content is the map from each present key to its value.  The two
//! structural invariants are placement (every occupant sits in one of its two
//! home slots for the current capacity) and uniqueness (no key occupies two
//! slots).  Together they are what makes two-probe lookup complete.

use vstd::prelude::*;

use crate::hashing::home1;
use crate::hashing::home2;
use crate::kv::Entry;

verus! {

/// Slot `i` holds an entry.
pub open spec fn occupied_at(s: Seq<Option<Entry>>, i: int) -> bool
    recommends
        0 <= i < s.len(),
{
    s[i] is Some
}

/// The key stored in slot `i`.
pub open spec fn key_at(s: Seq<Option<Entry>>, i: int) -> Seq<char>
    recommends
        0 <= i < s.len(),
        occupied_at(s, i),
{
    s[i]->0.key@
}

/// The value stored in slot `i`.
pub open spec fn val_at(s: Seq<Option<Entry>>, i: int) -> Seq<char>
    recommends
        0 <= i < s.len(),
        occupied_at(s, i),
{
    s[i]->0.value@
}

/// Slot `i` is one of the two home slots of `k` in a store of capacity `cap`.
pub open spec fn is_home(k: Seq<char>, cap: nat, i: int) -> bool {
    i == home1(k, cap) || i == home2(k, cap)
}

/// Every occupant sits in one of its own home slots, computed against the
/// store's current capacity.
pub open spec fn placement_ok(s: Seq<Option<Entry>>) -> bool {
    forall|i: int|
        0 <= i < s.len() && #[trigger] occupied_at(s, i) ==> is_home(key_at(s, i), s.len(), i)
}

/// No key occupies two distinct slots.
pub open spec fn keys_unique(s: Seq<Option<Entry>>) -> bool {
    forall|i: int, j: int|
        #![trigger key_at(s, i), key_at(s, j)]
        0 <= i < s.len() && 0 <= j < s.len() && i != j && occupied_at(s, i) && occupied_at(s, j)
            ==> key_at(s, i) != key_at(s, j)
}

/// Well-formedness of a bucket store: positive capacity, placement, uniqueness.
pub open spec fn slots_wf(s: Seq<Option<Entry>>) -> bool {
    &&& s.len() > 0
    &&& placement_ok(s)
    &&& keys_unique(s)
}

/// Some slot holds `k`.
pub open spec fn has_key(s: Seq<Option<Entry>>, k: Seq<char>) -> bool {
    exists|i: int| 0 <= i < s.len() && #[trigger] occupied_at(s, i) && key_at(s, i) == k
}

/// The slot holding `k` (meaningful when `has_key` and keys are unique).
pub open spec fn slot_of(s: Seq<Option<Entry>>, k: Seq<char>) -> int {
    choose|i: int| 0 <= i < s.len() && #[trigger] occupied_at(s, i) && key_at(s, i) == k
}

/// The abstract content: the finite map from present keys to their values.
pub open spec fn content_of(s: Seq<Option<Entry>>) -> Map<Seq<char>, Seq<char>> {
    Map::new(|k: Seq<char>| has_key(s, k), |k: Seq<char>| val_at(s, slot_of(s, k)))
}

/// The live entries of a store, in slot order.
pub open spec fn entries_of(s: Seq<Option<Entry>>) -> Seq<Entry>
    decreases s.len(),
{
    if s.len() == 0 {
        Seq::empty()
    } else if s.last() is Some {
        entries_of(s.drop_last()).push(s.last()->0)
    } else {
        entries_of(s.drop_last())
    }
}

/// A direct insertion of `k` succeeds: one of its home slots already holds
/// `k` (update in place), or one of them is empty.
pub open spec fn direct_fits(s: Seq<Option<Entry>>, k: Seq<char>) -> bool {
    let h1 = home1(k, s.len()) as int;
    let h2 = home2(k, s.len()) as int;
    ||| (occupied_at(s, h1) && key_at(s, h1) == k)
    ||| (occupied_at(s, h2) && key_at(s, h2) == k)
    ||| !occupied_at(s, h1)
    ||| !occupied_at(s, h2)
}

/// Every index on the path is a valid slot index.
pub open spec fn path_in_range(s: Seq<Option<Entry>>, p: Seq<usize>) -> bool {
    forall|a: int| 0 <= a < p.len() ==> (#[trigger] p[a]) < s.len()
}

/// No slot index appears twice on the path.
pub open spec fn path_distinct(p: Seq<usize>) -> bool {
    forall|a: int, b: int| #![trigger p[a], p[b]] 0 <= a < b < p.len() ==> p[a] != p[b]
}

/// What the path finder discovers: a chain of distinct, in-range slots whose
/// last slot is empty, and where each earlier slot is occupied by an entry
/// for which the next slot is one of its own homes.
pub open spec fn clears_path(s: Seq<Option<Entry>>, p: Seq<usize>) -> bool {
    &&& p.len() >= 1
    &&& path_in_range(s, p)
    &&& path_distinct(p)
    &&& !occupied_at(s, p.last() as int)
    &&& forall|a: int|
        0 <= a < p.len() - 1 ==> occupied_at(s, (#[trigger] p[a]) as int) && is_home(
            key_at(s, p[a] as int),
            s.len(),
            p[a + 1] as int,
        )
}

/// Conditions under which the relocation executor is guaranteed to commit:
/// a valid chain whose head is a home slot of the new key, and the new key
/// not yet present.
pub open spec fn shift_succeeds(s: Seq<Option<Entry>>, p: Seq<usize>, k: Seq<char>) -> bool {
    &&& clears_path(s, p)
    &&& is_home(k, s.len(), p[0] as int)
    &&& !has_key(s, k)
}

/// Two occupied slots with the same key are the same slot.
pub proof fn lemma_key_unique(s: Seq<Option<Entry>>, i: int, j: int)
    requires
        keys_unique(s),
        0 <= i < s.len(),
        0 <= j < s.len(),
        occupied_at(s, i),
        occupied_at(s, j),
        key_at(s, i) == key_at(s, j),
    ensures
        i == j,
{
}

/// An occupied slot witnesses its key in the content map, and uniqueness makes
/// it the only witness.
pub proof fn lemma_at_slot(s: Seq<Option<Entry>>, i: int)
    requires
        keys_unique(s),
        0 <= i < s.len(),
        occupied_at(s, i),
    ensures
        has_key(s, key_at(s, i)),
        slot_of(s, key_at(s, i)) == i,
        content_of(s).contains_key(key_at(s, i)),
        content_of(s)[key_at(s, i)] == val_at(s, i),
{
    let k = key_at(s, i);
    assert(has_key(s, k));
    let j = slot_of(s, k);
    lemma_key_unique(s, i, j);
}

/// If neither home slot of `k` holds `k`, then `k` is nowhere: placement
/// confines a key to its two home slots.
pub proof fn lemma_absent(s: Seq<Option<Entry>>, k: Seq<char>)
    requires
        slots_wf(s),
        !(0 <= home1(k, s.len()) < s.len() && occupied_at(s, home1(k, s.len()) as int)
            && key_at(s, home1(k, s.len()) as int) == k),
        !(0 <= home2(k, s.len()) < s.len() && occupied_at(s, home2(k, s.len()) as int)
            && key_at(s, home2(k, s.len()) as int) == k),
    ensures
        !has_key(s, k),
        !content_of(s).contains_key(k),
{
    if has_key(s, k) {
        let i = choose|i: int| 0 <= i < s.len() && #[trigger] occupied_at(s, i) && key_at(s, i) == k;
        assert(is_home(k, s.len(), i));
    }
}

/// Writing `kv` into a home slot of its key — either overwriting the same key
/// in place, or filling an empty slot while the key is absent — keeps the
/// store well-formed and updates the content map by exactly one binding.
pub proof fn lemma_place(s: Seq<Option<Entry>>, i: int, kv: Entry)
    requires
        slots_wf(s),
        0 <= i < s.len(),
        is_home(kv.key@, s.len(), i),
        (occupied_at(s, i) && key_at(s, i) == kv.key@) || (!occupied_at(s, i) && !has_key(
            s,
            kv.key@,
        )),
    ensures
        slots_wf(s.update(i, Some(kv))),
        content_of(s.update(i, Some(kv))) == content_of(s).insert(kv.key@, kv.value@),
{
    let t = s.update(i, Some(kv));
    assert forall|j: int| 0 <= j < t.len() && #[trigger] occupied_at(t, j) implies is_home(
        key_at(t, j),
        t.len(),
        j,
    ) by {
        if j != i {
            assert(occupied_at(s, j));
        }
    }
    assert forall|a: int, b: int|
        #![trigger key_at(t, a), key_at(t, b)]
        0 <= a < t.len() && 0 <= b < t.len() && a != b && occupied_at(t, a) && occupied_at(
            t,
            b,
        ) implies key_at(t, a) != key_at(t, b) by {
        if a != i && b != i {
            assert(key_at(s, a) == key_at(t, a));
            assert(key_at(s, b) == key_at(t, b));
        } else {
            let o = if a == i {
                b
            } else {
                a
            };
            assert(occupied_at(s, o));
            if key_at(s, o) == kv.key@ {
                if occupied_at(s, i) && key_at(s, i) == kv.key@ {
                    lemma_key_unique(s, i, o);
                } else {
                    lemma_at_slot(s, o);
                }
            }
        }
    }
    assert(slots_wf(t));
    assert forall|k: Seq<char>| #[trigger] has_key(t, k) && k != kv.key@ implies has_key(s, k)
        && slot_of(t, k) == slot_of(s, k) by {
        let j = slot_of(t, k);
        assert(occupied_at(t, j) && key_at(t, j) == k);
        assert(j != i);
        assert(occupied_at(s, j) && key_at(s, j) == k);
        lemma_at_slot(s, j);
        lemma_at_slot(t, j);
    }
    assert forall|k: Seq<char>| #[trigger] has_key(s, k) && k != kv.key@ implies has_key(t, k) by {
        let j = slot_of(s, k);
        assert(occupied_at(s, j) && key_at(s, j) == k);
        assert(j != i);
        assert(occupied_at(t, j) && key_at(t, j) == k);
        lemma_at_slot(t, j);
    }
    assert(occupied_at(t, i) && key_at(t, i) == kv.key@);
    lemma_at_slot(t, i);
    assert(content_of(t) =~= content_of(s).insert(kv.key@, kv.value@));
}

/// Emptying an occupied slot keeps the store well-formed and removes exactly
/// that slot's key from the content map.
pub proof fn lemma_clear(s: Seq<Option<Entry>>, i: int)
    requires
        slots_wf(s),
        0 <= i < s.len(),
        occupied_at(s, i),
    ensures
        slots_wf(s.update(i, None::<Entry>)),
        content_of(s.update(i, None::<Entry>)) == content_of(s).remove(key_at(s, i)),
{
    let t = s.update(i, None::<Entry>);
    let k0 = key_at(s, i);
    assert forall|j: int| 0 <= j < t.len() && #[trigger] occupied_at(t, j) implies is_home(
        key_at(t, j),
        t.len(),
        j,
    ) by {
        assert(occupied_at(s, j));
    }
    assert forall|a: int, b: int|
        #![trigger key_at(t, a), key_at(t, b)]
        0 <= a < t.len() && 0 <= b < t.len() && a != b && occupied_at(t, a) && occupied_at(
            t,
            b,
        ) implies key_at(t, a) != key_at(t, b) by {
        assert(occupied_at(s, a) && occupied_at(s, b));
        assert(key_at(s, a) == key_at(t, a));
        assert(key_at(s, b) == key_at(t, b));
    }
    assert(slots_wf(t));
    assert forall|k: Seq<char>| #[trigger] has_key(t, k) implies has_key(s, k) && k != k0
        && slot_of(t, k) == slot_of(s, k) by {
        let j = slot_of(t, k);
        assert(occupied_at(t, j) && key_at(t, j) == k);
        assert(j != i);
        assert(occupied_at(s, j) && key_at(s, j) == k);
        if k == k0 {
            lemma_key_unique(s, i, j);
        }
        lemma_at_slot(s, j);
        lemma_at_slot(t, j);
    }
    assert forall|k: Seq<char>| #[trigger] has_key(s, k) && k != k0 implies has_key(t, k) by {
        let j = slot_of(s, k);
        assert(occupied_at(s, j) && key_at(s, j) == k);
        assert(j != i) by {
            if j == i {
                assert(key_at(s, i) == k);
            }
        }
        assert(occupied_at(t, j) && key_at(t, j) == k);
    }
    assert(!has_key(t, k0));
    assert(content_of(t) =~= content_of(s).remove(k0));
}

/// Relocating an occupant into an empty slot that is one of its own homes
/// keeps the store well-formed and leaves the content map unchanged.
pub proof fn lemma_move(s: Seq<Option<Entry>>, i: int, j: int)
    requires
        slots_wf(s),
        0 <= i < s.len(),
        0 <= j < s.len(),
        i != j,
        occupied_at(s, i),
        !occupied_at(s, j),
        is_home(key_at(s, i), s.len(), j),
    ensures
        slots_wf(s.update(j, s[i]).update(i, None::<Entry>)),
        content_of(s.update(j, s[i]).update(i, None::<Entry>)) == content_of(s),
{
    let kv = s[i]->0;
    let mid = s.update(i, None::<Entry>);
    lemma_clear(s, i);
    assert(!has_key(mid, kv.key@)) by {
        if has_key(mid, kv.key@) {
            let a = slot_of(mid, kv.key@);
            assert(occupied_at(mid, a) && key_at(mid, a) == kv.key@);
            assert(a != i);
            assert(occupied_at(s, a));
            lemma_key_unique(s, i, a);
        }
    }
    assert(!occupied_at(mid, j));
    lemma_place(mid, j, kv);
    assert(mid.update(j, Some(kv)) =~= s.update(j, s[i]).update(i, None::<Entry>));
    lemma_at_slot(s, i);
    assert(content_of(s).remove(kv.key@).insert(kv.key@, kv.value@) =~= content_of(s));
}

} // verus!
