//! The laws the table is advertised to obey, stated over the same spec
//! functions its operation contracts use, and proved once and for all.

use vstd::prelude::*;

use crate::inner::InnerTable;
use crate::model::entries_of;
use crate::model::is_home;
use crate::model::key_at;
use crate::model::lemma_key_unique;
use crate::model::occupied_at;
use crate::snapshot::lemma_entries_distinct;
use crate::snapshot::lemma_map_of_entries;
use crate::snapshot::map_of;

verus! {

/// Round trip: after an insert of `(k, v)`, the content maps `k` to exactly
/// `v` — so a lookup of `k`, whose contract returns the content's binding,
/// yields `v`.
pub proof fn law_insert_round_trip(m: Map<Seq<char>, Seq<char>>, k: Seq<char>, v: Seq<char>)
    ensures
        m.insert(k, v).contains_key(k),
        m.insert(k, v)[k] == v,
{
}

/// Update semantics: inserting the same key twice with different values is
/// the same as inserting only the latest value — one binding, latest value.
pub proof fn law_update_last_wins(
    m: Map<Seq<char>, Seq<char>>,
    k: Seq<char>,
    v1: Seq<char>,
    v2: Seq<char>,
)
    ensures
        m.insert(k, v1).insert(k, v2) == m.insert(k, v2),
{
    assert(m.insert(k, v1).insert(k, v2) =~= m.insert(k, v2));
}

/// Inserting one key never disturbs another key's binding: a pair that was
/// inserted and not overwritten or removed keeps its value through any
/// number of unrelated operations.
pub proof fn law_other_insert_preserves(
    m: Map<Seq<char>, Seq<char>>,
    k: Seq<char>,
    k2: Seq<char>,
    v2: Seq<char>,
)
    requires
        k2 != k,
    ensures
        m.insert(k2, v2).contains_key(k) == m.contains_key(k),
        m.contains_key(k) ==> m.insert(k2, v2)[k] == m[k],
{
}

/// Removal: after a remove of `k`, the content no longer binds `k`, and every
/// other binding is untouched.
pub proof fn law_remove(m: Map<Seq<char>, Seq<char>>, k: Seq<char>)
    ensures
        !m.remove(k).contains_key(k),
        forall|k2: Seq<char>|
            k2 != k ==> #[trigger] m.remove(k).contains_key(k2) == m.contains_key(k2),
        forall|k2: Seq<char>| k2 != k && m.contains_key(k2) ==> #[trigger] m.remove(k)[k2] == m[k2],
{
}

/// A relocation or fresh placement succeeds only on an absent key — the
/// executor's contract records this — so the content gains exactly that one
/// binding: its domain afterwards is the old domain plus the key.
pub proof fn law_insert_absent_grows_dom(m: Map<Seq<char>, Seq<char>>, k: Seq<char>, v: Seq<char>)
    requires
        !m.contains_key(k),
    ensures
        m.insert(k, v).dom() == m.dom().insert(k),
        !m.dom().contains(k),
{
    assert(m.insert(k, v).dom() =~= m.dom().insert(k));
}

/// Operations on distinct keys commute at the content level: removing one
/// key and inserting or removing another reach the same content in either
/// order, and what a lookup of one returns is unmoved by the other's
/// removal.  (Whether an insert's capacity growth succeeds is not a
/// function of the content alone, so commutativity is stated of the
/// operations' content effects, which the operation contracts pin.)
pub proof fn law_unrelated_ops_commute(
    m: Map<Seq<char>, Seq<char>>,
    k1: Seq<char>,
    k2: Seq<char>,
    v2: Seq<char>,
)
    requires
        k1 != k2,
    ensures
        m.remove(k1).insert(k2, v2) == m.insert(k2, v2).remove(k1),
        m.remove(k1).remove(k2) == m.remove(k2).remove(k1),
        m.remove(k2).contains_key(k1) == m.contains_key(k1),
        m.contains_key(k1) ==> m.remove(k2)[k1] == m[k1],
{
    assert(m.remove(k1).insert(k2, v2) =~= m.insert(k2, v2).remove(k1));
    assert(m.remove(k1).remove(k2) =~= m.remove(k2).remove(k1));
}

/// Removing an absent key leaves the content exactly as it was.
pub proof fn law_remove_absent(m: Map<Seq<char>, Seq<char>>, k: Seq<char>)
    requires
        !m.contains_key(k),
    ensures
        m.remove(k) == m,
{
    assert(m.remove(k) =~= m);
}

/// Placement invariant: in a well-formed store — and the table's lock admits
/// no other — every live entry's slot is one of its key's two home slots
/// under the current capacity.
pub proof fn law_placement(t: InnerTable, i: int)
    requires
        t.wf(),
        0 <= i < t.cap(),
        occupied_at(t.slots@, i),
    ensures
        is_home(key_at(t.slots@, i), t.cap(), i),
{
}

/// The snapshot is exact: the live entries a well-formed store hands out —
/// `get_vec` returns exactly `entries_of` of its slots — list each present
/// key once, and folding them back into a map gives exactly the content.
/// No duplicates, no omissions.
pub proof fn law_snapshot_exact(t: InnerTable)
    requires
        t.wf(),
    ensures
        map_of(entries_of(t.slots@)) == t.content(),
        forall|a: int, b: int|
            #![trigger entries_of(t.slots@)[a], entries_of(t.slots@)[b]]
            0 <= a < b < entries_of(t.slots@).len() ==> entries_of(t.slots@)[a].key@ != entries_of(
                t.slots@,
            )[b].key@,
{
    lemma_map_of_entries(t.slots@);
    lemma_entries_distinct(t.slots@);
}

/// A present key occupies exactly one slot: two occupied slots holding the
/// same key are the same slot.
pub proof fn law_one_slot_per_key(t: InnerTable, i: int, j: int)
    requires
        t.wf(),
        0 <= i < t.cap(),
        0 <= j < t.cap(),
        occupied_at(t.slots@, i),
        occupied_at(t.slots@, j),
        key_at(t.slots@, i) == key_at(t.slots@, j),
    ensures
        i == j,
{
    lemma_key_unique(t.slots@, i, j);
}

} // verus!
