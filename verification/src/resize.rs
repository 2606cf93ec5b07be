//! Capacity growth: when no relocation path exists, the store is rebuilt at
//! double the capacity by re-inserting a snapshot of every live entry, and
//! the sequential insert loop that composes direct placement, relocation and
//! growth.
//!
//! Growth is abandoned — surfacing the one user-visible error — once the
//! capacity exceeds a generous multiple of the number of live entries, so a
//! pathological run of hash collisions cannot loop forever.

use vstd::prelude::*;

use crate::errors::TableError;
use crate::inner::direct_insert_spec;
use crate::inner::InnerTable;
use crate::kv::Entry;
use crate::model::direct_fits;
use crate::model::entries_of;
use crate::model::lemma_absent;
use crate::model::shift_succeeds;
use crate::relocate::found_path;
use crate::relocate::shifted;
use crate::snapshot::lemma_map_of_entries;
use crate::snapshot::map_of;

verus! {

/// The deterministic outcome of one bounded insertion attempt on a store:
/// the direct placement where one fits, else the relocation along the path
/// the search finds, else nothing.
pub open spec fn step_spec(s: Seq<Option<Entry>>, kv: Entry) -> Option<Seq<Option<Entry>>> {
    if direct_insert_spec(s, kv) is Some {
        direct_insert_spec(s, kv)
    } else if found_path(s, kv.key@) is Some {
        Some(shifted(s, found_path(s, kv.key@)->0, kv))
    } else {
        None
    }
}

/// Insert the entries into the store in order, one bounded attempt each;
/// `None` as soon as one cannot be placed.
pub open spec fn fill(s: Seq<Option<Entry>>, es: Seq<Entry>) -> Option<Seq<Option<Entry>>>
    decreases es.len(),
{
    if es.len() == 0 {
        Some(s)
    } else if step_spec(s, es[0]) is Some {
        fill(step_spec(s, es[0])->0, es.drop_first())
    } else {
        None
    }
}

/// A store of `cap` empty slots.
pub open spec fn empty_slots(cap: nat) -> Seq<Option<Entry>> {
    Seq::new(cap, |i: int| None::<Entry>)
}

/// The whole growth search: double the capacity, try to place every entry
/// into a fresh store of that size, and double again on failure; `None`
/// when the growth bound or the address space is exhausted first.
pub open spec fn rebuilt(es: Seq<Entry>, cap: nat) -> Option<Seq<Option<Entry>>>
    decreases usize::MAX - cap,
{
    if cap < 1 || growth_exhausted(cap, es.len()) || cap > usize::MAX / 2 {
        None
    } else if fill(empty_slots(2 * cap), es) is Some {
        fill(empty_slots(2 * cap), es)
    } else {
        rebuilt(es, 2 * cap)
    }
}

/// Filling with a concatenation is filling with the first part, then — if
/// that succeeded — the second.
proof fn lemma_fill_append(s: Seq<Option<Entry>>, es1: Seq<Entry>, es2: Seq<Entry>)
    ensures
        fill(s, es1 + es2) == (match fill(s, es1) {
            Some(m) => fill(m, es2),
            None => None,
        }),
    decreases es1.len(),
{
    if es1.len() == 0 {
        assert(es1 + es2 =~= es2);
    } else {
        assert((es1 + es2)[0] == es1[0]);
        assert((es1 + es2).drop_first() =~= es1.drop_first() + es2);
        if step_spec(s, es1[0]) is Some {
            lemma_fill_append(step_spec(s, es1[0])->0, es1.drop_first(), es2);
        }
    }
}

/// Appending one entry to a fill is one more step on its result.
proof fn lemma_fill_snoc(s: Seq<Option<Entry>>, es: Seq<Entry>, e: Entry)
    ensures
        fill(s, es.push(e)) == (match fill(s, es) {
            Some(m) => step_spec(m, e),
            None => None,
        }),
{
    lemma_fill_append(s, es, seq![e]);
    assert(es + seq![e] =~= es.push(e));
    if fill(s, es) is Some {
        let m = fill(s, es)->0;
        assert(seq![e][0] == e);
        if step_spec(m, e) is Some {
            assert(fill(step_spec(m, e)->0, seq![e].drop_first()) == Some(step_spec(m, e)->0));
            assert(fill(m, seq![e]) == step_spec(m, e));
        } else {
            assert(fill(m, seq![e]) is None);
        }
    }
}

/// `to` is `from` doubled `k` times.
pub open spec fn pow2_times(from: nat, k: nat) -> nat
    decreases k,
{
    if k == 0 {
        from
    } else {
        2 * pow2_times(from, (k - 1) as nat)
    }
}

/// The capacity only ever grows by doubling.
pub open spec fn grew_by_doubling(from: nat, to: nat) -> bool {
    exists|k: nat| to == pow2_times(from, k)
}

/// Doubling `k1` times and then `k2` times is doubling `k1 + k2` times.
proof fn lemma_pow2_times_add(from: nat, k1: nat, k2: nat)
    ensures
        pow2_times(pow2_times(from, k1), k2) == pow2_times(from, k1 + k2),
    decreases k2,
{
    if k2 > 0 {
        lemma_pow2_times_add(from, k1, (k2 - 1) as nat);
        assert(pow2_times(from, k1 + k2) == 2 * pow2_times(from, (k1 + k2 - 1) as nat));
    }
}

/// Growing by doubling is transitive.
pub proof fn lemma_grew_by_doubling_trans(a: nat, b: nat, c: nat)
    requires
        grew_by_doubling(a, b),
        grew_by_doubling(b, c),
    ensures
        grew_by_doubling(a, c),
{
    let k1 = choose|k: nat| b == pow2_times(a, k);
    let k2 = choose|k: nat| c == pow2_times(b, k);
    lemma_pow2_times_add(a, k1, k2);
    assert(c == pow2_times(a, k1 + k2));
}

/// Growth is judged hopeless for `n` live entries once the capacity exceeds
/// 64 times their number: further doubling is abandoned.
pub open spec fn growth_exhausted(cap: nat, n: nat) -> bool {
    cap / 64 > n
}

/// Build a store of more than `prev_cap` slots — doubling as often as needed
/// — holding exactly the given entries, inserted in order.  Fails only when
/// the growth bound or the address space is exhausted.
pub fn rebuild(entries: &Vec<Entry>, prev_cap: usize) -> (r: Result<InnerTable, TableError>)
    requires
        prev_cap > 0,
    ensures
        r matches Ok(t) ==> t.wf() && t.content() == map_of(entries@) && t.cap() > prev_cap
            && t.cap() <= usize::MAX && grew_by_doubling(prev_cap as nat, t.cap())
            && Some(t.slots@) == rebuilt(entries@, prev_cap as nat),
        r is Err ==> rebuilt(entries@, prev_cap as nat) is None,
{
    let n = entries.len();
    let mut cap = prev_cap;
    proof {
        assert(pow2_times(prev_cap as nat, 0) == prev_cap as nat);
    }
    loop
        invariant
            prev_cap > 0,
            cap >= prev_cap,
            n == entries@.len(),
            grew_by_doubling(prev_cap as nat, cap as nat),
            rebuilt(entries@, prev_cap as nat) == rebuilt(entries@, cap as nat),
        decreases usize::MAX - cap,
    {
        // Give up rather than loop forever: the capacity is already a
        // generous multiple of the entry count, or cannot double at all.
        if cap / 64 > n || cap > usize::MAX / 2 {
            proof {
                assert(rebuilt(entries@, cap as nat) is None);
            }
            return Err(TableError::GrowthLimit);
        }
        proof {
            let k = choose|k: nat| cap as nat == pow2_times(prev_cap as nat, k);
            assert(2 * cap as nat == pow2_times(prev_cap as nat, k + 1));
        }
        let ghost c0 = cap as nat;
        cap = cap * 2;

        let mut t = InnerTable::with_capacity(cap);
        proof {
            assert(t.slots@ =~= empty_slots(cap as nat));
        }
        let mut placed_all = true;
        let mut idx: usize = 0;
        while placed_all && idx < n
            invariant
                t.wf(),
                t.cap() == cap,
                cap as nat == 2 * c0,
                n == entries@.len(),
                idx <= n,
                placed_all ==> t.content() == map_of(entries@.take(idx as int)),
                placed_all ==> Some(t.slots@) == fill(
                    empty_slots(cap as nat),
                    entries@.take(idx as int),
                ),
                !placed_all ==> fill(empty_slots(cap as nat), entries@) is None,
            decreases n - idx,
        {
            let e = &entries[idx];
            let ghost before = t.slots@;
            if insert_step(&mut t, e) {
                idx = idx + 1;
                proof {
                    let tk = entries@.take(idx as int);
                    assert(tk.drop_last() =~= entries@.take(idx as int - 1));
                    assert(tk.last() == entries@[idx as int - 1]);
                    lemma_fill_snoc(
                        empty_slots(cap as nat),
                        entries@.take(idx as int - 1),
                        entries@[idx as int - 1],
                    );
                    assert(entries@.take(idx as int - 1).push(entries@[idx as int - 1]) =~= tk);
                }
            } else {
                proof {
                    lemma_fill_snoc(
                        empty_slots(cap as nat),
                        entries@.take(idx as int),
                        entries@[idx as int],
                    );
                    assert(entries@.take(idx as int).push(entries@[idx as int]) =~= entries@.take(
                        idx as int + 1,
                    ));
                    lemma_fill_append(
                        empty_slots(cap as nat),
                        entries@.take(idx as int + 1),
                        entries@.skip(idx as int + 1),
                    );
                    assert(entries@.take(idx as int + 1) + entries@.skip(idx as int + 1)
                        =~= entries@);
                }
                placed_all = false;
                idx = idx + 1;
            }
        }
        if placed_all {
            proof {
                assert(entries@.take(n as int) =~= entries@);
                assert(rebuilt(entries@, c0) == Some(t.slots@));
            }
            return Ok(t);
        }
        // This capacity did not suffice; discard the attempt and double again.
        proof {
            assert(rebuilt(entries@, c0) == rebuilt(entries@, cap as nat));
        }
    }
}

/// One bounded insertion attempt at fixed capacity: direct placement, else
/// path search and relocation.  Never grows the store; the result and the
/// new store are exactly what `step_spec` says, so a `false` means no
/// direct fit and no relocation path, with the store unchanged.
pub fn insert_step(t: &mut InnerTable, new_entry: &Entry) -> (placed: bool)
    requires
        old(t).wf(),
    ensures
        final(t).wf(),
        final(t).cap() == old(t).cap(),
        placed == (step_spec(old(t).slots@, *new_entry) is Some),
        placed ==> final(t).slots@ == step_spec(old(t).slots@, *new_entry)->0,
        placed ==> final(t).content() == old(t).content().insert(new_entry.key@, new_entry.value@),
        !placed ==> *final(t) == *old(t),
        direct_fits(old(t).slots@, new_entry.key@) ==> placed,
{
    // Try to insert the entry into one of its two home buckets.
    if t.try_direct_insert(new_entry) {
        return true;
    }
    // Both home buckets hold other keys, so the key is absent everywhere.
    proof {
        lemma_absent(t.slots@, new_entry.key@);
    }
    // Look for a chain of shifts that frees one of the home buckets.
    match t.find_insert_path(&new_entry.key) {
        None => false,
        Some(path) => {
            proof {
                assert(shift_succeeds(t.slots@, path@, new_entry.key@));
            }
            let ok = t.try_shift_entries(&path, new_entry);
            proof {
                assert(ok);
            }
            ok
        }
    }
}

impl InnerTable {
    /// Grow the store: snapshot every live entry, rebuild at a doubled
    /// capacity, and swap the new store in.  The outcome is exactly the
    /// growth search's: `Err` — the store left as it was — if and only if
    /// the search over the doubling chain gives up.
    pub fn resize(&mut self) -> (r: Result<(), TableError>)
        requires
            old(self).wf(),
        ensures
            final(self).wf(),
            final(self).content() == old(self).content(),
            grew_by_doubling(old(self).cap(), final(self).cap()),
            r is Ok ==> final(self).cap() > old(self).cap() && final(self).cap() <= usize::MAX,
            r is Ok ==> Some(final(self).slots@) == rebuilt(
                entries_of(old(self).slots@),
                old(self).cap(),
            ),
            r is Err ==> *final(self) == *old(self) && rebuilt(
                entries_of(old(self).slots@),
                old(self).cap(),
            ) is None,
    {
        let elems = self.get_vec();
        proof {
            lemma_map_of_entries(self.slots@);
        }
        let prev_cap = self.slots.len();
        match rebuild(&elems, prev_cap) {
            Ok(new_table) => {
                *self = new_table;
                Ok(())
            },
            Err(e) => {
                proof {
                    assert(pow2_times(self.cap(), 0) == self.cap());
                }
                Err(e)
            },
        }
    }

    /// Insert, growing as needed.  The loop either commits or strictly
    /// increases the capacity, which bounds it; when growth itself gives up,
    /// the error surfaces and the content is as before.  Success is owed
    /// whenever a direct placement or a relocation already fits at the
    /// current capacity; and an insert that succeeds without such a step has
    /// grown the table.
    pub fn insert(&mut self, new_entry: &Entry) -> (r: Result<(), TableError>)
        requires
            old(self).wf(),
        ensures
            final(self).wf(),
            final(self).cap() >= old(self).cap(),
            grew_by_doubling(old(self).cap(), final(self).cap()),
            r is Ok ==> final(self).content() == old(self).content().insert(
                new_entry.key@,
                new_entry.value@,
            ),
            r is Err ==> final(self).content() == old(self).content(),
            direct_fits(old(self).slots@, new_entry.key@) ==> r is Ok,
            step_spec(old(self).slots@, *new_entry) is Some ==> r is Ok,
            step_spec(old(self).slots@, *new_entry) is None && r is Ok ==> final(self).cap()
                > old(self).cap(),
    {
        // An exec view of the capacity pins it below the machine bound,
        // which the doubling measure of the retry loop relies on.
        let initial_cap = self.slots.len();
        proof {
            assert(self.cap() == initial_cap as nat);
            assert(pow2_times(old(self).cap(), 0) == old(self).cap());
        }
        // A key whose direct insertion fits — already present at a home
        // slot, or a home slot free — is placed by the first attempt.
        if insert_step(self, new_entry) {
            return Ok(());
        }
        loop
            invariant
                self.wf(),
                self.cap() <= usize::MAX,
                self.cap() >= old(self).cap(),
                self.content() == old(self).content(),
                grew_by_doubling(old(self).cap(), self.cap()),
                !direct_fits(old(self).slots@, new_entry.key@),
                step_spec(old(self).slots@, *new_entry) is None,
            decreases usize::MAX - self.cap(),
        {
            let ghost before_resize = self.cap();
            match self.resize() {
                Ok(_) => {
                    proof {
                        lemma_grew_by_doubling_trans(old(self).cap(), before_resize, self.cap());
                    }
                },
                Err(e) => {
                    return Err(e);
                },
            }
            if insert_step(self, new_entry) {
                return Ok(());
            }
        }
    }
}

} // verus!
