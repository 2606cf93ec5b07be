//! Relocation: the bounded path search that finds a chain of moves freeing a
//! home slot, and the executor that re-validates and performs those moves.
//!
//! The search is advisory — it only reads slot state — so the executor checks
//! every step again before moving anything; a failed check aborts the whole
//! attempt without ever breaking the placement invariant, because each
//! committed move only shifts an entry into one of its own homes.

use vstd::prelude::*;

use crate::hashing::hash1;
use crate::hashing::hash2;
use crate::hashing::home1;
use crate::hashing::home2;
use crate::inner::clone_entry;
use crate::inner::InnerTable;
use crate::kv::Entry;
use crate::model::clears_path;
use crate::model::content_of;
use crate::model::has_key;
use crate::model::is_home;
use crate::model::key_at;
use crate::model::lemma_absent;
use crate::model::lemma_move;
use crate::model::lemma_place;
use crate::model::occupied_at;
use crate::model::path_distinct;
use crate::model::path_in_range;
use crate::model::shift_succeeds;
use crate::model::slots_wf;

verus! {

/// Longest relocation chain explored before the search gives up.
pub const MAX_RELOCS: usize = 8;

/// The slot the occupant of `i` would be displaced to: its first home if
/// that differs from `i`, else its second.
pub open spec fn other_home(s: Seq<Option<Entry>>, i: int) -> int
    recommends
        0 <= i < s.len(),
        occupied_at(s, i),
{
    if home1(key_at(s, i), s.len()) != i {
        home1(key_at(s, i), s.len()) as int
    } else {
        home2(key_at(s, i), s.len()) as int
    }
}

/// The deterministic walk of the path finder, continuing the chain `p`:
/// success at the first empty slot; failure when the hop budget is spent or
/// the next slot was already visited (a cycle).
pub open spec fn walk(s: Seq<Option<Entry>>, p: Seq<usize>, fuel: nat) -> Option<Seq<usize>>
    recommends
        p.len() >= 1,
    decreases fuel,
{
    if fuel == 0 {
        None
    } else if !occupied_at(s, p.last() as int) {
        Some(p)
    } else if p.contains(other_home(s, p.last() as int) as usize) {
        None
    } else {
        walk(s, p.push(other_home(s, p.last() as int) as usize), (fuel - 1) as nat)
    }
}

/// The whole bounded search that clears one start index.
pub open spec fn path_search(s: Seq<Option<Entry>>, start: usize) -> Option<Seq<usize>> {
    walk(s, seq![start], MAX_RELOCS as nat)
}

/// The insert-path search: the walk from the key's first home takes
/// priority; the walk from its second home is tried only if that fails.
pub open spec fn found_path(s: Seq<Option<Entry>>, k: Seq<char>) -> Option<Seq<usize>> {
    if path_search(s, home1(k, s.len()) as usize) is Some {
        path_search(s, home1(k, s.len()) as usize)
    } else {
        path_search(s, home2(k, s.len()) as usize)
    }
}

/// The slot-level meaning of executing a relocation chain `p` on store `s`:
/// the new entry sits at the chain's head, each chain occupant has moved one
/// slot along the chain, and every slot off the chain is untouched.
pub open spec fn shifted(s: Seq<Option<Entry>>, p: Seq<usize>, kv: Entry) -> Seq<Option<Entry>> {
    Seq::new(s.len(), |q: int| shifted_slot(s, p, kv, q))
}

/// One slot of `shifted`: the head gets the new entry; a later chain slot
/// gets its predecessor's occupant; anything else keeps its occupant.
pub open spec fn shifted_slot(s: Seq<Option<Entry>>, p: Seq<usize>, kv: Entry, q: int) -> Option<
    Entry,
> {
    if p.len() >= 1 && q == p[0] as int {
        Some(kv)
    } else if exists|a: int| 1 <= a < p.len() && (#[trigger] p[a]) as int == q {
        s[p[(choose|a: int| 1 <= a < p.len() && (#[trigger] p[a]) as int == q) - 1] as int]
    } else {
        s[q]
    }
}

/// Read `shifted` pointwise: head placement, one-slot-along moves, and
/// everything off the chain untouched.
pub proof fn lemma_shifted_pointwise(s: Seq<Option<Entry>>, p: Seq<usize>, kv: Entry)
    requires
        p.len() >= 1,
        path_in_range(s, p),
        path_distinct(p),
    ensures
        shifted(s, p, kv).len() == s.len(),
        shifted(s, p, kv)[p[0] as int] == Some(kv),
        forall|a: int|
            1 <= a < p.len() ==> shifted(s, p, kv)[(#[trigger] p[a]) as int] == s[p[a - 1] as int],
        forall|q: int|
            0 <= q < s.len() && !p.contains(q as usize) ==> #[trigger] shifted(s, p, kv)[q] == s[q],
{
    assert forall|a: int| 1 <= a < p.len() implies shifted(s, p, kv)[(#[trigger] p[a]) as int]
        == s[p[a - 1] as int] by {
        let q = p[a] as int;
        assert(p[a] != p[0]);
        let a2 = choose|a2: int| 1 <= a2 < p.len() && (#[trigger] p[a2]) as int == q;
        assert(p[a2] == p[a]);
        assert(a2 == a);
    }
    assert forall|q: int| 0 <= q < s.len() && !p.contains(q as usize) implies #[trigger] shifted(
        s,
        p,
        kv,
    )[q] == s[q] by {
        if q == p[0] as int {
            assert(p[0] == q as usize);
        }
        if exists|a: int| 1 <= a < p.len() && (#[trigger] p[a]) as int == q {
            let a = choose|a: int| 1 <= a < p.len() && (#[trigger] p[a]) as int == q;
            assert(p[a] == q as usize);
        }
    }
}

/// Whether `x` already appears in `v`.
fn contains_index(v: &Vec<usize>, x: usize) -> (r: bool)
    ensures
        r == v@.contains(x),
{
    let mut i: usize = 0;
    while i < v.len()
        invariant
            i <= v@.len(),
            forall|a: int| 0 <= a < i ==> v@[a] != x,
        decreases v@.len() - i,
    {
        if v[i] == x {
            return true;
        }
        i = i + 1;
    }
    proof {
        assert(forall|a: int| 0 <= a < v@.len() ==> v@[a] != x);
    }
    false
}

impl InnerTable {
    /// Walk a chain from the chosen home index of `key`: at each occupied
    /// slot, continue at the occupant's other home.  Ends with success at the
    /// first empty slot; gives up at the hop bound or on a revisited index.
    pub fn find_path_that_clears_index(&self, key: &String, hash_num: i32) -> (r: Option<
        Vec<usize>,
    >)
        requires
            self.wf(),
        ensures
            r is Some ==> clears_path(self.slots@, r->0@),
            r is Some ==> 1 <= (r->0@).len() <= MAX_RELOCS,
            r is Some ==> (r->0@)[0] == (if hash_num == 1 {
                home1(key@, self.cap())
            } else {
                home2(key@, self.cap())
            }),
            r is Some ==> path_search(
                self.slots@,
                (if hash_num == 1 {
                    home1(key@, self.cap())
                } else {
                    home2(key@, self.cap())
                }) as usize,
            ) == Some(r->0@),
            r is None ==> path_search(
                self.slots@,
                (if hash_num == 1 {
                    home1(key@, self.cap())
                } else {
                    home2(key@, self.cap())
                }) as usize,
            ) is None,
    {
        let len = self.slots.len();
        let index = if hash_num == 1 {
            hash1(key.as_str(), len)
        } else {
            hash2(key.as_str(), len)
        };

        let mut path: Vec<usize> = Vec::new();
        path.push(index);
        proof {
            assert(path@ =~= seq![index]);
        }

        let mut hops: usize = 0;
        while hops < MAX_RELOCS
            invariant
                self.wf(),
                len == self.slots@.len(),
                hops <= MAX_RELOCS,
                path_search(self.slots@, index) == walk(
                    self.slots@,
                    path@,
                    (MAX_RELOCS - hops) as nat,
                ),
                path@.len() == hops + 1,
                path@[0] == index,
                index == (if hash_num == 1 {
                    home1(key@, self.cap())
                } else {
                    home2(key@, self.cap())
                }),
                path_in_range(self.slots@, path@),
                path_distinct(path@),
                forall|a: int|
                    0 <= a < path@.len() - 1 ==> occupied_at(self.slots@, (#[trigger] path@[a]) as int)
                        && is_home(
                        key_at(self.slots@, path@[a] as int),
                        self.slots@.len(),
                        path@[a + 1] as int,
                    ),
            decreases MAX_RELOCS - hops,
        {
            let prev_idx = path[path.len() - 1];

            let mut next_idx: usize = 0;
            let mut found_empty = false;
            match &self.slots[prev_idx] {
                None => {
                    // This bucket is empty, so our shift chain ends here.
                    found_empty = true;
                }
                Some(entry) => {
                    // Continue at the occupant's other home.
                    let h1 = hash1(entry.key.as_str(), len);
                    next_idx = if h1 != prev_idx {
                        h1
                    } else {
                        hash2(entry.key.as_str(), len)
                    };
                }
            }
            if found_empty {
                proof {
                    assert(path@.last() == prev_idx);
                    assert(walk(self.slots@, path@, (MAX_RELOCS - hops) as nat) == Some(path@));
                }
                return Some(path);
            }
            proof {
                assert(path@.last() == prev_idx);
                assert(other_home(self.slots@, prev_idx as int) == next_idx);
            }
            // A revisited index means the chain has closed a cycle.
            if contains_index(&path, next_idx) {
                proof {
                    assert(walk(self.slots@, path@, (MAX_RELOCS - hops) as nat) is None);
                }
                return None;
            }
            proof {
                assert(walk(self.slots@, path@, (MAX_RELOCS - hops) as nat) == walk(
                    self.slots@,
                    path@.push(next_idx),
                    (MAX_RELOCS - hops - 1) as nat,
                ));
            }
            path.push(next_idx);
            hops = hops + 1;
        }
        proof {
            assert(walk(self.slots@, path@, 0) is None);
        }
        None
    }

    /// Try the chain from the first home, then from the second: the
    /// first-hash walk takes priority, and `None` comes exactly when
    /// neither home index yields a bounded clearing chain.
    pub fn find_insert_path(&self, key: &String) -> (r: Option<Vec<usize>>)
        requires
            self.wf(),
        ensures
            r is Some ==> clears_path(self.slots@, r->0@) && is_home(
                key@,
                self.cap(),
                (r->0@)[0] as int,
            ),
            r is Some ==> 1 <= (r->0@).len() <= MAX_RELOCS,
            r is Some ==> found_path(self.slots@, key@) == Some(r->0@),
            r is None ==> found_path(self.slots@, key@) is None,
    {
        if let Some(path) = self.find_path_that_clears_index(key, 1) {
            return Some(path);
        }
        if let Some(path) = self.find_path_that_clears_index(key, 2) {
            return Some(path);
        }
        None
    }

    /// The relocation executor.  Processes adjacent pairs from the tail of
    /// the chain toward its head, re-validating every step: the target slot
    /// must still be empty and must still be a home of the moved entry.  Any
    /// failed check aborts with `false`, leaving the content map unchanged
    /// (moves already made are harmless relocations).  On success the new
    /// entry is placed at the head of the chain.
    ///
    /// When the chain's discovery conditions still hold — in particular when
    /// nothing ran between discovery and execution — the executor is
    /// guaranteed to commit.
    pub fn try_shift_entries(&mut self, path: &Vec<usize>, new_entry: &Entry) -> (ok: bool)
        requires
            old(self).wf(),
        ensures
            final(self).wf(),
            final(self).cap() == old(self).cap(),
            ok ==> final(self).content() == old(self).content().insert(
                new_entry.key@,
                new_entry.value@,
            ),
            ok ==> !old(self).content().contains_key(new_entry.key@),
            !ok ==> final(self).content() == old(self).content(),
            shift_succeeds(old(self).slots@, path@, new_entry.key@) ==> ok && final(self).slots@
                == shifted(old(self).slots@, path@, *new_entry),
    {
        let ghost orig = self.slots@;
        let ghost pre = shift_succeeds(orig, path@, new_entry.key@);
        let n = path.len();
        if n == 0 {
            // An empty chain clears nothing; abort.
            return false;
        }

        // Shift entries toward the tail to free up the first bucket in path.
        let mut i: usize = n - 1;
        while i > 0
            invariant
                slots_wf(self.slots@),
                self.slots@.len() == orig.len(),
                content_of(self.slots@) == content_of(orig),
                n == path@.len(),
                1 <= n,
                i < n,
                orig == old(self).slots@,
                pre == shift_succeeds(orig, path@, new_entry.key@),
                pre ==> !occupied_at(self.slots@, path@[i as int] as int),
                pre ==> forall|a: int|
                    0 <= a < i ==> self.slots@[(#[trigger] path@[a]) as int]
                        == orig[path@[a] as int],
                pre ==> forall|a: int|
                    i < a < n ==> self.slots@[(#[trigger] path@[a]) as int]
                        == orig[path@[a - 1] as int],
                pre ==> forall|q: int|
                    0 <= q < orig.len() && !path@.contains(q as usize)
                        ==> #[trigger] self.slots@[q] == orig[q],
            decreases i,
        {
            i = i - 1;
            let src = path[i];
            let dst = path[i + 1];

            // Re-validate: indices must be in range for the current store.
            if src >= self.slots.len() || dst >= self.slots.len() {
                proof {
                    if pre {
                        assert(path@[i as int] < orig.len());
                        assert(path@[i as int + 1] < orig.len());
                    }
                }
                return false;
            }
            // We can't shift into an occupied bucket.
            if self.slots[dst].is_some() {
                return false;
            }
            // We can't shift out of an empty bucket, nor into a bucket that
            // is not a home of the shifted entry.
            let mut moved: Option<Entry> = None;
            match &self.slots[src] {
                None => {}
                Some(entry) => {
                    let h1 = hash1(entry.key.as_str(), self.slots.len());
                    let h2 = hash2(entry.key.as_str(), self.slots.len());
                    if dst == h1 || dst == h2 {
                        moved = Some(clone_entry(entry));
                    }
                }
            }
            match moved {
                None => {
                    proof {
                        if pre {
                            assert(self.slots@[path@[i as int] as int] == orig[path@[i as int] as int]);
                            assert(occupied_at(orig, path@[i as int] as int));
                            assert(is_home(
                                key_at(orig, path@[i as int] as int),
                                orig.len(),
                                path@[i as int + 1] as int,
                            ));
                        }
                    }
                    return false;
                }
                Some(entry) => {
                    // Move the entry from the current bucket to the next one.
                    let ghost before = self.slots@;
                    proof {
                        lemma_move(before, src as int, dst as int);
                    }
                    self.slots.set(dst, Some(entry));
                    self.slots.set(src, None);
                    proof {
                        assert(self.slots@ == before.update(dst as int, before[src as int]).update(
                            src as int,
                            None::<Entry>,
                        ));
                        if pre {
                            assert forall|a: int| 0 <= a < i implies self.slots@[(#[trigger]
                            path@[a]) as int] == orig[path@[a] as int] by {
                                assert(path@[a] != path@[i as int]);
                                assert(path@[a] != path@[i as int + 1]);
                            }
                            assert forall|a: int| i < a < n implies self.slots@[(#[trigger]
                            path@[a]) as int] == orig[path@[a - 1] as int] by {
                                if a > i + 1 {
                                    assert(path@[a] != path@[i as int]);
                                    assert(path@[a] != path@[i as int + 1]);
                                    assert(before[path@[a] as int] == orig[path@[a - 1] as int]);
                                }
                            }
                            assert forall|q: int|
                                0 <= q < orig.len() && !path@.contains(q as usize)
                                    implies #[trigger] self.slots@[q] == orig[q] by {
                                assert(path@[i as int] != q as usize) by {
                                    if path@[i as int] == q as usize {
                                        assert(path@.contains(q as usize));
                                    }
                                }
                                assert(path@[i as int + 1] != q as usize) by {
                                    if path@[i as int + 1] == q as usize {
                                        assert(path@.contains(q as usize));
                                    }
                                }
                            }
                        }
                    }
                }
            }
        }

        // The head of the chain should now be free: re-validate that it is
        // still a home slot of the new key, that the key has not meanwhile
        // been inserted at a home slot, and that the head is indeed empty;
        // then place the new entry.
        let first = path[0];
        if first >= self.slots.len() {
            return false;
        }
        let h1 = hash1(new_entry.key.as_str(), self.slots.len());
        let h2 = hash2(new_entry.key.as_str(), self.slots.len());
        if first != h1 && first != h2 {
            return false;
        }
        let mut dup = false;
        if let Some(e) = &self.slots[h1] {
            if e.key == new_entry.key {
                dup = true;
            }
        }
        if !dup && h2 != h1 {
            if let Some(e) = &self.slots[h2] {
                if e.key == new_entry.key {
                    dup = true;
                }
            }
        }
        if dup {
            proof {
                if occupied_at(self.slots@, h1 as int) && key_at(self.slots@, h1 as int)
                    == new_entry.key@ {
                    assert(has_key(self.slots@, new_entry.key@));
                } else {
                    assert(occupied_at(self.slots@, h2 as int) && key_at(self.slots@, h2 as int)
                        == new_entry.key@);
                    assert(has_key(self.slots@, new_entry.key@));
                }
                if pre {
                    assert(content_of(self.slots@).contains_key(new_entry.key@));
                    assert(content_of(orig).contains_key(new_entry.key@));
                    assert(false);
                }
            }
            return false;
        }
        if self.slots[first].is_some() {
            return false;
        }
        let ghost ready = self.slots@;
        proof {
            lemma_absent(self.slots@, new_entry.key@);
            lemma_place(self.slots@, first as int, *new_entry);
        }
        self.slots.set(first, Some(clone_entry(new_entry)));
        proof {
            if pre {
                assert(self.slots@ == ready.update(first as int, Some(*new_entry)));
                assert forall|q: int| 0 <= q < orig.len() implies self.slots@[q] == shifted_slot(
                    orig,
                    path@,
                    *new_entry,
                    q,
                ) by {
                    if q == path@[0] as int {
                    } else if exists|a: int| 1 <= a < path@.len() && (#[trigger] path@[a]) as int
                        == q {
                        let a = choose|a: int|
                            1 <= a < path@.len() && (#[trigger] path@[a]) as int == q;
                        assert(path@[a] != path@[0]);
                        assert(ready[q] == orig[path@[a - 1] as int]);
                        let a2 = choose|a2: int|
                            1 <= a2 < path@.len() && (#[trigger] path@[a2]) as int == q;
                        assert(path@[a2] == path@[a]);
                        assert(a2 == a);
                    } else {
                        assert(!path@.contains(q as usize)) by {
                            if path@.contains(q as usize) {
                                let a = choose|a: int|
                                    0 <= a < path@.len() && path@[a] == q as usize;
                                if a == 0 {
                                    assert(q == path@[0] as int);
                                } else {
                                    assert(1 <= a < path@.len() && path@[a] as int == q);
                                }
                            }
                        }
                        assert(ready[q] == orig[q]);
                        assert(path@[0] != q as usize);
                    }
                }
                assert(self.slots@ =~= shifted(orig, path@, *new_entry));
            }
        }
        true
    }
}

} // verus!
