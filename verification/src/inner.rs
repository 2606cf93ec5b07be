//! The bucket store: a fixed-length sequence of slots, each holding at most
//! one entry, together with the single-probe-pair operations on it.
//!
//! Every operation here runs under the table lock and is specified against
//! the abstract content map of `crate::model`.

use vstd::prelude::*;

use crate::hashing::hash1;
use crate::hashing::hash2;
use crate::hashing::home1;
use crate::hashing::home2;
use crate::kv::Entry;
use crate::kv::KeyVal;
use crate::model::content_of;
use crate::model::direct_fits;
use crate::model::entries_of;
use crate::model::has_key;
use crate::model::key_at;
use crate::model::lemma_absent;
use crate::model::lemma_at_slot;
use crate::model::lemma_clear;
use crate::model::lemma_place;
use crate::model::occupied_at;
use crate::model::slots_wf;

verus! {

/// Number of slots a freshly created table starts with.
pub const INIT_SIZE: usize = 13;

/// Clone an entry field by field.
pub fn clone_entry(e: &Entry) -> (r: Entry)
    ensures
        r == *e,
{
    KeyVal { key: e.key.clone(), value: e.value.clone() }
}

/// The exact slot-level outcome of a direct insertion: the store with the
/// entry written into the one home slot the examination order picks — the
/// first home if it already holds the key, else the second, else the first
/// if empty, else the second — or nothing when both homes are occupied by
/// other keys.  Exactly one slot differs from the given store on success.
pub open spec fn direct_insert_spec(s: Seq<Option<Entry>>, kv: Entry) -> Option<
    Seq<Option<Entry>>,
> {
    let h1 = home1(kv.key@, s.len()) as int;
    let h2 = home2(kv.key@, s.len()) as int;
    if occupied_at(s, h1) && key_at(s, h1) == kv.key@ {
        Some(s.update(h1, Some(kv)))
    } else if h1 != h2 && occupied_at(s, h2) && key_at(s, h2) == kv.key@ {
        Some(s.update(h2, Some(kv)))
    } else if !occupied_at(s, h1) {
        Some(s.update(h1, Some(kv)))
    } else if h1 != h2 && !occupied_at(s, h2) {
        Some(s.update(h2, Some(kv)))
    } else {
        None
    }
}

/// A fixed-capacity bucket store.
pub struct InnerTable {
    pub slots: Vec<Option<Entry>>,
}

impl InnerTable {
    /// Capacity: the number of slots.
    pub open spec fn cap(self) -> nat {
        self.slots@.len()
    }

    /// The structural invariant: placement and key uniqueness.
    pub open spec fn wf(self) -> bool {
        slots_wf(self.slots@)
    }

    /// The abstract content: a map from present keys to their values.
    pub open spec fn content(self) -> Map<Seq<char>, Seq<char>> {
        content_of(self.slots@)
    }

    /// Some slot holds `k`.
    pub open spec fn has_key(self, k: Seq<char>) -> bool {
        has_key(self.slots@, k)
    }

    /// A store of `capacity` empty slots.
    pub fn with_capacity(capacity: usize) -> (t: Self)
        requires
            capacity > 0,
        ensures
            t.wf(),
            t.cap() == capacity,
            t.content() == Map::<Seq<char>, Seq<char>>::empty(),
            forall|i: int| 0 <= i < capacity ==> (#[trigger] t.slots@[i]) is None,
    {
        let mut slots: Vec<Option<Entry>> = Vec::new();
        let mut i: usize = 0;
        while i < capacity
            invariant
                i <= capacity,
                slots@.len() == i,
                forall|j: int| 0 <= j < i ==> (#[trigger] slots@[j]) is None,
            decreases capacity - i,
        {
            slots.push(None);
            i = i + 1;
        }
        let t = InnerTable { slots };
        proof {
            assert forall|k: Seq<char>| !(#[trigger] has_key(t.slots@, k)) by {
                if has_key(t.slots@, k) {
                    let w = choose|w: int|
                        0 <= w < t.slots@.len() && #[trigger] occupied_at(t.slots@, w) && key_at(
                            t.slots@,
                            w,
                        ) == k;
                }
            }
            assert(t.content() =~= Map::<Seq<char>, Seq<char>>::empty());
        }
        t
    }

    /// The number of slots.
    pub fn get_capacity(&self) -> (c: usize)
        ensures
            c == self.cap(),
    {
        self.slots.len()
    }

    /// Direct insertion: lock-step examination of the key's two home slots.
    /// Overwrites the value in place if the key is already at home, else fills
    /// an empty home slot.  Fails exactly when both homes are occupied by
    /// other keys, leaving the store untouched.
    pub fn try_direct_insert(&mut self, new_entry: &Entry) -> (ok: bool)
        requires
            old(self).wf(),
        ensures
            final(self).wf(),
            final(self).cap() == old(self).cap(),
            ok == direct_fits(old(self).slots@, new_entry.key@),
            ok == (direct_insert_spec(old(self).slots@, *new_entry) is Some),
            ok ==> final(self).slots@ == direct_insert_spec(old(self).slots@, *new_entry)->0,
            ok ==> final(self).content() == old(self).content().insert(
                new_entry.key@,
                new_entry.value@,
            ),
            !ok ==> *final(self) == *old(self),
    {
        let len = self.slots.len();
        let hash1_idx = hash1(new_entry.key.as_str(), len);
        let hash2_idx = hash2(new_entry.key.as_str(), len);

        // If this key is already in the table, replace its value in place.
        let mut same1 = false;
        if let Some(entry1) = &self.slots[hash1_idx] {
            if entry1.key == new_entry.key {
                same1 = true;
            }
        }
        if same1 {
            self.slots.set(hash1_idx, Some(clone_entry(new_entry)));
            proof {
                lemma_place(old(self).slots@, hash1_idx as int, *new_entry);
            }
            return true;
        }
        let mut same2 = false;
        if hash1_idx != hash2_idx {
            if let Some(entry2) = &self.slots[hash2_idx] {
                if entry2.key == new_entry.key {
                    same2 = true;
                }
            }
        }
        if same2 {
            self.slots.set(hash2_idx, Some(clone_entry(new_entry)));
            proof {
                lemma_place(old(self).slots@, hash2_idx as int, *new_entry);
            }
            return true;
        }

        // Otherwise, if a home slot is unused, place the entry there.
        if self.slots[hash1_idx].is_none() {
            proof {
                lemma_absent(self.slots@, new_entry.key@);
            }
            self.slots.set(hash1_idx, Some(clone_entry(new_entry)));
            proof {
                lemma_place(old(self).slots@, hash1_idx as int, *new_entry);
            }
            return true;
        }
        if hash1_idx != hash2_idx && self.slots[hash2_idx].is_none() {
            proof {
                lemma_absent(self.slots@, new_entry.key@);
            }
            self.slots.set(hash2_idx, Some(clone_entry(new_entry)));
            proof {
                lemma_place(old(self).slots@, hash2_idx as int, *new_entry);
            }
            return true;
        }
        false
    }

    /// Two-probe lookup.  Completeness — a present key is always found —
    /// rests on the placement invariant.
    pub fn lookup(&self, key: &String) -> (r: Option<String>)
        requires
            self.wf(),
        ensures
            r is Some ==> self.content().contains_key(key@) && r->0@ == self.content()[key@],
            r is None ==> !self.content().contains_key(key@),
    {
        let len = self.slots.len();
        let index1 = hash1(key.as_str(), len);
        let index2 = hash2(key.as_str(), len);

        if let Some(entry1) = &self.slots[index1] {
            if entry1.key == *key {
                proof {
                    lemma_at_slot(self.slots@, index1 as int);
                }
                return Some(entry1.value.clone());
            }
        }
        if let Some(entry2) = &self.slots[index2] {
            if entry2.key == *key {
                proof {
                    lemma_at_slot(self.slots@, index2 as int);
                }
                return Some(entry2.value.clone());
            }
        }
        proof {
            lemma_absent(self.slots@, key@);
        }
        None
    }

    /// Two-probe removal: take the entry out of whichever home slot holds the
    /// key, leaving every other entry untouched.
    pub fn remove(&mut self, key: &String) -> (r: Option<String>)
        requires
            old(self).wf(),
        ensures
            final(self).wf(),
            final(self).cap() == old(self).cap(),
            final(self).content() == old(self).content().remove(key@),
            r is Some ==> old(self).content().contains_key(key@)
                && r->0@ == old(self).content()[key@],
            r is None ==> !old(self).content().contains_key(key@) && *final(self) == *old(self),
    {
        let len = self.slots.len();
        let index1 = hash1(key.as_str(), len);
        let index2 = hash2(key.as_str(), len);

        let mut taken1: Option<String> = None;
        if let Some(entry) = &self.slots[index1] {
            if entry.key == *key {
                taken1 = Some(entry.value.clone());
            }
        }
        if let Some(v) = taken1 {
            proof {
                lemma_at_slot(self.slots@, index1 as int);
                lemma_clear(self.slots@, index1 as int);
            }
            self.slots.set(index1, None);
            return Some(v);
        }
        if index1 != index2 {
            let mut taken2: Option<String> = None;
            if let Some(entry) = &self.slots[index2] {
                if entry.key == *key {
                    taken2 = Some(entry.value.clone());
                }
            }
            if let Some(v) = taken2 {
                proof {
                    lemma_at_slot(self.slots@, index2 as int);
                    lemma_clear(self.slots@, index2 as int);
                }
                self.slots.set(index2, None);
                return Some(v);
            }
        }
        proof {
            lemma_absent(self.slots@, key@);
            assert(self.content().remove(key@) =~= self.content());
        }
        None
    }

    /// Snapshot of the live entries, in slot order.
    pub fn get_vec(&self) -> (r: Vec<Entry>)
        ensures
            r@ == entries_of(self.slots@),
    {
        let mut r: Vec<Entry> = Vec::new();
        let mut i: usize = 0;
        while i < self.slots.len()
            invariant
                i <= self.slots@.len(),
                r@ == entries_of(self.slots@.take(i as int)),
            decreases self.slots@.len() - i,
        {
            if let Some(e) = &self.slots[i] {
                r.push(clone_entry(e));
            }
            i = i + 1;
            proof {
                let tk = self.slots@.take(i as int);
                assert(tk.drop_last() =~= self.slots@.take(i as int - 1));
                assert(tk.last() == self.slots@[i as int - 1]);
            }
        }
        proof {
            assert(self.slots@.take(self.slots@.len() as int) =~= self.slots@);
        }
        r
    }
}

} // verus!
