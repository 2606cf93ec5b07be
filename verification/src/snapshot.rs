//! Relating a snapshot of the live entries to the abstract content map.
//!
//! `entries_of` lists the live entries in slot order; `map_of` folds a list
//! of entries into a map, later entries winning.  For a store with unique
//! keys the two views agree: the snapshot is exactly the content, with no
//! duplicates and no omissions.  Resize relies on this to re-insert a
//! snapshot and come back to the same content.

use vstd::prelude::*;

use crate::kv::Entry;
use crate::model::content_of;
use crate::model::entries_of;
use crate::model::has_key;
use crate::model::key_at;
use crate::model::keys_unique;
use crate::model::lemma_at_slot;
use crate::model::occupied_at;
use crate::model::slot_of;
use crate::model::val_at;

verus! {

/// The map described by a list of entries, inserted in order: a later entry
/// for the same key overrides an earlier one.
pub open spec fn map_of(es: Seq<Entry>) -> Map<Seq<char>, Seq<char>>
    decreases es.len(),
{
    if es.len() == 0 {
        Map::empty()
    } else {
        map_of(es.drop_last()).insert(es.last().key@, es.last().value@)
    }
}

/// Every snapshot entry comes from an occupied slot, and every occupied slot
/// appears in the snapshot.
pub proof fn lemma_entries_index(s: Seq<Option<Entry>>)
    ensures
        forall|a: int|
            0 <= a < entries_of(s).len() ==> exists|i: int|
                0 <= i < s.len() && s[i] == Some(#[trigger] entries_of(s)[a]),
        forall|i: int|
            0 <= i < s.len() && (#[trigger] s[i]) is Some ==> exists|a: int|
                0 <= a < entries_of(s).len() && entries_of(s)[a] == s[i]->0,
    decreases s.len(),
{
    if s.len() == 0 {
    } else {
        let sp = s.drop_last();
        lemma_entries_index(sp);
        assert forall|a: int| 0 <= a < entries_of(s).len() implies exists|i: int|
            0 <= i < s.len() && s[i] == Some(#[trigger] entries_of(s)[a]) by {
            if s.last() is Some && a == entries_of(s).len() - 1 {
                assert(s[s.len() - 1] == Some(entries_of(s)[a]));
            } else {
                assert(0 <= a < entries_of(sp).len());
                assert(entries_of(sp)[a] == entries_of(s)[a]);
                let i = choose|i: int| 0 <= i < sp.len() && sp[i] == Some(#[trigger] entries_of(sp)[a]);
                assert(s[i] == Some(entries_of(s)[a]));
            }
        }
        assert forall|i: int| 0 <= i < s.len() && (#[trigger] s[i]) is Some implies exists|a: int|
            0 <= a < entries_of(s).len() && entries_of(s)[a] == s[i]->0 by {
            if i == s.len() - 1 {
                assert(entries_of(s)[entries_of(s).len() - 1] == s[i]->0);
            } else {
                assert(sp[i] is Some);
                let a = choose|a: int|
                    0 <= a < entries_of(sp).len() && entries_of(sp)[a] == sp[i]->0;
                assert(entries_of(s)[a] == s[i]->0);
            }
        }
    }
}

/// With unique keys in the store, the snapshot lists each key at most once.
pub proof fn lemma_entries_distinct(s: Seq<Option<Entry>>)
    requires
        keys_unique(s),
    ensures
        forall|a: int, b: int|
            #![trigger entries_of(s)[a], entries_of(s)[b]]
            0 <= a < b < entries_of(s).len() ==> entries_of(s)[a].key@ != entries_of(s)[b].key@,
    decreases s.len(),
{
    if s.len() == 0 {
    } else {
        let sp = s.drop_last();
        assert forall|i: int, j: int|
            #![trigger key_at(sp, i), key_at(sp, j)]
            0 <= i < sp.len() && 0 <= j < sp.len() && i != j && occupied_at(sp, i) && occupied_at(
                sp,
                j,
            ) implies key_at(sp, i) != key_at(sp, j) by {
            assert(sp[i] == s[i]);
            assert(sp[j] == s[j]);
            assert(key_at(s, i) != key_at(s, j));
        }
        lemma_entries_distinct(sp);
        lemma_entries_index(sp);
        assert forall|a: int, b: int|
            #![trigger entries_of(s)[a], entries_of(s)[b]]
            0 <= a < b < entries_of(s).len() implies entries_of(s)[a].key@ != entries_of(
                s,
            )[b].key@ by {
            if s.last() is Some && b == entries_of(s).len() - 1 {
                assert(entries_of(s)[a] == entries_of(sp)[a]);
                let i = choose|i: int| 0 <= i < sp.len() && sp[i] == Some(#[trigger] entries_of(sp)[a]);
                assert(occupied_at(s, i) && key_at(s, i) == entries_of(s)[a].key@);
                assert(occupied_at(s, s.len() - 1) && key_at(s, s.len() - 1) == entries_of(s)[b].key@);
            } else {
                assert(entries_of(s)[a] == entries_of(sp)[a]);
                assert(entries_of(s)[b] == entries_of(sp)[b]);
            }
        }
    }
}

/// For a store with unique keys, folding the snapshot back into a map gives
/// exactly the store's content.
pub proof fn lemma_map_of_entries(s: Seq<Option<Entry>>)
    requires
        keys_unique(s),
    ensures
        map_of(entries_of(s)) == content_of(s),
    decreases s.len(),
{
    if s.len() == 0 {
        assert forall|k: Seq<char>| !(#[trigger] has_key(s, k)) by {
            if has_key(s, k) {
                let i = choose|i: int|
                    0 <= i < s.len() && #[trigger] occupied_at(s, i) && key_at(s, i) == k;
            }
        }
        assert(content_of(s) =~= Map::<Seq<char>, Seq<char>>::empty());
    } else {
        let sp = s.drop_last();
        assert forall|i: int, j: int|
            #![trigger key_at(sp, i), key_at(sp, j)]
            0 <= i < sp.len() && 0 <= j < sp.len() && i != j && occupied_at(sp, i) && occupied_at(
                sp,
                j,
            ) implies key_at(sp, i) != key_at(sp, j) by {
            assert(sp[i] == s[i]);
            assert(sp[j] == s[j]);
            assert(key_at(s, i) != key_at(s, j));
        }
        lemma_map_of_entries(sp);
        if s.last() is Some {
            let kv = s.last()->0;
            assert(entries_of(s) == entries_of(sp).push(kv));
            assert(entries_of(sp).push(kv).drop_last() =~= entries_of(sp));
            assert(map_of(entries_of(s)) == map_of(entries_of(sp)).insert(kv.key@, kv.value@));
            assert(occupied_at(s, s.len() - 1) && key_at(s, s.len() - 1) == kv.key@);
            lemma_at_slot(s, s.len() - 1);
            assert forall|k: Seq<char>| #[trigger] has_key(s, k) && k != kv.key@ implies has_key(
                sp,
                k,
            ) && content_of(s)[k] == content_of(sp)[k] by {
                let i = slot_of(s, k);
                assert(0 <= i < s.len() && occupied_at(s, i) && key_at(s, i) == k);
                assert(i != s.len() - 1);
                assert(occupied_at(sp, i) && key_at(sp, i) == k);
                lemma_at_slot(sp, i);
                lemma_at_slot(s, i);
                assert(val_at(sp, i) == val_at(s, i));
            }
            assert forall|k: Seq<char>| #[trigger] has_key(sp, k) implies has_key(s, k) by {
                let i = slot_of(sp, k);
                assert(0 <= i < sp.len() && occupied_at(sp, i) && key_at(sp, i) == k);
                assert(occupied_at(s, i) && key_at(s, i) == k);
            }
            assert(content_of(s) =~= content_of(sp).insert(kv.key@, kv.value@));
        } else {
            assert(entries_of(s) == entries_of(sp));
            assert forall|k: Seq<char>| #[trigger] has_key(s, k) implies has_key(sp, k)
                && content_of(s)[k] == content_of(sp)[k] by {
                let i = slot_of(s, k);
                assert(0 <= i < s.len() && occupied_at(s, i) && key_at(s, i) == k);
                assert(i != s.len() - 1);
                assert(occupied_at(sp, i) && key_at(sp, i) == k);
                lemma_at_slot(sp, i);
                lemma_at_slot(s, i);
                assert(val_at(sp, i) == val_at(s, i));
            }
            assert forall|k: Seq<char>| #[trigger] has_key(sp, k) implies has_key(s, k) by {
                let i = slot_of(sp, k);
                assert(occupied_at(s, i) && key_at(s, i) == k);
            }
            assert(content_of(s) =~= content_of(sp));
        }
    }
}

} // verus!
