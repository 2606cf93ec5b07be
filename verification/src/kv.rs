//! The entry type stored in a slot: a key paired with a value.

use vstd::prelude::*;

verus! {

/// One key/value pair, as stored in a slot and as handed out by `get_vec`.
#[derive(Clone, Debug, PartialEq, Eq)]
pub struct KeyVal<K, V> {
    pub key: K,
    pub value: V,
}

/// The entry type this table stores: string keys, string values.
pub type Entry = KeyVal<String, String>;

} // verus!
