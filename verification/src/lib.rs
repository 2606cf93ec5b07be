//! A concurrently usable cuckoo hash table with verified core logic.
//!
//! Every key is addressed by two hash functions, so a present key always
//! sits in one of exactly two candidate ("home") slots and a lookup probes
//! at most two slots regardless of load.  Insertion first tries the two home
//! slots directly; failing that, it searches for a bounded chain of
//! relocations that frees one of them, re-validating each move before
//! committing it; and when no chain exists, the table doubles its capacity
//! and rehashes everything.
//!
//! The bucket store and all the logic on it (`inner`, `relocate`, `resize`)
//! are specified against an abstract content map (`model`) and verified:
//! placement and key-uniqueness invariants, the exact effect of every
//! operation on the content, preservation of the content across growth, and
//! termination of the insert loop.  The shared table (`table`) wraps the
//! store in a reader/writer lock whose invariant is well-formedness, so no
//! thread can ever observe or publish a store that violates the invariants.
//! The stated laws of the container are proved in `laws` and `snapshot`.

pub mod errors;
pub mod hashing;
pub mod inner;
pub mod kv;
pub mod laws;
pub mod model;
pub mod relocate;
pub mod resize;
pub mod snapshot;
pub mod table;

pub use errors::TableError;
pub use inner::InnerTable;
pub use kv::Entry;
pub use kv::KeyVal;
pub use table::CuckooHashTable;
