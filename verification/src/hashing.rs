//! Dual-hash addressing: two independent hash functions reduced modulo the
//! current capacity give every key exactly two candidate ("home") slots.
//!
//! Both digests are seeded with the capacity, so growing the table also
//! switches the hash functions.  The digests themselves come from outside
//! crates and are named, not defined: `rapid_digest` and `xxh3_digest` stand
//! for whatever the two algorithms return, which depends on the key and the
//! seed alone.

use vstd::prelude::*;

verus! {

/// The rapidhash digest of the key's UTF-8 bytes under the given seed.
pub uninterp spec fn rapid_digest(key: Seq<char>, seed: u64) -> u64;

/// The XXH3 digest of the key's UTF-8 bytes under the given seed.
pub uninterp spec fn xxh3_digest(key: Seq<char>, seed: u64) -> u64;

/// Relies on `rapidhash::v3::rapidhash_v3_seeded` (with secrets expanded from
/// the seed by `RapidSecrets::seed`): a pure digest of the bytes and the seed,
/// the same on every call and every machine.
#[verifier::external_body]
fn rapid_digest_exec(key: &str, seed: u64) -> (r: u64)
    ensures
        r == rapid_digest(key@, seed),
{
    rapidhash::v3::rapidhash_v3_seeded(key.as_bytes(), &rapidhash::v3::RapidSecrets::seed(seed))
}

/// Relies on `xxhash_rust::xxh3::xxh3_64_with_seed`: a pure digest of the
/// bytes and the seed, the same on every call and every machine.
#[verifier::external_body]
fn xxh3_digest_exec(key: &str, seed: u64) -> (r: u64)
    ensures
        r == xxh3_digest(key@, seed),
{
    xxhash_rust::xxh3::xxh3_64_with_seed(key.as_bytes(), seed)
}

/// First home index of `key` in a table of capacity `cap`.
pub open spec fn home1(key: Seq<char>, cap: nat) -> nat
    recommends
        0 < cap <= u64::MAX,
{
    (rapid_digest(key, cap as u64) as nat) % cap
}

/// Second home index of `key` in a table of capacity `cap`.
pub open spec fn home2(key: Seq<char>, cap: nat) -> nat
    recommends
        0 < cap <= u64::MAX,
{
    (xxh3_digest(key, cap as u64) as nat) % cap
}

/// First candidate slot for `key` in a table of `len` slots.
pub fn hash1(key: &str, len: usize) -> (i: usize)
    requires
        len > 0,
    ensures
        i == home1(key@, len as nat),
        i < len,
{
    let d = rapid_digest_exec(key, len as u64);
    (d % (len as u64)) as usize
}

/// Second candidate slot for `key` in a table of `len` slots.
pub fn hash2(key: &str, len: usize) -> (i: usize)
    requires
        len > 0,
    ensures
        i == home2(key@, len as nat),
        i < len,
{
    let d = xxh3_digest_exec(key, len as u64);
    (d % (len as u64)) as usize
}

} // verus!
