//! Hash tables and hash sets keyed by `u64` and hashed with `ahash`.
//!
//! The standard collections are used with `ahash::RandomState` as their hash
//! builder. vstd describes their methods only for hash builders it knows to
//! be consistent, and it knows that of the standard one alone. The functions
//! below state the same behaviour for `ahash::RandomState`, whose hashers,
//! built from one state, hash equal input equally; they are believed, not
//! proved.

use std::collections::{HashMap, HashSet};
use vstd::prelude::*;

verus! {

/// `ahash::RandomState`: the hash builder of the tables and sets below.
#[verifier::external_type_specification]
#[verifier::external_body]
pub struct ExAhashState(ahash::RandomState);

/// A table from `u64` keys to values, hashed with `ahash`.
pub type Table<V> = HashMap<u64, V, ahash::RandomState>;

/// A set of `u64` keys, hashed with `ahash`.
pub type KeySet = HashSet<u64, ahash::RandomState>;

/// `HashMap::default` with `ahash::RandomState::default` as hash builder:
/// the table starts empty.
#[verifier::external_body]
pub(crate) fn table_new<V>() -> (table: Table<V>)
    ensures
        table@ == (Map::<u64, V>::empty()),
{
    HashMap::default()
}

/// `HashMap::insert`: afterwards the table maps `k` to `v` and every other
/// key as before.
#[verifier::external_body]
pub(crate) fn table_insert<V>(m: &mut Table<V>, k: u64, v: V)
    ensures
        final(m)@ == old(m)@.insert(k, v),
{
    m.insert(k, v);
}

/// `HashMap::get`: the value stored under `k`, or `None` when `k` is not a
/// key of the table.
#[verifier::external_body]
pub(crate) fn table_get<'a, V>(m: &'a Table<V>, k: u64) -> (r: Option<&'a V>)
    ensures
        match r {
            Some(v) => m@.contains_key(k) && *v == m@[k],
            None => !m@.contains_key(k),
        },
{
    m.get(&k)
}

/// `HashMap::remove`: takes the entry of `k` out of the table and returns
/// its value, or returns `None` and leaves the table alone when `k` is not a
/// key.
#[verifier::external_body]
pub(crate) fn table_remove<V>(m: &mut Table<V>, k: u64) -> (r: Option<V>)
    ensures
        final(m)@ == old(m)@.remove(k),
        match r {
            Some(v) => old(m)@.contains_key(k) && v == old(m)@[k],
            None => !old(m)@.contains_key(k),
        },
{
    m.remove(&k)
}

/// `HashMap::len`: the number of keys.
#[verifier::external_body]
pub(crate) fn table_len<V>(m: &Table<V>) -> (n: usize)
    ensures
        n == m@.len(),
{
    m.len()
}

/// `HashSet::default` with `ahash::RandomState::default` as hash builder:
/// the set starts empty.
#[verifier::external_body]
pub(crate) fn keys_new() -> (s: KeySet)
    ensures
        s@ == Set::<u64>::empty(),
{
    HashSet::default()
}

/// `HashSet::insert`: afterwards the set holds `k` and what it held before.
#[verifier::external_body]
pub(crate) fn keys_insert(s: &mut KeySet, k: u64)
    ensures
        final(s)@ == old(s)@.insert(k),
{
    s.insert(k);
}

/// `HashSet::contains`: whether `k` is in the set.
#[verifier::external_body]
pub(crate) fn keys_contains(s: &KeySet, k: u64) -> (b: bool)
    ensures
        b == s@.contains(k),
{
    s.contains(&k)
}

} // verus!
