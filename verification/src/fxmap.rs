//! The hash map and hash set of the `fxhash` crate, as the aggregator keeps
//! its books in them.
//!
//! `FxHashMap` and `FxHashSet` are std's `HashMap` and `HashSet` with the
//! deterministic `FxHasher`. vstd describes these collections by their
//! views (`Map` and `Set`) but promises the effect of an operation only for
//! hashers it knows, so each operation used here has a wrapper that states
//! its effect on the view, for keys whose `Hash` and `Eq` agree with
//! equality (`obeys_key_model`, which vstd grants the integer types).

use vstd::prelude::*;
use vstd::std_specs::hash::obeys_key_model;
use std::hash::{BuildHasherDefault, Hash};
use fxhash::{FxHasher, FxHashMap, FxHashSet};

verus! {

/// `std::hash::BuildHasherDefault`, the builder of `FxHasher`s.
#[verifier::external_type_specification]
#[verifier::external_body]
#[verifier::reject_recursive_types(H)]
pub struct ExBuildHasherDefault<H>(BuildHasherDefault<H>);

/// `fxhash::FxHasher`.
#[verifier::external_type_specification]
#[verifier::external_body]
pub struct ExFxHasher(FxHasher);

/// `HashMap::insert` on an `FxHashMap`: afterwards `k` maps to `v` and every
/// other key is as before (the value that was replaced is dropped).
#[verifier::external_body]
pub(crate) fn map_insert<K: Hash + Eq, V>(m: &mut FxHashMap<K, V>, k: K, v: V)
    requires
        obeys_key_model::<K>(),
    ensures
        final(m)@ == old(m)@.insert(k, v),
{
    m.insert(k, v);
}

/// `HashMap::remove` on an `FxHashMap`: `k` leaves the map and its value,
/// if it had one, is returned.
#[verifier::external_body]
pub(crate) fn map_remove<K: Hash + Eq, V>(m: &mut FxHashMap<K, V>, k: &K) -> (r: Option<V>)
    requires
        obeys_key_model::<K>(),
    ensures
        final(m)@ == old(m)@.remove(*k),
        r == (if old(m)@.contains_key(*k) { Some(old(m)@[*k]) } else { None::<V> }),
{
    m.remove(k)
}

/// `HashMap::get` on an `FxHashMap`: the value of `k`, if it has one.
#[verifier::external_body]
pub(crate) fn map_get<'a, K: Hash + Eq, V>(m: &'a FxHashMap<K, V>, k: &K) -> (r: Option<&'a V>)
    requires
        obeys_key_model::<K>(),
    ensures
        match r {
            Some(v) => m@.contains_key(*k) && *v == m@[*k],
            None => !m@.contains_key(*k),
        },
{
    m.get(k)
}

/// `HashMap::contains_key` on an `FxHashMap`.
#[verifier::external_body]
pub(crate) fn map_contains<K: Hash + Eq, V>(m: &FxHashMap<K, V>, k: &K) -> (r: bool)
    requires
        obeys_key_model::<K>(),
    ensures
        r == m@.contains_key(*k),
{
    m.contains_key(k)
}

/// `HashSet::contains` on an `FxHashSet`.
#[verifier::external_body]
pub(crate) fn set_contains<K: Hash + Eq>(s: &FxHashSet<K>, k: &K) -> (r: bool)
    requires
        obeys_key_model::<K>(),
    ensures
        r == s@.contains(*k),
{
    s.contains(k)
}

/// `HashSet::insert` on an `FxHashSet`.
#[verifier::external_body]
pub(crate) fn set_insert<K: Hash + Eq>(s: &mut FxHashSet<K>, k: K)
    requires
        obeys_key_model::<K>(),
    ensures
        final(s)@ == old(s)@.insert(k),
{
    s.insert(k);
}

/// `HashSet::remove` on an `FxHashSet`.
#[verifier::external_body]
pub(crate) fn set_remove<K: Hash + Eq>(s: &mut FxHashSet<K>, k: &K)
    requires
        obeys_key_model::<K>(),
    ensures
        final(s)@ == old(s)@.remove(*k),
{
    s.remove(k);
}

/// The members of an `FxHashSet`, each once, in the set's own order (which
/// this contract leaves open), copied out by `HashSet::iter`.
#[verifier::external_body]
pub(crate) fn set_elements<K: Hash + Eq + Copy>(s: &FxHashSet<K>) -> (r: Vec<K>)
    requires
        obeys_key_model::<K>(),
    ensures
        r@.to_set() == s@,
        r@.no_duplicates(),
{
    s.iter().copied().collect()
}

} // verus!
