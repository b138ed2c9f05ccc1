//! The hash maps of the world use rustc-hash's `FxHashMap`. Its behaviour as a
//! finite map is taken on trust through the wrappers below.
use rustc_hash::FxHashMap;
use vstd::prelude::*;

verus! {

/// rustc-hash's deterministic hasher builder.
#[verifier::external_type_specification]
#[verifier::external_body]
pub struct ExFxBuildHasher(rustc_hash::FxBuildHasher);

/// Keys of the world's hash maps: tuples of integers, hashed and compared by std.
pub trait MapKey: core::hash::Hash + Eq {
}

impl MapKey for (i32, i32) {
}

impl MapKey for (i32, i32, i32) {
}

/// Calls `FxHashMap::default` (`HashMap::<K, V, FxBuildHasher>::default`); claims the new map is empty.
#[verifier::external_body]
pub(crate) fn map_new<K: MapKey, V>() -> (fresh: FxHashMap<K,V>)
    ensures
        fresh@.is_empty(),
{
    FxHashMap::default()
}

/// Calls `HashMap::insert` on an `FxHashMap`; claims the key now maps to `v`, the rest
/// is unchanged, and the previous value (if any) is returned.
#[verifier::external_body]
pub(crate) fn map_insert<K: MapKey, V>(m: &mut FxHashMap<K, V>, k: K, v: V) -> (prev: Option<V>)
    ensures
        final(m)@ == old(m)@.insert(k, v),
        match prev {
            Some(p) => old(m)@.contains_key(k) && p == old(m)@[k],
            None => !old(m)@.contains_key(k),
        },
{
    m.insert(k, v)
}

/// Calls `HashMap::remove` on an `FxHashMap`; claims the key is gone afterwards and its
/// previous value (if any) is returned.
#[verifier::external_body]
pub(crate) fn map_remove<K: MapKey, V>(m: &mut FxHashMap<K, V>, k: K) -> (prev: Option<V>)
    ensures
        final(m)@ == old(m)@.remove(k),
        match prev {
            Some(p) => old(m)@.contains_key(k) && p == old(m)@[k],
            None => !old(m)@.contains_key(k),
        },
{
    m.remove(&k)
}

/// Calls `HashMap::contains_key` on an `FxHashMap`; claims it answers membership of the key.
#[verifier::external_body]
pub(crate) fn map_contains_key<K: MapKey, V>(m: &FxHashMap<K, V>, k: K) -> (found: bool)
    ensures
        found == m@.contains_key(k),
{
    m.contains_key(&k)
}

/// Calls `HashMap::get` on an `FxHashMap`; claims it returns the value stored under the key, if any.
#[verifier::external_body]
pub(crate) fn map_get<K: MapKey, V>(m: &FxHashMap<K, V>, k: K) -> (r: Option<&V>)
    ensures
        match r {
            Some(v) => m@.contains_key(k) && *v == m@[k],
            None => !m@.contains_key(k),
        },
{
    m.get(&k)
}

/// Calls `HashMap::get_mut` on an `FxHashMap`; claims it lends out the value stored under
/// the key, if any, and that what is written through the loan is what the map then holds.
#[verifier::external_body]
pub(crate) fn map_get_mut<K: MapKey, V>(m: &mut FxHashMap<K, V>, k: K) -> (r: Option<&mut V>)
    ensures
        match r {
            Some(v) => {
                &&& old(m)@.contains_key(k)
                &&& *v == old(m)@[k]
                &&& final(m)@ == old(m)@.insert(k, *final(v))
            },
            None => !old(m)@.contains_key(k) && final(m)@ == old(m)@,
        },
{
    m.get_mut(&k)
}

/// Calls `HashMap::iter` on an `FxHashMap` and copies each entry out; claims every entry
/// of the map comes out exactly once, in an unspecified order.
#[verifier::external_body]
pub(crate) fn map_entries<K: MapKey + Copy, V: Copy>(m: &FxHashMap<K, V>) -> (r: Vec<(K, V)>)
    ensures
        forall|i: int| 0 <= i < r@.len() ==> #[trigger] m@.contains_key(r@[i].0) && m@[r@[i].0] == r@[i].1,
        forall|k: K| #[trigger] m@.contains_key(k) ==> exists|i: int| 0 <= i < r@.len() && r@[i].0 == k,
        forall|i: int, j: int| 0 <= i < r@.len() && 0 <= j < r@.len() && i != j ==> r@[i].0 != r@[j].0,
{
    m.iter().map(|(k, v)| (*k, *v)).collect()
}

} // verus!
