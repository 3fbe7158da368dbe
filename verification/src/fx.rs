//! The hash maps of the library: one keyed by 64-bit test keys, which holds the
//! timing history, and one keyed by names, which holds positions.

use rustc_hash::FxHashMap;
use vstd::prelude::*;

verus! {

/// `rustc_hash::FxBuildHasher`, the hasher parameter of `FxHashMap`.
#[verifier::external_type_specification]
#[verifier::external_body]
pub struct ExFxBuildHasher(rustc_hash::FxBuildHasher);

/// `FxHashMap::default`: a map without entries.
#[verifier::external_body]
pub(crate) fn fx_new<V>() -> (r: FxHashMap<u64, V>)
    ensures
        (r@ == Map::<u64, V>::empty()),
{
    FxHashMap::default()
}

/// `FxHashMap::get`: the value under `key`, if there is one.
#[verifier::external_body]
pub(crate) fn fx_get<V>(map: &FxHashMap<u64, V>, key: u64) -> (r: Option<&V>)
    ensures
        r == (if map@.contains_key(key) {
            Some(&map@[key])
        } else {
            None::<&V>
        }),
{
    map.get(&key)
}

/// `FxHashMap::insert`: sets the value under `key`, replacing an earlier one.
#[verifier::external_body]
pub(crate) fn fx_insert<V>(map: &mut FxHashMap<u64, V>, key: u64, value: V)
    ensures
        final(map)@ == old(map)@.insert(key, value),
{
    map.insert(key, value);
}

/// `FxHashMap::remove`: takes the entry under `key` out and gives its value.
#[verifier::external_body]
pub(crate) fn fx_remove<V>(map: &mut FxHashMap<u64, V>, key: u64) -> (r: Option<V>)
    ensures
        final(map)@ == old(map)@.remove(key),
        r == (if old(map)@.contains_key(key) {
            Some(old(map)@[key])
        } else {
            None::<V>
        }),
{
    map.remove(&key)
}

/// `FxHashMap::keys`: every key once. Nothing is said of the order.
#[verifier::external_body]
pub(crate) fn fx_keys<V>(map: &FxHashMap<u64, V>) -> (r: Vec<u64>)
    ensures
        r@.no_duplicates(),
        r@.to_set() == map@.dom(),
{
    map.keys().copied().collect()
}

/// The names that an index knows, each with its position.
pub uninterp spec fn indexed(index: FxHashMap<String, usize>) -> Map<Seq<char>, usize>;

/// `FxHashMap::default`: an index without names.
#[verifier::external_body]
pub(crate) fn index_new() -> (r: FxHashMap<String, usize>)
    ensures
        (indexed(r) == Map::<Seq<char>, usize>::empty()),
{
    FxHashMap::default()
}

/// `FxHashMap::get`: the position under `name`, if the index knows it.
#[verifier::external_body]
pub(crate) fn index_get(index: &FxHashMap<String, usize>, name: &str) -> (r: Option<usize>)
    ensures
        r == (if indexed(*index).contains_key(name@) {
            Some(indexed(*index)[name@])
        } else {
            None::<usize>
        }),
{
    index.get(name).copied()
}

/// `FxHashMap::insert`: sets the position under `name`.
#[verifier::external_body]
pub(crate) fn index_insert(index: &mut FxHashMap<String, usize>, name: String, at: usize)
    ensures
        indexed(*final(index)) == indexed(*old(index)).insert(name@, at),
{
    index.insert(name, at);
}

} // verus!
