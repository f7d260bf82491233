//! Concurrent hash maps with plain integer keys.
//!
//! The maps are `dashmap::DashMap`s. What a map holds is a mathematical map, named by one
//! specification function per map type; the functions below say what each operation does to it.

use dashmap::DashMap;
use vstd::prelude::*;

verus! {

/// `dashmap::DashMap`, opaque to the prover.
#[verifier::external_type_specification]
#[verifier::external_body]
#[verifier::reject_recursive_types(K)]
#[verifier::reject_recursive_types(V)]
#[verifier::reject_recursive_types(S)]
pub struct ExDashMap<K, V, S>(dashmap::DashMap<K, V, S>);

/// Entries of a map from `u64` keys to numbers.
pub uninterp spec fn number_entries(map: DashMap<u64, u32>) -> Map<u64, u32>;

/// `DashMap::new`: the new map has no entries.
#[verifier::external_body]
pub(crate) fn new_number() -> (map: DashMap<u64, u32>)
    ensures
        (number_entries(map) == Map::<u64, u32>::empty()),
{
    DashMap::new()
}

/// `DashMap::get`: the value stored under `key`, copied out, or `None` without such an entry.
#[verifier::external_body]
pub(crate) fn get_number(map: &DashMap<u64, u32>, key: u64) -> (value: Option<u32>)
    ensures
        value is Some <==> number_entries(*map).dom().contains(key),
        value matches Some(v) ==> v == number_entries(*map)[key],
{
    map.get(&key).map(|entry| *entry.value())
}

/// `DashMap::insert`: stores `value` under `key`, replacing what was there.
#[verifier::external_body]
pub(crate) fn insert_number(map: &mut DashMap<u64, u32>, key: u64, value: u32)
    ensures
        number_entries(*final(map)) == number_entries(*old(map)).insert(key, value),
{
    map.insert(key, value);
}

/// `DashMap::remove`: takes the entry under `key` out of the map, if there is one, and hands its
/// value out.
#[verifier::external_body]
pub(crate) fn remove_number(map: &mut DashMap<u64, u32>, key: u64) -> (value: Option<u32>)
    ensures
        number_entries(*final(map)) == number_entries(*old(map)).remove(key),
        value is Some <==> number_entries(*old(map)).dom().contains(key),
        value matches Some(v) ==> v == number_entries(*old(map))[key],
{
    map.remove(&key).map(|entry| entry.1)
}

/// Entries of a map from `u64` keys to lists of block numbers.
pub uninterp spec fn blocks_entries(map: DashMap<u64, Vec<u32>>) -> Map<u64, Seq<u32>>;

/// `DashMap::new`: the new map has no entries.
#[verifier::external_body]
pub(crate) fn new_blocks() -> (map: DashMap<u64, Vec<u32>>)
    ensures
        (blocks_entries(map) == Map::<u64, Seq<u32>>::empty()),
{
    DashMap::new()
}

/// `DashMap::get`: a copy of the list stored under `key`, or `None` without such an entry.
#[verifier::external_body]
pub(crate) fn get_blocks(map: &DashMap<u64, Vec<u32>>, key: u64) -> (value: Option<Vec<u32>>)
    ensures
        value is Some <==> blocks_entries(*map).dom().contains(key),
        value matches Some(v) ==> v@ == blocks_entries(*map)[key],
{
    map.get(&key).map(|entry| entry.value().clone())
}

/// `DashMap::insert`: stores `value` under `key`, replacing what was there.
#[verifier::external_body]
pub(crate) fn insert_blocks(map: &mut DashMap<u64, Vec<u32>>, key: u64, value: Vec<u32>)
    ensures
        blocks_entries(*final(map)) == blocks_entries(*old(map)).insert(key, value@),
{
    map.insert(key, value);
}

/// `DashMap::remove`: takes the entry under `key` out of the map, if there is one, and hands its
/// value out.
#[verifier::external_body]
pub(crate) fn remove_blocks(map: &mut DashMap<u64, Vec<u32>>, key: u64) -> (value: Option<Vec<u32>>)
    ensures
        blocks_entries(*final(map)) == blocks_entries(*old(map)).remove(key),
        value is Some <==> blocks_entries(*old(map)).dom().contains(key),
        value matches Some(v) ==> v@ == blocks_entries(*old(map))[key],
{
    map.remove(&key).map(|entry| entry.1)
}

/// Entries of a map from block numbers to lists of request ids.
pub uninterp spec fn owners_entries(map: DashMap<u32, Vec<u64>>) -> Map<u32, Seq<u64>>;

/// `DashMap::new`: the new map has no entries.
#[verifier::external_body]
pub(crate) fn new_owners() -> (map: DashMap<u32, Vec<u64>>)
    ensures
        (owners_entries(map) == Map::<u32, Seq<u64>>::empty()),
{
    DashMap::new()
}

/// `DashMap::get`: a copy of the list stored under `key`, or `None` without such an entry.
#[verifier::external_body]
pub(crate) fn get_owners(map: &DashMap<u32, Vec<u64>>, key: u32) -> (value: Option<Vec<u64>>)
    ensures
        value is Some <==> owners_entries(*map).dom().contains(key),
        value matches Some(v) ==> v@ == owners_entries(*map)[key],
{
    map.get(&key).map(|entry| entry.value().clone())
}

/// `DashMap::insert`: stores `value` under `key`, replacing what was there.
#[verifier::external_body]
pub(crate) fn insert_owners(map: &mut DashMap<u32, Vec<u64>>, key: u32, value: Vec<u64>)
    ensures
        owners_entries(*final(map)) == owners_entries(*old(map)).insert(key, value@),
{
    map.insert(key, value);
}

/// `DashMap::remove`: takes the entry under `key` out of the map, if there is one, and hands its
/// value out.
#[verifier::external_body]
pub(crate) fn remove_owners(map: &mut DashMap<u32, Vec<u64>>, key: u32) -> (value: Option<Vec<u64>>)
    ensures
        owners_entries(*final(map)) == owners_entries(*old(map)).remove(key),
        value is Some <==> owners_entries(*old(map)).dom().contains(key),
        value matches Some(v) ==> v@ == owners_entries(*old(map))[key],
{
    map.remove(&key).map(|entry| entry.1)
}

/// `DashMap::len`: the number of entries.
#[verifier::external_body]
pub(crate) fn len_owners(map: &DashMap<u32, Vec<u64>>) -> (n: usize)
    ensures
        n == owners_entries(*map).dom().len(),
{
    map.len()
}

/// Entries of a map from `u64` keys to pairs.
pub uninterp spec fn pair_entries(map: DashMap<u64, (u64, u32)>) -> Map<u64, (u64, u32)>;

/// `DashMap::new`: the new map has no entries.
#[verifier::external_body]
pub(crate) fn new_pair() -> (map: DashMap<u64, (u64, u32)>)
    ensures
        (pair_entries(map) == Map::<u64, (u64, u32)>::empty()),
{
    DashMap::new()
}

/// `DashMap::get`: the pair stored under `key`, copied out, or `None` without such an entry.
#[verifier::external_body]
pub(crate) fn get_pair(map: &DashMap<u64, (u64, u32)>, key: u64) -> (value: Option<(u64, u32)>)
    ensures
        value is Some <==> pair_entries(*map).dom().contains(key),
        value matches Some(v) ==> v == pair_entries(*map)[key],
{
    map.get(&key).map(|entry| *entry.value())
}

/// `DashMap::insert`: stores `value` under `key`, replacing what was there.
#[verifier::external_body]
pub(crate) fn insert_pair(map: &mut DashMap<u64, (u64, u32)>, key: u64, value: (u64, u32))
    ensures
        pair_entries(*final(map)) == pair_entries(*old(map)).insert(key, value),
{
    map.insert(key, value);
}

/// `DashMap::remove`: takes the entry under `key` out of the map, if there is one, and hands its
/// value out.
#[verifier::external_body]
pub(crate) fn remove_pair(map: &mut DashMap<u64, (u64, u32)>, key: u64) -> (value: Option<(u64, u32)>)
    ensures
        pair_entries(*final(map)) == pair_entries(*old(map)).remove(key),
        value is Some <==> pair_entries(*old(map)).dom().contains(key),
        value matches Some(v) ==> v == pair_entries(*old(map))[key],
{
    map.remove(&key).map(|entry| entry.1)
}

/// `DashMap::len`: the number of entries.
#[verifier::external_body]
pub(crate) fn len_pair(map: &DashMap<u64, (u64, u32)>) -> (n: usize)
    ensures
        n == pair_entries(*map).dom().len(),
{
    map.len()
}

} // verus!
