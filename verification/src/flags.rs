//! Flags by workspace, in a map that several threads may use.

use crate::collections::string_views;
use vstd::prelude::*;

verus! {

/// The flag that the map keeps for each workspace, by the id of the
/// workspace.
pub uninterp spec fn flags(map: dashmap::DashMap<String, bool>) -> Map<Seq<char>, bool>;

/// `DashMap::new`: a map that holds nothing.
#[verifier::external_body]
pub(crate) fn flags_new() -> (map: dashmap::DashMap<String, bool>)
    ensures
        flags(map) =~= Map::empty(),
{
    dashmap::DashMap::new()
}

/// `DashMap::insert`: afterwards the key has this value, and every other
/// key what it had.
#[verifier::external_body]
pub(crate) fn flags_insert(map: &mut dashmap::DashMap<String, bool>, key: String, value: bool)
    ensures
        flags(*final(map)) == flags(*old(map)).insert(key@, value),
{
    map.insert(key, value);
}

/// `DashMap::get`, with the value copied out: the value of the key, if the
/// map holds the key.
#[verifier::external_body]
pub(crate) fn flags_get(map: &dashmap::DashMap<String, bool>, key: &str) -> (found: Option<bool>)
    ensures
        found is Some == flags(*map).contains_key(key@),
        found matches Some(value) ==> value == flags(*map)[key@],
{
    map.get(key).map(|entry| *entry.value())
}

/// `DashMap::remove`: afterwards the map does not hold the key, and every
/// other key has what it had.
#[verifier::external_body]
pub(crate) fn flags_remove(map: &mut dashmap::DashMap<String, bool>, key: &str)
    ensures
        flags(*final(map)) == flags(*old(map)).remove(key@),
{
    map.remove(key);
}

/// `DashMap::iter`, with the keys copied out: every key of the map, once,
/// in an order that is not fixed.
#[verifier::external_body]
pub(crate) fn flags_keys(map: &dashmap::DashMap<String, bool>) -> (keys: Vec<String>)
    ensures
        string_views(keys@).no_duplicates(),
        string_views(keys@).to_set() == flags(*map).dom(),
{
    map.iter().map(|entry| entry.key().clone()).collect()
}

} // verus!
