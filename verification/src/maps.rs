//! The `ahash` hash maps the terrain keeps, keyed by octree node or vertex
//! key, with what each holds named so that contracts can speak of it.
use vstd::prelude::*;
use ahash::AHashMap;

verus! {

#[verifier::external_type_specification]
#[verifier::external_body]
#[verifier::reject_recursive_types(K)]
#[verifier::reject_recursive_types(V)]
#[verifier::reject_recursive_types(S)]
pub struct ExAHashMap<K, V, S>(AHashMap<K, V, S>);

#[verifier::external_type_specification]
#[verifier::external_body]
pub struct ExAHashRandomState(ahash::RandomState);

/// What a map of `u32` values holds: the value of each key.
pub uninterp spec fn u32_entries(m: AHashMap<u64, u32>) -> Map<u64, u32>;

/// What a map of indices holds: the index of each key.
pub uninterp spec fn index_entries(m: AHashMap<u64, usize>) -> Map<u64, usize>;

/// What a map of index lists holds: the list of each key.
pub uninterp spec fn list_entries(m: AHashMap<u64, Vec<usize>>) -> Map<u64, Seq<usize>>;

/// `AHashMap::new`: an empty map.
#[verifier::external_body]
pub(crate) fn u32_map_new() -> (r: AHashMap<u64, u32>)
    ensures
        u32_entries(r).dom().is_empty(),
{
    AHashMap::new()
}

/// `AHashMap::get` (through its `HashMap`): the value of `key`, if any.
#[verifier::external_body]
pub(crate) fn u32_map_get(m: &AHashMap<u64, u32>, key: u64) -> (r: Option<u32>)
    ensures
        r == (if u32_entries(*m).contains_key(key) {
            Some(u32_entries(*m)[key])
        } else {
            None
        }),
{
    m.get(&key).copied()
}

/// `AHashMap::insert` (through its `HashMap`): `key` now maps to `value`.
#[verifier::external_body]
pub(crate) fn u32_map_insert(m: &mut AHashMap<u64, u32>, key: u64, value: u32)
    ensures
        u32_entries(*final(m)) == u32_entries(*old(m)).insert(key, value),
{
    m.insert(key, value);
}

/// `AHashMap::remove` (through its `HashMap`): `key` no longer maps to
/// anything.
#[verifier::external_body]
pub(crate) fn u32_map_remove(m: &mut AHashMap<u64, u32>, key: u64)
    ensures
        u32_entries(*final(m)) == u32_entries(*old(m)).remove(key),
{
    m.remove(&key);
}

/// `AHashMap::clear` (through its `HashMap`): the map is empty.
#[verifier::external_body]
pub(crate) fn u32_map_clear(m: &mut AHashMap<u64, u32>)
    ensures
        u32_entries(*final(m)).dom().is_empty(),
{
    m.clear();
}

/// `HashMap::keys` (through `AHashMap`), collected: each key of the map
/// once, in the map's own order, which is left open.
#[verifier::external_body]
pub(crate) fn u32_map_keys(m: &AHashMap<u64, u32>) -> (r: Vec<u64>)
    ensures
        r@.no_duplicates(),
        r@.to_set() == u32_entries(*m).dom(),
{
    m.keys().copied().collect()
}

/// `AHashMap::new`: an empty map.
#[verifier::external_body]
pub(crate) fn index_map_new() -> (r: AHashMap<u64, usize>)
    ensures
        index_entries(r).dom().is_empty(),
{
    AHashMap::new()
}

/// `AHashMap::get` (through its `HashMap`): the value of `key`, if any.
#[verifier::external_body]
pub(crate) fn index_map_get(m: &AHashMap<u64, usize>, key: u64) -> (r: Option<usize>)
    ensures
        r == (if index_entries(*m).contains_key(key) {
            Some(index_entries(*m)[key])
        } else {
            None
        }),
{
    m.get(&key).copied()
}

/// `AHashMap::insert` (through its `HashMap`): `key` now maps to `value`.
#[verifier::external_body]
pub(crate) fn index_map_insert(m: &mut AHashMap<u64, usize>, key: u64, value: usize)
    ensures
        index_entries(*final(m)) == index_entries(*old(m)).insert(key, value),
{
    m.insert(key, value);
}

/// `AHashMap::remove` (through its `HashMap`): `key` no longer maps to
/// anything; its value, if it had one, is returned.
#[verifier::external_body]
pub(crate) fn index_map_remove(m: &mut AHashMap<u64, usize>, key: u64) -> (r: Option<usize>)
    ensures
        index_entries(*final(m)) == index_entries(*old(m)).remove(key),
        r == (if index_entries(*old(m)).contains_key(key) {
            Some(index_entries(*old(m))[key])
        } else {
            None
        }),
{
    m.remove(&key)
}

/// `AHashMap::new`: an empty map.
#[verifier::external_body]
pub(crate) fn list_map_new() -> (r: AHashMap<u64, Vec<usize>>)
    ensures
        list_entries(r).dom().is_empty(),
{
    AHashMap::new()
}

/// `AHashMap::insert` (through its `HashMap`): `key` now maps to `value`.
#[verifier::external_body]
pub(crate) fn list_map_insert(m: &mut AHashMap<u64, Vec<usize>>, key: u64, value: Vec<usize>)
    ensures
        list_entries(*final(m)) == list_entries(*old(m)).insert(key, value@),
{
    m.insert(key, value);
}

/// `AHashMap::remove` (through its `HashMap`): `key` no longer maps to
/// anything; its value, if it had one, is returned.
#[verifier::external_body]
pub(crate) fn list_map_remove(m: &mut AHashMap<u64, Vec<usize>>, key: u64) -> (r: Option<Vec<usize>>)
    ensures
        list_entries(*final(m)) == list_entries(*old(m)).remove(key),
        match r {
            Some(v) => list_entries(*old(m)).contains_key(key) && list_entries(*old(m))[key] == v@,
            None => !list_entries(*old(m)).contains_key(key),
        },
{
    m.remove(&key)
}

/// `AHashMap::clear` (through its `HashMap`): the map is empty.
#[verifier::external_body]
pub(crate) fn list_map_clear(m: &mut AHashMap<u64, Vec<usize>>)
    ensures
        list_entries(*final(m)).dom().is_empty(),
{
    m.clear();
}

} // verus!
