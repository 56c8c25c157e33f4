//! Hash maps of indices: from indices, and from the UTF-8 bytes of names.
use vstd::prelude::*;

verus! {

/// A map from indices to indices: from byte offsets to op indices, or from
/// op indices to the blocks that start there.
#[verifier::external_body]
pub struct IndexTable {
    map: hashbrown::HashMap<usize, usize>,
}

/// What an index table maps.
pub uninterp spec fn index_table_contents(table: IndexTable) -> Map<usize, usize>;

/// The empty map of indices.
pub open spec fn no_index_pairs() -> Map<usize, usize> {
    Map::empty()
}

/// An empty table.
///
/// Trusted: calls `hashbrown::HashMap::new`, which creates an empty map.
#[verifier::external_body]
pub(crate) fn index_table_new() -> (res: IndexTable)
    ensures
        index_table_contents(res) == no_index_pairs(),
{
    IndexTable { map: hashbrown::HashMap::new() }
}

/// Maps `key` to `value`, replacing what `key` mapped to.
///
/// Trusted: calls `hashbrown::HashMap::insert`, which stores the value under
/// the key and replaces the value of an equal key already present.
#[verifier::external_body]
pub(crate) fn index_table_insert(table: &mut IndexTable, key: usize, value: usize)
    ensures
        index_table_contents(*final(table)) == index_table_contents(*old(table)).insert(key, value),
{
    table.map.insert(key, value);
}

/// What `key` maps to, if anything.
///
/// Trusted: calls `hashbrown::HashMap::get`, which returns the value stored
/// under an equal key.
#[verifier::external_body]
pub(crate) fn index_table_get(table: &IndexTable, key: usize) -> (res: Option<usize>)
    ensures
        res == (if index_table_contents(*table).contains_key(key) {
            Some(index_table_contents(*table)[key])
        } else {
            None
        }),
{
    table.map.get(&key).copied()
}

/// A map from names, by their UTF-8 bytes, to indices: the classes a loader
/// defined, or the strings an interner holds.
#[verifier::external_body]
pub struct NameTable {
    map: hashbrown::HashMap<Vec<u8>, usize>,
}

/// What a name table maps, by the UTF-8 bytes of names.
pub uninterp spec fn name_table_contents(table: NameTable) -> Map<Seq<u8>, usize>;

/// No names.
pub open spec fn no_names() -> Map<Seq<u8>, usize> {
    Map::empty()
}

/// An empty table.
///
/// Trusted: calls `hashbrown::HashMap::new`, which creates an empty map.
#[verifier::external_body]
pub(crate) fn name_table_new() -> (res: NameTable)
    ensures
        name_table_contents(res) == no_names(),
{
    NameTable { map: hashbrown::HashMap::new() }
}

/// Maps `name` to `index`, replacing what `name` mapped to.
///
/// Trusted: calls `hashbrown::HashMap::insert`, which stores the value under
/// the key and replaces the value of an equal key already present.
#[verifier::external_body]
pub(crate) fn name_table_insert(table: &mut NameTable, name: Vec<u8>, index: usize)
    ensures
        name_table_contents(*final(table)) == name_table_contents(*old(table)).insert(name@, index),
{
    table.map.insert(name, index);
}

/// What `name` maps to, if anything.
///
/// Trusted: calls `hashbrown::HashMap::get`, which returns the value stored
/// under a key equal to `name` (byte-wise equal, for byte vectors).
#[verifier::external_body]
pub(crate) fn name_table_get(table: &NameTable, name: &[u8]) -> (res: Option<usize>)
    ensures
        res == (if name_table_contents(*table).contains_key(name@) {
            Some(name_table_contents(*table)[name@])
        } else {
            None
        }),
{
    table.map.get(name).copied()
}

} // verus!
