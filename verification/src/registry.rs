//! The registry of the indexes of a node, by name.

use crate::names::NameMap;
use vstd::prelude::*;

verus! {

/// The indexes of a node, each under its name.
pub struct IndexRegistry<V> {
    /// The registered stores by index name.
    pub indexes: NameMap<V>,
}

impl<V> IndexRegistry<V> {
    /// A registry without indexes.
    pub fn empty() -> (registry: Self)
        ensures
            registry.indexes@ == Map::<Seq<char>, V>::empty(),
    {
        IndexRegistry { indexes: NameMap::new() }
    }
}

/// The store of the index called `index_name`, if it is registered.
pub fn get<'a, V>(registry: &'a IndexRegistry<V>, index_name: &str) -> (found: Option<&'a V>)
    ensures
        found == if registry.indexes@.contains_key(index_name@) {
            Some(&registry.indexes@[index_name@])
        } else {
            None
        },
{
    registry.indexes.get(index_name)
}

/// Takes the index called `index_name` out of the registry and hands its
/// store over, so that it can be shut down and cleaned up.
pub fn remove<V>(registry: &mut IndexRegistry<V>, index_name: &str) -> (removed: Option<V>)
    ensures
        final(registry).indexes@ == old(registry).indexes@.remove(index_name@),
        removed == if old(registry).indexes@.contains_key(index_name@) {
            Some(old(registry).indexes@[index_name@])
        } else {
            None
        },
{
    registry.indexes.remove(index_name)
}

/// Registers `store` under `index_name`.  A name that is taken is refused:
/// the registry stays as it is and the store is handed back.
pub fn new<V>(registry: &mut IndexRegistry<V>, index_name: String, store: V) -> (r: Result<(), V>)
    ensures
        match r {
            Ok(_) => !old(registry).indexes@.contains_key(index_name@) && final(registry).indexes@
                == old(registry).indexes@.insert(index_name@, store),
            Err(back) => old(registry).indexes@.contains_key(index_name@) && final(registry).indexes@ == old(registry).indexes@ && back == store,
        },
{
    if registry.indexes.contains(index_name.as_str()) {
        Err(store)
    } else {
        registry.indexes.insert(index_name, store);
        Ok(())
    }
}

} // verus!
