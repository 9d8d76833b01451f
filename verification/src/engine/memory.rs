//! A store that keeps its keys and values in memory.

use vstd::prelude::*;
use vstd::string::*;
use vstd::hash_map::StringHashMap;
use crate::engine::KvsEngine;
use crate::error::{KvStoreError, Result};

verus! {

/// A map from keys to values, held in memory and gone with the process.
pub struct KvStore {
    kv_map: StringHashMap<String>,
}

impl View for KvStore {
    type V = Map<Seq<char>, Seq<char>>;

    closed spec fn view(&self) -> Map<Seq<char>, Seq<char>> {
        self.kv_map@.map_values(|v: String| v@)
    }
}

impl KvStore {
    /// An empty store.
    pub fn new() -> (r: KvStore)
        ensures
            r@ == Map::<Seq<char>, Seq<char>>::empty(),
    {
        let r = KvStore { kv_map: StringHashMap::new() };
        assert(r@ =~= Map::<Seq<char>, Seq<char>>::empty());
        r
    }
}

impl KvsEngine for KvStore {
    /// The store states what it serves: its view.
    open spec fn contents(&self) -> Option<Map<Seq<char>, Seq<char>>> {
        Some(self@)
    }

    /// The name of this engine: `memory`.
    fn get_name(&self) -> (r: String)
        ensures
            r@ == "memory"@,
    {
        String::from_str("memory")
    }

    /// Gives `key` the value `value`. Never fails.
    fn set(&mut self, key: String, value: String) -> (r: Result<()>)
        ensures
            r is Ok,
            final(self)@ == old(self)@.insert(key@, value@),
    {
        self.kv_map.insert(key, value);
        assert(self@ =~= old(self)@.insert(key@, value@));
        Ok(())
    }

    /// The value of `key`, if it has one. Never fails.
    fn get(&mut self, key: String) -> (r: Result<Option<String>>)
        ensures
            final(self)@ == old(self)@,
            r matches Ok(found) && (found is Some <==> old(self)@.contains_key(key@)) && (
            found matches Some(v) ==> v@ == old(self)@[key@]),
    {
        match self.kv_map.get(key.as_str()) {
            Some(val) => Ok(Some(val.clone())),
            None => Ok(None),
        }
    }

    /// Takes `key` out of the store. Fails with `KeyNotFound`, changing
    /// nothing, if the key has no value.
    fn remove(&mut self, key: String) -> (r: Result<()>)
        ensures
            r is Ok <==> old(self)@.contains_key(key@),
            r matches Err(e) ==> e is KeyNotFound,
            final(self)@ == old(self)@.remove(key@),
    {
        if self.kv_map.contains_key(key.as_str()) {
            self.kv_map.remove(key.as_str());
            assert(self@ =~= old(self)@.remove(key@));
            Ok(())
        } else {
            assert(self@ =~= old(self)@.remove(key@));
            Err(KvStoreError::KeyNotFound)
        }
    }
}

} // verus!
