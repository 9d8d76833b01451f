//! The storage engine and the parts it is made of.

pub mod file_pool;
pub mod index;
pub mod kvstore;
pub mod log_model;
pub mod memory;
pub mod replay;
pub mod segment;
pub mod sled_engine;

use vstd::prelude::*;
use vstd::string::*;
use crate::error::{KvStoreError, Result};

verus! {

/// The engines a store can run on.
#[derive(Debug, Clone, Copy, PartialEq, Eq, Structural)]
pub enum EngineType {
    /// The log-structured engine of this crate.
    EngineKvStore,
    /// The sled database.
    EngineSled,
}

/// Whether two strings hold the same text.
fn same_text(a: &str, b: &str) -> (r: bool)
    ensures
        r == (a@ == b@),
{
    let x = String::from_str(a);
    let y = String::from_str(b);
    x == y
}

/// The name that stands for an engine.
pub open spec fn engine_name(t: EngineType) -> Seq<char> {
    match t {
        EngineType::EngineKvStore => "kvs"@,
        EngineType::EngineSled => "sled"@,
    }
}

/// The engine that a name stands for, if it is the name of one.
pub open spec fn engine_of_name(s: Seq<char>) -> Option<EngineType> {
    if s == "kvs"@ {
        Some(EngineType::EngineKvStore)
    } else if s == "sled"@ {
        Some(EngineType::EngineSled)
    } else {
        None
    }
}

/// The name of an engine stands for that engine.
pub proof fn lemma_engine_name_round_trip(t: EngineType)
    ensures
        engine_of_name(engine_name(t)) == Some(t),
{
    reveal_strlit("kvs");
    reveal_strlit("sled");
    assert("kvs"@.len() == 3);
    assert("sled"@.len() == 4);
}

impl EngineType {
    /// The engine that `s` names: `kvs` or `sled`. Any other text is an
    /// error whose message ends in that text.
    pub fn from_str(s: &str) -> (r: Result<EngineType>)
        ensures
            match engine_of_name(s@) {
                Some(t) => r == Ok::<EngineType, KvStoreError>(t),
                None => r matches Err(KvStoreError::OtherError(m)) && m@
                    == "invalid init engine type: "@ + s@,
            },
    {
        if same_text(s, "kvs") {
            Ok(EngineType::EngineKvStore)
        } else if same_text(s, "sled") {
            Ok(EngineType::EngineSled)
        } else {
            let mut m = String::from_str("invalid init engine type: ");
            m.append(s);
            Err(KvStoreError::OtherError(m))
        }
    }

    /// The name of the engine.
    pub fn to_string(&self) -> (r: String)
        ensures
            r@ == engine_name(*self),
            engine_of_name(r@) == Some(*self),
    {
        proof {
            lemma_engine_name_round_trip(*self);
        }
        match self {
            EngineType::EngineKvStore => String::from_str("kvs"),
            EngineType::EngineSled => String::from_str("sled"),
        }
    }
}

/// The engine that the marker of a data directory names, if there is a
/// marker; `content` is what the marker holds.
pub fn get_init_engine_type(content: Option<&str>) -> (r: Result<Option<EngineType>>)
    ensures
        match content {
            None => r == Ok::<Option<EngineType>, KvStoreError>(None),
            Some(s) => match engine_of_name(s@) {
                Some(t) => r == Ok::<Option<EngineType>, KvStoreError>(Some(t)),
                None => r matches Err(KvStoreError::OtherError(m)) && m@
                    == "invalid init engine type: "@ + s@,
            },
        },
{
    match content {
        None => Ok(None),
        Some(s) => match EngineType::from_str(s) {
            Ok(t) => Ok(Some(t)),
            Err(e) => Err(e),
        },
    }
}

/// What the marker of a data directory holds for an engine.
pub fn init_engine_marker(engine_type: EngineType) -> (r: &'static str)
    ensures
        r@ == engine_name(engine_type),
        engine_of_name(r@) == Some(engine_type),
{
    proof {
        lemma_engine_name_round_trip(engine_type);
    }
    match engine_type {
        EngineType::EngineKvStore => "kvs",
        EngineType::EngineSled => "sled",
    }
}

/// Holds the engine that was selected against the one the data directory
/// was first opened with. Returns the latter; a directory that was never
/// opened has none. A selected engine that differs from it is an error.
pub fn check_engine_type(init: Option<EngineType>, engine_type: EngineType) -> (r: Result<
    Option<EngineType>,
>)
    ensures
        r is Ok <==> (init matches Some(t) ==> t == engine_type),
        r matches Ok(found) ==> found == init,
        r matches Err(e) ==> (e matches KvStoreError::OtherError(m) && m@
            == "current selected engine ["@ + engine_name(engine_type)
            + "] mismatches with init engine ["@ + engine_name(init.unwrap()) + "]"@),
{
    match init {
        Some(t) => {
            if t == engine_type {
                Ok(Some(t))
            } else {
                let mut m = String::from_str("current selected engine [");
                m.append(init_engine_marker(engine_type));
                m.append("] mismatches with init engine [");
                m.append(init_engine_marker(t));
                m.append("]");
                Err(KvStoreError::OtherError(m))
            }
        },
        None => Ok(None),
    }
}

/// The directory, under the working directory, in which an engine keeps its
/// data.
pub fn engine_path(engine_type: EngineType) -> (r: &'static str)
    ensures
        engine_type == EngineType::EngineKvStore ==> r@ == "./kvs_data"@,
        engine_type == EngineType::EngineSled ==> r@ == "./sled_data"@,
{
    match engine_type {
        EngineType::EngineKvStore => "./kvs_data",
        EngineType::EngineSled => "./sled_data",
    }
}

/// What a value that may be missing says.
pub open spec fn option_view(v: Option<String>) -> Option<Seq<char>> {
    match v {
        Some(s) => Some(s@),
        None => None,
    }
}

/// The value that `contents` has for `key`, if it has one.
pub open spec fn value_of(contents: Map<Seq<char>, Seq<char>>, key: Seq<char>) -> Option<
    Seq<char>,
> {
    if contents.contains_key(key) {
        Some(contents[key])
    } else {
        None
    }
}

/// A store of keys and values, as the server drives it.
///
/// An engine may state what it serves, by `contents`. The contracts bind
/// the engines that do: an operation that succeeds does to the contents what
/// its name says. What an operation leaves behind when it fails is left
/// open, but for a `Remove` that fails because the key has no value. An
/// engine that states nothing, which is the default, is bound to nothing: one
/// that keeps its data on disk may fail at any step, and what it serves is
/// known to it alone.
pub trait KvsEngine {
    /// The contents that the engine states it serves, if it states any.
    open spec fn contents(&self) -> Option<Map<Seq<char>, Seq<char>>> {
        None
    }

    /// The name of the engine, for the server to tell which one it runs on.
    fn get_name(&self) -> String;

    /// Gives `key` the value `value`.
    fn set(&mut self, key: String, value: String) -> (r: Result<()>)
        ensures
            old(self).contents() is Some ==> final(self).contents() is Some,
            old(self).contents() matches Some(before) ==> (r is Ok ==> final(self).contents()
                == Some(before.insert(key@, value@))),
    ;

    /// The value of `key`, if it has one.
    fn get(&mut self, key: String) -> (r: Result<Option<String>>)
        ensures
            old(self).contents() is Some ==> final(self).contents() is Some,
            old(self).contents() matches Some(before) ==> (r matches Ok(found) ==> {
                &&& final(self).contents() == Some(before)
                &&& option_view(found) == value_of(before, key@)
            }),
    ;

    /// Takes `key` out of the store. A key that has no value is an error,
    /// `KeyNotFound`, and leaves the contents as they were.
    fn remove(&mut self, key: String) -> (r: Result<()>)
        ensures
            old(self).contents() is Some ==> final(self).contents() is Some,
            old(self).contents() matches Some(before) ==> (match r {
                Ok(_) => before.contains_key(key@) && final(self).contents() == Some(
                    before.remove(key@),
                ),
                Err(KvStoreError::KeyNotFound) => {
                    &&& !before.contains_key(key@)
                    &&& final(self).contents() == Some(before)
                },
                Err(_) => true,
            }),
    ;
}

} // verus!
