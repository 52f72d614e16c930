//! Trusted boundary around the embedded ordered byte-key store.
//!
//! The engine is modelled as a map from key strings to byte values,
//! [`store_contents`].  Every operation the repositories use goes through a
//! wrapper here whose contract states, over that map, what the engine's own
//! source shows: what `insert` does to the contents, what `get` and a prefix
//! scan return, and that `clear` empties the store.  The engine guarantees
//! atomic single-key operations only; nothing here claims atomicity across
//! keys, and a failed operation leaves the modelled contents unspecified.

use vstd::prelude::*;
use crate::keys::has_prefix;

verus! {

#[verifier::external_type_specification]
#[verifier::external_body]
pub struct ExDb(sled::Db);

#[verifier::external_type_specification]
#[verifier::external_body]
pub struct ExSledError(sled::Error);

/// Errors of the persistence layer.
///
/// A lookup miss is not an error: reads return `Option`.  `Decode` reports
/// stored bytes that do not match the expected entity shape; `Store` reports
/// a failure of the underlying engine.
#[derive(Debug, Clone, Copy, PartialEq, Eq, Structural)]
pub enum DbError {
    Decode,
    Store,
}

/// The contents of a store with nothing in it.
pub open spec fn empty_store() -> Map<Seq<char>, Seq<u8>> {
    Map::empty()
}

/// What the store holds: each key of the underlying tree that is a valid
/// UTF-8 string, read as its characters, mapped to the bytes stored under
/// it.  Keys that are not valid UTF-8 (none is ever written by this
/// library) are outside the model.
pub uninterp spec fn store_contents(s: StoreEngine) -> Map<Seq<char>, Seq<u8>>;

/// Handle to one open store.
pub struct StoreEngine {
    db: sled::Db,
}

impl View for StoreEngine {
    type V = Map<Seq<char>, Seq<u8>>;

    open spec fn view(&self) -> Map<Seq<char>, Seq<u8>> {
        store_contents(*self)
    }
}

impl StoreEngine {
    /// Relies on sled::open: opens (or creates) the store directory at
    /// `path`.  A store on disk holds finitely many keys.
    #[verifier::external_body]
    pub(crate) fn open(path: &str) -> (r: Result<StoreEngine, sled::Error>)
        ensures
            r matches Ok(s) ==> store_contents(s).dom().finite(),
    {
        match sled::open(path) {
            Ok(db) => Ok(StoreEngine { db }),
            Err(e) => Err(e),
        }
    }

    /// Relies on sled::Config::open with `temporary(true)`: a fresh store
    /// backed by a new directory, so it starts with no keys at all.
    #[verifier::external_body]
    pub(crate) fn temporary() -> (r: Result<StoreEngine, sled::Error>)
        ensures
            r matches Ok(s) ==> store_contents(s) == empty_store(),
    {
        match sled::Config::new().temporary(true).open() {
            Ok(db) => Ok(StoreEngine { db }),
            Err(e) => Err(e),
        }
    }

    /// Relies on sled::Tree::insert: atomically sets `key` to `value`,
    /// replacing any previous value.
    #[verifier::external_body]
    pub(crate) fn put(&mut self, key: &str, value: Vec<u8>) -> (r: Result<(), sled::Error>)
        ensures
            r is Ok ==> final(self)@ == old(self)@.insert(key@, value@),
    {
        match self.db.insert(key.as_bytes(), value) {
            Ok(_) => Ok(()),
            Err(e) => Err(e),
        }
    }

    /// Relies on sled::Tree::get: returns the value stored under `key`, or
    /// `None` when the key is absent.
    #[verifier::external_body]
    pub(crate) fn get(&self, key: &str) -> (r: Result<Option<Vec<u8>>, sled::Error>)
        ensures
            r matches Ok(Some(v)) ==> self@.contains_key(key@) && self@[key@] == v@,
            r matches Ok(None) ==> !self@.contains_key(key@),
    {
        match self.db.get(key.as_bytes()) {
            Ok(Some(v)) => Ok(Some(v.to_vec())),
            Ok(None) => Ok(None),
            Err(e) => Err(e),
        }
    }

    /// Relies on sled::Tree::scan_prefix: yields every key starting with the
    /// prefix, each exactly once, with its stored value.  The store model
    /// holds the keys that are valid UTF-8 strings; a foreign key that is
    /// not (this library writes only string keys) is no key of the model
    /// and is left out of the result.
    #[verifier::external_body]
    pub(crate) fn scan_prefix_pairs(&self, prefix: &str) -> (r: Result<
        Vec<(String, Vec<u8>)>,
        sled::Error,
    >)
        ensures
            r matches Ok(items) ==> {
                &&& forall|i: int|
                    0 <= i < items@.len() ==> {
                        &&& has_prefix((#[trigger] items@[i]).0@, prefix@)
                        &&& self@.contains_key(items@[i].0@)
                        &&& self@[items@[i].0@] == items@[i].1@
                    }
                &&& forall|k: Seq<char>|
                    #[trigger] self@.contains_key(k) && has_prefix(k, prefix@)
                        ==> exists|i: int|
                        0 <= i < items@.len() && (#[trigger] items@[i]).0@ == k
                &&& forall|i: int, j: int|
                    0 <= i < j < items@.len() ==> (#[trigger] items@[i]).0@ != (
                    #[trigger] items@[j]).0@
            },
    {
        let mut out: Vec<(String, Vec<u8>)> = Vec::new();
        for item in self.db.scan_prefix(prefix.as_bytes()) {
            match item {
                Ok((k, v)) => match String::from_utf8(k.to_vec()) {
                    Ok(key) => out.push((key, v.to_vec())),
                    Err(_) => {},
                },
                Err(e) => return Err(e),
            }
        }
        Ok(out)
    }

    /// Relies on sled::Tree::clear: removes every key in the store.
    #[verifier::external_body]
    pub(crate) fn clear(&mut self) -> (r: Result<(), sled::Error>)
        ensures
            r is Ok ==> final(self)@ == empty_store(),
    {
        self.db.clear()
    }
}

/// Relies on chrono::Utc::now: milliseconds since the Unix epoch.  The wall
/// clock decides the value, so nothing is promised of it.
#[verifier::external_body]
pub(crate) fn now_timestamp() -> (r: i64) {
    chrono::Utc::now().timestamp_millis()
}

} // verus!
