use vstd::prelude::*;

use crate::error::RvError;

verus! {

/// A record of the key-value store: a key and an opaque value.
#[derive(Debug, Clone)]
pub struct StorageEntry {
    pub key: String,
    pub value: Vec<u8>,
}

impl StorageEntry {
    /// A record holding `value` under `key`.
    pub fn new(key: &str, value: Vec<u8>) -> (r: StorageEntry)
        ensures
            r.key@ == key@,
            r.value@ == value@,
    {
        StorageEntry { key: key.to_owned(), value }
    }
}

impl Default for StorageEntry {
    fn default() -> (r: StorageEntry)
        ensures
            r.key@.len() == 0,
            r.value@.len() == 0,
    {
        StorageEntry { key: String::new(), value: Vec::new() }
    }
}

/// The key-value store that every secret-id record lives in.
///
/// Its state is a map from keys to values. Each operation is atomic on the
/// key it touches, and one that fails reports `StorageError` and leaves the
/// store unchanged.
pub trait Storage {
    /// What the store holds.
    spec fn contents(&self) -> Map<Seq<char>, Seq<u8>>;

    /// Names of the children of `prefix`: every key `prefix + s` where `s`
    /// holds no `/` is listed as `s`.
    fn list(&self, prefix: &str) -> (r: Result<Vec<String>, RvError>)
        ensures
            r is Err ==> r->Err_0 == RvError::StorageError,
            r is Ok ==> forall|s: Seq<char>|
                #![trigger self.contents().contains_key(prefix@ + s)]
                self.contents().contains_key(prefix@ + s) && !s.contains('/') ==> exists|i: int|
                    0 <= i < r->Ok_0.len() && #[trigger] r->Ok_0[i]@ == s,
    ;

    /// The record under `key`, if any.
    fn get(&self, key: &str) -> (r: Result<Option<StorageEntry>, RvError>)
        ensures
            r is Err ==> r->Err_0 == RvError::StorageError,
            r is Ok ==> (r->Ok_0 is Some <==> self.contents().contains_key(key@)),
            r is Ok && r->Ok_0 is Some ==> r->Ok_0->Some_0.key@ == key@
                && r->Ok_0->Some_0.value@ == self.contents()[key@],
    ;

    /// Writes the record, replacing any earlier value under its key.
    fn put(&mut self, entry: &StorageEntry) -> (r: Result<(), RvError>)
        ensures
            r is Ok ==> final(self).contents() == old(self).contents().insert(entry.key@, entry.value@),
            r is Err ==> final(self).contents() == old(self).contents() && r->Err_0 == RvError::StorageError,
    ;

    /// Removes the record under `key`; removing an absent key succeeds.
    fn delete(&mut self, key: &str) -> (r: Result<(), RvError>)
        ensures
            r is Ok ==> final(self).contents() == old(self).contents().remove(key@),
            r is Err ==> final(self).contents() == old(self).contents() && r->Err_0 == RvError::StorageError,
    ;
}

} // verus!
