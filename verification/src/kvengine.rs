//! The capability that every storage engine offers.

use crate::error::KvStoreError;
use vstd::prelude::*;

verus! {

/// A key-value storage engine: strings stored under string keys.
///
/// `contents` is the mapping that the engine stands for, and `inv` what
/// must hold of an engine for its operations to be called.
pub trait KvEngine {
    /// What holds of the engine between operations.
    spec fn inv(&self) -> bool;

    /// The mapping that the engine holds.
    spec fn contents(&self) -> Map<Seq<char>, Seq<char>>;

    /// Stores `value` under `key`. On success the key maps to the value and
    /// nothing else has changed. On failure the write has either not
    /// happened or happened in full.
    fn set(&mut self, key: String, value: String) -> (out: Result<(), KvStoreError>)
        requires
            old(self).inv(),
        ensures
            final(self).inv(),
            out is Ok ==> final(self).contents() == old(self).contents().insert(key@, value@),
            out is Err ==> final(self).contents() == old(self).contents() || final(self).contents()
                == old(self).contents().insert(key@, value@),
    ;

    /// Looks `key` up. A key that is not there is no error: the answer is
    /// `None`.
    fn get(&self, key: String) -> (out: Result<Option<String>, KvStoreError>)
        requires
            self.inv(),
        ensures
            out matches Ok(Some(value)) ==> self.contents().contains_key(key@) && self.contents()[key@]
                == value@,
            out matches Ok(None) ==> !self.contents().contains_key(key@),
    ;

    /// Deletes `key`. A key that is not there is an error,
    /// `RemoveNonExistKey`, and nothing changes. On success the key is gone
    /// and nothing else has changed. On another failure the removal has
    /// either not happened or happened in full.
    fn remove(&mut self, key: String) -> (out: Result<(), KvStoreError>)
        requires
            old(self).inv(),
        ensures
            final(self).inv(),
            !old(self).contents().contains_key(key@) ==> out == Err::<(), KvStoreError>(
                KvStoreError::RemoveNonExistKey,
            ) && final(self).contents() == old(self).contents(),
            out is Ok ==> final(self).contents() == old(self).contents().remove(key@),
            out is Err ==> final(self).contents() == old(self).contents() || final(self).contents()
                == old(self).contents().remove(key@),
    ;
}

} // verus!
