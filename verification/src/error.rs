//! The error type shared by the storage engine and the request handling.

use vstd::prelude::*;

verus! {

#[verifier::external_type_specification]
#[verifier::external_body]
pub struct ExJsonError(serde_json::Error);

/// Everything that can go wrong in the store.
#[derive(Debug)]
pub enum KvStoreError {
    /// The index points at bytes that do not hold a write.
    GetNonExistValue,
    /// `remove` was asked for a key that the store does not hold.
    RemoveNonExistKey,
    /// A record could not be written in a form that the store reads back.
    SerializeCmdError,
    /// The log could not be replayed into an index.
    RebuildIndexError,
    /// The engine asked for is not the one the directory was created with.
    WrongEngineError,
    /// An I/O failure, with its message.
    Io(String),
    /// The JSON encoder or decoder refused a document.
    Serde(serde_json::Error),
    /// A failure reported as plain text.
    StringErr(String),
    /// A failure of the alternative storage backend, with its message.
    Sled(String),
    /// Stored bytes were not valid UTF-8.
    Utf8Error(String),
}

} // verus!
