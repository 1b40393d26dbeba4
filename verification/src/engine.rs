//! Which storage engine a directory is served with.
//!
//! The choice is made once, when a directory is first served, and kept with
//! the data. Every later start must agree with it.

use crate::error::KvStoreError;
use vstd::prelude::*;

verus! {

/// The storage engines that a server can run on.
#[derive(Debug, Clone, Copy, PartialEq, Eq, Structural)]
pub enum Engine {
    /// The log-structured store of this library.
    Kvs,
    /// The alternative backend.
    Sled,
}

/// The engine that a directory is served with when nothing asks for
/// another.
pub open spec fn default_engine() -> Engine {
    Engine::Kvs
}

/// The engine to run on, given the choice `kept` with the data, if one was
/// made before, and the one `asked` for now, if any.
///
/// A choice made before stands, and asking for another engine is an error,
/// `WrongEngineError`. With no choice made before, the engine asked for is
/// taken, or the default if none is.
pub fn select_engine(kept: Option<Engine>, asked: Option<Engine>) -> (out: Result<Engine, KvStoreError>)
    ensures
        out == match (kept, asked) {
            (Some(k), Some(a)) => if a == k {
                Ok::<Engine, KvStoreError>(k)
            } else {
                Err::<Engine, KvStoreError>(KvStoreError::WrongEngineError)
            },
            (Some(k), None) => Ok::<Engine, KvStoreError>(k),
            (None, Some(a)) => Ok::<Engine, KvStoreError>(a),
            (None, None) => Ok::<Engine, KvStoreError>(default_engine()),
        },
{
    match kept {
        Some(k) => {
            if let Some(a) = asked {
                if a != k {
                    return Err(KvStoreError::WrongEngineError);
                }
            }
            Ok(k)
        },
        None => match asked {
            Some(a) => Ok(a),
            None => Ok(Engine::Kvs),
        },
    }
}

} // verus!
