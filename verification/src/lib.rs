//! A log-structured key-value store: an append-only log of mutation records,
//! an index from each live key to the span of its latest record, and
//! compaction that rewrites the log down to the live records.
//!
//! The store keeps its log as bytes in memory and does no I/O of its own;
//! whoever owns it mirrors the bytes on disk. Around the store stand what a
//! server needs to put it on a network: the requests and responses, the
//! answer to each request, and what a client makes of the answers.

pub mod client;
pub mod codec;
pub mod command;
pub mod common;
pub mod compaction;
pub mod engine;
pub mod error;
pub mod frame;
pub mod index;
pub mod json;
pub mod kvengine;
pub mod kvstore;
pub mod laws;
pub mod log;
pub mod server;
pub mod thread_pool;

pub use command::Command;
pub use common::{Request, Response};
pub use error::KvStoreError;
pub use kvengine::KvEngine;
pub use kvstore::KvStore;
