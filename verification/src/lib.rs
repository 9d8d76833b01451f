//! A persistent key-value store: an append-only command log with an
//! in-memory index, log compaction, a bounded cache of segment handles, and
//! the request protocol that serves the store over a connection.
//!
//! Everything here is free of I/O. The functions decide what is read, written
//! and deleted; the caller performs it and hands the outcome back.

pub mod client;
pub mod common;
pub mod engine;
pub mod error;
pub mod position;
pub mod server;
pub mod thread_pool;

pub use common::{Command, CommandResponse, Response};
pub use engine::kvstore::KvStoreCore;
pub use engine::memory::KvStore;
pub use engine::{EngineType, KvsEngine};
pub use error::{KvStoreError, Result};
pub use thread_pool::NaiveThreadPool;
