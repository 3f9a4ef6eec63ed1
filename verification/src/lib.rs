//! A small key-value store core: a single-writer store state machine over
//! per-user namespaces, a length-prefixed write-ahead log with torn-write
//! tolerant read-back, a clean/dirty checkpoint flag, startup recovery by
//! log replay, and the routing decisions that multiplex client sessions
//! onto the single storage writer.

pub mod btree;
pub mod codec;
pub mod command;
pub mod engine;
pub mod order;
pub mod recovery;
pub mod repl;
pub mod router;
pub mod snapshot;
pub mod store;
pub mod wal;
