//! Durable snapshot and write-ahead-log management for a replicated
//! key-value store.
//!
//! A local engine's durable state is periodically checkpointed to a remote
//! object store and protected between checkpoints by sequence-numbered log
//! chunks.  This crate holds the verified core of that protocol: the naming
//! scheme that maps store names and snapshot ids to remote paths, the parsers
//! that recover ids and sequence numbers from remote object names, the
//! bounded-memory retention sweeper, the replay planner that orders log
//! chunks, the bootstrap state machine, and the snapshot catalog.
//!
//! All remote and local I/O is left to the embedding process: the functions
//! here compute decisions and values from plain inputs, and their contracts
//! state exactly what they return.

pub mod bootstrap;
pub mod catalog;
pub mod digits;
pub mod naming;
pub mod replay;
pub mod retention;
pub mod store;
