//! The core of a Raft consensus library: log-id bookkeeping, the raft state,
//! the engine handlers that compute state transitions and emit commands, the
//! replication and snapshot-streaming state machines, and the storage
//! contract.
//!
//! Everything in this crate is free of I/O. A runtime feeds events in and
//! carries the emitted commands out.

pub mod config;
pub mod engine;
pub mod entry;
pub mod log_id;
pub mod log_id_list;
pub mod membership;
pub mod node;
pub mod raft;
pub mod raft_core;
pub mod raft_state;
pub mod replication;
pub mod storage;
pub mod storage_error;
pub mod testing;
pub mod vote;
