//! The storage contract: what the core asks of a log store, a vote store
//! and a state machine.

pub mod defensive;
pub mod helper;
pub mod helper_membership;
pub mod helper_state;
pub mod laws;
pub mod mem_store;
pub mod model;
pub mod raft_storage;
pub mod snapshot_data;
pub mod snapshot_meta;

pub use model::LogIndexRange;
pub use model::LogState;
pub use raft_storage::RaftStorage;
pub use raft_storage::Snapshot;
pub use raft_storage::StoreBuilder;
pub use snapshot_data::SnapshotData;
pub use snapshot_meta::SnapshotId;
pub use snapshot_meta::SnapshotMeta;
pub use snapshot_meta::SnapshotSignature;
