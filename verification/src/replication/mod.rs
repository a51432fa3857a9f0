//! Replication to one follower or learner.
//!
//! A leader runs one replication stream per target. A stream sends one
//! request at a time and waits for the response, so that the target gets
//! everything in order. What is to be sent next comes in through an inbox;
//! what was achieved goes back to the core of the leader as a message.
//!
//! This module decides; a runtime sends, waits and reads.

pub mod inbox;
pub mod replication_core;
pub mod replication_error;
pub mod replication_session_id;

pub use inbox::Inbox;
pub use inbox::Polled;
pub use replication_core::Data;
pub use replication_core::Payload;
pub use replication_core::RaftMsg;
pub use replication_core::Replicate;
pub use replication_core::ReplicationCore;
pub use replication_core::ReplicationResult;
pub use replication_error::HigherVote;
pub use replication_error::RPCError;
pub use replication_error::RPCTypes;
pub use replication_error::ReplicationError;
pub use replication_error::Timeout;
pub use replication_session_id::ReplicationSessionId;
