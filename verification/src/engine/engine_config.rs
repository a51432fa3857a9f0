//! The part of the configuration that the engine reads.

use vstd::prelude::*;

use crate::node::NodeId;

verus! {

/// The configuration of an engine.
#[derive(Clone, Copy, Debug, PartialEq, Eq, Structural)]
pub struct EngineConfig {
    /// The id of this node.
    pub id: NodeId,
    /// How many log entries that a snapshot includes are kept in the log.
    /// With 0 every such entry can be purged.
    pub max_in_snapshot_log_to_keep: u64,
    /// The least number of log entries to purge at once.
    pub purge_batch_size: u64,
    /// The interval at which a leader sends heartbeats, in milliseconds.
    pub heartbeat_interval: u64,
    /// Whether a leader sends heartbeats.
    pub enable_heartbeat: bool,
    /// Whether a follower starts elections.
    pub enable_elect: bool,
}

impl EngineConfig {
    /// The configuration of the engine of the node `id`, with the given
    /// policy for purging, and with the defaults for the rest.
    pub fn new(id: NodeId, max_in_snapshot_log_to_keep: u64, purge_batch_size: u64) -> (r: Self)
        ensures
            r == (EngineConfig {
                id,
                max_in_snapshot_log_to_keep,
                purge_batch_size,
                heartbeat_interval: 50,
                enable_heartbeat: true,
                enable_elect: true,
            }),
    {
        EngineConfig {
            id,
            max_in_snapshot_log_to_keep,
            purge_batch_size,
            heartbeat_interval: 50,
            enable_heartbeat: true,
            enable_elect: true,
        }
    }

    /// The configuration of the engine of the node `id` that the runtime
    /// configuration gives.
    pub fn from_config(id: NodeId, config: &crate::config::Config) -> (r: Self)
        ensures
            r == (EngineConfig {
                id,
                max_in_snapshot_log_to_keep: config.max_in_snapshot_log_to_keep,
                purge_batch_size: config.purge_batch_size,
                heartbeat_interval: config.heartbeat_interval,
                enable_heartbeat: config.enable_heartbeat,
                enable_elect: config.enable_elect,
            }),
    {
        EngineConfig {
            id,
            max_in_snapshot_log_to_keep: config.max_in_snapshot_log_to_keep,
            purge_batch_size: config.purge_batch_size,
            heartbeat_interval: config.heartbeat_interval,
            enable_heartbeat: config.enable_heartbeat,
            enable_elect: config.enable_elect,
        }
    }
}

impl Default for EngineConfig {
    fn default() -> (r: Self)
        ensures
            r == (EngineConfig {
                id: 0,
                max_in_snapshot_log_to_keep: 1000,
                purge_batch_size: 256,
                heartbeat_interval: 50,
                enable_heartbeat: true,
                enable_elect: true,
            }),
    {
        EngineConfig::new(0, 1000, 256)
    }
}

} // verus!
