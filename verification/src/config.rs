//! The runtime configuration of a raft node.

use vstd::prelude::*;

verus! {

/// What is wrong with a configuration.
#[derive(Clone, Copy, Debug, PartialEq, Eq, Structural)]
pub enum ConfigError {
    /// The election timeout has no room: its least value is not below its
    /// greatest.
    ElectionTimeout { min: u64, max: u64 },
    /// The least election timeout is not above the heartbeat interval, so
    /// followers would start elections under a healthy leader.
    ElectionTimeoutLTHeartBeat { election_timeout_min: u64, heartbeat_interval: u64 },
}

/// The runtime configuration of a raft node. All times are in
/// milliseconds.
#[derive(Clone, Debug, PartialEq, Eq)]
pub struct Config {
    /// The name of the cluster; it is for information only.
    pub cluster_name: String,
    /// The least time a follower waits for the leader before it starts an
    /// election.
    pub election_timeout_min: u64,
    /// The greatest time a follower waits for the leader before it starts
    /// an election.
    pub election_timeout_max: u64,
    /// The interval at which a leader sends heartbeats to its followers.
    pub heartbeat_interval: u64,
    /// The timeout for the last chunk of a snapshot: the receiver installs
    /// the snapshot before it answers.
    pub install_snapshot_timeout: u64,
    /// The timeout for a chunk of a snapshot that is not the last; 0 where
    /// it is the timeout for the last chunk.
    pub send_snapshot_timeout: u64,
    /// The greatest number of bytes of a snapshot to send at once.
    pub snapshot_max_chunk_size: u64,
    /// How many log entries that a snapshot includes are kept in the log.
    pub max_in_snapshot_log_to_keep: u64,
    /// The least number of log entries to purge at once.
    pub purge_batch_size: u64,
    /// Whether a leader sends heartbeats.
    pub enable_heartbeat: bool,
    /// Whether a follower starts elections.
    pub enable_elect: bool,
}

impl Config {
    /// What is wrong with the configuration, if anything.
    pub open spec fn spec_error(&self) -> Option<ConfigError> {
        if self.election_timeout_min >= self.election_timeout_max {
            Some(
                ConfigError::ElectionTimeout {
                    min: self.election_timeout_min,
                    max: self.election_timeout_max,
                },
            )
        } else if self.election_timeout_min <= self.heartbeat_interval {
            Some(
                ConfigError::ElectionTimeoutLTHeartBeat {
                    election_timeout_min: self.election_timeout_min,
                    heartbeat_interval: self.heartbeat_interval,
                },
            )
        } else {
            None
        }
    }

    /// Checks the configuration, and hands it back if nothing is wrong
    /// with it.
    pub fn validate(self) -> (r: Result<Config, ConfigError>)
        ensures
            match r {
                Ok(c) => c == self && self.spec_error() is None,
                Err(e) => self.spec_error() == Some(e),
            },
    {
        if self.election_timeout_min >= self.election_timeout_max {
            return Err(
                ConfigError::ElectionTimeout {
                    min: self.election_timeout_min,
                    max: self.election_timeout_max,
                },
            );
        }
        if self.election_timeout_min <= self.heartbeat_interval {
            return Err(
                ConfigError::ElectionTimeoutLTHeartBeat {
                    election_timeout_min: self.election_timeout_min,
                    heartbeat_interval: self.heartbeat_interval,
                },
            );
        }
        Ok(self)
    }

    /// The timeout for the last chunk of a snapshot.
    pub fn install_snapshot_timeout(&self) -> (r: u64)
        ensures
            r == self.install_snapshot_timeout,
    {
        self.install_snapshot_timeout
    }

    /// The timeout for a chunk of a snapshot that is not the last. Where
    /// none is configured, which 0 stands for, it is the timeout for the last
    /// chunk.
    pub open spec fn spec_send_snapshot_timeout(&self) -> u64 {
        if self.send_snapshot_timeout > 0 {
            self.send_snapshot_timeout
        } else {
            self.install_snapshot_timeout
        }
    }

    /// The timeout for a chunk of a snapshot that is not the last. Where
    /// none is configured, which 0 stands for, it is the timeout for the last
    /// chunk.
    pub fn send_snapshot_timeout(&self) -> (r: u64)
        ensures
            r == self.spec_send_snapshot_timeout(),
    {
        if self.send_snapshot_timeout > 0 {
            self.send_snapshot_timeout
        } else {
            self.install_snapshot_timeout
        }
    }

    /// The timeout for a chunk of a snapshot: the last chunk gets the time
    /// to install the snapshot.
    pub fn snapshot_chunk_timeout(&self, done: bool) -> (r: u64)
        ensures
            r == if done {
                self.install_snapshot_timeout
            } else {
                self.spec_send_snapshot_timeout()
            },
    {
        if done {
            self.install_snapshot_timeout()
        } else {
            self.send_snapshot_timeout()
        }
    }
}

impl Default for Config {
    fn default() -> (r: Self)
        ensures
            r.cluster_name@ == "foo"@,
            r.election_timeout_min == 150,
            r.election_timeout_max == 300,
            r.heartbeat_interval == 50,
            r.install_snapshot_timeout == 200,
            r.send_snapshot_timeout == 0,
            r.spec_send_snapshot_timeout() == 200,
            r.snapshot_max_chunk_size == 3 * 1024 * 1024,
            r.max_in_snapshot_log_to_keep == 1000,
            r.purge_batch_size == 256,
            r.enable_heartbeat,
            r.enable_elect,
            r.spec_error() is None,
    {
        Config {
            cluster_name: String::from_str("foo"),
            election_timeout_min: 150,
            election_timeout_max: 300,
            heartbeat_interval: 50,
            install_snapshot_timeout: 200,
            send_snapshot_timeout: 0,
            snapshot_max_chunk_size: 3 * 1024 * 1024,
            max_in_snapshot_log_to_keep: 1000,
            purge_batch_size: 256,
            enable_heartbeat: true,
            enable_elect: true,
        }
    }
}

} // verus!
