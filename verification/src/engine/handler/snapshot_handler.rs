//! The snapshot that a node has.

use vstd::prelude::*;

use crate::engine::command::MetricsChange;
use crate::engine::engine_output::EngineOutput;
use crate::log_id::opt_is_le;
use crate::log_id::opt_le;
use crate::raft_state::RaftState;
use crate::storage::snapshot_meta::SnapshotMeta;

verus! {

/// Handles changes of the snapshot.
pub struct SnapshotHandler<'st, 'out> {
    pub state: &'st mut RaftState,
    pub output: &'out mut EngineOutput,
}

impl<'st, 'out> SnapshotHandler<'st, 'out> {
    /// Takes note of a snapshot that was built or installed.
    ///
    /// A snapshot that does not reach beyond the one the node has is
    /// ignored. Else its metadata replaces that of the state, and the local
    /// data is flagged as changed. Returns whether the snapshot was taken.
    pub fn update_snapshot(&mut self, meta: SnapshotMeta) -> (r: bool)
        ensures
            r == !opt_le(meta.last_log_id, old(self).state.snapshot_meta.last_log_id),
            final(self).output.commands == old(self).output.commands,
            if r {
                &&& *final(self).state == (RaftState { snapshot_meta: meta, ..*old(self).state })
                &&& final(self).output.metrics_flags == old(self).output.metrics_flags.with(
                    MetricsChange::LocalData,
                )
            } else {
                &&& *final(self).state == *old(self).state
                &&& final(self).output.metrics_flags == old(self).output.metrics_flags
            },
            *final(final(self).state) == *final(old(self).state),
            *final(final(self).output) == *final(old(self).output),
    {
        if opt_is_le(&meta.last_log_id, &self.state.snapshot_meta.last_log_id) {
            return false;
        }
        self.output.metrics_flags.set_data_changed();
        self.state.snapshot_meta = meta;
        true
    }
}

} // verus!
