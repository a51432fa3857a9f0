//! Purging of the log.
//!
//! Only log entries that a snapshot includes are purged, and at least a
//! batch of them at once.

use vstd::prelude::*;

use crate::engine::command::Command;
use crate::engine::engine_config::EngineConfig;
use crate::engine::engine_output::EngineOutput;
use crate::log_id::next_index;
use crate::log_id::opt_is_le;
use crate::log_id::opt_le;
use crate::log_id::spec_next_index;
use crate::log_id::LogId;
use crate::raft_state::lemma_purge_keeps_wf;
use crate::raft_state::RaftState;

verus! {

/// The index up to which the log may be purged, exclusive: what the last
/// snapshot includes, less the entries to keep.
pub open spec fn spec_purge_end(state: RaftState, config: EngineConfig) -> int {
    let end = spec_next_index(state.snapshot_meta.last_log_id) - config.max_in_snapshot_log_to_keep;
    if end < 0 {
        0
    } else {
        end
    }
}

/// The log id up to which to purge, inclusive, by the configured policy:
/// none unless at least a batch of entries can be purged.
pub open spec fn spec_calc_purge_upto(state: RaftState, config: EngineConfig) -> Option<LogId> {
    let purge_end = spec_purge_end(state, config);
    if purge_end == 0 || spec_next_index(state.spec_last_purged_log_id()) + config.purge_batch_size
        > purge_end {
        None
    } else {
        state.log_ids.spec_get((purge_end - 1) as u64)
    }
}

/// What the policy purges stays within the last snapshot, and is at least
/// a batch: where a log id to purge up to is calculated, exactly
/// `max_in_snapshot_log_to_keep` indices lie between it and the last log id of
/// the snapshot, so a snapshot holds everything that is purged; and at least
/// `purge_batch_size` entries are purged at once.
pub proof fn lemma_purge_upto_in_snapshot(state: RaftState, config: EngineConfig)
    ensures
        spec_calc_purge_upto(state, config) matches Some(id) ==> {
            &&& state.snapshot_meta.last_log_id matches Some(last) && id.index
                + config.max_in_snapshot_log_to_keep == last.index
            &&& id.index + 1 >= spec_next_index(state.spec_last_purged_log_id())
                + config.purge_batch_size
        },
{
}

/// Handles the purging of the log.
pub struct LogHandler<'x> {
    pub config: &'x mut EngineConfig,
    pub state: &'x mut RaftState,
    pub output: &'x mut EngineOutput,
}

impl<'x> LogHandler<'x> {
    /// Purges the log up to `purge_upto` of the state, inclusive.
    ///
    /// Where that log id is not above the last purged one, nothing
    /// happens. Else the log ids up to it are purged, and a `PurgeLog`
    /// command is emitted.
    pub fn purge_log(&mut self)
        requires
            old(self).state.log_ids.wf(),
            spec_next_index(old(self).state.purge_upto) <= u64::MAX,
        ensures
            *final(self).config == *old(self).config,
            match old(self).state.purge_upto {
                Some(upto) if !opt_le(Some(upto), old(self).state.spec_last_purged_log_id()) => {
                    &&& old(self).state.purged(final(self).state, upto)
                    &&& old(self).output.pushed(final(self).output, Command::PurgeLog { upto })
                },
                _ => {
                    &&& *final(self).state == *old(self).state
                    &&& *final(self).output == *old(self).output
                },
            },
            final(self).state.log_ids.wf(),
            old(self).state.wf() ==> final(self).state.wf(),
            old(self).state.wf() ==> final(self).state.spec_last_purged_log_id()
                == old(self).state.purge_upto,
            old(self).state.wf() ==> final(self).state.spec_last_log_id()
                == old(self).state.spec_last_log_id(),
            *final(final(self).config) == *final(old(self).config),
            *final(final(self).state) == *final(old(self).state),
            *final(final(self).output) == *final(old(self).output),
    {
        let ghost before = *self.state;
        let purge_upto = self.state.purge_upto;
        let last_purged = match self.state.last_purged_log_id() {
            Some(l) => Some(*l),
            None => None,
        };
        if opt_is_le(&purge_upto, &last_purged) {
            proof {
                if before.wf() {
                    crate::raft_state::lemma_wf_ordered(before);
                    crate::log_id::lemma_opt_log_id_order(purge_upto, last_purged, None);
                }
            }
            return;
        }
        let upto = purge_upto.unwrap();
        self.state.purge_log(&upto);
        self.output.push_command(Command::PurgeLog { upto });
        proof {
            if before.wf() {
                lemma_purge_keeps_wf(before, *self.state, upto);
            }
        }
    }

    /// Sets the log id to purge up to, if more of the log can be purged by
    /// the configured policy.
    ///
    /// This is called after a snapshot is built: only log entries that a
    /// snapshot includes are purged.
    pub fn update_purge_upto(&mut self)
        requires
            old(self).state.log_ids.wf(),
            spec_next_index(old(self).state.snapshot_meta.last_log_id) <= u64::MAX,
            spec_next_index(old(self).state.spec_last_purged_log_id()) <= u64::MAX,
        ensures
            *final(self).config == *old(self).config,
            *final(self).output == *old(self).output,
            *final(self).state == (RaftState {
                purge_upto: match spec_calc_purge_upto(*old(self).state, *old(self).config) {
                    Some(upto) => Some(upto),
                    None => old(self).state.purge_upto,
                },
                ..*old(self).state
            }),
            *final(final(self).config) == *final(old(self).config),
            *final(final(self).state) == *final(old(self).state),
            *final(final(self).output) == *final(old(self).output),
    {
        if let Some(purge_upto) = self.calc_purge_upto() {
            self.state.purge_upto = Some(purge_upto);
        }
    }

    /// Calculates the log id up to which to purge, inclusive.
    ///
    /// Only log entries that the last snapshot includes are purged, less
    /// `max_in_snapshot_log_to_keep` of them, and only if that purges at
    /// least `purge_batch_size` entries. Returns `None` if there is nothing
    /// to purge.
    pub fn calc_purge_upto(&self) -> (r: Option<LogId>)
        requires
            self.state.log_ids.wf(),
            spec_next_index(self.state.snapshot_meta.last_log_id) <= u64::MAX,
            spec_next_index(self.state.spec_last_purged_log_id()) <= u64::MAX,
        ensures
            r == spec_calc_purge_upto(*old(self.state), *old(self.config)),
    {
        let max_keep = self.config.max_in_snapshot_log_to_keep;
        let batch_size = self.config.purge_batch_size;
        let snapshot_next = next_index(&self.state.snapshot_meta.last_log_id);
        let purge_end: u64 = if snapshot_next < max_keep {
            0
        } else {
            snapshot_next - max_keep
        };
        let last_purged = match self.state.last_purged_log_id() {
            Some(l) => Some(*l),
            None => None,
        };
        let purged_next = next_index(&last_purged);
        if purge_end == 0 || purge_end < purged_next || purge_end - purged_next < batch_size {
            return None;
        }
        self.state.log_ids.get(purge_end - 1)
    }
}

} // verus!
