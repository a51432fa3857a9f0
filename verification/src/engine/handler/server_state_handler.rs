//! The server state of a node follows its vote and the membership.

use vstd::prelude::*;

use crate::engine::command::Command;
use crate::engine::engine_config::EngineConfig;
use crate::engine::engine_output::EngineOutput;
use crate::raft_core::server_state::ServerState;
use crate::raft_state::RaftState;

verus! {

/// Handles changes of the server state.
pub struct ServerStateHandler<'st> {
    pub config: &'st EngineConfig,
    pub state: &'st mut RaftState,
    pub output: &'st mut EngineOutput,
}

impl<'st> ServerStateHandler<'st> {
    /// Calculates the server state anew. If it has changed, the state is
    /// updated, and a command tells the runtime when the node has become the
    /// leader or is no longer the leader: one command for one such
    /// transition.
    pub fn update_server_state_if_changed(&mut self)
        ensures
            final(self).config == old(self).config,
            *final(self).state == (RaftState {
                server_state: old(self).state.spec_calc_server_state(old(self).config.id),
                ..*old(self).state
            }),
            final(self).output@ == old(self).output@.server_state_changed(
                old(self).state.server_state,
                final(self).state.server_state,
            ),
            old(self).state.server_state is Leader == final(self).state.server_state is Leader
                ==> *final(self).output == *old(self).output,
            *final(final(self).state) == *final(old(self).state),
            *final(final(self).output) == *final(old(self).output),
    {
        let server_state = self.state.calc_server_state(&self.config.id);
        if self.state.server_state == server_state {
            return;
        }
        let was_leader = self.state.server_state == ServerState::Leader;
        let is_leader = server_state == ServerState::Leader;
        if !was_leader && is_leader {
            self.output.push_command(Command::BecomeLeader);
        } else if was_leader && !is_leader {
            self.output.push_command(Command::QuitLeader);
        }
        self.state.server_state = server_state;
    }
}

} // verus!
