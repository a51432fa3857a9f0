//! What an engine step puts out: commands, and flags of what changed.

use vstd::prelude::*;

use crate::engine::command::Command;
use crate::engine::command::MetricsChange;

verus! {

/// Flags of what has changed in what a node reports of itself.
#[derive(Clone, Copy, Debug, PartialEq, Eq, Structural)]
pub struct MetricsChangeFlags {
    /// The state of replication has changed.
    pub replication: bool,
    /// The local data has changed: the log, the vote or a snapshot.
    pub local_data: bool,
    /// The cluster has changed: the leader or the membership.
    pub cluster: bool,
}

impl MetricsChangeFlags {
    /// The flags after a change of the given kind.
    pub open spec fn with(self, change: MetricsChange) -> MetricsChangeFlags {
        match change {
            MetricsChange::Nothing => self,
            MetricsChange::Replication => MetricsChangeFlags { replication: true, ..self },
            MetricsChange::LocalData => MetricsChangeFlags { local_data: true, ..self },
            MetricsChange::Cluster => MetricsChangeFlags { cluster: true, ..self },
        }
    }

    /// Whether anything has changed.
    pub fn changed(&self) -> (r: bool)
        ensures
            r == (self.replication || self.local_data || self.cluster),
    {
        self.replication || self.local_data || self.cluster
    }

    /// Forgets every change.
    pub fn reset(&mut self)
        ensures
            *final(self) == (MetricsChangeFlags { replication: false, local_data: false, cluster: false }),
    {
        self.replication = false;
        self.local_data = false;
        self.cluster = false;
    }

    pub fn set_replication_changed(&mut self)
        ensures
            *final(self) == old(self).with(MetricsChange::Replication),
    {
        self.replication = true;
    }

    pub fn set_data_changed(&mut self)
        ensures
            *final(self) == old(self).with(MetricsChange::LocalData),
    {
        self.local_data = true;
    }

    pub fn set_cluster_changed(&mut self)
        ensures
            *final(self) == old(self).with(MetricsChange::Cluster),
    {
        self.cluster = true;
    }
}

impl Default for MetricsChangeFlags {
    fn default() -> (r: Self)
        ensures
            r == (MetricsChangeFlags { replication: false, local_data: false, cluster: false }),
    {
        MetricsChangeFlags { replication: false, local_data: false, cluster: false }
    }
}

/// What the output of the engine is: the commands in the order of
/// emission, and the flags of what changed.
pub struct OutputView {
    pub commands: Seq<Command>,
    pub metrics_flags: MetricsChangeFlags,
}

impl OutputView {
    /// The output after `cmd` is emitted: the command is the last one, and
    /// what it changes is flagged.
    pub open spec fn push(self, cmd: Command) -> OutputView {
        OutputView {
            commands: self.commands.push(cmd),
            metrics_flags: self.metrics_flags.with(cmd.spec_metrics_change()),
        }
    }

    /// The output after a change of the server state from `was` to `is`:
    /// a node that becomes the leader, or is no longer the leader, says so
    /// with a command.
    pub open spec fn server_state_changed(
        self,
        was: crate::raft_core::server_state::ServerState,
        is: crate::raft_core::server_state::ServerState,
    ) -> OutputView {
        if !(was is Leader) && is is Leader {
            self.push(Command::BecomeLeader)
        } else if was is Leader && !(is is Leader) {
            self.push(Command::QuitLeader)
        } else {
            self
        }
    }
}

/// The output of the engine: the commands for the runtime, in the order of
/// emission, and the flags of what changed.
#[derive(Debug)]
pub struct EngineOutput {
    /// What has changed since the flags were last reset.
    pub metrics_flags: MetricsChangeFlags,
    /// The commands to run, oldest first.
    pub commands: Vec<Command>,
}

impl View for EngineOutput {
    type V = OutputView;

    open spec fn view(&self) -> OutputView {
        OutputView { commands: self.commands@, metrics_flags: self.metrics_flags }
    }
}

impl EngineOutput {
    /// An output without commands or changes.
    pub fn new() -> (r: Self)
        ensures
            r.commands@ == Seq::<Command>::empty(),
            r.metrics_flags == (MetricsChangeFlags {
                replication: false,
                local_data: false,
                cluster: false,
            }),
    {
        EngineOutput { metrics_flags: MetricsChangeFlags::default(), commands: Vec::new() }
    }

    /// The output after `cmd` is emitted: the command is the last one, and
    /// what it changes is flagged.
    pub open spec fn pushed(&self, next: &EngineOutput, cmd: Command) -> bool {
        next@ == self@.push(cmd)
    }

    /// Emits a command, and flags what it changes.
    pub fn push_command(&mut self, cmd: Command)
        ensures
            old(self).pushed(final(self), cmd),
    {
        match cmd.metrics_change() {
            MetricsChange::Nothing => {},
            MetricsChange::Replication => self.metrics_flags.set_replication_changed(),
            MetricsChange::LocalData => self.metrics_flags.set_data_changed(),
            MetricsChange::Cluster => self.metrics_flags.set_cluster_changed(),
        }
        self.commands.push(cmd);
    }

    /// Takes the commands out, oldest first, and leaves none.
    pub fn take_commands(&mut self) -> (r: Vec<Command>)
        ensures
            r@ == old(self).commands@,
            final(self).commands@ == Seq::<Command>::empty(),
            final(self).metrics_flags == old(self).metrics_flags,
    {
        let mut taken: Vec<Command> = Vec::new();
        std::mem::swap(&mut self.commands, &mut taken);
        taken
    }
}

impl Default for EngineOutput {
    fn default() -> (r: Self)
        ensures
            r.commands@ == Seq::<Command>::empty(),
            r.metrics_flags == (MetricsChangeFlags {
                replication: false,
                local_data: false,
                cluster: false,
            }),
    {
        EngineOutput::new()
    }
}

} // verus!
