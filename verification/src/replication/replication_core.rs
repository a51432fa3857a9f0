//! The state of a replication stream, and what it decides.

use vstd::prelude::*;

use crate::config::Config;
use crate::entry::entry_views;
use crate::entry::Entry;
use crate::log_id::opt_is_lt;
use crate::log_id::opt_le;
use crate::log_id::opt_lt;
use crate::log_id::spec_next_index;
use crate::log_id::LogId;
use crate::log_id::LogIdRange;
use crate::node::NodeId;
use crate::raft::AppendEntriesRequest;
use crate::raft::AppendEntriesResponse;
use crate::raft::InstallSnapshotRequest;
use crate::raft::InstallSnapshotResponse;
use crate::raft_core::streaming_state::chunk_of;
use crate::raft_core::streaming_state::chunks_end;
use crate::raft_core::streaming_state::chunks_in_order;
use crate::raft_core::streaming_state::chunks_of;
use crate::raft_core::streaming_state::lemma_retries_then_completion;
use crate::raft_core::streaming_state::received;
use crate::raft_core::streaming_state::Chunk;
use crate::replication::inbox::Inbox;
use crate::replication::inbox::Polled;
use crate::replication::replication_error::HigherVote;
use crate::replication::replication_error::RPCError;
use crate::replication::replication_error::RPCTypes;
use crate::replication::replication_error::ReplicationError;
use crate::replication::replication_error::Timeout;
use crate::replication::replication_session_id::ReplicationSessionId;
use crate::storage::defensive::find_gap;
use crate::storage::helper::check_range_matches_entries;
use crate::storage::helper::range_mismatch;
use crate::storage::model::first_gap;
use crate::storage::model::LogIndexRange;
use crate::storage::raft_storage::Snapshot;
use crate::storage::snapshot_data::read_at;
use crate::storage_error::DefensiveError;
use crate::storage_error::ErrorSubject;
use crate::storage_error::StorageError;
use crate::storage_error::Violation;
use crate::vote::Vote;

verus! {

/// The data to replicate: a range of log entries, or a snapshot.
#[derive(Debug)]
pub enum Payload {
    Logs(LogIdRange),
    Snapshot(Snapshot),
}

/// A request to replicate data, with an id that tells who asked for it.
#[derive(Debug)]
pub struct Data {
    /// The id of the request. The core of the leader ignores what comes
    /// back with the id 0.
    pub id: u64,
    pub payload: Payload,
}

impl Data {
    /// A request to replicate a range of log entries.
    pub fn new_logs(id: u64, log_id_range: LogIdRange) -> (r: Self)
        ensures
            r == (Data { id, payload: Payload::Logs(log_id_range) }),
    {
        Data { id, payload: Payload::Logs(log_id_range) }
    }

    /// A request to replicate a snapshot.
    pub fn new_snapshot(id: u64, snapshot: Snapshot) -> (r: Self)
        ensures
            r == (Data { id, payload: Payload::Snapshot(snapshot) }),
    {
        Data { id, payload: Payload::Snapshot(snapshot) }
    }
}

/// What the core of a leader sends to a replication stream.
#[derive(Debug)]
pub enum Replicate {
    /// The log is committed up to this log id: tell the target.
    Committed(Option<LogId>),
    /// Send something: an empty request if nothing else is to be sent.
    Heartbeat,
    /// Send this data.
    Data(Data),
}

impl Replicate {
    /// The event to replicate a range of log entries.
    pub fn logs(id: u64, log_id_range: LogIdRange) -> (r: Self)
        ensures
            r == Replicate::Data(Data { id, payload: Payload::Logs(log_id_range) }),
    {
        Replicate::Data(Data::new_logs(id, log_id_range))
    }

    /// The event to replicate a snapshot.
    pub fn snapshot(id: u64, snapshot: Snapshot) -> (r: Self)
        ensures
            r == Replicate::Data(Data { id, payload: Payload::Snapshot(snapshot) }),
    {
        Replicate::Data(Data::new_snapshot(id, snapshot))
    }
}

/// What a replication action has found out about the target.
#[derive(Clone, Copy, Debug, PartialEq, Eq, Structural)]
pub enum ReplicationResult {
    /// The log of the target matches that of the leader up to this log id.
    Matching(Option<LogId>),
    /// The log of the target does not hold this log id.
    Conflict(LogId),
}

/// What a replication stream sends to the core of the leader.
#[derive(Debug, PartialEq, Eq)]
pub enum RaftMsg {
    /// The target has seen a greater vote than `vote`, that of the leader.
    HigherVote { target: NodeId, higher: Vote, vote: Vote },
    /// The store failed under the stream: the node has to stop.
    ReplicationFatal,
    /// What the action with the id `id` has achieved, or the error of the
    /// transport that it ran into.
    UpdateReplicationProgress {
        target: NodeId,
        id: u64,
        result: Result<ReplicationResult, RPCError>,
        session_id: ReplicationSessionId,
    },
}

/// What came of a request to the target.
#[derive(Debug)]
pub enum RpcOutcome<T> {
    /// The target answered.
    Response(T),
    /// The transport failed.
    Failed(RPCError),
    /// No answer came in time.
    TimedOut,
}

/// How a replication stream goes on after an action.
#[derive(Debug)]
pub struct Next {
    /// What to tell the core of the leader, if anything.
    pub report: Option<RaftMsg>,
    /// Whether the stream stops.
    pub stop: bool,
}

/// A chunk of a snapshot that was sent: where it starts in the snapshot, how
/// many bytes it holds, and whether it is the last.
#[derive(Clone, Copy, Debug, PartialEq, Eq, Structural)]
pub struct SentChunk {
    pub offset: u64,
    pub len: u64,
    pub done: bool,
}

impl SentChunk {
    /// What is to be known of the chunk that `req` sends.
    pub fn of(req: &InstallSnapshotRequest) -> (r: Self)
        ensures
            r == (SentChunk { offset: req.offset, len: req.data@.len() as u64, done: req.done }),
    {
        SentChunk { offset: req.offset, len: req.data.len() as u64, done: req.done }
    }
}

/// How the sending of a snapshot goes on after a chunk.
#[derive(Debug, PartialEq, Eq)]
pub enum SnapshotStep {
    /// The chunk did not arrive: wait for `backoff` milliseconds, and send
    /// the chunk at `offset`, where it was, again.
    Retry { backoff: u64, offset: u64 },
    /// The chunk arrived: look into the inbox, and send the next chunk,
    /// which is at `offset`, right behind the one that arrived.
    Continue { offset: u64 },
    /// The last chunk arrived. The core of the leader is told, unless the
    /// target matched that far already.
    Done { report: Option<RaftMsg> },
}

/// The time to wait before a chunk of a snapshot is sent again, in
/// milliseconds.
pub const SNAPSHOT_RETRY_BACKOFF: u64 = 10;

/// What is wrong with `logs` as the entries of `range`, which holds an
/// index: the first or the last entry is not at its bound, or the entries
/// do not follow one another.
pub open spec fn logs_violation(range: LogIndexRange, logs: Seq<crate::entry::EntryView>) -> Option<
    DefensiveError,
> {
    if range_mismatch(range, logs) is Some {
        range_mismatch(range, logs)
    } else if first_gap(logs) < logs.len() {
        Some(
            DefensiveError {
                subject: ErrorSubject::Logs,
                violation: Violation::LogsNonConsecutive {
                    prev: Some(logs[first_gap(logs) - 1].log_id),
                    next: logs[first_gap(logs) as int].log_id,
                },
            },
        )
    } else {
        None
    }
}

/// The state of a replication stream to one target.
#[derive(Debug)]
pub struct ReplicationCore {
    /// The node to replicate to.
    pub target: NodeId,
    /// The session that the stream belongs to.
    pub session_id: ReplicationSessionId,
    /// The runtime configuration.
    pub config: Config,
    /// The last log id that is known to be committed in the cluster.
    pub committed: Option<LogId>,
    /// The last log id that is known to match on the target. It never
    /// decreases.
    pub matching: Option<LogId>,
    /// What to send next.
    pub next_action: Option<Data>,
}

impl ReplicationCore {
    /// The state of a new replication stream: nothing is to be sent yet.
    pub fn new(
        target: NodeId,
        session_id: ReplicationSessionId,
        config: Config,
        committed: Option<LogId>,
        matching: Option<LogId>,
    ) -> (r: Self)
        ensures
            r == (ReplicationCore {
                target,
                session_id,
                config,
                committed,
                matching,
                next_action: None,
            }),
    {
        ReplicationCore { target, session_id, config, committed, matching, next_action: None }
    }

    /// The state after an event from the core of the leader.
    pub open spec fn spec_process_event(self, event: Replicate) -> ReplicationCore {
        match event {
            Replicate::Committed(c) => ReplicationCore { committed: c, ..self },
            Replicate::Heartbeat => self,
            Replicate::Data(d) => ReplicationCore { next_action: Some(d), ..self },
        }
    }

    /// The state after the events of the inbox are taken in, as far as
    /// they are: up to the first that says what to send.
    pub open spec fn spec_drained(self, events: Seq<Replicate>) -> ReplicationCore
        decreases events.len(),
    {
        if self.next_action is Some || events.len() == 0 {
            self
        } else {
            self.spec_process_event(events[0]).spec_drained(events.drop_first())
        }
    }

    /// The events that stay in the inbox when the events are taken in up to
    /// the first that says what to send.
    pub open spec fn spec_left(self, events: Seq<Replicate>) -> Seq<Replicate>
        decreases events.len(),
    {
        if self.next_action is Some || events.len() == 0 {
            events
        } else {
            self.spec_process_event(events[0]).spec_left(events.drop_first())
        }
    }

    /// The empty request that stands for a heartbeat: nothing beyond what
    /// matches already. It passes the committed log id on.
    pub open spec fn spec_heartbeat(self) -> Data {
        Data {
            id: 0,
            payload: Payload::Logs(
                LogIdRange { prev_log_id: self.matching, last_log_id: self.matching },
            ),
        }
    }

    /// Takes in an event from the core of the leader.
    ///
    /// A committed log id is kept to be passed on with the next request. A
    /// heartbeat changes nothing: it only wakes the stream up. Data is what
    /// to send next.
    pub fn process_event(&mut self, event: Replicate)
        ensures
            *final(self) == old(self).spec_process_event(event),
    {
        match event {
            Replicate::Committed(c) => {
                self.committed = c;
            },
            Replicate::Heartbeat => {},
            Replicate::Data(d) => {
                self.next_action = Some(d);
            },
        }
    }

    /// Takes in the events that are in the inbox, until one says what to
    /// send or the inbox is empty. Fails if the inbox is empty and closed
    /// before anything is to be sent.
    pub fn try_drain_events(&mut self, inbox: &mut Inbox) -> (r: Result<(), ReplicationError>)
        ensures
            *final(self) == old(self).spec_drained(old(inbox).events()),
            final(inbox).events() == old(self).spec_left(old(inbox).events()),
            final(inbox).is_closed() == old(inbox).is_closed(),
            r == if final(self).next_action is Some || !old(inbox).is_closed() {
                Ok::<(), ReplicationError>(())
            } else {
                Err::<(), ReplicationError>(ReplicationError::Closed)
            },
            final(self).next_action is None ==> final(inbox).events() == Seq::<Replicate>::empty(),
    {
        while self.next_action.is_none()
            invariant
                self.spec_drained(inbox.events()) == old(self).spec_drained(old(inbox).events()),
                self.spec_left(inbox.events()) == old(self).spec_left(old(inbox).events()),
                inbox.is_closed() == old(inbox).is_closed(),
            decreases inbox.events().len(),
        {
            match inbox.poll() {
                Polled::Empty => {
                    // No more events in the inbox.
                    return Ok(());
                },
                Polled::Closed => {
                    return Err(ReplicationError::Closed);
                },
                Polled::Event(event) => {
                    self.process_event(event);
                },
            }
        }
        Ok(())
    }

    /// Takes in events until one says what to send. The first event must be
    /// there: a runtime waits for it. Where no event says what to send, a
    /// heartbeat is sent.
    ///
    /// Fails if the inbox is closed and its events run out before one says
    /// what to send: the events that were there are taken in all the same. A
    /// closed inbox that still holds an event that says what to send gives
    /// that event.
    pub fn drain_events(&mut self, inbox: &mut Inbox) -> (r: Result<(), ReplicationError>)
        requires
            old(inbox).events().len() > 0 || old(inbox).is_closed(),
        ensures
            final(inbox).is_closed() == old(inbox).is_closed(),
            ({
                let events = old(inbox).events();
                let first = old(self).spec_process_event(events[0]);
                let drained = first.spec_drained(events.drop_first());
                if events.len() == 0 {
                    &&& r == Err::<(), ReplicationError>(ReplicationError::Closed)
                    &&& *final(self) == *old(self)
                    &&& final(inbox).events() == events
                } else if drained.next_action is Some {
                    &&& r == Ok::<(), ReplicationError>(())
                    &&& *final(self) == drained
                    &&& final(inbox).events() == first.spec_left(events.drop_first())
                } else if old(inbox).is_closed() {
                    &&& r == Err::<(), ReplicationError>(ReplicationError::Closed)
                    &&& *final(self) == drained
                    &&& final(inbox).events() == Seq::<Replicate>::empty()
                } else {
                    &&& r == Ok::<(), ReplicationError>(())
                    &&& *final(self) == (ReplicationCore {
                        next_action: Some(drained.spec_heartbeat()),
                        ..drained
                    })
                    &&& final(inbox).events() == Seq::<Replicate>::empty()
                }
            }),
    {
        match inbox.poll() {
            Polled::Event(event) => {
                self.process_event(event);
            },
            _ => {
                return Err(ReplicationError::Closed);
            },
        }
        match self.try_drain_events(inbox) {
            Ok(()) => {},
            Err(e) => {
                return Err(e);
            },
        }
        // No action filled after all events are processed: fill in an action
        // to send the committed log id.
        if self.next_action.is_none() {
            let m = self.matching;
            self.next_action = Some(
                Data { id: 0, payload: Payload::Logs(LogIdRange { prev_log_id: m, last_log_id: m }) },
            );
        }
        Ok(())
    }

    /// Takes out what to send next.
    pub fn take_action(&mut self) -> (r: Option<Data>)
        ensures
            r == old(self).next_action,
            *final(self) == (ReplicationCore { next_action: None, ..*old(self) }),
    {
        self.next_action.take()
    }

    /// The message that tells the core of the leader that the log of the
    /// target does not hold `conflict`.
    pub fn update_conflicting(&self, id: u64, conflict: LogId) -> (r: RaftMsg)
        ensures
            r == (RaftMsg::UpdateReplicationProgress {
                session_id: self.session_id,
                id,
                target: self.target,
                result: Ok(ReplicationResult::Conflict(conflict)),
            }),
    {
        RaftMsg::UpdateReplicationProgress {
            session_id: self.session_id,
            id,
            target: self.target,
            result: Ok(ReplicationResult::Conflict(conflict)),
        }
    }

    /// Takes note that the log of the target matches up to `new_matching`.
    /// Where that is beyond what was known, the core of the leader is told,
    /// so that it can commit entries. What is known to match never
    /// decreases.
    pub fn update_matching(&mut self, id: u64, new_matching: Option<LogId>) -> (r: Option<RaftMsg>)
        ensures
            opt_le(old(self).matching, final(self).matching),
            *final(self) == (ReplicationCore {
                matching: if opt_lt(old(self).matching, new_matching) {
                    new_matching
                } else {
                    old(self).matching
                },
                ..*old(self)
            }),
            r == if opt_lt(old(self).matching, new_matching) {
                Some(
                    RaftMsg::UpdateReplicationProgress {
                        session_id: old(self).session_id,
                        id,
                        target: old(self).target,
                        result: Ok(ReplicationResult::Matching(new_matching)),
                    },
                )
            } else {
                None
            },
    {
        if opt_is_lt(&self.matching, &new_matching) {
            self.matching = new_matching;
            Some(
                RaftMsg::UpdateReplicationProgress {
                    session_id: self.session_id,
                    id,
                    target: self.target,
                    result: Ok(ReplicationResult::Matching(new_matching)),
                },
            )
        } else {
            None
        }
    }

    /// The log entries to read for a range of log ids: those behind
    /// `prev_log_id` up to `last_log_id`, inclusive; none for a range
    /// without entries.
    pub fn entries_to_read(req: &LogIdRange) -> (r: Option<LogIndexRange>)
        requires
            spec_next_index(req.prev_log_id) <= u64::MAX,
            spec_next_index(req.last_log_id) <= u64::MAX,
        ensures
            r == if spec_next_index(req.prev_log_id) == spec_next_index(req.last_log_id) {
                None
            } else {
                Some(
                    LogIndexRange {
                        start: Some(spec_next_index(req.prev_log_id) as u64),
                        end: Some(spec_next_index(req.last_log_id) as u64),
                    },
                )
            },
    {
        let start = crate::log_id::next_index(&req.prev_log_id);
        let end = crate::log_id::next_index(&req.last_log_id);
        if start == end {
            None
        } else {
            Some(LogIndexRange::new(start, end))
        }
    }

    /// The request that replicates the range `req` with the entries
    /// `logs`, which were read for that range. The entries must be exactly
    /// those of the range: else the answer is a storage error.
    pub fn append_entries_request(&self, req: &LogIdRange, logs: Vec<Entry>) -> (r: Result<
        AppendEntriesRequest,
        ReplicationError,
    >)
        requires
            spec_next_index(req.prev_log_id) <= u64::MAX,
            spec_next_index(req.last_log_id) <= u64::MAX,
        ensures
            ({
                let start = spec_next_index(req.prev_log_id) as u64;
                let end = spec_next_index(req.last_log_id) as u64;
                let range = LogIndexRange { start: Some(start), end: Some(end) };
                let views = entry_views(logs@);
                let wrong = if start >= end {
                    if views.len() == 0 {
                        None
                    } else {
                        Some(
                            DefensiveError {
                                subject: ErrorSubject::Logs,
                                violation: Violation::RangeEmpty {
                                    start: Some(start),
                                    end: range.want_last(),
                                },
                            },
                        )
                    }
                } else {
                    logs_violation(range, views)
                };
                match r {
                    Ok(payload) => {
                        &&& wrong is None
                        &&& payload.vote == self.session_id.vote
                        &&& payload.prev_log_id == req.prev_log_id
                        &&& payload.leader_commit == self.committed
                        &&& payload.entries == logs
                        &&& start < end ==> logs@.len() == end - start
                    },
                    Err(e) => e matches ReplicationError::StorageError(
                        StorageError::Defensive { source },
                    ) && wrong == Some(source),
                }
            }),
    {
        let start = crate::log_id::next_index(&req.prev_log_id);
        let end = crate::log_id::next_index(&req.last_log_id);
        let range = LogIndexRange::new(start, end);
        let ghost views = entry_views(logs@);
        if start >= end {
            if logs.len() != 0 {
                let last: u64 = if end == 0 {
                    0
                } else {
                    end - 1
                };
                return Err(
                    ReplicationError::StorageError(
                        StorageError::defensive(
                            ErrorSubject::Logs,
                            Violation::RangeEmpty { start: Some(start), end: Some(last) },
                        ),
                    ),
                );
            }
        } else {
            match check_range_matches_entries(range, &logs) {
                Ok(()) => {},
                Err(e) => {
                    return Err(ReplicationError::StorageError(e));
                },
            }
            let gap = find_gap(logs.as_slice());
            if gap < logs.len() {
                proof {
                    crate::storage::defensive::lemma_first_gap_positive(views);
                    assert(views[gap - 1] == logs@[gap - 1]@);
                    assert(views[gap as int] == logs@[gap as int]@);
                }
                return Err(
                    ReplicationError::StorageError(
                        StorageError::defensive(
                            ErrorSubject::Logs,
                            Violation::LogsNonConsecutive {
                                prev: Some(logs[gap - 1].log_id),
                                next: logs[gap].log_id,
                            },
                        ),
                    ),
                );
            }
            proof {
                lemma_consecutive_len(views);
            }
        }
        Ok(
            AppendEntriesRequest {
                vote: self.session_id.vote,
                prev_log_id: req.prev_log_id,
                leader_commit: self.committed,
                entries: logs,
            },
        )
    }

    /// Takes in what came of an append-entries request for the range
    /// `req`.
    ///
    /// Success moves what is known to match up to the end of the range.
    /// A greater vote on the target is an error: the leader has to step
    /// down. A conflict is reported to the core of the leader, which then
    /// looks for a shorter range; a conflict at the start of the log cannot
    /// be, and is passed over. A failure of the transport is an error that
    /// allows another try.
    pub fn on_append_entries(
        &mut self,
        id: u64,
        req: &LogIdRange,
        outcome: RpcOutcome<AppendEntriesResponse>,
    ) -> (r: Result<Option<RaftMsg>, ReplicationError>)
        ensures
            opt_le(old(self).matching, final(self).matching),
            match outcome {
                RpcOutcome::Response(AppendEntriesResponse::Success) => {
                    &&& *final(self) == (ReplicationCore {
                        matching: if opt_lt(old(self).matching, req.last_log_id) {
                            req.last_log_id
                        } else {
                            old(self).matching
                        },
                        ..*old(self)
                    })
                    &&& r == Ok::<Option<RaftMsg>, ReplicationError>(
                        if opt_lt(old(self).matching, req.last_log_id) {
                            Some(
                                RaftMsg::UpdateReplicationProgress {
                                    session_id: old(self).session_id,
                                    id,
                                    target: old(self).target,
                                    result: Ok(ReplicationResult::Matching(req.last_log_id)),
                                },
                            )
                        } else {
                            None
                        },
                    )
                },
                RpcOutcome::Response(AppendEntriesResponse::HigherVote(vote)) => {
                    &&& *final(self) == *old(self)
                    &&& r == Err::<Option<RaftMsg>, ReplicationError>(
                        ReplicationError::HigherVote(
                            HigherVote { higher: vote, mine: old(self).session_id.vote },
                        ),
                    )
                },
                RpcOutcome::Response(AppendEntriesResponse::Conflict) => {
                    &&& *final(self) == *old(self)
                    &&& r == Ok::<Option<RaftMsg>, ReplicationError>(
                        match req.prev_log_id {
                            Some(conflict) => Some(
                                RaftMsg::UpdateReplicationProgress {
                                    session_id: old(self).session_id,
                                    id,
                                    target: old(self).target,
                                    result: Ok(ReplicationResult::Conflict(conflict)),
                                },
                            ),
                            None => None,
                        },
                    )
                },
                RpcOutcome::Failed(e) => {
                    &&& *final(self) == *old(self)
                    &&& r == Err::<Option<RaftMsg>, ReplicationError>(ReplicationError::RPCError(e))
                },
                RpcOutcome::TimedOut => {
                    &&& *final(self) == *old(self)
                    &&& r == Err::<Option<RaftMsg>, ReplicationError>(
                        ReplicationError::RPCError(
                            RPCError::Timeout(
                                Timeout {
                                    action: RPCTypes::AppendEntries,
                                    id: old(self).session_id.vote.leader_id.node_id,
                                    target: old(self).target,
                                    timeout: old(self).config.heartbeat_interval,
                                },
                            ),
                        ),
                    )
                },
            },
    {
        proof {
            crate::log_id::lemma_opt_log_id_order(self.matching, self.matching, None);
        }
        match outcome {
            RpcOutcome::Response(AppendEntriesResponse::Success) => Ok(
                self.update_matching(id, req.last_log_id),
            ),
            RpcOutcome::Response(AppendEntriesResponse::HigherVote(vote)) => Err(
                ReplicationError::HigherVote(HigherVote { higher: vote, mine: self.session_id.vote }),
            ),
            RpcOutcome::Response(AppendEntriesResponse::Conflict) => match req.prev_log_id {
                Some(conflict) => Ok(Some(self.update_conflicting(id, conflict))),
                None => Ok(None),
            },
            RpcOutcome::Failed(e) => Err(ReplicationError::RPCError(e)),
            RpcOutcome::TimedOut => Err(
                ReplicationError::RPCError(
                    RPCError::Timeout(
                        Timeout {
                            action: RPCTypes::AppendEntries,
                            id: self.session_id.vote.leader_id.node_id,
                            target: self.target,
                            timeout: self.config.heartbeat_interval,
                        },
                    ),
                ),
            ),
        }
    }

    /// The request that sends the chunk of `snapshot` at `offset`: at most
    /// `snapshot_max_chunk_size` bytes; it is the last chunk if it reaches the
    /// end of the snapshot.
    pub fn snapshot_chunk(&self, snapshot: &mut Snapshot, offset: u64) -> (r: InstallSnapshotRequest)
        requires
            offset <= usize::MAX,
        ensures
            final(snapshot).meta == old(snapshot).meta,
            final(snapshot).snapshot@.bytes == old(snapshot).snapshot@.bytes,
            final(snapshot).snapshot@.pos == offset + r.data@.len(),
            r.vote == self.session_id.vote,
            r.meta@ == old(snapshot).meta@,
            r.offset == offset,
            r.data@ == read_at(
                old(snapshot).snapshot@.bytes,
                offset as nat,
                chunk_size(self.config.snapshot_max_chunk_size),
            ),
            r.done == (offset + r.data@.len() == old(snapshot).snapshot@.bytes.len()),
            (Chunk { offset: offset as nat, data: r.data@ }) == chunk_at(
                old(snapshot).snapshot@.bytes,
                chunk_size(self.config.snapshot_max_chunk_size),
                offset as nat,
            ),
            r.done == is_last_chunk(
                old(snapshot).snapshot@.bytes,
                chunk_size(self.config.snapshot_max_chunk_size),
                offset as nat,
            ),
    {
        let end = snapshot.snapshot.seek_end();
        snapshot.snapshot.seek(offset as usize);
        let max: usize = if self.config.snapshot_max_chunk_size > usize::MAX as u64 {
            usize::MAX
        } else {
            self.config.snapshot_max_chunk_size as usize
        };
        let data = snapshot.snapshot.read(max);
        let done = offset as usize <= end && data.len() == end - offset as usize;
        InstallSnapshotRequest {
            vote: self.session_id.vote,
            meta: snapshot.meta.clone(),
            offset,
            data,
            done,
        }
    }

    /// Takes in what came of the request that sent the chunk `sent` of a
    /// snapshot whose last log id is `last_log_id`.
    ///
    /// A chunk that did not arrive is sent again after a pause. A greater
    /// vote on the target is an error: the leader has to step down. The
    /// last chunk moves what is known to match up to the snapshot. After
    /// any other chunk the next one follows right behind it.
    pub fn on_snapshot_chunk(
        &mut self,
        id: u64,
        last_log_id: Option<LogId>,
        sent: SentChunk,
        outcome: RpcOutcome<InstallSnapshotResponse>,
    ) -> (r: Result<SnapshotStep, ReplicationError>)
        requires
            sent.offset + sent.len <= u64::MAX,
        ensures
            opt_le(old(self).matching, final(self).matching),
            match outcome {
                RpcOutcome::Response(res) => if old(self).session_id.vote.lt_spec(res.vote) {
                    &&& *final(self) == *old(self)
                    &&& r == Err::<SnapshotStep, ReplicationError>(
                        ReplicationError::HigherVote(
                            HigherVote { higher: res.vote, mine: old(self).session_id.vote },
                        ),
                    )
                } else if sent.done {
                    &&& *final(self) == (ReplicationCore {
                        matching: if opt_lt(old(self).matching, last_log_id) {
                            last_log_id
                        } else {
                            old(self).matching
                        },
                        ..*old(self)
                    })
                    &&& r == Ok::<SnapshotStep, ReplicationError>(
                        SnapshotStep::Done {
                            report: if opt_lt(old(self).matching, last_log_id) {
                                Some(
                                    RaftMsg::UpdateReplicationProgress {
                                        session_id: old(self).session_id,
                                        id,
                                        target: old(self).target,
                                        result: Ok(ReplicationResult::Matching(last_log_id)),
                                    },
                                )
                            } else {
                                None
                            },
                        },
                    )
                } else {
                    &&& *final(self) == *old(self)
                    &&& r == Ok::<SnapshotStep, ReplicationError>(
                        SnapshotStep::Continue { offset: (sent.offset + sent.len) as u64 },
                    )
                },
                _ => {
                    &&& *final(self) == *old(self)
                    &&& r == Ok::<SnapshotStep, ReplicationError>(
                        SnapshotStep::Retry { backoff: SNAPSHOT_RETRY_BACKOFF, offset: sent.offset },
                    )
                },
            },
    {
        proof {
            crate::log_id::lemma_opt_log_id_order(self.matching, self.matching, None);
        }
        let res = match outcome {
            RpcOutcome::Response(res) => res,
            _ => {
                return Ok(
                    SnapshotStep::Retry { backoff: SNAPSHOT_RETRY_BACKOFF, offset: sent.offset },
                );
            },
        };
        if self.session_id.vote.is_lt(&res.vote) {
            return Err(
                ReplicationError::HigherVote(
                    HigherVote { higher: res.vote, mine: self.session_id.vote },
                ),
            );
        }
        if sent.done {
            let report = self.update_matching(id, last_log_id);
            return Ok(SnapshotStep::Done { report });
        }
        Ok(SnapshotStep::Continue { offset: sent.offset + sent.len })
    }

    /// How the stream goes on after the action with the id `repl_id` has
    /// ended with `res`.
    ///
    /// A closed inbox stops the stream. A greater vote stops it, and the
    /// core of the leader is told to step down. A failure of the store
    /// stops it, and is fatal to the node. A failure of the transport is
    /// reported, and the stream goes on.
    pub fn on_action_done(&self, repl_id: u64, res: Result<(), ReplicationError>) -> (r: Next)
        ensures
            r.report == match res {
                Ok(()) => None::<RaftMsg>,
                Err(ReplicationError::Closed) => None::<RaftMsg>,
                Err(ReplicationError::HigherVote(h)) => Some(
                    RaftMsg::HigherVote {
                        target: self.target,
                        higher: h.higher,
                        vote: self.session_id.vote,
                    },
                ),
                Err(ReplicationError::StorageError(_)) => Some(RaftMsg::ReplicationFatal),
                Err(ReplicationError::RPCError(err)) => Some(
                    RaftMsg::UpdateReplicationProgress {
                        target: self.target,
                        id: repl_id,
                        result: Err(err),
                        session_id: self.session_id,
                    },
                ),
            },
            r.stop == (res matches Err(e) && !(e is RPCError)),
    {
        match res {
            Ok(()) => Next { report: None, stop: false },
            Err(ReplicationError::Closed) => Next { report: None, stop: true },
            Err(ReplicationError::HigherVote(h)) => Next {
                report: Some(
                    RaftMsg::HigherVote {
                        target: self.target,
                        higher: h.higher,
                        vote: self.session_id.vote,
                    },
                ),
                stop: true,
            },
            Err(ReplicationError::StorageError(_)) => Next {
                report: Some(RaftMsg::ReplicationFatal),
                stop: true,
            },
            Err(ReplicationError::RPCError(err)) => Next {
                report: Some(
                    RaftMsg::UpdateReplicationProgress {
                        target: self.target,
                        id: repl_id,
                        result: Err(err),
                        session_id: self.session_id,
                    },
                ),
                stop: false,
            },
        }
    }
}

/// The greatest number of bytes in a chunk, as far as a buffer can hold
/// them.
pub open spec fn chunk_size(max: u64) -> nat {
    if max > usize::MAX {
        usize::MAX as nat
    } else {
        max as nat
    }
}

/// The chunk of the snapshot `bytes` that is sent at `offset`, where a chunk
/// holds at most `max` bytes.
pub open spec fn chunk_at(bytes: Seq<u8>, max: nat, offset: nat) -> Chunk {
    Chunk { offset, data: read_at(bytes, offset, max) }
}

/// Whether the chunk that is sent at `offset` is the last: it ends where
/// the snapshot ends.
pub open spec fn is_last_chunk(bytes: Seq<u8>, max: nat, offset: nat) -> bool {
    offset + read_at(bytes, offset, max).len() == bytes.len()
}

/// The chunks in which the snapshot `bytes` is sent from `offset` on, where
/// every chunk arrives: each chunk starts right behind the one before it,
/// and the last chunk ends the stream. A stream that makes no way ends
/// after its first chunk.
pub open spec fn stream_from(bytes: Seq<u8>, max: nat, offset: nat) -> Seq<Chunk>
    decreases bytes.len() - offset,
{
    let c = chunk_at(bytes, max, offset);
    if c.data.len() == 0 || is_last_chunk(bytes, max, offset) {
        seq![c]
    } else {
        seq![c] + stream_from(bytes, max, offset + c.data.len())
    }
}

/// The chunks in which a snapshot is sent from an offset in it on are parts
/// of the snapshot that follow one another, none with more than `max` bytes
/// and none but the last one the last chunk or without bytes, and they end
/// where the snapshot ends.
pub proof fn lemma_stream_from(bytes: Seq<u8>, max: nat, offset: nat)
    requires
        max > 0,
        offset <= bytes.len(),
    ensures
        stream_from(bytes, max, offset).len() > 0,
        chunks_of(bytes, stream_from(bytes, max, offset)),
        chunks_in_order(stream_from(bytes, max, offset), offset),
        chunks_end(stream_from(bytes, max, offset), offset) == bytes.len(),
        forall|i: int|
            0 <= i < stream_from(bytes, max, offset).len() ==> {
                let c = #[trigger] stream_from(bytes, max, offset)[i];
                &&& c.data.len() <= max
                &&& c == chunk_at(bytes, max, c.offset)
                &&& is_last_chunk(bytes, max, c.offset) == (i == stream_from(bytes, max, offset).len()
                    - 1)
                &&& i < stream_from(bytes, max, offset).len() - 1 ==> c.data.len() > 0
            },
    decreases bytes.len() - offset,
{
    let c = chunk_at(bytes, max, offset);
    let s = stream_from(bytes, max, offset);
    assert(c.data =~= bytes.subrange(offset as int, (offset + c.data.len()) as int));
    assert(chunk_of(bytes, c));
    if c.data.len() == 0 || is_last_chunk(bytes, max, offset) {
        assert(offset + c.data.len() == bytes.len());
        assert(s =~= seq![c]);
        assert(s.drop_first() =~= Seq::<Chunk>::empty());
        assert(chunks_in_order(s.drop_first(), offset + c.data.len()));
        assert(chunks_end(s.drop_first(), offset + c.data.len()) == offset + c.data.len());
    } else {
        let next = offset + c.data.len();
        let rest = stream_from(bytes, max, next);
        lemma_stream_from(bytes, max, next);
        assert(s =~= seq![c] + rest);
        assert(s.drop_first() =~= rest);
        assert forall|i: int| 0 <= i < s.len() implies chunk_of(bytes, #[trigger] s[i]) by {
            if i > 0 {
                assert(s[i] == rest[i - 1]);
            }
        }
        assert forall|i: int| 0 <= i < s.len() implies ({
            let d = #[trigger] s[i];
            &&& d.data.len() <= max
            &&& d == chunk_at(bytes, max, d.offset)
            &&& is_last_chunk(bytes, max, d.offset) == (i == s.len() - 1)
            &&& i < s.len() - 1 ==> d.data.len() > 0
        }) by {
            if i > 0 {
                assert(s[i] == rest[i - 1]);
            }
        }
    }
}

/// A snapshot that is sent in chunks arrives whole: the chunks of the
/// stream, received one after the other, leave exactly the bytes of the
/// snapshot, whatever chunks of it were received before, in any order and
/// any number of times.
pub proof fn lemma_stream_is_snapshot(bytes: Seq<u8>, max: nat, retries: Seq<Chunk>)
    requires
        max > 0,
        chunks_of(bytes, retries),
    ensures
        received(Seq::empty(), retries + stream_from(bytes, max, 0)) == bytes,
{
    lemma_stream_from(bytes, max, 0);
    lemma_retries_then_completion(bytes, retries, stream_from(bytes, max, 0));
}

/// The entries that are read for a range of log ids make the request for
/// it. Where the log holds every index from `lo` up to `hi`, exclusive, and
/// the range lies within, the entries that the log gives for the range are
/// accepted: they are as many as the range spans, and they are the entries
/// of the log behind `prev_log_id` up to `last_log_id`, by increasing index.
pub proof fn lemma_entries_of_range(
    log: Map<u64, crate::entry::EntryView>,
    req: LogIdRange,
    logs: Seq<crate::entry::EntryView>,
    lo: u64,
    hi: u64,
)
    requires
        spec_next_index(req.prev_log_id) < spec_next_index(req.last_log_id) <= u64::MAX,
        forall|k: u64| log.contains_key(k) <==> lo <= k < hi,
        lo <= spec_next_index(req.prev_log_id),
        spec_next_index(req.last_log_id) <= hi,
        crate::storage::model::is_log_slice(
            log,
            LogIndexRange {
                start: Some(spec_next_index(req.prev_log_id) as u64),
                end: Some(spec_next_index(req.last_log_id) as u64),
            },
            logs,
        ),
    ensures
        logs_violation(
            LogIndexRange {
                start: Some(spec_next_index(req.prev_log_id) as u64),
                end: Some(spec_next_index(req.last_log_id) as u64),
            },
            logs,
        ) is None,
        logs.len() == spec_next_index(req.last_log_id) - spec_next_index(req.prev_log_id),
        forall|i: int|
            0 <= i < logs.len() ==> #[trigger] logs[i] == log[(spec_next_index(req.prev_log_id)
                + i) as u64],
{
    let start = spec_next_index(req.prev_log_id) as u64;
    let end = spec_next_index(req.last_log_id) as u64;
    let range = LogIndexRange { start: Some(start), end: Some(end) };
    crate::storage::helper::lemma_slice_contiguous(log, range, logs, lo, hi);
    assert(logs[0].log_id.index == start + 0);
    assert(logs[logs.len() - 1].log_id.index == start + (logs.len() - 1));
    assert forall|i: int| 0 < i < logs.len() implies logs[i - 1].log_id.index + 1 == (
    #[trigger] logs[i]).log_id.index by {
        assert(logs[i - 1].log_id.index == start + (i - 1));
        assert(logs[i].log_id.index == start + i);
    }
    crate::storage::model::lemma_no_gap(logs);
}

/// Entries without a gap are as many as their indices span.
pub proof fn lemma_consecutive_len(entries: Seq<crate::entry::EntryView>)
    requires
        first_gap(entries) == entries.len(),
        entries.len() > 0,
    ensures
        entries.last().log_id.index == entries[0].log_id.index + entries.len() - 1,
    decreases entries.len(),
{
    if entries.len() > 1 {
        let front = entries.drop_last();
        assert(first_gap(front) == front.len());
        lemma_consecutive_len(front);
        assert(front.last() == entries[entries.len() - 2]);
        assert(front[0] == entries[0]);
    }
}

} // verus!
