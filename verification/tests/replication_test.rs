use openraft::config::Config;
use openraft::config::ConfigError;
use openraft::log_id::LogIdRange;
use openraft::raft::AppendEntriesResponse;
use openraft::raft::InstallSnapshotRequest;
use openraft::raft::InstallSnapshotResponse;
use openraft::raft_core::StreamingState;
use openraft::replication::replication_core::Next;
use openraft::replication::replication_core::RpcOutcome;
use openraft::replication::replication_core::SentChunk;
use openraft::replication::replication_core::SnapshotStep;
use openraft::replication::Data;
use openraft::replication::HigherVote;
use openraft::replication::Inbox;
use openraft::replication::Payload;
use openraft::replication::Polled;
use openraft::replication::RPCError;
use openraft::replication::RPCTypes;
use openraft::replication::RaftMsg;
use openraft::replication::Replicate;
use openraft::replication::ReplicationCore;
use openraft::replication::ReplicationError;
use openraft::replication::ReplicationResult;
use openraft::replication::ReplicationSessionId;
use openraft::replication::Timeout;
use openraft::storage::LogIndexRange;
use openraft::storage::Snapshot;
use openraft::storage::SnapshotData;
use openraft::storage::SnapshotMeta;
use openraft::storage_error::ErrorSubject;
use openraft::storage_error::ErrorVerb;
use openraft::storage_error::StorageError;
use openraft::storage_error::Violation;
use openraft::testing::blank_ent;
use openraft::testing::log_id;
use openraft::vote::Vote;

fn session() -> ReplicationSessionId {
    ReplicationSessionId::new(Vote::new_committed(3, 0), Some(log_id(1, 1)))
}

fn stream() -> ReplicationCore {
    let config = Config { heartbeat_interval: 70, snapshot_max_chunk_size: 100, ..Config::default() };
    ReplicationCore::new(2, session(), config, Some(log_id(3, 4)), Some(log_id(3, 2)))
}

fn matching(id: u64, upto: u64) -> RaftMsg {
    RaftMsg::UpdateReplicationProgress {
        target: 2,
        id,
        result: Ok(ReplicationResult::Matching(Some(log_id(3, upto)))),
        session_id: session(),
    }
}

fn logs(id: u64, from: u64, to: u64) -> Replicate {
    Replicate::logs(id, LogIdRange::new(Some(log_id(3, from)), Some(log_id(3, to))))
}

fn action(repl: &ReplicationCore) -> Option<(u64, LogIdRange)> {
    match &repl.next_action {
        Some(Data { id, payload: Payload::Logs(range) }) => Some((*id, *range)),
        Some(_) => panic!("a snapshot"),
        None => None,
    }
}

#[test]
fn test_process_event() {
    let mut repl = stream();
    repl.process_event(Replicate::Heartbeat);
    assert_eq!(Some(log_id(3, 4)), repl.committed);
    assert!(repl.next_action.is_none());

    repl.process_event(Replicate::Committed(Some(log_id(3, 6))));
    assert_eq!(Some(log_id(3, 6)), repl.committed);
    assert!(repl.next_action.is_none());

    repl.process_event(logs(7, 2, 6));
    assert_eq!(Some((7, LogIdRange::new(Some(log_id(3, 2)), Some(log_id(3, 6))))), action(&repl));
    assert_eq!(Some(log_id(3, 2)), repl.matching);
}

#[test]
fn test_try_drain_events_stops_at_the_first_data() {
    let mut repl = stream();
    let mut inbox = Inbox::new();
    inbox.push(Replicate::Committed(Some(log_id(3, 5))));
    inbox.push(Replicate::Heartbeat);
    inbox.push(logs(1, 2, 5));
    inbox.push(Replicate::Committed(Some(log_id(3, 9))));
    inbox.push(logs(2, 5, 9));

    assert_eq!(Ok(()), repl.try_drain_events(&mut inbox));
    assert_eq!(Some(log_id(3, 5)), repl.committed);
    assert_eq!(1, action(&repl).unwrap().0);
    // the events behind the data stay in the inbox
    assert!(matches!(inbox.poll(), Polled::Event(Replicate::Committed(_))));
    assert!(matches!(inbox.poll(), Polled::Event(Replicate::Data(_))));
    assert!(matches!(inbox.poll(), Polled::Empty));

    // with something to send nothing is taken in
    inbox.push(Replicate::Committed(Some(log_id(3, 9))));
    assert_eq!(Ok(()), repl.try_drain_events(&mut inbox));
    assert_eq!(Some(log_id(3, 5)), repl.committed);
    assert!(!inbox.is_empty());
}

#[test]
fn test_try_drain_events_on_empty_and_closed_inbox() {
    let mut repl = stream();
    let mut inbox = Inbox::new();
    assert_eq!(Ok(()), repl.try_drain_events(&mut inbox));
    assert!(repl.next_action.is_none());

    inbox.push(Replicate::Committed(None));
    inbox.close();
    // events for a closed inbox are dropped
    inbox.push(logs(1, 2, 5));
    assert_eq!(Err(ReplicationError::Closed), repl.try_drain_events(&mut inbox));
    assert_eq!(None, repl.committed);
    assert!(matches!(inbox.poll(), Polled::Closed));
}

#[test]
fn test_drain_events_fills_in_a_heartbeat() {
    let mut repl = stream();
    let mut inbox = Inbox::new();
    inbox.push(Replicate::Committed(Some(log_id(3, 5))));
    assert_eq!(Ok(()), repl.drain_events(&mut inbox));
    // an empty request at what matches, with the id 0
    assert_eq!(Some((0, LogIdRange::new(Some(log_id(3, 2)), Some(log_id(3, 2))))), action(&repl));
    assert_eq!(Some(log_id(3, 5)), repl.committed);

    let taken = repl.take_action().unwrap();
    assert_eq!(0, taken.id);
    assert!(repl.next_action.is_none());

    inbox.push(Replicate::Heartbeat);
    inbox.push(logs(4, 2, 3));
    assert_eq!(Ok(()), repl.drain_events(&mut inbox));
    assert_eq!(4, action(&repl).unwrap().0);

    repl.take_action();
    inbox.close();
    assert_eq!(Err(ReplicationError::Closed), repl.drain_events(&mut inbox));
}

/// A closed inbox still gives what it holds: the first event that says what
/// to send is the next action, and the events behind it stay.
#[test]
fn test_drain_events_on_a_closed_inbox_with_data() {
    let mut repl = stream();
    let mut inbox = Inbox::new();
    inbox.push(Replicate::Committed(Some(log_id(3, 5))));
    inbox.push(logs(7, 2, 5));
    inbox.push(Replicate::Committed(Some(log_id(3, 9))));
    inbox.close();

    assert_eq!(Ok(()), repl.drain_events(&mut inbox));
    assert_eq!(Some((7, LogIdRange::new(Some(log_id(3, 2)), Some(log_id(3, 5))))), action(&repl));
    assert_eq!(Some(log_id(3, 5)), repl.committed);
    assert!(inbox.closed());
    assert!(matches!(inbox.poll(), Polled::Event(Replicate::Committed(Some(_)))));
    assert!(matches!(inbox.poll(), Polled::Closed));
}

/// A closed inbox whose events run out before one says what to send fails,
/// with its events taken in; no heartbeat is made up.
#[test]
fn test_drain_events_on_a_closed_inbox_without_data() {
    let mut repl = stream();
    let mut inbox = Inbox::new();
    inbox.push(Replicate::Heartbeat);
    inbox.push(Replicate::Committed(Some(log_id(3, 8))));
    inbox.close();

    assert_eq!(Err(ReplicationError::Closed), repl.drain_events(&mut inbox));
    assert_eq!(Some(log_id(3, 8)), repl.committed);
    assert!(repl.next_action.is_none());
    assert!(inbox.is_empty());

    // with nothing in it, nothing changes
    assert_eq!(Err(ReplicationError::Closed), repl.drain_events(&mut inbox));
    assert_eq!(Some(log_id(3, 8)), repl.committed);
    assert_eq!(Some(log_id(3, 2)), repl.matching);
    assert!(repl.next_action.is_none());
}

#[test]
fn test_update_matching_never_decreases() {
    let mut repl = stream();
    assert_eq!(None, repl.update_matching(1, Some(log_id(3, 2))));
    assert_eq!(None, repl.update_matching(1, Some(log_id(3, 1))));
    assert_eq!(None, repl.update_matching(1, None));
    assert_eq!(Some(log_id(3, 2)), repl.matching);
    assert_eq!(Some(matching(5, 3)), repl.update_matching(5, Some(log_id(3, 3))));
    assert_eq!(Some(log_id(3, 3)), repl.matching);
    assert_eq!(
        RaftMsg::UpdateReplicationProgress {
            target: 2,
            id: 8,
            result: Ok(ReplicationResult::Conflict(log_id(3, 1))),
            session_id: session(),
        },
        repl.update_conflicting(8, log_id(3, 1))
    );
}

#[test]
fn test_entries_to_read() {
    let range = |prev: Option<u64>, last: Option<u64>| {
        LogIdRange::new(prev.map(|i| log_id(3, i)), last.map(|i| log_id(3, i)))
    };
    assert_eq!(None, ReplicationCore::entries_to_read(&range(None, None)));
    assert_eq!(None, ReplicationCore::entries_to_read(&range(Some(4), Some(4))));
    assert_eq!(Some(LogIndexRange::new(0, 3)), ReplicationCore::entries_to_read(&range(None, Some(2))));
    assert_eq!(Some(LogIndexRange::new(5, 8)), ReplicationCore::entries_to_read(&range(Some(4), Some(7))));
}

#[test]
fn test_append_entries_request() {
    let repl = stream();
    let range = LogIdRange::new(Some(log_id(3, 2)), Some(log_id(3, 4)));
    let req = repl.append_entries_request(&range, vec![blank_ent(3, 3), blank_ent(3, 4)]).unwrap();
    assert_eq!(Vote::new_committed(3, 0), req.vote);
    assert_eq!(Some(log_id(3, 2)), req.prev_log_id);
    assert_eq!(Some(log_id(3, 4)), req.leader_commit);
    assert_eq!(vec![blank_ent(3, 3), blank_ent(3, 4)], req.entries);

    // a heartbeat
    let beat = LogIdRange::new(Some(log_id(3, 2)), Some(log_id(3, 2)));
    assert!(repl.append_entries_request(&beat, vec![]).unwrap().entries.is_empty());

    // the entries must be exactly those of the range
    let fault = |logs| match repl.append_entries_request(&range, logs) {
        Err(ReplicationError::StorageError(StorageError::Defensive { source })) => {
            (source.subject, source.violation)
        }
        other => panic!("{:?}", other),
    };
    assert_eq!(
        (ErrorSubject::LogIndex(4), Violation::LogIndexNotFound { want: 4, got: Some(3) }),
        fault(vec![blank_ent(3, 3)])
    );
    assert_eq!(
        (ErrorSubject::LogIndex(3), Violation::LogIndexNotFound { want: 3, got: None }),
        fault(vec![])
    );
    let wide = LogIdRange::new(Some(log_id(3, 2)), Some(log_id(3, 5)));
    match repl.append_entries_request(&wide, vec![blank_ent(3, 3), blank_ent(3, 5)]) {
        Err(ReplicationError::StorageError(StorageError::Defensive { source })) => assert_eq!(
            Violation::LogsNonConsecutive { prev: Some(log_id(3, 3)), next: log_id(3, 5) },
            source.violation
        ),
        other => panic!("{:?}", other),
    }
}

#[test]
fn test_on_append_entries() {
    let range = LogIdRange::new(Some(log_id(3, 2)), Some(log_id(3, 4)));

    let mut c = stream();
    assert_eq!(
        Ok(Some(matching(6, 4))),
        c.on_append_entries(6, &range, RpcOutcome::Response(AppendEntriesResponse::Success))
    );
    assert_eq!(Some(log_id(3, 4)), c.matching);
    // the same again tells nothing new
    assert_eq!(Ok(None), c.on_append_entries(6, &range, RpcOutcome::Response(AppendEntriesResponse::Success)));

    let mut c = stream();
    assert_eq!(
        Err(ReplicationError::HigherVote(HigherVote {
            higher: Vote::new(10, 1),
            mine: Vote::new_committed(3, 0)
        })),
        c.on_append_entries(6, &range, RpcOutcome::Response(AppendEntriesResponse::HigherVote(Vote::new(10, 1))))
    );
    assert_eq!(
        Ok(Some(c.update_conflicting(6, log_id(3, 2)))),
        c.on_append_entries(6, &range, RpcOutcome::Response(AppendEntriesResponse::Conflict))
    );
    let at_start = LogIdRange::new(None, Some(log_id(3, 4)));
    assert_eq!(Ok(None), c.on_append_entries(6, &at_start, RpcOutcome::Response(AppendEntriesResponse::Conflict)));
    assert_eq!(
        Err(ReplicationError::RPCError(RPCError::Timeout(Timeout {
            action: RPCTypes::AppendEntries,
            id: 0,
            target: 2,
            timeout: 70
        }))),
        c.on_append_entries(6, &range, RpcOutcome::TimedOut)
    );
    assert_eq!(
        Err(ReplicationError::RPCError(RPCError::Network("reset".to_string()))),
        c.on_append_entries(6, &range, RpcOutcome::Failed(RPCError::Network("reset".to_string())))
    );
    assert_eq!(Some(log_id(3, 2)), c.matching);
}

#[test]
fn test_on_action_done() {
    let c = stream();
    let next = |res| {
        let Next { report, stop } = c.on_action_done(9, res);
        (report, stop)
    };
    assert_eq!((None, false), next(Ok(())));
    assert_eq!((None, true), next(Err(ReplicationError::Closed)));
    assert_eq!(
        (
            Some(RaftMsg::HigherVote { target: 2, higher: Vote::new(10, 1), vote: Vote::new_committed(3, 0) }),
            true
        ),
        next(Err(ReplicationError::HigherVote(HigherVote {
            higher: Vote::new(10, 1),
            mine: Vote::new_committed(3, 0)
        })))
    );
    let fault = StorageError::from_io_error(ErrorSubject::Logs, ErrorVerb::Read, "eio".to_string());
    assert_eq!((Some(RaftMsg::ReplicationFatal), true), next(Err(ReplicationError::StorageError(fault))));
    assert_eq!(
        (
            Some(RaftMsg::UpdateReplicationProgress {
                target: 2,
                id: 9,
                result: Err(RPCError::Unreachable("down".to_string())),
                session_id: session(),
            }),
            false
        ),
        next(Err(ReplicationError::RPCError(RPCError::Unreachable("down".to_string()))))
    );
}

fn source() -> Vec<u8> {
    (0..150u32).map(|i| (i * 7 % 251) as u8).collect()
}

fn snapshot() -> Snapshot {
    let meta = SnapshotMeta { last_log_id: Some(log_id(3, 9)), snapshot_id: "s-9".to_string(), ..SnapshotMeta::default() };
    Snapshot::new(meta, SnapshotData::from_bytes(source()))
}

#[test]
fn test_snapshot_chunks() {
    let repl = stream();
    let mut snapshot = snapshot();
    let first = repl.snapshot_chunk(&mut snapshot, 0);
    assert_eq!((0, 100, false), (first.offset, first.data.len(), first.done));
    assert_eq!(Vote::new_committed(3, 0), first.vote);
    assert_eq!(snapshot.meta, first.meta);
    assert_eq!(source()[..100], first.data[..]);

    let second = repl.snapshot_chunk(&mut snapshot, 100);
    assert_eq!((100, 50, true), (second.offset, second.data.len(), second.done));
    assert_eq!(source()[100..], second.data[..]);

    // a chunk that ends inside the snapshot is not the last
    let inner = repl.snapshot_chunk(&mut snapshot, 30);
    assert_eq!((100, false), (inner.data.len(), inner.done));
    // at the end nothing is left to send
    let end = repl.snapshot_chunk(&mut snapshot, 150);
    assert_eq!((0, true), (end.data.len(), end.done));
    assert_eq!(&source(), snapshot.snapshot.get_ref());

    let config = Config::default();
    assert_eq!(config.install_snapshot_timeout, config.snapshot_chunk_timeout(true));
    // no timeout of their own for the other chunks: they get that of the last
    assert_eq!(0, config.send_snapshot_timeout);
    assert_eq!(200, config.send_snapshot_timeout());
    assert_eq!(200, config.install_snapshot_timeout());
    assert_eq!(200, config.snapshot_chunk_timeout(false));
    let config = Config { send_snapshot_timeout: 70, ..config };
    assert_eq!(70, config.snapshot_chunk_timeout(false));
    assert_eq!(200, config.snapshot_chunk_timeout(true));
}

#[test]
fn test_on_snapshot_chunk() {
    let mut c = stream();
    let ok = || RpcOutcome::Response(InstallSnapshotResponse { vote: Vote::new_committed(3, 0) });
    let inner = SentChunk { offset: 100, len: 20, done: false };
    let last = SentChunk { offset: 120, len: 30, done: true };
    assert_eq!(
        Ok(SnapshotStep::Retry { backoff: 10, offset: 100 }),
        c.on_snapshot_chunk(1, Some(log_id(3, 9)), inner, RpcOutcome::TimedOut)
    );
    assert_eq!(
        Ok(SnapshotStep::Retry { backoff: 10, offset: 120 }),
        c.on_snapshot_chunk(1, Some(log_id(3, 9)), last, RpcOutcome::Failed(RPCError::Network("x".to_string())))
    );
    assert_eq!(Ok(SnapshotStep::Continue { offset: 120 }), c.on_snapshot_chunk(1, Some(log_id(3, 9)), inner, ok()));
    assert_eq!(Some(log_id(3, 2)), c.matching);
    assert_eq!(
        Err(ReplicationError::HigherVote(HigherVote { higher: Vote::new(4, 1), mine: Vote::new_committed(3, 0) })),
        c.on_snapshot_chunk(1, Some(log_id(3, 9)), last, RpcOutcome::Response(InstallSnapshotResponse { vote: Vote::new(4, 1) }))
    );
    assert_eq!(
        Ok(SnapshotStep::Done { report: Some(matching(1, 9)) }),
        c.on_snapshot_chunk(1, Some(log_id(3, 9)), last, ok())
    );
    assert_eq!(Some(log_id(3, 9)), c.matching);
    // a snapshot that is behind what matches tells nothing new
    assert_eq!(Ok(SnapshotStep::Done { report: None }), c.on_snapshot_chunk(1, Some(log_id(3, 5)), last, ok()));
}

/// Snapshot resume on out-of-order chunk. The streamer sends the chunk at
/// offset 0 with 100 bytes, sends it again, and sends the chunk at offset 100
/// with 50 bytes, which is the last. The receiver has the 150 bytes of the
/// source then.
#[test]
fn test_snapshot_resume_on_retried_chunk() {
    let mut leader = stream();
    let mut snapshot = snapshot();
    let mut receiver = StreamingState::new("s-9".to_string(), SnapshotData::new());
    let answer = || RpcOutcome::Response(InstallSnapshotResponse { vote: Vote::new_committed(3, 0) });

    let mut offset = 0;
    let mut sent = vec![];
    // taken from the end: the first answer gets lost on its way back
    let mut outcomes = vec![answer(), answer(), RpcOutcome::TimedOut];
    loop {
        let req = leader.snapshot_chunk(&mut snapshot, offset);
        sent.push((req.offset, req.data.len(), req.done));
        let chunk = SentChunk::of(&req);
        assert_eq!(Ok(chunk.done), receiver.receive(req));
        match leader.on_snapshot_chunk(3, Some(log_id(3, 9)), chunk, outcomes.pop().unwrap()).unwrap() {
            SnapshotStep::Retry { offset: again, .. } => offset = again,
            SnapshotStep::Continue { offset: next } => offset = next,
            SnapshotStep::Done { report } => {
                assert_eq!(Some(matching(3, 9)), report);
                break;
            }
        }
    }
    assert_eq!(vec![(0, 100, false), (0, 100, false), (100, 50, true)], sent);
    assert_eq!(150, receiver.offset);
    assert_eq!(source(), receiver.snapshot_data.into_inner());
}

/// A snapshot is sent in chunks that follow one another: each starts where
/// the one before it ended, none is longer than the greatest chunk, and only
/// the one that ends the snapshot is the last.
#[test]
fn test_snapshot_stream_offsets() {
    let config = Config { snapshot_max_chunk_size: 64, ..Config::default() };
    let mut leader = ReplicationCore::new(2, session(), config, None, None);
    let mut snapshot = snapshot();
    let answer = || RpcOutcome::Response(InstallSnapshotResponse { vote: Vote::new_committed(3, 0) });

    let mut offset = 0;
    let mut sent = vec![];
    let mut bytes = vec![];
    loop {
        let req = leader.snapshot_chunk(&mut snapshot, offset);
        let chunk = SentChunk::of(&req);
        sent.push((chunk.offset, chunk.len, chunk.done));
        bytes.extend_from_slice(&req.data);
        match leader.on_snapshot_chunk(1, Some(log_id(3, 9)), chunk, answer()).unwrap() {
            SnapshotStep::Continue { offset: next } => offset = next,
            SnapshotStep::Done { .. } => break,
            SnapshotStep::Retry { .. } => unreachable!(),
        }
    }
    assert_eq!(vec![(0, 64, false), (64, 64, false), (128, 22, true)], sent);
    assert_eq!(source(), bytes);
    assert_eq!(Some(log_id(3, 9)), leader.matching);
}

/// Chunks that are sent again in any order, and then all chunks in order,
/// leave the bytes of the snapshot.
#[test]
fn test_snapshot_retries_in_any_order_then_completion() {
    let bytes = source();
    let chunk = |offset: usize, len: usize, done: bool| InstallSnapshotRequest {
        vote: Vote::new_committed(3, 0),
        meta: SnapshotMeta::default(),
        offset: offset as u64,
        data: bytes[offset..offset + len].to_vec(),
        done,
    };
    let mut receiver = StreamingState::new("s".to_string(), SnapshotData::new());
    for (offset, len) in [(120, 30), (0, 40), (40, 40), (0, 40), (80, 40), (40, 40), (120, 30)] {
        assert_eq!(Ok(false), receiver.receive(chunk(offset, len, false)));
        assert_eq!((offset + len) as u64, receiver.offset);
    }
    for (offset, len, done) in [(0, 40, false), (40, 40, false), (80, 40, false), (120, 30, true)] {
        assert_eq!(Ok(done), receiver.receive(chunk(offset, len, done)));
    }
    assert_eq!(bytes, receiver.snapshot_data.into_inner());
}

#[test]
fn test_streaming_state_steps() {
    let req = InstallSnapshotRequest {
        vote: Vote::new(1, 0),
        meta: SnapshotMeta { last_log_id: Some(log_id(1, 5)), snapshot_id: "s-5".to_string(), ..SnapshotMeta::default() },
        offset: 64,
        data: vec![0; 16],
        done: true,
    };
    let mut state = StreamingState::new("s-5".to_string(), ());
    assert_eq!(0, state.offset);
    assert_eq!(Some(64), state.seek_target(&req));

    // a seek that fails leaves the state where it was
    match state.on_seek(&req, Err("bad seek".to_string())) {
        Err(StorageError::IO { source }) => {
            assert_eq!(ErrorVerb::Seek, source.verb);
            assert_eq!(ErrorSubject::Snapshot(req.meta.signature()), source.subject);
            assert_eq!("bad seek", source.cause);
        }
        _ => unreachable!(),
    }
    assert_eq!(0, state.offset);

    assert_eq!(Ok(()), state.on_seek(&req, Ok(())));
    assert_eq!(64, state.offset);
    assert_eq!(None, state.seek_target(&req));

    // a write that fails leaves the state at the offset of the chunk
    match state.on_write(&req, Err("disk full".to_string())) {
        Err(StorageError::IO { source }) => {
            assert_eq!(ErrorVerb::Write, source.verb);
            assert_eq!(ErrorSubject::Snapshot(req.meta.signature()), source.subject);
            assert_eq!("disk full", source.cause);
        }
        _ => unreachable!(),
    }
    assert_eq!(64, state.offset);

    assert_eq!(Ok(true), state.on_write(&req, Ok(())));
    assert_eq!(80, state.offset);
    assert_eq!("s-5", state.snapshot_id);

    assert_eq!(Some(log_id(1, 5)), req.meta.signature().last_log_id);
    assert_eq!("s-5", req.meta.signature().snapshot_id);
}

#[test]
fn test_session_id() {
    let current = session();
    assert!(current.is_current(&session()));
    assert!(!current.is_current(&ReplicationSessionId::new(Vote::new_committed(3, 0), Some(log_id(1, 2)))));
    assert!(!current.is_current(&ReplicationSessionId::new(Vote::new_committed(4, 0), Some(log_id(1, 1)))));
}

#[test]
fn test_config_validate() {
    assert!(Config::default().validate().is_ok());
    assert_eq!(
        Err(ConfigError::ElectionTimeout { min: 500, max: 500 }),
        Config { election_timeout_min: 500, election_timeout_max: 500, ..Config::default() }.validate()
    );
    assert_eq!(
        Err(ConfigError::ElectionTimeoutLTHeartBeat { election_timeout_min: 150, heartbeat_interval: 150 }),
        Config { heartbeat_interval: 150, ..Config::default() }.validate()
    );
    let config = Config { election_timeout_min: 500, election_timeout_max: 501, ..Config::default() };
    assert_eq!(Ok(config.clone()), config.validate());
}
