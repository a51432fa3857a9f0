use openraft::engine::model::ChangeMembershipError;
use openraft::engine::model::ForwardToLeader;
use openraft::engine::model::InitializeError;
use openraft::engine::progress::ProgressEntry;
use openraft::engine::Command;
use openraft::engine::Engine;
use openraft::engine::EngineConfig;
use openraft::entry::Entry;
use openraft::entry::EntryPayload;
use openraft::log_id::LogId;
use openraft::log_id::LogIdRange;
use openraft::log_id_list::LogIdList;
use openraft::membership::effective_membership::EffectiveMembership;
use openraft::membership::membership_state::MembershipState;
use openraft::membership::stored_membership::StoredMembership;
use openraft::node::EmptyNode;
use openraft::raft::AppendEntriesResponse;
use openraft::raft::VoteRequest;
use openraft::raft::VoteResponse;
use openraft::raft_core::raft_core::run_command;
use openraft::raft_core::raft_core::run_commands;
use openraft::raft_core::ServerState;
use openraft::raft_state::RaftState;
use openraft::replication::ReplicationResult;
use openraft::storage::helper::StorageHelper;
use openraft::storage::mem_store::MemStore;
use openraft::storage::LogIndexRange;
use openraft::storage::RaftStorage;
use openraft::storage::SnapshotMeta;
use openraft::testing::blank_ent;
use openraft::testing::id_set;
use openraft::testing::log_id;
use openraft::testing::membership_of;
use openraft::vote::LeaderId;
use openraft::vote::Vote;

fn lid(term: u64, node: u64, index: u64) -> LogId {
    LogId::new(LeaderId::new(term, node), index)
}

fn ent(term: u64, node: u64, index: u64) -> Entry {
    Entry::new_blank(lid(term, node, index))
}

/// An engine of the node `id` in a cluster of the `voters`, which has stored
/// nothing yet.
fn node(id: u64, voters: &[u64]) -> Engine {
    let membership = EffectiveMembership::new(None, membership_of(voters));
    let mut state = RaftState::default();
    state.membership_state = MembershipState::new(membership.clone(), membership);
    assert!(state.validate());
    let mut eng = Engine::new(state, EngineConfig::new(id, 1000, 256));
    eng.server_state_handler().update_server_state_if_changed();
    assert_eq!(0, eng.output.take_commands().len());
    eng
}

/// Leader election on a 3-node cluster (ids 0,1,2). The election timer of
/// node 0 fires first; it votes for itself with (1,0) and asks for votes. It
/// is the leader with the committed vote (1,0) after the grant of node 1.
#[test]
fn test_leader_election_on_three_nodes() {
    let mut n0 = node(0, &[0, 1, 2]);
    let mut n1 = node(1, &[0, 1, 2]);
    assert_eq!(Vote::new(0, 0), n0.state.vote);
    assert_eq!(ServerState::Follower, n1.state.server_state);

    n0.reset_election_timer(0, 150);
    n0.tick(149);
    assert_eq!(Vote::new(0, 0), n0.state.vote);
    n0.tick(150);

    assert_eq!(Vote::new(1, 0), n0.state.vote);
    assert_eq!(ServerState::Candidate, n0.state.server_state);
    let req = VoteRequest { vote: Vote::new(1, 0), last_log_id: None };
    assert_eq!(
        vec![Command::SaveVote { vote: Vote::new(1, 0) }, Command::SendVoteRequest { vote_req: req }],
        n0.output.take_commands()
    );

    let resp = n1.handle_vote_req(req);
    assert_eq!(VoteResponse { vote: Vote::new(1, 0), vote_granted: true, last_log_id: None }, resp);
    // the vote is saved before the answer goes out
    assert_eq!(
        vec![Command::SaveVote { vote: Vote::new(1, 0) }, Command::SendVoteResult { target: 0, res: resp }],
        n1.output.take_commands()
    );
    assert_eq!(ServerState::Follower, n1.state.server_state);

    n0.handle_vote_resp(1, resp);
    assert_eq!(Vote::new_committed(1, 0), n0.state.vote);
    assert_eq!(ServerState::Leader, n0.state.server_state);
    assert_eq!(
        vec![
            Command::SaveVote { vote: Vote::new_committed(1, 0) },
            Command::BecomeLeader,
            Command::AppendBlankLog { log_id: lid(1, 0, 0) },
            Command::UpdateReplicationStreams,
            // the blank entry goes out to both targets at once
            Command::ReplicateEntries { target: 1, range: LogIdRange::new(None, Some(lid(1, 0, 0))) },
            Command::ReplicateEntries { target: 2, range: LogIdRange::new(None, Some(lid(1, 0, 0))) },
        ],
        n0.output.take_commands()
    );
    assert_eq!(Some(&lid(1, 0, 0)), n0.state.last_log_id());
    assert_eq!(vec![1, 2], n0.progress.keys().copied().collect::<Vec<_>>());
    assert_eq!(Some(&ProgressEntry { matching: None, searching_end: 1 }), n0.progress.get(&1));
    assert!(n0.state.validate());
}

#[test]
fn test_leader_election_with_the_grant_of_the_other_node() {
    let mut n0 = node(0, &[0, 1, 2]);
    let mut n2 = node(2, &[0, 1, 2]);
    n0.elect();
    let resp = n2.handle_vote_req(VoteRequest { vote: Vote::new(1, 0), last_log_id: None });
    assert!(resp.vote_granted);
    n0.handle_vote_resp(2, resp);
    assert_eq!(Vote::new_committed(1, 0), n0.state.vote);
    assert_eq!(ServerState::Leader, n0.state.server_state);
}

#[test]
fn test_no_leader_without_a_quorum() {
    let mut n0 = node(0, &[0, 1, 2]);
    n0.elect();
    n0.output.take_commands();
    // a refusal, and a grant of another vote, do not count
    n0.handle_vote_resp(1, VoteResponse { vote: Vote::new(1, 0), vote_granted: false, last_log_id: None });
    n0.handle_vote_resp(2, VoteResponse { vote: Vote::new(0, 2), vote_granted: true, last_log_id: None });
    assert_eq!(ServerState::Candidate, n0.state.server_state);
    assert_eq!(Vote::new(1, 0), n0.state.vote);
    assert_eq!(0, n0.output.take_commands().len());
}

#[test]
fn test_single_node_is_leader_at_once_and_commits_alone() {
    let mut n0 = node(0, &[0]);
    n0.elect();
    assert_eq!(ServerState::Leader, n0.state.server_state);
    assert_eq!(Vote::new_committed(1, 0), n0.state.vote);
    assert_eq!(Some(lid(1, 0, 0)), n0.state.committed);
    assert_eq!(
        vec![
            Command::SaveVote { vote: Vote::new(1, 0) },
            Command::SaveVote { vote: Vote::new_committed(1, 0) },
            Command::BecomeLeader,
            Command::AppendBlankLog { log_id: lid(1, 0, 0) },
            Command::UpdateReplicationStreams,
            Command::LeaderCommit { already_committed: None, upto: lid(1, 0, 0) },
            Command::ReplicateCommitted { committed: Some(lid(1, 0, 0)) },
        ],
        n0.output.take_commands()
    );
}

#[test]
fn test_vote_request_is_granted_only_to_a_greater_vote_with_a_log_as_far() {
    let mut n1 = node(1, &[0, 1, 2]);
    let leader = Vote::new_committed(2, 0);
    assert_eq!(
        AppendEntriesResponse::Success,
        n1.handle_append_entries_req(&leader, None, &[ent(2, 0, 0), ent(2, 0, 1)], None)
    );
    n1.output.take_commands();

    // the same vote, and a lower one
    for vote in [Vote::new_committed(2, 0), Vote::new(2, 0), Vote::new(1, 2)] {
        let resp = n1.handle_vote_req(VoteRequest { vote, last_log_id: Some(lid(9, 9, 9)) });
        assert!(!resp.vote_granted);
        assert_eq!(leader, resp.vote);
    }
    // a greater vote of a candidate whose log is behind
    let resp = n1.handle_vote_req(VoteRequest { vote: Vote::new(3, 2), last_log_id: Some(lid(2, 0, 0)) });
    assert!(!resp.vote_granted);
    assert_eq!(Some(lid(2, 0, 1)), resp.last_log_id);
    assert_eq!(leader, n1.state.vote);
    // nothing but the answers
    let commands = n1.output.take_commands();
    assert_eq!(4, commands.len());
    assert!(commands.iter().all(|c| matches!(c, Command::SendVoteResult { res, .. } if !res.vote_granted)));
    assert_eq!(Command::SendVoteResult { target: 2, res: resp }, commands[3]);

    // a greater vote of a candidate whose log is as far
    let resp = n1.handle_vote_req(VoteRequest { vote: Vote::new(3, 2), last_log_id: Some(lid(2, 0, 1)) });
    assert!(resp.vote_granted);
    assert_eq!(Vote::new(3, 2), n1.state.vote);
    assert_eq!(
        vec![Command::SaveVote { vote: Vote::new(3, 2) }, Command::SendVoteResult { target: 2, res: resp }],
        n1.output.take_commands()
    );
}

/// The vote of a node never decreases, whatever it handles.
#[test]
fn test_vote_never_decreases() {
    let mut n1 = node(1, &[0, 1, 2]);
    let mut last = n1.state.vote;
    let votes = [
        Vote::new(2, 0),
        Vote::new(1, 2),
        Vote::new_committed(2, 0),
        Vote::new(2, 0),
        Vote::new(2, 2),
        Vote::new_committed(1, 1),
        Vote::new(5, 1),
        Vote::new(4, 4),
    ];
    for (i, vote) in votes.iter().enumerate() {
        match i % 3 {
            0 => {
                n1.handle_vote_req(VoteRequest { vote: *vote, last_log_id: None });
            }
            1 => {
                n1.handle_append_entries_req(vote, None, &[], None);
            }
            _ => n1.handle_higher_vote(vote),
        }
        assert!(last <= n1.state.vote);
        last = n1.state.vote;
    }
    assert_eq!(Vote::new(5, 1), last);
}

/// Higher vote observed on append. Cluster {0,1}; node 0 is the leader with
/// the vote (1,0). Node 1 grants a vote request with the vote (10,1). The next
/// append-entries request of node 0 is answered with the higher vote; node 0
/// is a follower then, with the vote (10,1).
#[test]
fn test_leader_steps_down_on_higher_vote() {
    let mut n0 = node(0, &[0, 1]);
    let mut n1 = node(1, &[0, 1]);
    n0.elect();
    let resp = n1.handle_vote_req(VoteRequest { vote: Vote::new(1, 0), last_log_id: None });
    n0.handle_vote_resp(1, resp);
    assert_eq!(ServerState::Leader, n0.state.server_state);
    n0.output.take_commands();

    let resp = n1.handle_vote_req(VoteRequest { vote: Vote::new(10, 1), last_log_id: Some(lid(10, 1, 5)) });
    assert!(resp.vote_granted);

    let entries = n0.client_write(vec![EntryPayload::Normal(vec![1])]).unwrap();
    assert_eq!(lid(1, 0, 1), entries[0].log_id);
    let resp = n1.handle_append_entries_req(&n0.state.vote, Some(lid(1, 0, 0)), &entries, None);
    assert_eq!(AppendEntriesResponse::HigherVote(Vote::new(10, 1)), resp);

    n0.output.take_commands();
    n0.handle_higher_vote(&Vote::new(10, 1));
    assert_eq!(ServerState::Follower, n0.state.server_state);
    assert_eq!(&Vote::new(10, 1), n0.state.vote_ref());
    assert_eq!(
        vec![Command::SaveVote { vote: Vote::new(10, 1) }, Command::QuitLeader],
        n0.output.take_commands()
    );
    // a write is sent on to nobody: the vote (10,1) is not committed
    assert_eq!(
        Err(ForwardToLeader { leader_id: None, leader_node: None }),
        n0.client_write(vec![EntryPayload::Blank])
    );
}

/// Purge after snapshot. Ten entries of term 1 at the indices 1 to 10 on a
/// single node, all applied; a snapshot at (1,10) with nothing to keep and
/// batches of one. The log is purged up to (1,10), and the store holds no
/// entry then.
#[test]
fn test_purge_after_snapshot() {
    let mut store = MemStore::new();
    let mut entries = vec![blank_ent(0, 0)];
    for i in 1..=10 {
        entries.push(blank_ent(1, i));
    }
    store.save_vote(&Vote::new_committed(1, 0)).unwrap();
    store.append_to_log(&entries).unwrap();
    store.apply_to_state_machine(&entries).unwrap();

    let state = StorageHelper::new(&mut store).get_initial_state().unwrap();
    assert!(state.validate());
    assert_eq!(Some(log_id(1, 10)), state.last_applied);
    let mut eng = Engine::new(state, EngineConfig::new(0, 0, 1));

    let snapshot = store.build_snapshot().unwrap();
    assert_eq!(Some(log_id(1, 10)), snapshot.meta.last_log_id);
    assert!(eng.finish_building_snapshot(snapshot.meta));

    assert_eq!(Some(&log_id(1, 10)), eng.state.last_purged_log_id());
    assert_eq!(Some(log_id(1, 10)), eng.state.purge_upto);
    for command in eng.output.take_commands() {
        match command {
            Command::PurgeLog { upto } => {
                assert_eq!(log_id(1, 10), upto);
                store.purge_logs_upto(upto).unwrap();
            }
            other => panic!("{:?}", other),
        }
    }
    assert_eq!(Some(log_id(1, 10)), store.get_log_state().unwrap().last_purged_log_id);
    assert!(store.try_get_log_entries(LogIndexRange::new(0, 100)).unwrap().is_empty());
    assert!(eng.state.validate());
}

/// The log id to purge up to: what the snapshot includes, less what is to
/// be kept, and only in batches.
#[test]
fn test_calc_purge_upto() {
    let state = |snapshot_index: u64| {
        let mut state = RaftState::default();
        state.log_ids = LogIdList::new(vec![log_id(1, 0), log_id(2, 5), log_id(2, 20)]);
        state.snapshot_meta = SnapshotMeta {
            last_log_id: Some(log_id(2, snapshot_index)),
            last_membership: StoredMembership::default(),
            snapshot_id: "s".to_string(),
        };
        state
    };
    let calc = |snapshot_index: u64, max_keep: u64, batch: u64, purged_next: u64| {
        let mut state = state(snapshot_index);
        state.purged_next = purged_next;
        let mut eng = Engine::new(state, EngineConfig::new(0, max_keep, batch));
        eng.log_handler().calc_purge_upto()
    };
    // purge_end = 10 + 1 - 3 = 8: up to index 7
    assert_eq!(Some(log_id(2, 7)), calc(10, 3, 1, 0));
    assert_eq!(Some(log_id(1, 4)), calc(10, 6, 1, 0));
    // everything that the snapshot includes
    assert_eq!(Some(log_id(2, 10)), calc(10, 0, 1, 0));
    // a batch of 8 is just there, one of 9 is not
    assert_eq!(Some(log_id(2, 7)), calc(10, 3, 8, 0));
    assert_eq!(None, calc(10, 3, 9, 0));
    // behind the last purged log id (1,0) a batch of 7 is there, one of 8 is not
    assert_eq!(Some(log_id(2, 7)), calc(10, 3, 7, 1));
    assert_eq!(None, calc(10, 3, 8, 1));
    // more is to be kept than there is
    assert_eq!(None, calc(10, 11, 1, 0));
    assert_eq!(None, calc(10, 100, 0, 0));

    let mut eng = Engine::new(state(10), EngineConfig::new(0, 3, 1));
    eng.log_handler().update_purge_upto();
    assert_eq!(Some(log_id(2, 7)), eng.state.purge_upto);
    let mut eng = Engine::new(state(10), EngineConfig::new(0, 30, 1));
    eng.state.purge_upto = Some(log_id(1, 2));
    eng.log_handler().update_purge_upto();
    assert_eq!(Some(log_id(1, 2)), eng.state.purge_upto);
}

/// Log conflict truncation. The log of a follower ends with (1,1), (1,2),
/// (1,3); the leader sends the entry (2,2) behind (1,1). The follower deletes
/// (1,2) and (1,3), and appends (2,2).
#[test]
fn test_log_conflict_truncation() {
    let mut n1 = node(1, &[0, 1, 2]);
    let mut store = MemStore::new();
    let old = vec![ent(1, 0, 0), ent(1, 0, 1), ent(1, 0, 2), ent(1, 0, 3)];
    assert_eq!(
        AppendEntriesResponse::Success,
        n1.handle_append_entries_req(&Vote::new_committed(1, 0), None, &old, None)
    );
    assert_eq!(
        vec![
            Command::SaveVote { vote: Vote::new_committed(1, 0) },
            Command::AppendInputEntries { start: 0, end: 4 }
        ],
        n1.output.take_commands()
    );
    store.append_to_log(&old).unwrap();

    let new = vec![ent(2, 2, 2)];
    assert_eq!(
        AppendEntriesResponse::Success,
        n1.handle_append_entries_req(&Vote::new_committed(2, 2), Some(lid(1, 0, 1)), &new, None)
    );
    assert_eq!(Some(&lid(2, 2, 2)), n1.state.last_log_id());
    assert_eq!(None, n1.state.get_log_id(3));
    assert_eq!(Some(lid(1, 0, 1)), n1.state.get_log_id(1));
    // the key log ids: the first of each leader; (1,1) is found from (1,0)
    assert_eq!(&[lid(1, 0, 0), lid(2, 2, 2)], n1.state.log_ids.key_log_ids());
    let commands = n1.output.take_commands();
    assert_eq!(
        vec![
            Command::SaveVote { vote: Vote::new_committed(2, 2) },
            Command::DeleteConflictLog { since: lid(1, 0, 2) },
            Command::AppendInputEntries { start: 0, end: 1 },
        ],
        commands
    );
    for command in commands {
        match command {
            Command::DeleteConflictLog { since } => store.delete_conflict_logs_since(since).unwrap(),
            Command::AppendInputEntries { start, end } => {
                store.append_to_log(&new[start as usize..end as usize]).unwrap()
            }
            _ => {}
        }
    }
    assert_eq!(Some(lid(2, 2, 2)), store.get_log_state().unwrap().last_log_id);
    assert!(StorageHelper::new(&mut store).try_get_log_entry(3).unwrap().is_none());
    assert!(n1.state.validate());
}

#[test]
fn test_append_entries_skips_what_is_there_and_commits() {
    let mut n1 = node(1, &[0, 1, 2]);
    let leader = Vote::new_committed(1, 0);
    let entries = vec![ent(1, 0, 0), ent(1, 0, 1), ent(1, 0, 2)];
    n1.handle_append_entries_req(&leader, None, &entries[..2], Some(lid(1, 0, 5)));
    // committed up to the last entry of the request, not beyond
    assert_eq!(Some(lid(1, 0, 1)), n1.state.committed);
    assert_eq!(
        vec![
            Command::SaveVote { vote: leader },
            Command::AppendInputEntries { start: 0, end: 2 },
            Command::Apply { already_applied: None, upto: lid(1, 0, 1) },
        ],
        n1.output.take_commands()
    );
    // the same entries again, and one more
    assert_eq!(
        AppendEntriesResponse::Success,
        n1.handle_append_entries_req(&leader, None, &entries, Some(lid(1, 0, 1)))
    );
    assert_eq!(vec![Command::AppendInputEntries { start: 2, end: 3 }], n1.output.take_commands());
    assert_eq!(Some(lid(1, 0, 1)), n1.state.committed);
    // a heartbeat that commits
    assert_eq!(
        AppendEntriesResponse::Success,
        n1.handle_append_entries_req(&leader, Some(lid(1, 0, 2)), &[], Some(lid(1, 0, 2)))
    );
    assert_eq!(
        vec![Command::Apply { already_applied: Some(lid(1, 0, 1)), upto: lid(1, 0, 2) }],
        n1.output.take_commands()
    );
}

#[test]
fn test_append_entries_conflict() {
    let mut n1 = node(1, &[0, 1, 2]);
    let leader = Vote::new_committed(1, 0);
    // the start of the log always matches
    assert_eq!(AppendEntriesResponse::Success, n1.handle_append_entries_req(&leader, None, &[], None));
    // the log does not reach up to `prev`
    assert_eq!(
        AppendEntriesResponse::Conflict,
        n1.handle_append_entries_req(&leader, Some(lid(1, 0, 0)), &[ent(1, 0, 1)], None)
    );
    n1.handle_append_entries_req(&leader, None, &[ent(1, 0, 0), ent(1, 0, 1)], None);
    // the log holds another log id at the index of `prev`
    assert_eq!(
        AppendEntriesResponse::Conflict,
        n1.handle_append_entries_req(&Vote::new_committed(2, 2), Some(lid(2, 2, 1)), &[], None)
    );
    assert_eq!(Vote::new_committed(2, 2), n1.state.vote);
    // entries that do not follow `prev`
    assert_eq!(
        AppendEntriesResponse::Conflict,
        n1.handle_append_entries_req(&Vote::new_committed(2, 2), Some(lid(1, 0, 1)), &[ent(2, 2, 3)], None)
    );
    // entries of a later leader than the vote is for
    assert_eq!(
        AppendEntriesResponse::Conflict,
        n1.handle_append_entries_req(&Vote::new_committed(2, 2), Some(lid(1, 0, 1)), &[ent(3, 0, 2)], None)
    );
    assert_eq!(Some(&lid(1, 0, 1)), n1.state.last_log_id());
}

#[test]
fn test_server_state_follows_vote_and_membership() {
    let mut eng = node(1, &[0, 1, 2]);
    assert_eq!(ServerState::Follower, eng.state.server_state);

    eng.state.vote = Vote::new(3, 1);
    eng.server_state_handler().update_server_state_if_changed();
    assert_eq!(ServerState::Candidate, eng.state.server_state);
    assert_eq!(0, eng.output.take_commands().len());

    eng.state.vote = Vote::new_committed(3, 1);
    eng.server_state_handler().update_server_state_if_changed();
    assert_eq!(ServerState::Leader, eng.state.server_state);
    assert_eq!(vec![Command::BecomeLeader], eng.output.take_commands());

    // no change, no command
    eng.server_state_handler().update_server_state_if_changed();
    assert_eq!(0, eng.output.take_commands().len());

    eng.state.vote = Vote::new(4, 2);
    eng.server_state_handler().update_server_state_if_changed();
    assert_eq!(ServerState::Follower, eng.state.server_state);
    assert_eq!(vec![Command::QuitLeader], eng.output.take_commands());
    assert!(eng.output.metrics_flags.cluster);

    // a node that is no voter is a learner, whatever the vote
    let mut learner = node(7, &[0, 1, 2]);
    assert_eq!(ServerState::Learner, learner.state.server_state);
    learner.state.vote = Vote::new_committed(9, 7);
    learner.server_state_handler().update_server_state_if_changed();
    assert_eq!(ServerState::Learner, learner.state.server_state);
    assert_eq!(ServerState::Learner, learner.state.calc_server_state(&7));
    assert_eq!(ServerState::Follower, learner.state.calc_server_state(&0));
}

#[test]
fn test_tick() {
    let mut n0 = node(0, &[0, 1, 2]);
    // no deadline, no election
    n0.tick(1_000_000);
    assert_eq!(Vote::new(0, 0), n0.state.vote);
    n0.reset_election_timer(100, 50);
    assert_eq!(Some(150), n0.timer.election_deadline);
    n0.tick(150);
    assert_eq!(Vote::new(1, 0), n0.state.vote);
    assert_eq!(None, n0.timer.election_deadline);

    // a learner does not stand for election
    let mut learner = node(7, &[0, 1, 2]);
    learner.reset_election_timer(0, 1);
    learner.tick(10);
    assert_eq!(Vote::new(0, 0), learner.state.vote);

    // elections can be switched off
    let mut quiet = node(0, &[0, 1, 2]);
    quiet.config.enable_elect = false;
    quiet.reset_election_timer(0, 1);
    quiet.tick(10);
    assert_eq!(Vote::new(0, 0), quiet.state.vote);

    // a leader sends heartbeats at its interval
    let mut leader = node(0, &[0]);
    leader.elect();
    leader.output.take_commands();
    leader.tick(1000);
    let beat = Command::ReplicateCommitted { committed: Some(lid(1, 0, 0)) };
    assert_eq!(vec![beat.clone()], leader.output.take_commands());
    assert_eq!(Some(1050), leader.timer.next_heartbeat);
    leader.tick(1049);
    assert_eq!(0, leader.output.take_commands().len());
    leader.tick(1050);
    assert_eq!(vec![beat], leader.output.take_commands());
    leader.config.enable_heartbeat = false;
    leader.tick(5000);
    assert_eq!(0, leader.output.take_commands().len());
}

fn leader_of_three() -> Engine {
    let mut n0 = node(0, &[0, 1, 2]);
    n0.elect();
    n0.handle_vote_resp(1, VoteResponse { vote: Vote::new(1, 0), vote_granted: true, last_log_id: None });
    n0.output.take_commands();
    n0
}

#[test]
fn test_client_write_and_commit_by_quorum() {
    let mut n0 = leader_of_three();
    let payloads = vec![EntryPayload::Normal(vec![1]), EntryPayload::Blank];
    let entries = n0.client_write(payloads).unwrap();
    assert_eq!(vec![lid(1, 0, 1), lid(1, 0, 2)], entries.iter().map(|e| e.log_id).collect::<Vec<_>>());
    assert_eq!(EntryPayload::Normal(vec![1]), entries[0].payload);
    let range = LogIdRange::new(None, Some(lid(1, 0, 2)));
    assert_eq!(
        vec![
            Command::AppendInputEntries { start: 0, end: 2 },
            Command::MoveInputLogId { count: 2 },
            Command::ReplicateEntries { target: 1, range },
            Command::ReplicateEntries { target: 2, range },
        ],
        n0.output.take_commands()
    );
    assert_eq!(None, n0.state.committed);

    // what one target has, a quorum has, with the leader
    n0.update_progress(1, ReplicationResult::Matching(Some(lid(1, 0, 1))));
    assert_eq!(Some(lid(1, 0, 1)), n0.state.committed);
    assert_eq!(
        vec![
            Command::LeaderCommit { already_committed: None, upto: lid(1, 0, 1) },
            Command::ReplicateCommitted { committed: Some(lid(1, 0, 1)) },
        ],
        n0.output.take_commands()
    );
    assert_eq!(Some(lid(1, 0, 1)), n0.calc_committed());

    // the other target is behind: nothing more is committed
    n0.update_progress(2, ReplicationResult::Matching(Some(lid(1, 0, 0))));
    assert_eq!(Some(lid(1, 0, 1)), n0.state.committed);
    assert_eq!(0, n0.output.take_commands().len());

    n0.update_progress(2, ReplicationResult::Matching(Some(lid(1, 0, 2))));
    assert_eq!(Some(lid(1, 0, 2)), n0.state.committed);

    // what matches never decreases; a node that is no target is passed over
    n0.update_progress(2, ReplicationResult::Matching(Some(lid(1, 0, 1))));
    assert_eq!(Some(lid(1, 0, 2)), n0.progress.get(&2).unwrap().matching);
    n0.update_progress(9, ReplicationResult::Matching(Some(lid(1, 0, 2))));
    assert!(n0.progress.get(&9).is_none());
    assert!(n0.state.validate());
}

/// A leader commits only log ids of its own: an entry of an earlier leader
/// is not committed by counting matches.
#[test]
fn test_leader_does_not_commit_entries_of_earlier_leaders_by_count() {
    let mut n0 = node(0, &[0, 1, 2]);
    n0.handle_append_entries_req(&Vote::new_committed(1, 2), None, &[ent(1, 2, 0), ent(1, 2, 1)], None);
    n0.state.vote = Vote::new(1, 2);
    n0.elect();
    n0.handle_vote_resp(1, VoteResponse { vote: Vote::new(2, 0), vote_granted: true, last_log_id: None });
    assert_eq!(ServerState::Leader, n0.state.server_state);
    assert_eq!(Some(&lid(2, 0, 2)), n0.state.last_log_id());
    n0.output.take_commands();

    n0.update_progress(1, ReplicationResult::Matching(Some(lid(1, 2, 1))));
    n0.update_progress(2, ReplicationResult::Matching(Some(lid(1, 2, 1))));
    assert_eq!(None, n0.state.committed);
    assert_eq!(None, n0.calc_committed());

    // with the blank entry of the new leader everything before is committed
    n0.update_progress(1, ReplicationResult::Matching(Some(lid(2, 0, 2))));
    assert_eq!(Some(lid(2, 0, 2)), n0.state.committed);
}

#[test]
fn test_progress_searches_the_first_conflict_by_halves() {
    let mut p = ProgressEntry::empty(20);
    assert_eq!(10, p.mid());
    p.update_conflicting(10);
    assert_eq!(ProgressEntry { matching: None, searching_end: 10 }, p);
    assert_eq!(5, p.mid());
    p.update_matching(Some(lid(1, 0, 4)));
    assert_eq!(7, p.mid());
    // a conflict at what matches cannot be
    p.update_conflicting(3);
    assert_eq!(10, p.searching_end);
    // what matches beyond the end of the search moves the end
    p.update_matching(Some(lid(1, 0, 14)));
    assert_eq!(ProgressEntry { matching: Some(lid(1, 0, 14)), searching_end: 15 }, p);
    assert_eq!(15, p.mid());
    // what matches never decreases
    p.update_matching(Some(lid(1, 0, 2)));
    assert_eq!(Some(lid(1, 0, 14)), p.matching);

    let mut n0 = leader_of_three();
    n0.update_progress(1, ReplicationResult::Conflict(lid(1, 0, 0)));
    assert_eq!(Some(&ProgressEntry { matching: None, searching_end: 0 }), n0.progress.get(&1));

    // a search is valid if it does not end before what matches
    assert!(ProgressEntry { matching: Some(lid(1, 0, 4)), searching_end: 5 }.validate());
    assert!(!ProgressEntry { matching: Some(lid(1, 0, 4)), searching_end: 4 }.validate());
    // where the search is over, the next try is behind what matches
    assert_eq!(5, ProgressEntry { matching: Some(lid(1, 0, 4)), searching_end: 3 }.mid());
}

/// After a conflict the leader tries again from the middle of what is left
/// of the search, until the search is over.
#[test]
fn test_leader_retries_with_a_smaller_range_after_a_conflict() {
    let mut n0 = node(0, &[0, 1, 2]);
    let entries: Vec<Entry> = (0..9).map(|i| ent(1, 2, i)).collect();
    n0.handle_append_entries_req(&Vote::new_committed(1, 2), None, &entries, None);
    n0.state.vote = Vote::new(1, 2);
    n0.elect();
    n0.handle_vote_resp(1, VoteResponse { vote: Vote::new(2, 0), vote_granted: true, last_log_id: None });
    assert_eq!(ServerState::Leader, n0.state.server_state);
    // the log of the leader: indices 0 to 8 of the leader before, and its own blank entry
    let last = Some(lid(2, 0, 9));
    assert_eq!(last.as_ref(), n0.state.last_log_id());
    assert_eq!(Some(&ProgressEntry { matching: None, searching_end: 10 }), n0.progress.get(&1));
    // the first try starts in the middle of the log
    let first = LogIdRange::new(Some(lid(1, 2, 4)), last);
    let cmds = n0.output.take_commands();
    assert!(cmds.ends_with(&[
        Command::UpdateReplicationStreams,
        Command::ReplicateEntries { target: 1, range: first },
        Command::ReplicateEntries { target: 2, range: first },
    ]));

    // the target does not hold the log id before the middle: try the lower half
    n0.update_progress(1, ReplicationResult::Conflict(lid(1, 2, 4)));
    assert_eq!(Some(&ProgressEntry { matching: None, searching_end: 4 }), n0.progress.get(&1));
    assert_eq!(
        vec![Command::ReplicateEntries { target: 1, range: LogIdRange::new(Some(lid(1, 2, 1)), last) }],
        n0.output.take_commands()
    );

    n0.update_progress(1, ReplicationResult::Conflict(lid(1, 2, 1)));
    assert_eq!(Some(&ProgressEntry { matching: None, searching_end: 1 }), n0.progress.get(&1));
    assert_eq!(
        vec![Command::ReplicateEntries { target: 1, range: LogIdRange::new(None, last) }],
        n0.output.take_commands()
    );

    // the target matches up to the end of the log: the search is over
    n0.update_progress(1, ReplicationResult::Matching(last));
    assert_eq!(Some(&ProgressEntry { matching: last, searching_end: 10 }), n0.progress.get(&1));
    n0.output.take_commands();

    // a conflict outside the search changes nothing, and nothing is sent again
    n0.update_progress(1, ReplicationResult::Conflict(lid(1, 2, 5)));
    assert_eq!(Some(&ProgressEntry { matching: last, searching_end: 10 }), n0.progress.get(&1));
    assert!(n0.output.take_commands().is_empty());
    // nor does what is found out about a node that is no target
    n0.update_progress(7, ReplicationResult::Conflict(lid(1, 2, 0)));
    assert!(n0.output.take_commands().is_empty());

    // the other target is still searched from the middle
    assert_eq!(Some(&ProgressEntry { matching: None, searching_end: 10 }), n0.progress.get(&2));
}

#[test]
fn test_forward_to_leader() {
    let mut n1 = node(1, &[0, 1, 2]);
    n1.handle_append_entries_req(&Vote::new(1, 0), None, &[], None);
    assert_eq!(
        Err(ForwardToLeader { leader_id: Some(0), leader_node: Some(EmptyNode {}) }),
        n1.client_write(vec![EntryPayload::Blank])
    );
    // a leader that the membership does not hold
    n1.handle_higher_vote(&Vote::new_committed(2, 9));
    assert_eq!(ForwardToLeader { leader_id: Some(9), leader_node: None }, n1.forward_to_leader());
    assert_eq!(Ok(vec![]), leader_of_three().client_write(vec![]));
}

#[test]
fn test_install_snapshot() {
    let mut n1 = node(1, &[0, 1, 2]);
    let leader = Vote::new_committed(2, 0);
    n1.handle_append_entries_req(&leader, None, &[ent(1, 2, 0), ent(1, 2, 1), ent(1, 2, 2)], Some(lid(1, 2, 0)));
    n1.output.take_commands();
    let meta = |last: LogId| SnapshotMeta {
        last_log_id: Some(last),
        last_membership: StoredMembership::new(Some(lid(1, 2, 0)), membership_of(&[0, 1])),
        snapshot_id: "s".to_string(),
    };

    // a snapshot that reaches no further than what is committed
    assert!(!n1.install_snapshot(meta(lid(1, 2, 0))));
    assert_eq!(0, n1.output.take_commands().len());

    // a snapshot of the log: the log behind it stays
    assert!(n1.install_snapshot(meta(lid(1, 2, 1))));
    assert_eq!(&[lid(1, 2, 1), lid(1, 2, 2)], n1.state.log_ids.key_log_ids());
    assert_eq!(Some(lid(1, 2, 1)), n1.state.committed);
    assert_eq!(Some(lid(1, 2, 1)), n1.state.last_applied);
    assert_eq!(Some(&lid(1, 2, 1)), n1.state.last_purged_log_id());
    assert_eq!(
        vec![
            Command::InstallSnapshot { snapshot_meta: meta(lid(1, 2, 1)) },
            Command::PurgeLog { upto: lid(1, 2, 1) },
        ],
        n1.output.take_commands()
    );
    assert!(!n1.state.is_voter(&2));
    assert!(n1.state.validate());

    // a snapshot that differs from the log: what is not committed goes
    assert!(n1.install_snapshot(meta(lid(2, 0, 2))));
    assert_eq!(&[lid(2, 0, 2)], n1.state.log_ids.key_log_ids());
    assert_eq!(
        vec![
            Command::DeleteConflictLog { since: lid(1, 2, 2) },
            Command::InstallSnapshot { snapshot_meta: meta(lid(2, 0, 2)) },
            Command::PurgeLog { upto: lid(2, 0, 2) },
        ],
        n1.output.take_commands()
    );

    // a snapshot beyond the log
    assert!(n1.install_snapshot(meta(lid(2, 0, 9))));
    assert_eq!(&[lid(2, 0, 9)], n1.state.log_ids.key_log_ids());
    assert_eq!(Some(&lid(2, 0, 9)), n1.state.last_log_id());
    // a snapshot of a later leader than the vote is for
    assert!(!n1.install_snapshot(meta(lid(3, 0, 12))));
    assert!(n1.state.validate());
}

#[test]
fn test_snapshot_that_was_built_must_be_of_the_applied_log() {
    let mut n1 = node(1, &[0, 1, 2]);
    n1.handle_append_entries_req(
        &Vote::new_committed(1, 0),
        None,
        &[ent(1, 0, 0), ent(1, 0, 1), ent(1, 0, 2)],
        Some(lid(1, 0, 1)),
    );
    n1.state.last_applied = Some(lid(1, 0, 1));
    n1.output.take_commands();
    let meta = |last: LogId| SnapshotMeta {
        last_log_id: Some(last),
        last_membership: StoredMembership::default(),
        snapshot_id: "s".to_string(),
    };
    // beyond what is applied, and not of this log
    assert!(!n1.finish_building_snapshot(meta(lid(1, 0, 2))));
    assert!(!n1.finish_building_snapshot(meta(lid(1, 9, 1))));
    assert_eq!(SnapshotMeta::default(), n1.state.snapshot_meta);
    // of the applied log; nothing is purged with a thousand entries to keep
    assert!(n1.finish_building_snapshot(meta(lid(1, 0, 1))));
    assert_eq!(Some(lid(1, 0, 1)), n1.state.snapshot_meta.last_log_id);
    assert_eq!(None, n1.state.purge_upto);
    assert_eq!(0, n1.output.take_commands().len());
    // the same snapshot again
    assert!(!n1.finish_building_snapshot(meta(lid(1, 0, 1))));
}

#[test]
fn test_state_validation() {
    let mut state = RaftState::default();
    assert!(state.validate());
    state.log_ids = LogIdList::new(vec![log_id(1, 0), log_id(2, 3), log_id(2, 5)]);
    assert!(!state.validate()); // a log of a later leader than the vote is for
    state.vote = Vote::new(2, 0);
    assert!(state.validate());
    state.committed = Some(log_id(1, 2));
    state.last_applied = Some(log_id(1, 1));
    assert!(state.validate());
    assert!(state.has_log_id(&log_id(7, 2))); // at the committed index
    assert!(state.has_log_id(&log_id(2, 4)));
    assert!(!state.has_log_id(&log_id(1, 4)));

    state.last_applied = Some(log_id(2, 3));
    assert!(!state.validate()); // applied beyond committed
    state.last_applied = Some(log_id(2, 1));
    assert!(!state.validate()); // not a log id of the log
    state.last_applied = None;
    state.purged_next = 3;
    assert!(!state.validate()); // the purged position does not fit the first key
    state.purged_next = 1;
    state.purge_upto = Some(log_id(1, 0));
    assert!(!state.validate()); // purged without a snapshot that covers it
    state.snapshot_meta.last_log_id = Some(log_id(1, 1));
    assert!(!state.validate()); // a snapshot of what is not applied
    state.last_applied = Some(log_id(1, 1));
    assert!(state.validate());
    assert_eq!(Some(&log_id(1, 0)), state.last_purged_log_id());
}

#[test]
fn test_initialize() {
    let mut n0 = Engine::new(RaftState::default(), EngineConfig::new(0, 1000, 256));
    let entry = n0.initialize(membership_of(&[0, 1, 2])).unwrap();
    assert_eq!(Entry::new_membership(lid(0, 0, 0), membership_of(&[0, 1, 2])), entry);
    assert_eq!(Vote::new(1, 0), n0.state.vote);
    assert_eq!(ServerState::Candidate, n0.state.server_state);
    assert_eq!(&membership_of(&[0, 1, 2]), n0.state.membership_state.effective().membership());
    assert_eq!(
        vec![
            Command::AppendInputEntries { start: 0, end: 1 },
            Command::SaveVote { vote: Vote::new(1, 0) },
            Command::SendVoteRequest {
                vote_req: VoteRequest { vote: Vote::new(1, 0), last_log_id: Some(lid(0, 0, 0)) }
            },
        ],
        n0.output.take_commands()
    );

    // a node that is initialized already
    assert_eq!(
        Err(InitializeError::NotAllowed { last_log_id: Some(lid(0, 0, 0)), vote: Vote::new(1, 0) }),
        n0.initialize(membership_of(&[0, 1, 2]))
    );
    let mut voted = Engine::new(RaftState::default(), EngineConfig::new(0, 1000, 256));
    voted.handle_higher_vote(&Vote::new(3, 1));
    assert_eq!(
        Err(InitializeError::NotAllowed { last_log_id: None, vote: Vote::new(3, 1) }),
        voted.initialize(membership_of(&[0, 1, 2]))
    );
    // a node that is no voter of the membership
    let mut outsider = Engine::new(RaftState::default(), EngineConfig::new(5, 1000, 256));
    assert_eq!(
        Err(InitializeError::NotInMembers { node_id: 5 }),
        outsider.initialize(membership_of(&[0, 1, 2]))
    );
    assert_eq!(0, outsider.output.take_commands().len());

    // a cluster of one node has its leader at once
    let mut alone = Engine::new(RaftState::default(), EngineConfig::new(0, 1000, 256));
    alone.initialize(membership_of(&[0])).unwrap();
    assert_eq!(ServerState::Leader, alone.state.server_state);
    assert_eq!(Some(lid(1, 0, 1)), alone.state.committed);
    assert!(alone.state.validate());
}

#[test]
fn test_commands_are_run_on_the_store_in_order() {
    let mut store = MemStore::new();
    let input = vec![ent(1, 0, 0), ent(1, 0, 1), ent(1, 0, 2)];
    let commands = vec![
        Command::SaveVote { vote: Vote::new_committed(1, 0) },
        Command::AppendInputEntries { start: 0, end: 3 },
        Command::Apply { already_applied: None, upto: lid(1, 0, 1) },
        Command::DeleteConflictLog { since: lid(1, 0, 2) },
        Command::AppendBlankLog { log_id: lid(2, 1, 2) },
        Command::PurgeLog { upto: lid(1, 0, 0) },
        Command::ReplicateCommitted { committed: Some(lid(1, 0, 1)) },
        Command::SaveVote { vote: Vote::new(9, 9) },
    ];
    assert_eq!(
        Ok(true),
        run_command(
            &mut MemStore::new(),
            &Command::LeaderCommit { already_committed: Some(lid(1, 0, 0)), upto: lid(1, 0, 1) },
            &input
        )
    );
    // the first command that is not for the store is left to the runtime
    assert_eq!(Ok(6), run_commands(&mut store, &commands, &input));
    assert_eq!(Some(Vote::new_committed(1, 0)), store.read_vote().unwrap());
    assert_eq!(Some(lid(1, 0, 1)), store.last_applied_state().unwrap().0);
    let state = store.get_log_state().unwrap();
    assert_eq!(Some(lid(1, 0, 0)), state.last_purged_log_id);
    assert_eq!(Some(lid(2, 1, 2)), state.last_log_id);
    assert_eq!(
        vec![ent(1, 0, 1), ent(2, 1, 2)],
        store.try_get_log_entries(LogIndexRange::full()).unwrap()
    );

    assert_eq!(Ok(false), run_command(&mut store, &Command::BecomeLeader, &input));
    assert_eq!(Ok(true), run_command(&mut store, &commands[7], &input));
    assert_eq!(Some(Vote::new(9, 9)), store.read_vote().unwrap());
    assert_eq!(Ok(0), run_commands(&mut store, &vec![Command::QuitLeader], &input));
    assert_eq!(Ok(0), run_commands(&mut store, &vec![], &input));
}

#[test]
fn test_commands_stop_at_the_objection_of_a_defensive_store() {
    let mut store = openraft::storage::defensive::DefensiveStore::new(MemStore::new());
    let input = vec![ent(1, 0, 0)];
    let commands = vec![
        Command::AppendInputEntries { start: 0, end: 1 },
        Command::PurgeLog { upto: lid(1, 0, 0) },
        Command::SaveVote { vote: Vote::new(1, 0) },
    ];
    let e = run_commands(&mut store, &commands, &input).unwrap_err().into_defensive().unwrap();
    assert_eq!(
        openraft::storage_error::Violation::PurgeNonApplied { last_applied: None, purge_upto: lid(1, 0, 0) },
        e.violation
    );
    assert_eq!(None, store.read_vote().unwrap());
    assert_eq!(Some(lid(1, 0, 0)), store.get_log_state().unwrap().last_log_id);
}

/// Sends what the leader has behind `prev` to a follower, as a replication
/// stream does, and tells the leader what matches.
fn replicate(leader: &mut Engine, follower: &mut Engine, log: &[Entry], prev: Option<LogId>) -> AppendEntriesResponse {
    let from = prev.map_or(0, |p| p.index as usize + 1);
    let resp = follower.handle_append_entries_req(&leader.state.vote, prev, &log[from..], leader.state.committed);
    if resp == AppendEntriesResponse::Success {
        let id = follower.config.id;
        leader.update_progress(id, ReplicationResult::Matching(log.last().map(|e| e.log_id)));
    }
    resp
}

/// Every node that reports a log id as committed reports the same log id
/// there, also where a follower had other entries that were not committed.
#[test]
fn test_committed_log_ids_agree() {
    let mut n0 = node(0, &[0, 1, 2]);
    let mut n1 = node(1, &[0, 1, 2]);
    let mut n2 = node(2, &[0, 1, 2]);

    // node 2 holds entries of a leader (1,2) that no quorum has got
    n2.handle_append_entries_req(&Vote::new_committed(1, 2), None, &[ent(1, 2, 0), ent(1, 2, 1)], None);

    // node 0 is elected in term 2 with the vote of node 1
    n0.handle_higher_vote(&Vote::new(1, 2));
    n0.elect();
    assert_eq!(Vote::new(2, 0), n0.state.vote);
    let resp = n1.handle_vote_req(VoteRequest { vote: Vote::new(2, 0), last_log_id: None });
    n0.handle_vote_resp(1, resp);
    assert_eq!(ServerState::Leader, n0.state.server_state);

    let mut log = vec![ent(2, 0, 0)];
    log.extend(n0.client_write(vec![EntryPayload::Normal(vec![1]), EntryPayload::Normal(vec![2])]).unwrap());
    assert_eq!(AppendEntriesResponse::Success, replicate(&mut n0, &mut n1, &log, None));
    assert_eq!(Some(lid(2, 0, 2)), n0.state.committed);
    // the followers learn what is committed with the next request
    assert_eq!(AppendEntriesResponse::Success, replicate(&mut n0, &mut n1, &log, Some(lid(2, 0, 2))));
    // the log of node 2 differs at the start: it is replaced
    assert_eq!(AppendEntriesResponse::Conflict, replicate(&mut n0, &mut n2, &log, Some(lid(2, 0, 0))));
    assert_eq!(AppendEntriesResponse::Success, replicate(&mut n0, &mut n2, &log, None));

    for n in [&n0, &n1, &n2] {
        assert_eq!(Some(lid(2, 0, 2)), n.state.committed);
        for i in 0..=2 {
            assert_eq!(Some(lid(2, 0, i)), n.state.get_log_id(i));
        }
        assert!(n.state.validate());
    }
}

/// A quorum grants one vote at a time: a candidate whose vote is below that
/// of the leader gets no vote, and a leader that sees a greater vote is no
/// leader any more before the other can be one.
#[test]
fn test_one_leader_at_a_time() {
    let mut n0 = node(0, &[0, 1, 2]);
    let mut n1 = node(1, &[0, 1, 2]);
    let mut n2 = node(2, &[0, 1, 2]);

    n2.elect();
    let vote = n2.state.vote;
    assert_eq!(Vote::new(1, 2), vote);
    let resp = n1.handle_vote_req(VoteRequest { vote, last_log_id: None });
    n2.handle_vote_resp(1, resp);
    assert_eq!(ServerState::Leader, n2.state.server_state);

    // node 0 stands for election in the same term: its vote (1,0) is below
    n0.elect();
    assert_eq!(Vote::new(1, 0), n0.state.vote);
    let req = VoteRequest { vote: n0.state.vote, last_log_id: Some(lid(9, 9, 9)) };
    for peer in [&mut n1, &mut n2] {
        let resp = peer.handle_vote_req(req);
        assert!(!resp.vote_granted);
        n0.handle_vote_resp(peer.config.id, resp);
    }
    // node 0 has seen the greater vote; it is no candidate any more
    assert_eq!(ServerState::Follower, n0.state.server_state);
    assert_eq!(ServerState::Leader, n2.state.server_state);
    assert_eq!(Vote::new_committed(1, 2), n0.state.vote);

    // in the next term node 0 is elected, and node 2 quits when it hears of it
    n0.elect();
    assert_eq!(Vote::new(2, 0), n0.state.vote);
    let req = VoteRequest { vote: n0.state.vote, last_log_id: Some(lid(1, 2, 0)) };
    let resp = n1.handle_vote_req(req);
    assert!(resp.vote_granted);
    n2.output.take_commands();
    assert!(n2.handle_vote_req(req).vote_granted);
    assert_eq!(ServerState::Follower, n2.state.server_state);
    assert_eq!(
        vec![
            Command::SaveVote { vote: Vote::new(2, 0) },
            Command::QuitLeader,
            Command::SendVoteResult {
                target: 0,
                res: VoteResponse { vote: Vote::new(2, 0), vote_granted: true, last_log_id: Some(lid(1, 2, 0)) }
            },
        ],
        n2.output.take_commands()
    );
    n0.handle_vote_resp(1, resp);
    assert_eq!(ServerState::Leader, n0.state.server_state);
}

#[test]
fn test_finish_applying() {
    let mut n1 = node(1, &[0, 1, 2]);
    let log = [ent(1, 0, 0), ent(1, 0, 1), ent(1, 0, 2)];
    n1.handle_append_entries_req(&Vote::new_committed(1, 0), None, &log, Some(lid(1, 0, 1)));
    assert_eq!(None, n1.state.last_applied);
    // beyond what is committed, and not of the log
    n1.finish_applying(lid(1, 0, 2));
    n1.finish_applying(lid(1, 7, 1));
    assert_eq!(None, n1.state.last_applied);
    n1.finish_applying(lid(1, 0, 1));
    assert_eq!(Some(lid(1, 0, 1)), n1.state.last_applied);
    // what is applied never decreases
    n1.finish_applying(lid(1, 0, 0));
    assert_eq!(Some(lid(1, 0, 1)), n1.state.last_applied);
    assert!(n1.state.validate());

    // a snapshot is worth building once more is applied than it includes
    n1.output.take_commands();
    assert!(n1.trigger_snapshot());
    assert_eq!(vec![Command::BuildSnapshot], n1.output.take_commands());
    assert!(!node(1, &[0, 1, 2]).trigger_snapshot());

    // a snapshot of what is applied is taken, and the log is purged up to it
    n1.config.max_in_snapshot_log_to_keep = 0;
    n1.config.purge_batch_size = 1;
    n1.output.take_commands();
    let meta = SnapshotMeta {
        last_log_id: Some(lid(1, 0, 1)),
        last_membership: StoredMembership::default(),
        snapshot_id: "s".to_string(),
    };
    assert!(n1.finish_building_snapshot(meta));
    assert_eq!(vec![Command::PurgeLog { upto: lid(1, 0, 1) }], n1.output.take_commands());
    assert_eq!(&[lid(1, 0, 1), lid(1, 0, 2)], n1.state.log_ids.key_log_ids());
    assert!(!n1.trigger_snapshot());
    assert!(n1.state.validate());
}

/// Membership change. Cluster {0,1,2}; the leader is asked to change the
/// membership to {0,1,2,3}. Until the change is committed the joint config is
/// in effect, and a commit takes a quorum of both configs. Then the leader is
/// asked again, and the cluster has the new config alone.
#[test]
fn test_membership_change() {
    let mut n0 = leader_of_three();
    // the blank entry of the leader is committed first
    n0.update_progress(1, ReplicationResult::Matching(Some(lid(1, 0, 0))));
    n0.output.take_commands();

    let written = n0.change_membership(id_set(&[0, 1, 2, 3])).unwrap();
    assert_eq!(lid(1, 0, 1), written[0].log_id);
    let effective = n0.state.membership_state.effective().clone();
    assert_eq!(&Some(lid(1, 0, 1)), effective.log_id());
    assert_eq!(
        &vec![id_set(&[0, 1, 2]), id_set(&[0, 1, 2, 3])],
        effective.membership().get_joint_config()
    );
    assert_eq!(&membership_of(&[0, 1, 2]), n0.state.membership_state.committed().membership());
    assert_eq!(Some(written[0].clone()), written.first().cloned());

    // a second change is not stacked onto one that is not committed
    assert_eq!(
        Err(ChangeMembershipError::InProgress { committed: None, membership_log_id: Some(lid(1, 0, 1)) }),
        n0.change_membership(id_set(&[0, 1]))
    );

    // node 3 is no target yet: the streams are as they were set up
    n0.progress.insert(3, ProgressEntry::empty(2));
    // a majority of the old config alone does not commit
    n0.update_progress(1, ReplicationResult::Matching(Some(lid(1, 0, 1))));
    assert_eq!(Some(lid(1, 0, 0)), n0.state.committed);
    // with node 3 both configs have a majority
    n0.update_progress(3, ReplicationResult::Matching(Some(lid(1, 0, 1))));
    assert_eq!(Some(lid(1, 0, 1)), n0.state.committed);
    assert_eq!(&effective, n0.state.membership_state.committed());

    let written = n0.change_membership(id_set(&[0, 1, 2, 3])).unwrap();
    assert_eq!(lid(1, 0, 2), written[0].log_id);
    assert_eq!(&membership_of(&[0, 1, 2, 3]), n0.state.membership_state.effective().membership());
    assert!(n0.state.validate());

    // a node that is not the leader sends the request on
    let mut n1 = node(1, &[0, 1, 2]);
    assert_eq!(
        Err(ChangeMembershipError::ForwardToLeader(ForwardToLeader { leader_id: None, leader_node: None })),
        n1.change_membership(id_set(&[0, 1]))
    );
}

/// A target whose next entries are purged already gets the snapshot.
#[test]
fn test_snapshot_for_a_target_behind_the_purged_log() {
    let mut n0 = leader_of_three();
    n0.client_write(vec![EntryPayload::Blank, EntryPayload::Blank]).unwrap();
    n0.update_progress(1, ReplicationResult::Matching(Some(lid(1, 0, 2))));
    n0.finish_applying(lid(1, 0, 2));
    n0.config.max_in_snapshot_log_to_keep = 0;
    n0.config.purge_batch_size = 1;
    let meta = SnapshotMeta {
        last_log_id: Some(lid(1, 0, 1)),
        last_membership: StoredMembership::default(),
        snapshot_id: "s".to_string(),
    };
    assert!(n0.finish_building_snapshot(meta));
    assert_eq!(2, n0.state.purged_next);
    n0.output.take_commands();

    n0.client_write(vec![EntryPayload::Blank]).unwrap();
    let commands = n0.output.take_commands();
    assert_eq!(
        vec![
            Command::AppendInputEntries { start: 0, end: 1 },
            Command::MoveInputLogId { count: 1 },
            Command::ReplicateEntries {
                target: 1,
                range: LogIdRange::new(Some(lid(1, 0, 2)), Some(lid(1, 0, 3)))
            },
            Command::ReplicateSnapshot { target: 2 },
        ],
        commands
    );
}
