//! What the runtime does with the commands of the engine that concern the
//! store.
//!
//! The runtime runs the commands of an engine step in the order in which
//! the engine has emitted them. The commands for the store are run here; the
//! others ask for messages to peers or to replication streams, and are left
//! to the runtime.

use vstd::prelude::*;
use vstd::slice::slice_subrange;

use crate::engine::command::Command;
use crate::entry::entry_views;
use crate::entry::Entry;
use crate::entry::EntryPayloadView;
use crate::entry::EntryView;
use crate::log_id::spec_next_index;
use crate::storage::model::is_log_slice;
use crate::storage::model::LogIndexRange;
use crate::storage::model::StoreModel;
use crate::storage::raft_storage::RaftStorage;
use crate::storage_error::StorageError;

verus! {

/// Whether a command is run on the store.
pub open spec fn is_storage_command(cmd: Command) -> bool {
    cmd is SaveVote || cmd is PurgeLog || cmd is DeleteConflictLog || cmd is AppendInputEntries
        || cmd is AppendBlankLog || cmd is Apply || cmd is LeaderCommit
}

/// The range of the indices of the entries that a command applies: those
/// behind what was committed before, up to what is committed now.
pub open spec fn apply_range(cmd: Command) -> LogIndexRange {
    match cmd {
        Command::Apply { already_applied, upto } => LogIndexRange {
            start: Some(spec_next_index(already_applied) as u64),
            end: Some((upto.index + 1) as u64),
        },
        Command::LeaderCommit { already_committed, upto } => LogIndexRange {
            start: Some(spec_next_index(already_committed) as u64),
            end: Some((upto.index + 1) as u64),
        },
        _ => LogIndexRange { start: None, end: None },
    }
}

/// Whether a command can be run: the input entries that it names are
/// there, and the indices that it names are indices.
pub open spec fn can_run(cmd: Command, input: Seq<Entry>) -> bool {
    match cmd {
        Command::AppendInputEntries { start, end } => start <= end <= input.len(),
        Command::Apply { already_applied, upto } => upto.index < u64::MAX && spec_next_index(
            already_applied,
        ) <= u64::MAX,
        Command::LeaderCommit { already_committed, upto } => upto.index < u64::MAX
            && spec_next_index(already_committed) <= u64::MAX,
        _ => true,
    }
}

/// The store `after` is what the command makes of the store `before`, once
/// the store has accepted it.
pub open spec fn command_done(before: StoreModel, after: StoreModel, cmd: Command, input: Seq<Entry>) -> bool {
    match cmd {
        Command::SaveVote { vote } => after == before.save_vote(vote),
        Command::PurgeLog { upto } => after == before.purge(upto),
        Command::DeleteConflictLog { since } => after == before.delete_since(since),
        Command::AppendInputEntries { start, end } => after == before.append(
            entry_views(input.subrange(start as int, end as int)),
        ),
        Command::AppendBlankLog { log_id } => after == before.append(
            seq![EntryView { log_id, payload: EntryPayloadView::Blank }],
        ),
        Command::Apply { .. } | Command::LeaderCommit { .. } => exists|s: Seq<EntryView>|
            is_log_slice(before.log, apply_range(cmd), s) && #[trigger] before.apply(s) == after,
        _ => after == before,
    }
}

/// The store `after` is what the commands make of the store `before`, run
/// one after the other.
pub open spec fn commands_done(before: StoreModel, after: StoreModel, cmds: Seq<Command>, input: Seq<Entry>) -> bool
    decreases cmds.len(),
{
    if cmds.len() == 0 {
        after == before
    } else {
        exists|mid: StoreModel|
            commands_done(before, mid, cmds.drop_last(), input) && #[trigger] command_done(
                mid,
                after,
                cmds.last(),
                input,
            )
    }
}

/// Runs a command of the engine on the store, if it is one for the store.
/// Returns whether it is one. `input` holds the entries that the engine was
/// given: an `AppendInputEntries` command names some of them.
pub fn run_command<S: RaftStorage>(store: &mut S, cmd: &Command, input: &[Entry]) -> (r: Result<
    bool,
    StorageError,
>)
    requires
        old(store).inv(),
        can_run(*cmd, input@),
    ensures
        final(store).inv(),
        final(store).model().defensive == old(store).model().defensive,
        final(store).model().reliable == old(store).model().reliable,
        match r {
            Ok(run) => run == is_storage_command(*cmd) && command_done(
                old(store).model(),
                final(store).model(),
                *cmd,
                input@,
            ),
            Err(StorageError::Defensive { .. }) => old(store).model().defensive && final(store).model() == old(store).model() && is_storage_command(*cmd),
            Err(StorageError::IO { .. }) => !old(store).model().reliable && is_storage_command(*cmd),
        },
{
    match cmd {
        Command::SaveVote { vote } => {
            match store.save_vote(vote) {
                Ok(()) => Ok(true),
                Err(e) => Err(e),
            }
        },
        Command::PurgeLog { upto } => {
            match store.purge_logs_upto(*upto) {
                Ok(()) => Ok(true),
                Err(e) => Err(e),
            }
        },
        Command::DeleteConflictLog { since } => {
            match store.delete_conflict_logs_since(*since) {
                Ok(()) => Ok(true),
                Err(e) => Err(e),
            }
        },
        Command::AppendInputEntries { start, end } => {
            let len = input.len();
            assert(*start <= len && *end <= len);
            let first = *start as usize;
            let behind = *end as usize;
            let entries = slice_subrange(input, first, behind);
            match store.append_to_log(entries) {
                Ok(()) => Ok(true),
                Err(e) => Err(e),
            }
        },
        Command::AppendBlankLog { log_id } => {
            let entries = vec![Entry::new_blank(*log_id)];
            proof {
                assert(entry_views(entries@) =~= seq![
                    EntryView { log_id: *log_id, payload: EntryPayloadView::Blank },
                ]);
            }
            match store.append_to_log(entries.as_slice()) {
                Ok(()) => Ok(true),
                Err(e) => Err(e),
            }
        },
        Command::Apply { already_applied, upto } => apply_entries(store, already_applied, upto),
        Command::LeaderCommit { already_committed, upto } => apply_entries(
            store,
            already_committed,
            upto,
        ),
        _ => Ok(false),
    }
}

/// Applies the log entries behind `already` up to `upto` to the state
/// machine.
fn apply_entries<S: RaftStorage>(store: &mut S, already: &Option<crate::log_id::LogId>, upto: &crate::log_id::LogId) -> (r:
    Result<bool, StorageError>)
    requires
        old(store).inv(),
        upto.index < u64::MAX,
        spec_next_index(*already) <= u64::MAX,
    ensures
        final(store).inv(),
        final(store).model().defensive == old(store).model().defensive,
        final(store).model().reliable == old(store).model().reliable,
        match r {
            Ok(run) => run && exists|s: Seq<EntryView>|
                is_log_slice(
                    old(store).model().log,
                    LogIndexRange {
                        start: Some(spec_next_index(*already) as u64),
                        end: Some((upto.index + 1) as u64),
                    },
                    s,
                ) && #[trigger] old(store).model().apply(s) == final(store).model(),
            Err(StorageError::Defensive { .. }) => old(store).model().defensive && final(store).model() == old(store).model(),
            Err(StorageError::IO { .. }) => !old(store).model().reliable,
        },
{
    let start: u64 = match already {
        Some(a) => a.index + 1,
        None => 0,
    };
    let range = LogIndexRange::new(start, upto.index + 1);
    let ghost before = store.model();
    let entries = match store.try_get_log_entries(range) {
        Ok(entries) => entries,
        Err(e) => {
            return Err(e);
        },
    };
    match store.apply_to_state_machine(entries.as_slice()) {
        Ok(_) => {
            proof {
                let s = entry_views(entries@);
                assert(is_log_slice(before.log, range, s) && before.apply(s) == store.model());
            }
            Ok(true)
        },
        Err(e) => Err(e),
    }
}

/// Runs the commands of the engine on the store, in the order of emission,
/// up to the first that is not for the store: that one is left to the
/// runtime. Returns how many commands were run.
pub fn run_commands<S: RaftStorage>(store: &mut S, cmds: &Vec<Command>, input: &[Entry]) -> (r:
    Result<usize, StorageError>)
    requires
        old(store).inv(),
        forall|i: int| 0 <= i < cmds@.len() ==> can_run(#[trigger] cmds@[i], input@),
    ensures
        final(store).inv(),
        final(store).model().defensive == old(store).model().defensive,
        final(store).model().reliable == old(store).model().reliable,
        match r {
            Ok(n) => {
                &&& n <= cmds@.len()
                &&& forall|i: int| 0 <= i < n ==> is_storage_command(#[trigger] cmds@[i])
                &&& n < cmds@.len() ==> !is_storage_command(cmds@[n as int])
                &&& commands_done(
                    old(store).model(),
                    final(store).model(),
                    cmds@.take(n as int),
                    input@,
                )
            },
            Err(StorageError::Defensive { .. }) => old(store).model().defensive,
            Err(StorageError::IO { .. }) => !old(store).model().reliable,
        },
{
    let mut n: usize = 0;
    proof {
        assert(cmds@.take(0) =~= Seq::<Command>::empty());
    }
    while n < cmds.len()
        invariant
            0 <= n <= cmds@.len(),
            store.inv(),
            store.model().defensive == old(store).model().defensive,
            store.model().reliable == old(store).model().reliable,
            forall|i: int| 0 <= i < cmds@.len() ==> can_run(#[trigger] cmds@[i], input@),
            forall|i: int| 0 <= i < n ==> is_storage_command(#[trigger] cmds@[i]),
            commands_done(old(store).model(), store.model(), cmds@.take(n as int), input@),
        decreases cmds.len() - n,
    {
        let ghost mid = store.model();
        match run_command(store, &cmds[n], input) {
            Ok(true) => {
                proof {
                    assert(cmds@.take(n + 1).drop_last() == cmds@.take(n as int));
                    assert(cmds@.take(n + 1).last() == cmds@[n as int]);
                    assert(command_done(mid, store.model(), cmds@.take(n + 1).last(), input@));
                }
                n += 1;
            },
            Ok(false) => {
                return Ok(n);
            },
            Err(e) => {
                return Err(e);
            },
        }
    }
    Ok(n)
}

} // verus!
