//! The state of a snapshot that is streaming in from the leader.
//!
//! The leader sends a snapshot in chunks, each with its offset in the
//! snapshot. Each chunk is written at its offset, so a chunk that is sent
//! again does no harm.

use vstd::prelude::*;

use crate::raft::InstallSnapshotRequest;
use crate::storage::snapshot_data::written;
use crate::storage::snapshot_data::SnapshotData;
use crate::storage::snapshot_data::SnapshotDataView;
use crate::storage::snapshot_meta::SnapshotId;
use crate::storage_error::ErrorSubject;
use crate::storage_error::ErrorVerb;
use crate::storage_error::StorageError;

verus! {

/// A chunk of a snapshot: the bytes to write and the offset to write them
/// at.
pub struct Chunk {
    pub offset: nat,
    pub data: Seq<u8>,
}

/// The chunk is a part of the snapshot `bytes`.
pub open spec fn chunk_of(bytes: Seq<u8>, c: Chunk) -> bool {
    c.offset + c.data.len() <= bytes.len() && c.data == bytes.subrange(
        c.offset as int,
        (c.offset + c.data.len()) as int,
    )
}

/// Every chunk is a part of the snapshot `bytes`.
pub open spec fn chunks_of(bytes: Seq<u8>, chunks: Seq<Chunk>) -> bool {
    forall|i: int| 0 <= i < chunks.len() ==> chunk_of(bytes, #[trigger] chunks[i])
}

/// The chunks follow one another without a gap, from `start` on.
pub open spec fn chunks_in_order(chunks: Seq<Chunk>, start: nat) -> bool
    decreases chunks.len(),
{
    if chunks.len() == 0 {
        true
    } else {
        chunks[0].offset == start && chunks_in_order(
            chunks.drop_first(),
            start + chunks[0].data.len(),
        )
    }
}

/// The offset behind the last of the chunks that follow one another from
/// `start` on.
pub open spec fn chunks_end(chunks: Seq<Chunk>, start: nat) -> nat
    decreases chunks.len(),
{
    if chunks.len() == 0 {
        start
    } else {
        chunks_end(chunks.drop_first(), start + chunks[0].data.len())
    }
}

/// The bytes that are there after the chunks were received one after the
/// other.
pub open spec fn received(bytes: Seq<u8>, chunks: Seq<Chunk>) -> Seq<u8>
    decreases chunks.len(),
{
    if chunks.len() == 0 {
        bytes
    } else {
        received(written(bytes, chunks[0].offset, chunks[0].data), chunks.drop_first())
    }
}

/// The chunk that a request brings.
pub open spec fn chunk_in(req: InstallSnapshotRequest) -> Chunk {
    Chunk { offset: req.offset as nat, data: req.data@ }
}

/// The offset to seek to before a chunk is written: none where the writer
/// is at the offset of the chunk already.
pub open spec fn spec_seek_to(offset: u64, req_offset: u64) -> Option<u64> {
    if req_offset != offset {
        Some(req_offset)
    } else {
        None
    }
}

/// `e` is the error of the writer of a snapshot: what it was about to do
/// with the snapshot of `req`, and why it failed.
pub open spec fn is_writer_error(
    e: StorageError,
    req: InstallSnapshotRequest,
    verb: ErrorVerb,
    cause: String,
) -> bool {
    e matches StorageError::IO { source } && source.verb == verb && source.cause == cause && (
    source.subject matches ErrorSubject::Snapshot(sig) && sig@ == req.meta@.signature())
}

/// The state of a node that is streaming in a snapshot from the leader,
/// into a writer of the type `SD`.
#[derive(Debug)]
pub struct StreamingState<SD> {
    /// The offset behind the last byte written to the snapshot.
    pub offset: u64,
    /// The id of the snapshot being written.
    pub snapshot_id: SnapshotId,
    /// The writer of the snapshot.
    pub snapshot_data: SD,
}

impl<SD> StreamingState<SD> {
    /// A state at offset 0, to write into `snapshot_data`.
    pub fn new(snapshot_id: SnapshotId, snapshot_data: SD) -> (r: Self)
        ensures
            r == (StreamingState { offset: 0, snapshot_id, snapshot_data }),
    {
        StreamingState { offset: 0, snapshot_id, snapshot_data }
    }

    /// The offset to seek the writer to before the chunk of `req` is
    /// written: none where the state is at that offset already.
    pub fn seek_target(&self, req: &InstallSnapshotRequest) -> (r: Option<u64>)
        ensures
            r == spec_seek_to(self.offset, req.offset),
    {
        if req.offset != self.offset {
            Some(req.offset)
        } else {
            None
        }
    }

    /// Takes in what came of seeking the writer to the offset of the chunk
    /// of `req`: the state is at that offset then. Where the writer failed
    /// for the reason `outcome` gives, the state stays where it was, and the
    /// error to report is returned.
    pub fn on_seek(&mut self, req: &InstallSnapshotRequest, outcome: Result<(), String>) -> (r: Result<
        (),
        StorageError,
    >)
        ensures
            match outcome {
                Ok(()) => {
                    &&& r == Ok::<(), StorageError>(())
                    &&& *final(self) == (StreamingState { offset: req.offset, ..*old(self) })
                },
                Err(cause) => {
                    &&& r matches Err(e) && is_writer_error(e, *req, ErrorVerb::Seek, cause)
                    &&& *final(self) == *old(self)
                },
            },
    {
        match outcome {
            Ok(()) => {
                self.offset = req.offset;
                Ok(())
            },
            Err(cause) => Err(
                StorageError::from_io_error(
                    ErrorSubject::Snapshot(req.meta.signature()),
                    ErrorVerb::Seek,
                    cause,
                ),
            ),
        }
    }

    /// Takes in what came of writing the chunk of `req` where the state
    /// is: the state moves behind the bytes of the chunk, and the result says
    /// whether the chunk was the last. Where the writer failed for the reason
    /// `outcome` gives, the state stays where it was, and the error to report
    /// is returned.
    pub fn on_write(&mut self, req: &InstallSnapshotRequest, outcome: Result<(), String>) -> (r: Result<
        bool,
        StorageError,
    >)
        requires
            old(self).offset + req.data@.len() <= u64::MAX,
        ensures
            match outcome {
                Ok(()) => {
                    &&& r == Ok::<bool, StorageError>(req.done)
                    &&& *final(self) == (StreamingState {
                        offset: (old(self).offset + req.data@.len()) as u64,
                        ..*old(self)
                    })
                },
                Err(cause) => {
                    &&& r matches Err(e) && is_writer_error(e, *req, ErrorVerb::Write, cause)
                    &&& *final(self) == *old(self)
                },
            },
    {
        match outcome {
            Ok(()) => {
                self.offset = self.offset + req.data.len() as u64;
                Ok(req.done)
            },
            Err(cause) => Err(
                StorageError::from_io_error(
                    ErrorSubject::Snapshot(req.meta.signature()),
                    ErrorVerb::Write,
                    cause,
                ),
            ),
        }
    }
}

impl StreamingState<SnapshotData> {
    /// The writer stands at the offset behind the last byte written.
    pub open spec fn wf(&self) -> bool {
        self.snapshot_data@.pos == self.offset
    }

    /// Receives a chunk of the snapshot into memory: the chunk is written
    /// at its offset, whatever was received before. Returns whether it was
    /// the last chunk. A writer in memory does not fail.
    pub fn receive(&mut self, req: InstallSnapshotRequest) -> (r: Result<bool, StorageError>)
        requires
            old(self).wf(),
            req.offset + req.data@.len() <= usize::MAX,
        ensures
            final(self).wf(),
            r == Ok::<bool, StorageError>(req.done),
            final(self).offset == req.offset + req.data@.len(),
            final(self).snapshot_id == old(self).snapshot_id,
            final(self).snapshot_data@ == (SnapshotDataView {
                bytes: written(old(self).snapshot_data@.bytes, req.offset as nat, req.data@),
                pos: (req.offset + req.data@.len()) as nat,
            }),
            final(self).snapshot_data@.bytes == received(
                old(self).snapshot_data@.bytes,
                seq![chunk_in(req)],
            ),
    {
        proof {
            lemma_received_one(old(self).snapshot_data@.bytes, chunk_in(req));
        }
        // Seek to the offset of the chunk unless the writer is there.
        if let Some(target) = self.seek_target(&req) {
            self.snapshot_data.seek(target as usize);
            let _ = self.on_seek(&req, Ok(()));
        }
        self.snapshot_data.write_all(req.data.as_slice());
        self.on_write(&req, Ok(()))
    }
}

/// Chunks of a snapshot never grow what is received beyond the snapshot.
pub proof fn lemma_received_bounded(snapshot: Seq<u8>, bytes: Seq<u8>, chunks: Seq<Chunk>)
    requires
        chunks_of(snapshot, chunks),
        bytes.len() <= snapshot.len(),
    ensures
        received(bytes, chunks).len() <= snapshot.len(),
    decreases chunks.len(),
{
    if chunks.len() > 0 {
        assert(chunk_of(snapshot, chunks[0]));
        let next = written(bytes, chunks[0].offset, chunks[0].data);
        assert forall|i: int| 0 <= i < chunks.drop_first().len() implies chunk_of(
            snapshot,
            #[trigger] chunks.drop_first()[i],
        ) by {
            assert(chunks.drop_first()[i] == chunks[i + 1]);
        }
        lemma_received_bounded(snapshot, next, chunks.drop_first());
    }
}

/// Chunks of a snapshot that follow one another from `start` on, received
/// onto bytes that agree with the snapshot up to `start`, leave bytes that
/// agree with the snapshot up to the end of the chunks.
pub proof fn lemma_received_in_order(
    snapshot: Seq<u8>,
    bytes: Seq<u8>,
    chunks: Seq<Chunk>,
    start: nat,
)
    requires
        chunks_of(snapshot, chunks),
        chunks_in_order(chunks, start),
        start <= bytes.len() <= snapshot.len(),
        bytes.take(start as int) == snapshot.take(start as int),
    ensures
        chunks_end(chunks, start) <= received(bytes, chunks).len() <= snapshot.len(),
        received(bytes, chunks).take(chunks_end(chunks, start) as int) == snapshot.take(
            chunks_end(chunks, start) as int,
        ),
    decreases chunks.len(),
{
    if chunks.len() > 0 {
        let c = chunks[0];
        assert(chunk_of(snapshot, c));
        let next = written(bytes, c.offset, c.data);
        let mid = start + c.data.len();
        assert(next.take(mid as int) =~= snapshot.take(mid as int)) by {
            assert forall|i: int| 0 <= i < mid implies next[i] == snapshot[i] by {
                if i < start {
                    assert(bytes.take(start as int)[i] == snapshot.take(start as int)[i]);
                }
            }
        }
        assert forall|i: int| 0 <= i < chunks.drop_first().len() implies chunk_of(
            snapshot,
            #[trigger] chunks.drop_first()[i],
        ) by {
            assert(chunks.drop_first()[i] == chunks[i + 1]);
        }
        lemma_received_in_order(snapshot, next, chunks.drop_first(), mid);
    }
}

/// Receiving one chunk is writing it at its offset.
pub proof fn lemma_received_one(bytes: Seq<u8>, c: Chunk)
    ensures
        received(bytes, seq![c]) == written(bytes, c.offset, c.data),
{
    assert(seq![c].drop_first() =~= Seq::<Chunk>::empty());
    assert(received(written(bytes, c.offset, c.data), seq![c].drop_first()) == written(
        bytes,
        c.offset,
        c.data,
    ));
}

/// A run of chunks, received one call after the other, leaves what the
/// chunks leave when they are received together: what is there after the
/// chunks before the last, with the last written at its offset.
pub proof fn lemma_received_push(bytes: Seq<u8>, chunks: Seq<Chunk>, c: Chunk)
    ensures
        received(bytes, chunks.push(c)) == written(received(bytes, chunks), c.offset, c.data),
        received(bytes, chunks.push(c)) == received(received(bytes, chunks), seq![c]),
{
    assert(chunks.push(c) =~= chunks + seq![c]);
    lemma_received_concat(bytes, chunks, seq![c]);
    lemma_received_one(received(bytes, chunks), c);
}

/// A chunk that is received again, right after it was received, changes
/// nothing.
pub proof fn lemma_received_again(bytes: Seq<u8>, c: Chunk)
    ensures
        received(bytes, seq![c, c]) == received(bytes, seq![c]),
{
    lemma_received_one(bytes, c);
    assert(seq![c, c] =~= seq![c].push(c));
    lemma_received_push(bytes, seq![c], c);
    crate::storage::snapshot_data::lemma_written_twice(bytes, c.offset, c.data);
}

/// Receiving one sequence of chunks after another is receiving them all.
pub proof fn lemma_received_concat(bytes: Seq<u8>, first: Seq<Chunk>, second: Seq<Chunk>)
    ensures
        received(bytes, first + second) == received(received(bytes, first), second),
    decreases first.len(),
{
    if first.len() == 0 {
        assert(first + second =~= second);
    } else {
        assert((first + second).drop_first() =~= first.drop_first() + second);
        lemma_received_concat(
            written(bytes, first[0].offset, first[0].data),
            first.drop_first(),
            second,
        );
    }
}

/// A stream of chunks installs the snapshot it was cut from, whatever was
/// sent again on the way: after any chunks of the snapshot, in any order and
/// any number of times, the chunks of the whole snapshot in order leave
/// exactly the bytes of the snapshot.
pub proof fn lemma_retries_then_completion(
    snapshot: Seq<u8>,
    retries: Seq<Chunk>,
    completion: Seq<Chunk>,
)
    requires
        chunks_of(snapshot, retries),
        chunks_of(snapshot, completion),
        chunks_in_order(completion, 0),
        chunks_end(completion, 0) == snapshot.len(),
    ensures
        received(Seq::empty(), retries + completion) == snapshot,
{
    let empty = Seq::<u8>::empty();
    lemma_received_concat(empty, retries, completion);
    lemma_received_bounded(snapshot, empty, retries);
    let mid = received(empty, retries);
    assert(mid.take(0) =~= snapshot.take(0));
    lemma_received_in_order(snapshot, mid, completion, 0);
    let end = received(mid, completion);
    assert(end.take(snapshot.len() as int) == end);
    assert(snapshot.take(snapshot.len() as int) == snapshot);
}

} // verus!
