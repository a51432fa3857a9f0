//! The bytes of a snapshot in memory, with a position to read and write at.

use vstd::prelude::*;

verus! {

/// What a snapshot buffer is: its bytes, and the position of the next read
/// or write.
pub struct SnapshotDataView {
    pub bytes: Seq<u8>,
    pub pos: nat,
}

/// `n` zero bytes.
pub open spec fn zeros(n: nat) -> Seq<u8> {
    Seq::new(n, |i: int| 0u8)
}

/// The bytes after `buf` is written at position `pos`: the bytes from
/// `pos` on are overwritten, and the buffer grows as far as needed. A
/// write beyond the end fills the gap with zeros.
pub open spec fn written(bytes: Seq<u8>, pos: nat, buf: Seq<u8>) -> Seq<u8> {
    if pos <= bytes.len() {
        if pos + buf.len() <= bytes.len() {
            bytes.take(pos as int) + buf + bytes.skip((pos + buf.len()) as int)
        } else {
            bytes.take(pos as int) + buf
        }
    } else {
        bytes + zeros((pos - bytes.len()) as nat) + buf
    }
}

/// The bytes that a read of at most `max` bytes at position `pos` gives.
pub open spec fn read_at(bytes: Seq<u8>, pos: nat, max: nat) -> Seq<u8> {
    if pos >= bytes.len() {
        Seq::empty()
    } else if pos + max >= bytes.len() {
        bytes.skip(pos as int)
    } else {
        bytes.subrange(pos as int, (pos + max) as int)
    }
}

/// A snapshot in memory: a seekable buffer of bytes.
#[derive(Debug, Clone, PartialEq, Eq)]
pub struct SnapshotData {
    data: Vec<u8>,
    pos: usize,
}

impl View for SnapshotData {
    type V = SnapshotDataView;

    closed spec fn view(&self) -> SnapshotDataView {
        SnapshotDataView { bytes: self.data@, pos: self.pos as nat }
    }
}

impl SnapshotData {
    /// An empty buffer, at position 0.
    pub fn new() -> (r: Self)
        ensures
            r@ == (SnapshotDataView { bytes: Seq::empty(), pos: 0 }),
    {
        SnapshotData { data: Vec::new(), pos: 0 }
    }

    /// A buffer of the given bytes, at position 0.
    pub fn from_bytes(data: Vec<u8>) -> (r: Self)
        ensures
            r@ == (SnapshotDataView { bytes: data@, pos: 0 }),
    {
        SnapshotData { data, pos: 0 }
    }

    /// The bytes of the buffer.
    pub fn into_inner(self) -> (r: Vec<u8>)
        ensures
            r@ == self@.bytes,
    {
        self.data
    }

    /// The bytes of the buffer.
    pub fn get_ref(&self) -> (r: &Vec<u8>)
        ensures
            r@ == self@.bytes,
    {
        &self.data
    }

    /// The number of bytes in the buffer.
    pub fn len(&self) -> (r: usize)
        ensures
            r == self@.bytes.len(),
    {
        self.data.len()
    }

    /// The position of the next read or write.
    pub fn position(&self) -> (r: usize)
        ensures
            r == self@.pos,
    {
        self.pos
    }

    /// Moves to the position `offset` from the start. The position may be
    /// beyond the end.
    pub fn seek(&mut self, offset: usize)
        ensures
            final(self)@ == (SnapshotDataView { bytes: old(self)@.bytes, pos: offset as nat }),
    {
        self.pos = offset;
    }

    /// Moves to the end, and returns that position.
    pub fn seek_end(&mut self) -> (r: usize)
        ensures
            r == old(self)@.bytes.len(),
            final(self)@ == (SnapshotDataView { bytes: old(self)@.bytes, pos: r as nat }),
    {
        self.pos = self.data.len();
        self.pos
    }

    /// Writes all of `buf` at the position, and moves behind it.
    pub fn write_all(&mut self, buf: &[u8])
        requires
            old(self)@.pos + buf@.len() <= usize::MAX,
        ensures
            final(self)@.bytes == written(old(self)@.bytes, old(self)@.pos, buf@),
            final(self)@.pos == old(self)@.pos + buf@.len(),
    {
        let ghost before = self.data@;
        let ghost start = self.pos as nat;
        while self.data.len() < self.pos
            invariant
                self.pos == start,
                before.len() <= self.data@.len() <= start || (self.data@ == before && start
                    <= before.len()),
                start > before.len() ==> self.data@ =~= before + zeros(
                    (self.data@.len() - before.len()) as nat,
                ),
                start <= before.len() ==> self.data@ == before,
            decreases self.pos - self.data.len(),
        {
            self.data.push(0u8);
        }
        let ghost padded = self.data@;
        let mut i: usize = 0;
        while i < buf.len()
            invariant
                0 <= i <= buf@.len(),
                self.pos == start,
                start <= padded.len(),
                start + buf@.len() <= usize::MAX,
                self.data@ =~= written(padded, start, buf@.take(i as int)),
            decreases buf.len() - i,
        {
            let at = self.pos + i;
            proof {
                assert(buf@.take(i + 1) == buf@.take(i as int).push(buf@[i as int]));
            }
            if at < self.data.len() {
                self.data.set(at, buf[i]);
            } else {
                self.data.push(buf[i]);
            }
            i += 1;
        }
        proof {
            assert(buf@.take(buf@.len() as int) == buf@);
            assert(written(padded, start, buf@) =~= written(before, start, buf@));
        }
        self.pos = self.pos + buf.len();
    }

    /// Reads at most `max` bytes at the position, and moves behind them.
    pub fn read(&mut self, max: usize) -> (r: Vec<u8>)
        ensures
            r@ == read_at(old(self)@.bytes, old(self)@.pos, max as nat),
            final(self)@.bytes == old(self)@.bytes,
            final(self)@.pos == old(self)@.pos + r@.len(),
    {
        let mut out: Vec<u8> = Vec::new();
        let len = self.data.len();
        if self.pos >= len {
            return out;
        }
        let end: usize = if max >= len - self.pos {
            len
        } else {
            self.pos + max
        };
        let mut i: usize = self.pos;
        while i < end
            invariant
                self.pos <= i <= end <= self.data.len(),
                out@ =~= self.data@.subrange(self.pos as int, i as int),
            decreases end - i,
        {
            out.push(self.data[i]);
            i += 1;
        }
        self.pos = end;
        out
    }
}

/// Writing the same bytes at the same position again changes nothing.
pub proof fn lemma_written_twice(bytes: Seq<u8>, pos: nat, buf: Seq<u8>)
    ensures
        written(written(bytes, pos, buf), pos, buf) == written(bytes, pos, buf),
{
    let once = written(bytes, pos, buf);
    assert(written(once, pos, buf) =~= once);
}

} // verus!
