//! The buffering logic of a byte reader and a byte writer over a file.
//!
//! A reader hands out bytes one at a time from a large block read at once; a
//! writer gathers small writes into a large block and hands out full blocks to
//! be written at once. The file calls themselves are made by the caller; the
//! types here decide what is read, returned, kept and written.
use vstd::prelude::*;

verus! {

/// The size of a block: 64 KiB.
pub const BUFFER_SIZE: usize = 64 * 1024;

/// The bytes of the last block read that have not been handed out yet.
pub struct ReadBuffer {
    buf: Vec<u8>,
    pos: usize,
    filled: usize,
}

impl ReadBuffer {
    /// The buffer's internal invariant.
    pub closed spec fn wf(&self) -> bool {
        &&& self.buf.len() == BUFFER_SIZE
        &&& self.pos <= self.filled <= BUFFER_SIZE
    }

    /// The bytes still to be handed out, in order.
    pub closed spec fn remaining(&self) -> Seq<u8> {
        self.buf@.subrange(self.pos as int, self.filled as int)
    }

    /// A reader buffer with nothing in it.
    pub fn new() -> (r: Self)
        ensures
            r.wf(),
            r.remaining() == Seq::<u8>::empty(),
    {
        ReadBuffer { buf: vec![0u8; BUFFER_SIZE], pos: 0, filled: 0 }
    }

    /// Whether every byte of the last block has been handed out, so that the
    /// next byte has to come from a new block.
    pub fn is_exhausted(&self) -> (b: bool)
        requires
            self.wf(),
        ensures
            b == (self.remaining().len() == 0),
    {
        self.pos >= self.filled
    }

    /// Hands out the next byte, or `None` when the block is used up.
    pub fn take_byte(&mut self) -> (res: Option<u8>)
        requires
            old(self).wf(),
        ensures
            final(self).wf(),
            (res, final(self).remaining()) == take_outcome(old(self).remaining()),
    {
        if self.pos >= self.filled {
            return None;
        }
        let byte = self.buf[self.pos];
        self.pos = self.pos + 1;
        proof {
            assert(self.remaining() =~= old(self).remaining().drop_first());
        }
        Some(byte)
    }

    /// The storage that blocks are read into.
    pub closed spec fn storage(&self) -> Seq<u8> {
        self.buf@
    }

    /// Takes in a freshly read block: `block` is storage into which the file
    /// has just read `filled` bytes. The buffer keeps that storage, its unread
    /// bytes become the `filled` bytes read (none at end of file), and `block`
    /// gets the buffer's old storage back to read the next block into; no byte
    /// is copied.
    pub fn refill(&mut self, block: &mut Vec<u8>, filled: usize)
        requires
            old(self).wf(),
            old(block)@.len() == BUFFER_SIZE,
            filled <= BUFFER_SIZE,
        ensures
            final(self).wf(),
            final(self).remaining() == old(block)@.take(filled as int),
            final(self).storage() == old(block)@,
            final(block)@ == old(self).storage(),
            final(block)@.len() == BUFFER_SIZE,
    {
        std::mem::swap(&mut self.buf, block);
        self.pos = 0;
        self.filled = filled;
        proof {
            assert(self.remaining() =~= old(block)@.take(filled as int));
        }
    }
}

/// Taking one byte from the unread bytes `remaining`: the first of them and the
/// rest, or `None` and nothing changed when there are none.
pub open spec fn take_outcome(remaining: Seq<u8>) -> (Option<u8>, Seq<u8>) {
    if remaining.len() > 0 {
        (Some(remaining[0]), remaining.drop_first())
    } else {
        (None, remaining)
    }
}

/// One byte read by a reader over a [`ReadBuffer`] holding `remaining`, where
/// `blocks` are the blocks that the file's successive reads will give: take a
/// byte, and when the buffer is used up, refill it with the next block and take
/// again. The byte (`None` at end of file), the buffer's unread bytes and the
/// blocks not yet read.
pub open spec fn read_byte_outcome(remaining: Seq<u8>, blocks: Seq<Seq<u8>>) -> (
    Option<u8>,
    Seq<u8>,
    Seq<Seq<u8>>,
) {
    let (first, rest) = take_outcome(remaining);
    if first is Some || blocks.len() == 0 {
        (first, rest, blocks)
    } else {
        let (next, rest_of_block) = take_outcome(blocks[0]);
        (next, rest_of_block, blocks.drop_first())
    }
}

/// The bytes that successive reads hand out, as [`read_byte_outcome`] gives
/// them, up to the first read that gives `None`.
pub open spec fn bytes_read(remaining: Seq<u8>, blocks: Seq<Seq<u8>>) -> Seq<u8>
    decreases blocks.len(), remaining.len(),
{
    let (byte, rest, more) = read_byte_outcome(remaining, blocks);
    if byte is Some {
        seq![byte->Some_0] + bytes_read(rest, more)
    } else {
        Seq::empty()
    }
}

/// Reading byte by byte hands out the unread bytes and then the file's blocks,
/// each in order, none skipped or repeated, and then `None` at the end of the
/// file (the first empty block); it is the same with no end block.
pub proof fn lemma_reads_concatenate_blocks(remaining: Seq<u8>, blocks: Seq<Seq<u8>>)
    requires
        forall|i: int| 0 <= i < blocks.len() ==> #[trigger] blocks[i].len() > 0,
    ensures
        bytes_read(remaining, blocks) == remaining + blocks.flatten(),
        bytes_read(remaining, blocks.push(Seq::empty())) == remaining + blocks.flatten(),
    decreases blocks.len(), remaining.len(),
{
    let ended = blocks.push(Seq::<u8>::empty());
    if remaining.len() > 0 {
        lemma_reads_concatenate_blocks(remaining.drop_first(), blocks);
        assert(remaining =~= seq![remaining[0]] + remaining.drop_first());
        assert(seq![remaining[0]] + (remaining.drop_first() + blocks.flatten()) =~= remaining
            + blocks.flatten());
    } else if blocks.len() == 0 {
        assert(remaining + blocks.flatten() =~= Seq::<u8>::empty());
        assert(ended[0] =~= Seq::<u8>::empty());
    } else {
        let b = blocks[0];
        let tail = blocks.drop_first();
        assert forall|i: int| 0 <= i < tail.len() implies #[trigger] tail[i].len() > 0 by {
            assert(tail[i] == blocks[i + 1]);
        }
        lemma_reads_concatenate_blocks(b.drop_first(), tail);
        assert(ended[0] == b);
        assert(ended.drop_first() =~= tail.push(Seq::<u8>::empty()));
        assert(b =~= seq![b[0]] + b.drop_first());
        assert(blocks.flatten() == b + tail.flatten());
        assert(seq![b[0]] + (b.drop_first() + tail.flatten()) =~= remaining + blocks.flatten());
    }
}

/// What a writer buffer asks of its caller after one step of taking in data.
#[derive(Debug, PartialEq, Eq, Structural)]
pub enum WriteStep {
    /// All of the data has been taken in.
    Done,
    /// The buffer is full: write it out and clear it before going on.
    NeedFlush,
    /// Data has been taken in up to `next_offset`; when `full` holds, the buffer
    /// has just become full and is to be written out and cleared.
    Copied { next_offset: usize, full: bool },
}

/// How many bytes one step takes in: as many as fit and remain.
pub open spec fn step_len(pending: Seq<u8>, data: Seq<u8>, offset: int) -> int {
    let free = BUFFER_SIZE - pending.len();
    let rest = data.len() - offset;
    if free <= rest {
        free
    } else {
        rest
    }
}

/// One step of taking `data` from `offset` into a buffer holding `pending`: the
/// buffer's new contents and what the caller is asked to do.
pub open spec fn fill_outcome(pending: Seq<u8>, data: Seq<u8>, offset: int) -> (Seq<u8>, WriteStep) {
    if offset >= data.len() {
        (pending, WriteStep::Done)
    } else if pending.len() >= BUFFER_SIZE {
        (pending, WriteStep::NeedFlush)
    } else {
        let n = step_len(pending, data, offset);
        let next = pending + data.subrange(offset, offset + n);
        (next, WriteStep::Copied { next_offset: (offset + n) as usize, full: next.len() == BUFFER_SIZE })
    }
}

/// What the caller of [`WriteBuffer::fill_step`] ends with when it takes in
/// `data` from `offset`, starting with `pending` in the buffer and `flushed`
/// already written out, and writes the buffer out and clears it whenever a step
/// asks it to: the bytes written out in all, and the bytes left pending.
pub open spec fn buffered_write(pending: Seq<u8>, data: Seq<u8>, offset: int, flushed: Seq<u8>) -> (
    Seq<u8>,
    Seq<u8>,
)
    decreases data.len() - offset, pending.len(),
    when 0 <= offset <= data.len() <= usize::MAX && pending.len() <= BUFFER_SIZE
{
    let (next, step) = fill_outcome(pending, data, offset);
    match step {
        WriteStep::Done => (flushed, pending),
        WriteStep::NeedFlush => buffered_write(Seq::empty(), data, offset, flushed + pending),
        WriteStep::Copied { next_offset, full } => if full {
            buffered_write(Seq::empty(), data, next_offset as int, flushed + next)
        } else {
            buffered_write(next, data, next_offset as int, flushed)
        },
    }
}

/// Buffered writing loses, duplicates and reorders nothing: the bytes written
/// out followed by those left pending are the bytes written before followed by
/// the new data. Every write-out is of a whole block, and the buffer is never
/// left full.
pub proof fn lemma_buffered_write(pending: Seq<u8>, data: Seq<u8>, offset: int, flushed: Seq<u8>)
    requires
        0 <= offset <= data.len() <= usize::MAX,
        pending.len() < BUFFER_SIZE,
    ensures
        ({
            let (out, left) = buffered_write(pending, data, offset, flushed);
            &&& out + left == flushed + pending + data.subrange(offset, data.len() as int)
            &&& left.len() < BUFFER_SIZE
            &&& out.len() >= flushed.len()
            &&& (out.len() - flushed.len()) % (BUFFER_SIZE as int) == 0
            &&& out.subrange(0, flushed.len() as int) == flushed
        }),
    decreases data.len() - offset,
{
    let (next, step) = fill_outcome(pending, data, offset);
    if offset >= data.len() {
        assert(data.subrange(offset, data.len() as int) =~= Seq::<u8>::empty());
        assert(flushed + pending + Seq::<u8>::empty() =~= flushed + pending);
        assert(flushed.subrange(0, flushed.len() as int) =~= flushed);
    } else {
        let n = step_len(pending, data, offset);
        let rest_before = data.subrange(offset, data.len() as int);
        let rest_after = data.subrange(offset + n, data.len() as int);
        assert(rest_before =~= data.subrange(offset, offset + n) + rest_after);
        if next.len() == BUFFER_SIZE {
            lemma_buffered_write(Seq::empty(), data, offset + n, flushed + next);
            let (out, left) = buffered_write(Seq::empty(), data, offset + n, flushed + next);
            assert(flushed + next + Seq::<u8>::empty() + rest_after =~= flushed + pending
                + rest_before);
            assert(out.len() - flushed.len() == (out.len() - (flushed + next).len()) + BUFFER_SIZE);
            vstd::arithmetic::div_mod::lemma_mod_add_multiples_vanish(
                out.len() - (flushed + next).len(),
                BUFFER_SIZE as int,
            );
            assert(out.subrange(0, flushed.len() as int) =~= (flushed + next).subrange(
                0,
                flushed.len() as int,
            ));
        } else {
            lemma_buffered_write(next, data, offset + n, flushed);
            assert(flushed + next + rest_after =~= flushed + pending + rest_before);
        }
    }
}

/// Several buffered writes in a row: [`buffered_write`] of each of `datas` in
/// turn, from its start, with the buffer and the bytes written out carried
/// from one write to the next.
pub open spec fn buffered_writes(pending: Seq<u8>, datas: Seq<Seq<u8>>, flushed: Seq<u8>) -> (
    Seq<u8>,
    Seq<u8>,
)
    decreases datas.len(),
{
    if datas.len() == 0 {
        (flushed, pending)
    } else {
        let (out, left) = buffered_write(pending, datas[0], 0, flushed);
        buffered_writes(left, datas.drop_first(), out)
    }
}

/// What the file holds after a writer, created on an empty file, takes each of
/// `datas` in a buffered write and is then closed: the bytes written out by the
/// writes, then the pending bytes that closing writes out.
pub open spec fn closed_file(datas: Seq<Seq<u8>>) -> Seq<u8> {
    let (out, left) = buffered_writes(Seq::empty(), datas, Seq::empty());
    out + left
}

/// Several buffered writes lose, duplicate and reorder nothing: the bytes
/// written out followed by those left pending are the earlier bytes followed
/// by all the data, in order; every write-out is of a whole block, and the
/// buffer is never left full.
pub proof fn lemma_buffered_writes(pending: Seq<u8>, datas: Seq<Seq<u8>>, flushed: Seq<u8>)
    requires
        pending.len() < BUFFER_SIZE,
        forall|i: int| 0 <= i < datas.len() ==> #[trigger] datas[i].len() <= usize::MAX,
    ensures
        ({
            let (out, left) = buffered_writes(pending, datas, flushed);
            &&& out + left == flushed + pending + datas.flatten()
            &&& left.len() < BUFFER_SIZE
            &&& out.len() >= flushed.len()
            &&& (out.len() - flushed.len()) % (BUFFER_SIZE as int) == 0
        }),
    decreases datas.len(),
{
    if datas.len() == 0 {
        assert(flushed + pending + datas.flatten() =~= flushed + pending);
    } else {
        let d = datas[0];
        let tail = datas.drop_first();
        lemma_buffered_write(pending, d, 0, flushed);
        let (out, left) = buffered_write(pending, d, 0, flushed);
        assert(d.subrange(0, d.len() as int) =~= d);
        assert forall|i: int| 0 <= i < tail.len() implies #[trigger] tail[i].len() <= usize::MAX by {
            assert(tail[i] == datas[i + 1]);
        }
        lemma_buffered_writes(left, tail, out);
        let (out2, left2) = buffered_writes(left, tail, out);
        assert(datas.flatten() == d + tail.flatten());
        assert(out2 + left2 =~= flushed + pending + datas.flatten());
        assert(out2.len() - flushed.len() == (out2.len() - out.len()) + (out.len() - flushed.len()));
        vstd::arithmetic::div_mod::lemma_add_mod_noop(
            out2.len() - out.len(),
            out.len() - flushed.len(),
            BUFFER_SIZE as int,
        );
    }
}

/// Buffered writes followed by `close` put exactly the written data into the
/// file, in the order it was written.
pub proof fn lemma_close_writes_concatenation(datas: Seq<Seq<u8>>)
    requires
        forall|i: int| 0 <= i < datas.len() ==> #[trigger] datas[i].len() <= usize::MAX,
    ensures
        closed_file(datas) == datas.flatten(),
{
    lemma_buffered_writes(Seq::empty(), datas, Seq::empty());
    assert(Seq::<u8>::empty() + Seq::<u8>::empty() + datas.flatten() =~= datas.flatten());
}

/// The bytes of `s` as one-byte writes, in order.
pub open spec fn byte_writes(s: Seq<u8>) -> Seq<Seq<u8>> {
    Seq::new(s.len(), |i: int| seq![s[i]])
}

proof fn lemma_byte_writes_flatten(s: Seq<u8>)
    ensures
        byte_writes(s).flatten() == s,
    decreases s.len(),
{
    if s.len() > 0 {
        lemma_byte_writes_flatten(s.drop_first());
        assert(byte_writes(s).drop_first() =~= byte_writes(s.drop_first()));
        assert(byte_writes(s).first() == seq![s[0]]);
        assert(seq![s[0]] + s.drop_first() =~= s);
    } else {
        assert(byte_writes(s) =~= Seq::<Seq<u8>>::empty());
        assert(s =~= Seq::<u8>::empty());
    }
}

/// Copying a file byte by byte through a reader and a writer: every byte that
/// the reads hand out, from the file's blocks until the end of the file, is
/// written in a one-byte buffered write, and the writer is closed. The new file
/// then holds exactly the old file's bytes, the concatenation of its blocks.
pub proof fn lemma_copy_reproduces_file(blocks: Seq<Seq<u8>>)
    requires
        forall|i: int| 0 <= i < blocks.len() ==> #[trigger] blocks[i].len() > 0,
    ensures
        closed_file(byte_writes(bytes_read(Seq::empty(), blocks.push(Seq::empty()))))
            == blocks.flatten(),
        closed_file(byte_writes(bytes_read(Seq::empty(), blocks))) == blocks.flatten(),
{
    let copied = bytes_read(Seq::empty(), blocks.push(Seq::empty()));
    lemma_reads_concatenate_blocks(Seq::empty(), blocks);
    assert(Seq::<u8>::empty() + blocks.flatten() =~= blocks.flatten());
    let writes = byte_writes(copied);
    assert forall|i: int| 0 <= i < writes.len() implies #[trigger] writes[i].len() <= usize::MAX by {
        assert(writes[i] == seq![copied[i]]);
    }
    lemma_close_writes_concatenation(writes);
    lemma_byte_writes_flatten(copied);
    assert(bytes_read(Seq::empty(), blocks) == copied);
}

/// Bytes written but not yet handed out to the file.
pub struct WriteBuffer {
    buf: Vec<u8>,
}

impl WriteBuffer {
    /// The buffer's internal invariant: at most one block is pending.
    pub closed spec fn wf(&self) -> bool {
        self.buf.len() <= BUFFER_SIZE
    }

    /// The pending bytes, in the order they were written.
    pub closed spec fn pending(&self) -> Seq<u8> {
        self.buf@
    }

    /// An empty writer buffer.
    pub fn new() -> (w: Self)
        ensures
            w.wf(),
            w.pending() == Seq::<u8>::empty(),
    {
        WriteBuffer { buf: Vec::with_capacity(BUFFER_SIZE) }
    }

    /// Whether nothing is pending.
    pub fn is_empty(&self) -> (b: bool)
        ensures
            b == (self.pending().len() == 0),
    {
        self.buf.len() == 0
    }

    /// The pending bytes, to be written out.
    pub fn as_slice(&self) -> (s: &[u8])
        ensures
            s@ == self.pending(),
    {
        self.buf.as_slice()
    }

    /// Forgets the pending bytes once they have been written out.
    pub fn clear(&mut self)
        ensures
            final(self).wf(),
            final(self).pending() == Seq::<u8>::empty(),
    {
        self.buf.clear();
    }

    /// Takes in as much of `data[offset..]` as fits (see [`fill_outcome`]).
    pub fn fill_step(&mut self, data: &[u8], offset: usize) -> (step: WriteStep)
        requires
            old(self).wf(),
            offset <= data@.len(),
        ensures
            final(self).wf(),
            (final(self).pending(), step) == fill_outcome(old(self).pending(), data@, offset as int),
    {
        if offset >= data.len() {
            return WriteStep::Done;
        }
        let free = BUFFER_SIZE - self.buf.len();
        if free == 0 {
            return WriteStep::NeedFlush;
        }
        let rest = data.len() - offset;
        let n = if free <= rest {
            free
        } else {
            rest
        };
        self.buf.extend_from_slice(&data[offset..offset + n]);
        proof {
            assert(self.buf@ =~= old(self).buf@ + data@.subrange(offset as int, offset + n));
        }
        WriteStep::Copied { next_offset: offset + n, full: self.buf.len() == BUFFER_SIZE }
    }
}

} // verus!
