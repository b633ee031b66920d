//! Pipes: a fixed-size ring buffer shared by a read end and a write end.
//!
//! The buffer holds at most `RING_BUFFER_SIZE` bytes and hands them out
//! first-in first-out. The write end's liveness is tracked beside the buffer,
//! standing in for the weak reference of a reference-counted kernel: all
//! write ends closed is exactly what a reader observes as end of stream.

use vstd::prelude::*;

use crate::memory_set::MemorySet;

verus! {

pub const RING_BUFFER_SIZE: usize = 32;

#[derive(Clone, Copy, PartialEq, Eq, Structural, Debug)]
pub enum RingBufferStatus {
    Full,
    Empty,
    Normal,
}

/// The shared ring. `head` is the oldest byte, `tail` the next free slot;
/// `status` disambiguates the `head == tail` cases. `write_ends` counts the
/// writable capabilities alive on this ring — what the reference-counted
/// kernel tracks with a weak reference — and the stream ends exactly when it
/// reaches zero.
pub struct PipeRingBuffer {
    pub arr: Vec<u8>,
    pub head: usize,
    pub tail: usize,
    pub status: RingBufferStatus,
    pub write_ends: usize,
}

impl PipeRingBuffer {
    pub open spec fn wf(self) -> bool {
        &&& self.arr@.len() == RING_BUFFER_SIZE
        &&& self.head < RING_BUFFER_SIZE
        &&& self.tail < RING_BUFFER_SIZE
        &&& (self.status == RingBufferStatus::Empty || self.status == RingBufferStatus::Full)
            ==> self.head == self.tail
        &&& self.status == RingBufferStatus::Normal ==> self.head != self.tail
    }

    /// How many bytes are buffered.
    pub open spec fn spec_len(self) -> int {
        if self.status == RingBufferStatus::Empty {
            0
        } else if self.status == RingBufferStatus::Full {
            RING_BUFFER_SIZE as int
        } else if self.head < self.tail {
            self.tail - self.head
        } else {
            RING_BUFFER_SIZE - self.head + self.tail
        }
    }

    /// The buffered bytes, oldest first.
    pub open spec fn view(self) -> Seq<u8> {
        Seq::new(
            self.spec_len() as nat,
            |i: int|
                self.arr@[if self.head + i < RING_BUFFER_SIZE {
                    self.head + i
                } else {
                    self.head + i - RING_BUFFER_SIZE
                }],
        )
    }

    /// An empty ring with no write end attached yet.
    pub fn new() -> (r: PipeRingBuffer)
        ensures
            r.wf(),
            r.view() == Seq::<u8>::empty(),
            r.write_ends == 0,
            r.head == 0,
            r.tail == 0,
            r.status == RingBufferStatus::Empty,
    {
        let mut arr: Vec<u8> = Vec::new();
        let mut i: usize = 0;
        while i < RING_BUFFER_SIZE
            invariant
                i <= RING_BUFFER_SIZE,
                arr@.len() == i,
            decreases RING_BUFFER_SIZE - i,
        {
            arr.push(0u8);
            i = i + 1;
        }
        let r = PipeRingBuffer {
            arr,
            head: 0,
            tail: 0,
            status: RingBufferStatus::Empty,
            write_ends: 0,
        };
        proof {
            assert(r.view() =~= Seq::<u8>::empty());
        }
        r
    }

    /// Register one more live write end on this ring.
    pub fn set_write_end(&mut self)
        requires
            old(self).wf(),
        ensures
            final(self).wf(),
            final(self).write_ends == (if old(self).write_ends < usize::MAX {
                old(self).write_ends + 1
            } else {
                old(self).write_ends as int
            }),
            final(self).view() == old(self).view(),
            final(self).arr == old(self).arr,
            final(self).head == old(self).head,
            final(self).tail == old(self).tail,
            final(self).status == old(self).status,
    {
        if self.write_ends < usize::MAX {
            self.write_ends = self.write_ends + 1;
        }
        proof {
            assert(final(self).view() =~= old(self).view());
        }
    }

    /// Record that one write end has been dropped.
    pub fn close_write_end(&mut self)
        requires
            old(self).wf(),
        ensures
            final(self).wf(),
            final(self).write_ends == (if old(self).write_ends > 0 {
                old(self).write_ends - 1
            } else {
                0int
            }),
            final(self).view() == old(self).view(),
            final(self).arr == old(self).arr,
            final(self).head == old(self).head,
            final(self).tail == old(self).tail,
            final(self).status == old(self).status,
    {
        if self.write_ends > 0 {
            self.write_ends = self.write_ends - 1;
        }
        proof {
            assert(final(self).view() =~= old(self).view());
        }
    }

    /// Append one byte; the ring must not be full.
    pub fn write_byte(&mut self, byte: u8)
        requires
            old(self).wf(),
            old(self).spec_len() < RING_BUFFER_SIZE,
        ensures
            final(self).wf(),
            final(self).view() == old(self).view().push(byte),
            final(self).write_ends == old(self).write_ends,
    {
        self.status = RingBufferStatus::Normal;
        let t = self.tail;
        self.arr[t] = byte;
        self.tail = (self.tail + 1) % RING_BUFFER_SIZE;
        if self.tail == self.head {
            self.status = RingBufferStatus::Full;
        }
        proof {
            assert(final(self).view() =~= old(self).view().push(byte));
        }
    }

    /// Remove and return the oldest byte; the ring must not be empty.
    pub fn read_byte(&mut self) -> (r: u8)
        requires
            old(self).wf(),
            old(self).spec_len() > 0,
        ensures
            final(self).wf(),
            r == old(self).view()[0],
            final(self).view() == old(self).view().skip(1),
            final(self).write_ends == old(self).write_ends,
    {
        self.status = RingBufferStatus::Normal;
        let c = self.arr[self.head];
        self.head = (self.head + 1) % RING_BUFFER_SIZE;
        if self.head == self.tail {
            self.status = RingBufferStatus::Empty;
        }
        proof {
            assert(final(self).view() =~= old(self).view().skip(1));
        }
        c
    }

    /// The number of buffered bytes, for callers outside the kernel.
    pub fn view_len(&self) -> (r: usize)
        requires
            self.wf(),
        ensures
            r == self.view().len(),
    {
        self.available_read()
    }

    /// How many bytes a reader can take right now.
    pub fn available_read(&self) -> (r: usize)
        requires
            self.wf(),
        ensures
            r == self.view().len(),
    {
        match self.status {
            RingBufferStatus::Empty => 0,
            RingBufferStatus::Full => RING_BUFFER_SIZE,
            RingBufferStatus::Normal => {
                if self.head < self.tail {
                    self.tail - self.head
                } else {
                    RING_BUFFER_SIZE - self.head + self.tail
                }
            },
        }
    }

    /// How many bytes a writer can add right now.
    pub fn available_write(&self) -> (r: usize)
        requires
            self.wf(),
        ensures
            r == RING_BUFFER_SIZE - self.view().len(),
    {
        match self.status {
            RingBufferStatus::Full => 0,
            _ => RING_BUFFER_SIZE - self.available_read(),
        }
    }

    /// Whether every write end has been dropped, so a drained reader sees end
    /// of stream.
    pub fn all_write_ends_closed(&self) -> (r: bool)
        requires
            self.wf(),
        ensures
            r == (self.write_ends == 0),
    {
        self.write_ends == 0
    }
}

/// One end of a pipe: a capability on the ring buffer named by `buffer_id` in
/// the kernel's pipe table.
#[derive(Clone, Copy, PartialEq, Eq, Structural, Debug)]
pub struct Pipe {
    pub readable: bool,
    pub writable: bool,
    pub buffer_id: usize,
}

impl Pipe {
    /// The reading capability on buffer `buffer_id`.
    pub fn read_end_with_buffer(buffer_id: usize) -> (r: Pipe)
        ensures
            r.readable,
            !r.writable,
            r.buffer_id == buffer_id,
    {
        Pipe { readable: true, writable: false, buffer_id }
    }

    /// The writing capability on buffer `buffer_id`.
    pub fn write_end_with_buffer(buffer_id: usize) -> (r: Pipe)
        ensures
            !r.readable,
            r.writable,
            r.buffer_id == buffer_id,
    {
        Pipe { readable: false, writable: true, buffer_id }
    }
}

/// What one pass over a pipe produced, and whether the caller should yield
/// and retry because the pipe can make progress later.
#[derive(Clone, Copy, PartialEq, Eq, Structural, Debug)]
pub struct PipeIo {
    pub transferred: usize,
    pub again: bool,
}

/// Drain up to `want` buffered bytes into user memory at `va`: one pass of
/// the reader's loop, taken with the ring lock held. With nothing buffered,
/// the reader sees end of stream if every write end is closed, and otherwise
/// must yield and retry.
pub fn pipe_read_pass(
    rb: &mut PipeRingBuffer,
    ms: &mut MemorySet,
    va: usize,
    want: usize,
) -> (r: PipeIo)
    requires
        old(rb).wf(),
        old(ms).wf(),
        va + want <= usize::MAX,
        forall|i: int| 0 <= i < want ==> #[trigger] old(ms).byte_at((va + i) as nat) is Some,
    ensures
        final(rb).wf(),
        final(ms).wf(),
        crate::memory_set::same_structure(*old(ms), *final(ms)),
        final(rb).write_ends == old(rb).write_ends,
        r.transferred == (if old(rb).view().len() < want {
            old(rb).view().len() as int
        } else {
            want as int
        }),
        r.again == (old(rb).view().len() == 0 && want > 0 && old(rb).write_ends > 0),
        final(rb).view() == old(rb).view().skip(r.transferred as int),
        forall|i: int|
            0 <= i < r.transferred ==> #[trigger] final(ms).byte_at((va + i) as nat) == Some(
                old(rb).view()[i],
            ),
        forall|va2: nat|
            !(va <= va2 < va + r.transferred) ==> #[trigger] final(ms).byte_at(va2) == old(
                ms,
            ).byte_at(va2),
{
    let avail = rb.available_read();
    if avail == 0 {
        proof {
            assert(final(rb).view() =~= old(rb).view().skip(0));
        }
        if want == 0 {
            return PipeIo { transferred: 0, again: false };
        }
        if rb.all_write_ends_closed() {
            return PipeIo { transferred: 0, again: false };
        }
        return PipeIo { transferred: 0, again: true };
    }
    let k = if avail < want {
        avail
    } else {
        want
    };
    let mut i: usize = 0;
    while i < k
        invariant
            rb.wf(),
            ms.wf(),
            crate::memory_set::same_structure(*old(ms), *ms),
            i <= k,
            k <= old(rb).view().len(),
            k <= want,
            va + want <= usize::MAX,
            rb.write_ends == old(rb).write_ends,
            rb.view() == old(rb).view().skip(i as int),
            forall|j: int| 0 <= j < want ==> #[trigger] old(ms).byte_at((va + j) as nat) is Some,
            forall|j: int|
                0 <= j < i ==> #[trigger] ms.byte_at((va + j) as nat) == Some(old(rb).view()[j]),
            forall|va2: nat|
                !(va <= va2 < va + i) ==> #[trigger] ms.byte_at(va2) == old(ms).byte_at(va2),
        decreases k - i,
    {
        proof {
            assert(rb.view().len() == old(rb).view().len() - i);
        }
        let b = rb.read_byte();
        proof {
            assert(old(rb).view().skip(i as int)[0] == old(rb).view()[i as int]);
            assert(rb.view() =~= old(rb).view().skip(i as int + 1));
        }
        let ok = ms.write_byte(va + i, b);
        proof {
            assert(old(ms).byte_at((va + i as int) as nat) is Some);
            assert(ok);
        }
        i = i + 1;
    }
    PipeIo { transferred: k, again: false }
}

/// Fill the ring with up to `RING_BUFFER_SIZE - len` bytes from user memory
/// at `va`: one pass of the writer's loop. With no room, the writer must
/// yield and retry — a pipe write never sees end of stream.
pub fn pipe_write_pass(rb: &mut PipeRingBuffer, ms: &MemorySet, va: usize, want: usize) -> (r:
    PipeIo)
    requires
        old(rb).wf(),
        ms.wf(),
        va + want <= usize::MAX,
        forall|i: int| 0 <= i < want ==> #[trigger] ms.byte_at((va + i) as nat) is Some,
    ensures
        final(rb).wf(),
        final(rb).write_ends == old(rb).write_ends,
        r.transferred == (if RING_BUFFER_SIZE - old(rb).view().len() < want {
            RING_BUFFER_SIZE - old(rb).view().len()
        } else {
            want as int
        }),
        r.again == (old(rb).view().len() == RING_BUFFER_SIZE && want > 0),
        final(rb).view().len() == old(rb).view().len() + r.transferred,
        forall|i: int|
            0 <= i < old(rb).view().len() ==> #[trigger] final(rb).view()[i] == old(rb).view()[i],
        forall|i: int|
            0 <= i < r.transferred ==> #[trigger] final(rb).view()[old(rb).view().len() + i]
                == ms.byte_at((va + i) as nat)->Some_0,
{
    let room = rb.available_write();
    if room == 0 {
        proof {
            assert(final(rb).view() =~= old(rb).view());
        }
        if want == 0 {
            return PipeIo { transferred: 0, again: false };
        }
        return PipeIo { transferred: 0, again: true };
    }
    let k = if room < want {
        room
    } else {
        want
    };
    let mut i: usize = 0;
    while i < k
        invariant
            rb.wf(),
            ms.wf(),
            i <= k,
            k + old(rb).view().len() <= RING_BUFFER_SIZE,
            k <= want,
            va + want <= usize::MAX,
            rb.write_ends == old(rb).write_ends,
            rb.view().len() == old(rb).view().len() + i,
            forall|j: int| 0 <= j < want ==> #[trigger] ms.byte_at((va + j) as nat) is Some,
            forall|j: int|
                0 <= j < old(rb).view().len() ==> #[trigger] rb.view()[j] == old(rb).view()[j],
            forall|j: int|
                0 <= j < i ==> #[trigger] rb.view()[old(rb).view().len() + j] == ms.byte_at(
                    (va + j) as nat,
                )->Some_0,
        decreases k - i,
    {
        proof {
            let ii = i as int;
            assert(ms.byte_at((va + ii) as nat) is Some);
            assert((va + ii) as nat == ((va + i) as usize) as nat);
        }
        let b = match ms.read_byte(va + i) {
            Some(b) => b,
            None => {
                proof {
                    assert(false);
                }
                vstd::pervasive::unreached()
            },
        };
        let ghost pre = *rb;
        rb.write_byte(b);
        proof {
            assert(forall|j: int|
                0 <= j < pre.view().len() ==> #[trigger] rb.view()[j] == pre.view()[j]);
        }
        i = i + 1;
    }
    PipeIo { transferred: k, again: false }
}

} // verus!
