//! Fixed-capacity ring of raw bytes, the hand-off between the receive
//! interrupt and the main loop.
//!
//! The producer writes only the tail index and the consumer only the head
//! index, so the two contexts never race on a shared counter; this module
//! proves the functional side of that design: the ring behaves as a
//! first-in-first-out sequence.  `enqueue` never blocks and never panics; on
//! a full ring it reports `BufferFull` and leaves the ring unchanged.

use vstd::prelude::*;
use crate::CommunicationError;

verus! {

/// Number of slots in the ring; one slot stays free to tell a full ring
/// from an empty one, so it holds up to 255 bytes between two drains.
pub const QUEUE_SLOTS: usize = 256;

/// The ring.  `head` is advanced only by the consumer, `tail` only by the
/// producer.
pub struct ByteQueue {
    buf: Vec<u8>,
    head: usize,
    tail: usize,
}

impl ByteQueue {
    /// Structural invariant of the ring.
    pub closed spec fn wf(self) -> bool {
        self.buf@.len() == QUEUE_SLOTS && self.head < QUEUE_SLOTS && self.tail < QUEUE_SLOTS
    }

    /// The queued bytes, oldest first.
    pub closed spec fn contents(self) -> Seq<u8> {
        if self.head <= self.tail {
            self.buf@.subrange(self.head as int, self.tail as int)
        } else {
            self.buf@.subrange(self.head as int, QUEUE_SLOTS as int) + self.buf@.subrange(
                0,
                self.tail as int,
            )
        }
    }

    /// An empty ring.
    pub fn new() -> (q: ByteQueue)
        ensures
            q.wf(),
            q.contents() == Seq::<u8>::empty(),
    {
        let mut buf = Vec::new();
        let mut k: usize = 0;
        while k < QUEUE_SLOTS
            invariant
                k <= QUEUE_SLOTS,
                buf@.len() == k,
            decreases QUEUE_SLOTS - k,
        {
            buf.push(0);
            k = k + 1;
        }
        let q = ByteQueue { buf, head: 0, tail: 0 };
        proof {
            assert(q.contents() =~= Seq::<u8>::empty());
        }
        q
    }

    /// How many bytes wait in the ring.
    pub fn len(&self) -> (n: usize)
        requires
            self.wf(),
        ensures
            n == self.contents().len(),
    {
        if self.head <= self.tail {
            self.tail - self.head
        } else {
            QUEUE_SLOTS - self.head + self.tail
        }
    }

    /// Appends one byte at the tail.  On a full ring it reports
    /// `BufferFull` and drops the byte; it never blocks and never panics,
    /// as an interrupt handler requires.
    pub fn enqueue(&mut self, byte: u8) -> (r: Result<(), CommunicationError>)
        requires
            old(self).wf(),
        ensures
            final(self).wf(),
            old(self).contents().len() < QUEUE_SLOTS - 1 ==> r is Ok && final(self).contents()
                == old(self).contents() + seq![byte],
            old(self).contents().len() >= QUEUE_SLOTS - 1 ==> r == Err::<(), CommunicationError>(
                CommunicationError::BufferFull,
            ) && final(self).contents() == old(self).contents(),
    {
        let next = if self.tail + 1 == QUEUE_SLOTS {
            0
        } else {
            self.tail + 1
        };
        if next == self.head {
            return Err(CommunicationError::BufferFull);
        }
        self.buf.set(self.tail, byte);
        let ghost before = *old(self);
        self.tail = next;
        proof {
            assert(self.contents() =~= before.contents() + seq![byte]);
        }
        Ok(())
    }

    /// Removes and returns the oldest byte; `None` at once when the ring is
    /// empty, so the main loop never stalls.
    pub fn dequeue(&mut self) -> (r: Option<u8>)
        requires
            old(self).wf(),
        ensures
            final(self).wf(),
            old(self).contents().len() > 0 ==> r == Some(old(self).contents()[0])
                && final(self).contents() == old(self).contents().drop_first(),
            old(self).contents().len() == 0 ==> r is None
                && final(self).contents() == old(self).contents(),
    {
        if self.head == self.tail {
            return None;
        }
        let byte = self.buf[self.head];
        let ghost before = *old(self);
        self.head = if self.head + 1 == QUEUE_SLOTS {
            0
        } else {
            self.head + 1
        };
        proof {
            assert(self.contents() =~= before.contents().drop_first());
        }
        Some(byte)
    }
}

} // verus!
