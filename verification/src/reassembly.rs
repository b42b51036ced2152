//! Packet reassembler: accumulates bytes from the queue into a bounded
//! buffer until the frame terminator arrives, and reports an overrun when
//! the buffer fills before it does.

use vstd::prelude::*;

verus! {

/// Capacity of the accumulation buffer: enough for the largest stuffed
/// host-to-device frame with margin.
pub const FRAME_CAPACITY: usize = 32;

/// What appending one byte produced.
pub enum PushOutcome {
    /// The byte was stored; the frame is still incomplete.
    Pending,
    /// The byte was the terminator: a complete frame, terminator included.
    Complete(Vec<u8>),
    /// The buffer was already full: the span is corrupt, the buffer was
    /// cleared, and resynchronization waits for the next terminator.
    Overrun,
}

/// The bounded accumulation buffer.
pub struct Reassembler {
    buf: Vec<u8>,
}

impl Reassembler {
    /// Structural invariant: the buffer never exceeds its capacity.
    pub closed spec fn wf(self) -> bool {
        self.buf@.len() <= FRAME_CAPACITY
    }

    /// The bytes accumulated so far.
    pub closed spec fn pending(self) -> Seq<u8> {
        self.buf@
    }

    /// An empty reassembler.
    pub fn new() -> (r: Reassembler)
        ensures
            r.wf(),
            r.pending() == Seq::<u8>::empty(),
    {
        Reassembler { buf: Vec::new() }
    }

    /// Feeds one byte.  A full buffer overruns and clears; a terminator
    /// completes the frame and clears; anything else accumulates.
    pub fn push_byte(&mut self, byte: u8) -> (r: PushOutcome)
        requires
            old(self).wf(),
        ensures
            final(self).wf(),
            old(self).pending().len() <= FRAME_CAPACITY,
            old(self).pending().len() == FRAME_CAPACITY ==> (r is Overrun && final(self).pending()
                == Seq::<u8>::empty()),
            old(self).pending().len() < FRAME_CAPACITY && byte == 0 ==> (r matches
                PushOutcome::Complete(f) && f@ == old(self).pending() + seq![0u8]
                && final(self).pending() == Seq::<u8>::empty()),
            old(self).pending().len() < FRAME_CAPACITY && byte != 0 ==> (r is Pending
                && final(self).pending() == old(self).pending() + seq![byte]),
    {
        if self.buf.len() == FRAME_CAPACITY {
            self.buf.clear();
            return PushOutcome::Overrun;
        }
        self.buf.push(byte);
        if byte == 0 {
            let mut frame = Vec::new();
            core::mem::swap(&mut frame, &mut self.buf);
            PushOutcome::Complete(frame)
        } else {
            PushOutcome::Pending
        }
    }
}

} // verus!
