use vstd::prelude::*;

verus! {

use crate::assembler::{
    classify_and_apply, feed_lines, feed_state, lemma_feed_lines_snoc, lemma_feed_state_snoc,
    reported_event, reports_line, step_lines, step_state, CompletedLine, Event,
};
use crate::buffer::{LineBuffer, zero_storage};

/// Owns the line buffer and a queue of completed lines.
///
/// A byte producer (an interrupt handler draining a device) calls
/// `handle_byte` or `feed` under its exclusive access; a consumer later calls
/// `take_lines` to drain what completed. Exclusive access is the `&mut`
/// reference itself: whoever holds it holds the lease on the shared state,
/// and whatever masks interrupts to grant that lease lives outside this
/// crate.
pub struct LineReader {
    buffer: LineBuffer,
    lines: Vec<CompletedLine>,
}

impl LineReader {
    /// The buffer this reader owns.
    pub closed spec fn buf(self) -> LineBuffer {
        self.buffer
    }

    /// The completed lines queued and not yet drained, oldest first.
    pub closed spec fn queued(self) -> Seq<CompletedLine> {
        self.lines@
    }

    /// Well-formedness: the owned buffer is well formed.
    pub open spec fn wf(self) -> bool {
        self.buf().wf()
    }

    /// A fresh reader: empty buffer, zeroed storage, empty queue.
    pub fn new() -> (r: LineReader)
        ensures
            r.wf(),
            r.buf().length() == 0,
            r.buf().raw() == zero_storage(),
            r.queued() == Seq::<CompletedLine>::empty(),
    {
        LineReader { buffer: LineBuffer::new(), lines: Vec::new() }
    }

    /// The count of valid bytes accumulated toward the next line.
    pub fn buffered_len(&self) -> (r: usize)
        ensures
            r == self.buf().length(),
    {
        self.buffer.len()
    }

    /// A copy of the line accumulated so far.
    pub fn snapshot(&self) -> (r: Vec<u8>)
        requires
            self.wf(),
        ensures
            r@ == self.buf().line(),
    {
        self.buffer.snapshot()
    }

    /// The count of completed lines waiting to be drained.
    pub fn queued_len(&self) -> (r: usize)
        ensures
            r == self.queued().len(),
    {
        self.lines.len()
    }

    /// Classifies one byte and applies it to the owned buffer; on a completed
    /// line the record is queued for the consumer and also returned in the
    /// event.
    pub fn handle_byte(&mut self, byte: u8) -> (r: Option<Event>)
        requires
            old(self).wf(),
        ensures
            final(self).wf(),
            final(self).buf().raw() == step_state(
                old(self).buf().raw(),
                old(self).buf().length(),
                byte,
            ).0,
            final(self).buf().length() == step_state(
                old(self).buf().raw(),
                old(self).buf().length(),
                byte,
            ).1,
            reported_event(old(self).buf().raw(), old(self).buf().length(), byte, r),
            final(self).queued().len() == old(self).queued().len() + step_lines(
                old(self).buf().raw(),
                old(self).buf().length(),
                byte,
            ).len(),
            final(self).queued().take(old(self).queued().len() as int) == old(self).queued(),
            forall|i: int|
                old(self).queued().len() <= i < final(self).queued().len() ==> reports_line(
                    #[trigger] final(self).queued()[i],
                    step_lines(old(self).buf().raw(), old(self).buf().length(), byte)[i - old(
                        self,
                    ).queued().len()],
                ),
    {
        let r = classify_and_apply(byte, &mut self.buffer);
        match &r {
            Some(Event::LineCompleted(line)) => {
                let copy = line.duplicate();
                self.lines.push(copy);
                proof {
                    assert(self.lines@.take(old(self).queued().len() as int) =~= old(
                        self,
                    ).queued());
                }
            },
            _ => {
                proof {
                    assert(self.lines@.take(old(self).queued().len() as int) =~= old(
                        self,
                    ).queued());
                }
            },
        }
        r
    }

    /// Feeds a whole byte sequence in delivery order: every byte is
    /// classified and applied before the call returns, and each completed
    /// line is queued, oldest first.
    pub fn feed(&mut self, bytes: &Vec<u8>)
        requires
            old(self).wf(),
        ensures
            final(self).wf(),
            final(self).buf().raw() == feed_state(
                old(self).buf().raw(),
                old(self).buf().length(),
                bytes@,
            ).0,
            final(self).buf().length() == feed_state(
                old(self).buf().raw(),
                old(self).buf().length(),
                bytes@,
            ).1,
            final(self).queued().len() == old(self).queued().len() + feed_lines(
                old(self).buf().raw(),
                old(self).buf().length(),
                bytes@,
            ).len(),
            final(self).queued().take(old(self).queued().len() as int) == old(self).queued(),
            forall|i: int|
                old(self).queued().len() <= i < final(self).queued().len() ==> reports_line(
                    #[trigger] final(self).queued()[i],
                    feed_lines(old(self).buf().raw(), old(self).buf().length(), bytes@)[i - old(
                        self,
                    ).queued().len()],
                ),
    {
        let ghost raw0 = old(self).buf().raw();
        let ghost len0 = old(self).buf().length();
        let ghost q0 = old(self).queued();
        let mut k: usize = 0;
        while k < bytes.len()
            invariant
                self.wf(),
                k <= bytes@.len(),
                self.buf().raw() == feed_state(raw0, len0, bytes@.take(k as int)).0,
                self.buf().length() == feed_state(raw0, len0, bytes@.take(k as int)).1,
                self.queued().len() == q0.len() + feed_lines(
                    raw0,
                    len0,
                    bytes@.take(k as int),
                ).len(),
                self.queued().take(q0.len() as int) == q0,
                forall|i: int|
                    q0.len() <= i < self.queued().len() ==> reports_line(
                        #[trigger] self.queued()[i],
                        feed_lines(raw0, len0, bytes@.take(k as int))[i - q0.len()],
                    ),
            decreases bytes@.len() - k,
        {
            let ghost pre = *self;
            let ghost state_k = feed_state(raw0, len0, bytes@.take(k as int));
            proof {
                lemma_feed_state_snoc(raw0, len0, bytes@, k as int);
                lemma_feed_lines_snoc(raw0, len0, bytes@, k as int);
            }
            let byte = bytes[k];
            let _ = self.handle_byte(byte);
            proof {
                let lines_k = feed_lines(raw0, len0, bytes@.take(k as int));
                let lines_k1 = feed_lines(raw0, len0, bytes@.take(k + 1));
                let step = step_lines(state_k.0, state_k.1, bytes@[k as int]);
                assert(lines_k1 == lines_k + step);
                assert(self.queued().take(q0.len() as int) =~= q0) by {
                    assert forall|i: int| 0 <= i < q0.len() implies self.queued()[i] == q0[i] by {
                        assert(self.queued().take(pre.queued().len() as int)[i] == self.queued()[
                            i
                        ]);
                        assert(pre.queued().take(q0.len() as int)[i] == pre.queued()[i]);
                    }
                }
                assert forall|i: int| q0.len() <= i < self.queued().len() implies reports_line(
                    #[trigger] self.queued()[i],
                    lines_k1[i - q0.len()],
                ) by {
                    if i < pre.queued().len() {
                        assert(self.queued().take(pre.queued().len() as int)[i] == self.queued()[
                            i
                        ]);
                        assert(pre.queued()[i] == self.queued()[i]);
                        assert(lines_k1[i - q0.len()] == lines_k[i - q0.len()]);
                    } else {
                        assert(lines_k1[i - q0.len()] == step[i - pre.queued().len()]);
                    }
                }
            }
            k = k + 1;
        }
        proof {
            assert(bytes@.take(bytes@.len() as int) =~= bytes@);
        }
    }

    /// Hands over every completed line queued so far, oldest first, leaving
    /// the queue empty; the buffer keeps its accumulated state unchanged.
    pub fn take_lines(&mut self) -> (r: Vec<CompletedLine>)
        requires
            old(self).wf(),
        ensures
            final(self).wf(),
            final(self).buf() == old(self).buf(),
            final(self).queued() == Seq::<CompletedLine>::empty(),
            r@ == old(self).queued(),
    {
        let mut taken: Vec<CompletedLine> = Vec::new();
        core::mem::swap(&mut self.lines, &mut taken);
        taken
    }
}

} // verus!
