//! The frame receiver: feeds a reassembly buffer and keeps the payloads that
//! became whole in a queue, from which the caller takes them when it likes.

use crate::protocol::{DecodeError, Framing};
use crate::reassembly::{payloads, DecodeState, ReassemblyBuffer};
use crate::stream::Received;
use crate::varint::{no_prefix, PartialPrefix};
use std::collections::VecDeque;
use vstd::prelude::*;

verus! {

/// A reassembly buffer with a queue of the payloads that are ready.
pub struct Processor {
    buffer: ReassemblyBuffer,
    ready: VecDeque<Vec<u8>>,
}

impl View for Processor {
    type V = Received;

    /// The payloads that are ready, oldest first, and the part of the
    /// stream behind them.
    open spec fn view(&self) -> Received {
        Received {
            framing: self.buffer().framing(),
            ready: self.ready(),
            unparsed: self.buffer().unparsed(),
        }
    }
}

impl Processor {
    /// The reassembly buffer that the receiver feeds.
    pub closed spec fn buffer(&self) -> ReassemblyBuffer {
        self.buffer
    }

    /// The payloads that are ready, oldest first.
    pub closed spec fn ready(&self) -> Seq<Seq<u8>> {
        payloads(self.ready@)
    }

    /// The receiver's invariant is that of its buffer.
    pub open spec fn wf(&self) -> bool {
        self.buffer().wf()
    }

    /// A receiver at the start of a stream in the fixed-width format.
    pub fn new() -> (processor: Processor)
        ensures
            processor.wf(),
            processor@ == Received::fresh(Framing::Fixed),
            processor.buffer().state() == DecodeState::AwaitingPrefix,
            processor.buffer().partial() == no_prefix(),
            processor.buffer().pending() == Seq::<u8>::empty(),
    {
        Processor::with_framing(Framing::Fixed)
    }

    /// A receiver at the start of a stream in the given wire format.
    pub fn with_framing(framing: Framing) -> (processor: Processor)
        ensures
            processor.wf(),
            processor@ == Received::fresh(framing),
            processor.buffer().state() == DecodeState::AwaitingPrefix,
            processor.buffer().partial() == no_prefix(),
            processor.buffer().pending() == Seq::<u8>::empty(),
    {
        let processor = Processor {
            buffer: ReassemblyBuffer::new(framing),
            ready: VecDeque::new(),
        };
        assert(processor@ =~= Received::fresh(framing));
        processor
    }

    /// Feeds `buffer` to the reassembly buffer and puts every payload that
    /// became whole behind those that are ready, in stream order.
    ///
    /// The call fails where the stream has reached bytes that are no
    /// prefix, or a prefix whose payload this platform cannot address; see
    /// [`ReassemblyBuffer::feed`].
    pub fn submit(&mut self, buffer: Vec<u8>) -> (result: Result<(), DecodeError>)
        requires
            old(self).wf(),
            old(self).buffer().pending().len() + buffer.len() <= usize::MAX,
        ensures
            final(self).wf(),
            final(self)@ == old(self)@.feed(buffer@),
            result == match final(self)@.fault() {
                Some(e) => Err::<(), DecodeError>(e),
                None => Ok::<(), DecodeError>(()),
            },
    {
        let result = self.buffer.feed(buffer, &mut self.ready);
        assert(self@ =~= old(self)@.feed(buffer@));
        result
    }

    /// Takes the oldest ready payload out, if there is one.
    pub fn next_frame(&mut self) -> (frame: Option<Vec<u8>>)
        requires
            old(self).wf(),
        ensures
            final(self).wf(),
            final(self).buffer() == old(self).buffer(),
            old(self)@.ready.len() == 0 ==> frame is None && final(self)@ == old(self)@,
            old(self)@.ready.len() > 0 ==> frame is Some && frame.unwrap()@ == old(self)@.ready[0]
                && final(self)@ == old(self)@.without_first(),
    {
        let frame = self.ready.pop_front();
        proof {
            if old(self)@.ready.len() > 0 {
                assert(self@ =~= old(self)@.without_first());
            } else {
                assert(self@ =~= old(self)@);
            }
        }
        frame
    }

    /// Number of payloads that are ready.
    pub fn ready_len(&self) -> (n: usize)
        ensures
            n as nat == self@.ready.len(),
    {
        self.ready.len()
    }

    /// Number of bytes in the pending byte store.
    pub fn pending_len(&self) -> (n: usize)
        requires
            self.wf(),
        ensures
            n as nat == self.buffer().pending().len(),
    {
        self.buffer.pending_len()
    }

    /// The decoder's place in the current frame.
    pub fn current_state(&self) -> (state: DecodeState)
        ensures
            state == self.buffer().state(),
    {
        self.buffer.current_state()
    }

    /// What was read of a variable-width prefix that has not ended yet.
    pub fn partial_prefix(&self) -> (partial: PartialPrefix)
        ensures
            partial == self.buffer().partial(),
    {
        self.buffer.partial_prefix()
    }

    /// The wire format that the receiver decodes.
    pub fn wire_format(&self) -> (framing: Framing)
        ensures
            framing == self@.framing,
    {
        self.buffer.wire_format()
    }
}

} // verus!
