//! The reassembly buffer: a decoder that is fed a byte stream in pieces of
//! any size and hands out the payloads of the frames that became whole.

use crate::protocol::{
    be_bytes, bytes_to, lemma_prefix_round_trip, to_usize, DecodeError, Framing, PREFIX_LEN,
};
use crate::store::PendingBytes;
use crate::stream::{
    after_first, fault, first_frame, frames_of, has_frame, header, rest_of, Header,
};
use crate::varint::{
    decode_from, decode_step, lemma_decode_consumed, lemma_decode_resumes, no_prefix, step_from,
    PartialPrefix, PrefixDecode,
};
use std::collections::VecDeque;
use vstd::prelude::*;

verus! {

/// Where the decoder stands inside the current frame.
#[derive(Clone, Copy, Debug, PartialEq, Eq, Structural)]
pub enum DecodeState {
    /// The next pending byte belongs to a prefix.
    AwaitingPrefix,
    /// A prefix was read and taken out; the payload of that many bytes is
    /// still to come.
    AwaitingPayload(u64),
}

/// The byte contents of a queue of payloads.
pub open spec fn payloads(frames: Seq<Vec<u8>>) -> Seq<Seq<u8>> {
    Seq::new(frames.len(), |i: int| frames[i]@)
}

/// Pending bytes together with the decoder's place in the current frame.
pub struct ReassemblyBuffer {
    framing: Framing,
    store: PendingBytes,
    state: DecodeState,
    partial: PartialPrefix,
    seen: Ghost<Seq<u8>>,
}

impl ReassemblyBuffer {
    /// The wire format that the buffer decodes.
    pub closed spec fn framing(&self) -> Framing {
        self.framing
    }

    /// The decoder's place in the current frame.
    pub closed spec fn state(&self) -> DecodeState {
        self.state
    }

    /// The bytes in the pending byte store, oldest first.
    pub closed spec fn pending(&self) -> Seq<u8> {
        self.store@
    }

    /// What was read of a variable-width prefix that has not ended yet. It
    /// is kept from one call to the next.
    pub closed spec fn partial(&self) -> PartialPrefix {
        self.partial
    }

    /// The part of the stream that was fed and not yet handed out as a
    /// payload: the bytes of the current prefix that were read and taken
    /// out of the store, and the pending bytes.
    pub closed spec fn unparsed(&self) -> Seq<u8> {
        self.seen@ + self.store@
    }

    /// Whether the pending bytes are too few for the decoder to go on, or
    /// the next of them cannot be part of a prefix.
    pub open spec fn settled(&self) -> bool {
        match self.state() {
            DecodeState::AwaitingPayload(n) => self.pending().len() < n,
            DecodeState::AwaitingPrefix => match self.framing() {
                Framing::Fixed => self.pending().len() < 8,
                Framing::Variable => self.pending().len() == 0 || step_from(
                    self.partial(),
                    self.pending()[0],
                ) is Err,
            },
        }
    }

    /// The invariant of the parts that callers do not see.
    pub closed spec fn inv(&self) -> bool {
        &&& self.store.wf()
        &&& match self.state {
            DecodeState::AwaitingPayload(n) => {
                &&& self.partial == no_prefix()
                &&& match self.framing {
                    Framing::Fixed => self.seen@ == be_bytes(n as nat, 8),
                    Framing::Variable => decode_from(self.seen@, no_prefix()) matches Ok(
                        PrefixDecode::Complete { length, consumed },
                    ) && length == n && consumed == self.seen@.len(),
                }
            },
            DecodeState::AwaitingPrefix => match self.framing {
                Framing::Fixed => self.seen@ == Seq::<u8>::empty() && self.partial == no_prefix(),
                Framing::Variable => decode_from(self.seen@, no_prefix()) == Ok::<
                    PrefixDecode,
                    DecodeError,
                >(PrefixDecode::Incomplete(self.partial)),
            },
        }
    }

    /// The buffer's invariant: between two calls it is settled.
    pub open spec fn wf(&self) -> bool {
        self.inv() && self.settled()
    }

    /// What stands at the front of the unparsed part, by the decoder's place.
    proof fn lemma_header(&self)
        requires
            self.inv(),
        ensures
            self.pending().len() <= usize::MAX,
            match self.state() {
                DecodeState::AwaitingPayload(n) => {
                    &&& self.unparsed().len() == self.seen@.len() + self.pending().len()
                    &&& self.seen@.len() > 0
                    &&& self.unparsed().skip(self.seen@.len() as int) == self.pending()
                    &&& header(self.framing(), self.unparsed()) == (Header::Whole {
                        length: n as nat,
                        size: self.seen@.len(),
                    })
                },
                DecodeState::AwaitingPrefix => match self.framing() {
                    Framing::Fixed => self.unparsed() == self.pending(),
                    Framing::Variable => {
                        &&& self.unparsed().len() == self.seen@.len() + self.pending().len()
                        &&& self.unparsed().take(self.seen@.len() as int) == self.seen@
                        &&& self.unparsed().skip(self.seen@.len() as int) == self.pending()
                        &&& self.partial().consumed == self.seen@.len()
                        &&& decode_from(self.unparsed(), no_prefix()) == decode_from(
                            self.pending(),
                            self.partial(),
                        )
                    },
                },
            },
    {
        self.store.lemma_len_fits();
        let seen = self.seen@;
        let pending = self.store@;
        assert((seen + pending).skip(seen.len() as int) =~= pending);
        assert((seen + pending).take(seen.len() as int) =~= seen);
        match self.framing {
            Framing::Fixed => {
                match self.state {
                    DecodeState::AwaitingPayload(n) => {
                        lemma_prefix_round_trip(n);
                        assert((seen + pending).take(8) =~= seen);
                    },
                    DecodeState::AwaitingPrefix => {
                        assert(seen + pending =~= pending);
                    },
                }
            },
            Framing::Variable => {
                lemma_decode_consumed(seen, no_prefix());
                lemma_decode_resumes(seen, pending, no_prefix());
            },
        }
    }

    /// A settled buffer is known by its unparsed part alone. Behind a whole
    /// prefix it waits for the payload and holds what follows the prefix.
    /// With the beginning of a prefix, or nothing, it waits for the prefix;
    /// of a fixed-width prefix it holds the bytes, of a variable-width one
    /// it has read them all. In front of bytes that are no prefix it has
    /// read what came before the byte that failed, and holds the rest.
    pub proof fn lemma_settled(&self)
        requires
            self.wf(),
        ensures
            self.pending().len() <= self.unparsed().len(),
            self.pending().len() <= usize::MAX,
            self.pending() == self.unparsed().skip(self.unparsed().len() - self.pending().len()),
            !has_frame(self.framing(), self.unparsed()),
            match header(self.framing(), self.unparsed()) {
                Header::Whole { length, size } => {
                    &&& self.state() == DecodeState::AwaitingPayload(length as u64)
                    &&& self.partial() == no_prefix()
                    &&& self.pending().len() == self.unparsed().len() - size
                },
                Header::Partial => {
                    &&& self.state() == DecodeState::AwaitingPrefix
                    &&& match self.framing() {
                        Framing::Fixed => self.pending() == self.unparsed() && self.partial()
                            == no_prefix(),
                        Framing::Variable => self.pending().len() == 0 && decode_from(
                            self.unparsed(),
                            no_prefix(),
                        ) == Ok::<PrefixDecode, DecodeError>(
                            PrefixDecode::Incomplete(self.partial()),
                        ),
                    }
                },
                Header::Bad(e) => {
                    &&& self.state() == DecodeState::AwaitingPrefix
                    &&& self.pending().len() > 0
                    &&& step_from(self.partial(), self.pending()[0]) == Err::<
                        PrefixDecode,
                        DecodeError,
                    >(e)
                    &&& decode_from(
                        self.unparsed().take(self.unparsed().len() - self.pending().len()),
                        no_prefix(),
                    ) == Ok::<PrefixDecode, DecodeError>(PrefixDecode::Incomplete(self.partial()))
                },
            },
    {
        self.lemma_header();
        let pending = self.store@;
        match self.state {
            DecodeState::AwaitingPayload(_) => {},
            DecodeState::AwaitingPrefix => match self.framing {
                Framing::Fixed => {
                    assert(self.unparsed().skip(0) =~= self.unparsed());
                },
                Framing::Variable => {
                    if pending.len() == 0 {
                        assert(self.unparsed() =~= self.seen@);
                    }
                },
            },
        }
    }

    /// A buffer at the start of a stream in the given wire format.
    pub fn new(framing: Framing) -> (buffer: ReassemblyBuffer)
        ensures
            buffer.wf(),
            buffer.framing() == framing,
            buffer.state() == DecodeState::AwaitingPrefix,
            buffer.partial() == no_prefix(),
            buffer.pending() == Seq::<u8>::empty(),
            buffer.unparsed() == Seq::<u8>::empty(),
    {
        let buffer = ReassemblyBuffer {
            framing,
            store: PendingBytes::new(),
            state: DecodeState::AwaitingPrefix,
            partial: PartialPrefix { value: 0, consumed: 0 },
            seen: Ghost(Seq::empty()),
        };
        assert(buffer.unparsed() =~= Seq::<u8>::empty());
        buffer
    }

    /// The wire format that the buffer decodes.
    pub fn wire_format(&self) -> (framing: Framing)
        ensures
            framing == self.framing(),
    {
        self.framing
    }

    /// The decoder's place in the current frame.
    pub fn current_state(&self) -> (state: DecodeState)
        ensures
            state == self.state(),
    {
        self.state
    }

    /// What was read of a variable-width prefix that has not ended yet.
    pub fn partial_prefix(&self) -> (partial: PartialPrefix)
        ensures
            partial == self.partial(),
    {
        self.partial
    }

    /// Number of bytes in the pending byte store.
    pub fn pending_len(&self) -> (n: usize)
        requires
            self.wf(),
        ensures
            n as nat == self.pending().len(),
    {
        self.store.len()
    }

    /// How far the decoder is from the end of the pending bytes. Every step
    /// that does not stop the decoder makes this smaller.
    spec fn distance(&self) -> nat {
        2 * self.store@.len() + (if self.state is AwaitingPayload {
            1nat
        } else {
            0nat
        })
    }

    /// What holds of a buffer that has stopped: it is as `before`, no whole
    /// frame is left in the unparsed part, and `result` says whether a
    /// later frame can come.
    spec fn stopped(&self, before: &ReassemblyBuffer, result: Result<(), DecodeError>) -> bool {
        &&& self.state == before.state
        &&& self.partial == before.partial
        &&& self.seen@ == before.seen@
        &&& self.store@ == before.store@
        &&& self.wf()
        &&& !has_frame(self.framing, self.unparsed())
        &&& result == match fault(self.framing, self.unparsed()) {
            Some(e) => Err::<(), DecodeError>(e),
            None => Ok::<(), DecodeError>(()),
        }
    }

    /// Reads as much of a prefix as the pending bytes allow: all of a
    /// fixed-width prefix or nothing, one byte of a variable-width prefix.
    /// What was read leaves the store, and a prefix that ended sets the
    /// size of the payload to wait for. The result says why the decoder
    /// stops, where it cannot go on; otherwise a step was made.
    fn set_curr_chunk_size(&mut self) -> (stop: Option<Result<(), DecodeError>>)
        requires
            old(self).inv(),
            old(self).state is AwaitingPrefix,
        ensures
            final(self).inv(),
            final(self).framing == old(self).framing,
            final(self).unparsed() == old(self).unparsed(),
            match stop {
                Some(result) => final(self).stopped(old(self), result),
                None => final(self).distance() < old(self).distance(),
            },
    {
        let ghost unparsed = self.unparsed();
        proof {
            self.lemma_header();
        }
        match self.framing {
            Framing::Fixed => {
                match self.store.take(PREFIX_LEN) {
                    None => Some(Ok(())),
                    Some(prefix) => {
                        let n: u64 = bytes_to(prefix.as_slice());
                        self.state = DecodeState::AwaitingPayload(n);
                        self.seen = Ghost(prefix@);
                        assert(self.unparsed() =~= unparsed);
                        None
                    },
                }
            },
            Framing::Variable => {
                let byte: u8 = match self.store.first() {
                    None => {
                        assert(unparsed =~= self.seen@);
                        return Some(Ok(()));
                    },
                    Some(byte) => byte,
                };
                let ghost seen = self.seen@;
                proof {
                    lemma_decode_resumes(seen, seq![byte], no_prefix());
                    assert(seen + seq![byte] =~= seen.push(byte));
                    assert(decode_from(seq![byte], self.partial) == step_from(self.partial, byte))
                        by {
                        reveal_with_fuel(decode_from, 2);
                    }
                }
                match decode_step(self.partial, byte) {
                    Err(e) => Some(Err(e)),
                    Ok(PrefixDecode::Incomplete(reached)) => {
                        let _ = self.store.pop();
                        self.partial = reached;
                        self.seen = Ghost(seen.push(byte));
                        assert(self.unparsed() =~= unparsed);
                        None
                    },
                    Ok(PrefixDecode::Complete { length, consumed }) => {
                        let _ = self.store.pop();
                        self.state = DecodeState::AwaitingPayload(length);
                        self.partial = PartialPrefix { value: 0, consumed: 0 };
                        self.seen = Ghost(seen.push(byte));
                        assert(self.unparsed() =~= unparsed);
                        None
                    },
                }
            },
        }
    }

    /// Takes the payload that the last prefix announced out of the store
    /// and puts it at the back of `ready`, where all of it is pending. The
    /// result says why the decoder stops, where it is not; otherwise a step
    /// was made.
    fn drain_message(&mut self, ready: &mut VecDeque<Vec<u8>>) -> (stop: Option<
        Result<(), DecodeError>,
    >)
        requires
            old(self).inv(),
            old(self).state is AwaitingPayload,
        ensures
            final(self).inv(),
            final(self).framing == old(self).framing,
            match stop {
                Some(result) => final(ready)@ == old(ready)@ && final(self).stopped(
                    old(self),
                    result,
                ),
                None => {
                    &&& final(self).distance() < old(self).distance()
                    &&& has_frame(old(self).framing, old(self).unparsed())
                    &&& payloads(final(ready)@) == payloads(old(ready)@).push(
                        first_frame(old(self).framing, old(self).unparsed()),
                    )
                    &&& final(self).unparsed() == after_first(
                        old(self).framing,
                        old(self).unparsed(),
                    )
                },
            },
    {
        let ghost unparsed = self.unparsed();
        proof {
            self.lemma_header();
        }
        let announced: u64 = match self.state {
            DecodeState::AwaitingPayload(n) => n,
            DecodeState::AwaitingPrefix => 0,
        };
        let len: usize = match to_usize(announced) {
            Ok(len) => len,
            Err(e) => {
                return Some(Err(e));
            },
        };
        match self.store.take(len) {
            None => Some(Ok(())),
            Some(payload) => {
                proof {
                    assert(first_frame(self.framing, unparsed) =~= payload@);
                    assert(after_first(self.framing, unparsed) =~= self.store@);
                    assert(payloads(ready@.push(payload)) =~= payloads(ready@).push(payload@));
                }
                ready.push_back(payload);
                self.state = DecodeState::AwaitingPrefix;
                self.seen = Ghost(Seq::empty());
                assert(self.unparsed() =~= self.store@);
                None
            },
        }
    }

    /// Appends `chunk` to the stream and moves every payload that became
    /// whole to the back of `ready`, in stream order.
    ///
    /// The call fails where the stream has reached bytes that are no
    /// prefix, or a prefix whose payload this platform cannot address.
    /// Payloads in front of that place are still moved to `ready`; the
    /// decoder stays there, so every later call fails in the same way.
    pub fn feed(&mut self, chunk: Vec<u8>, ready: &mut VecDeque<Vec<u8>>) -> (result: Result<
        (),
        DecodeError,
    >)
        requires
            old(self).wf(),
            old(self).pending().len() + chunk.len() <= usize::MAX,
        ensures
            final(self).wf(),
            final(self).framing() == old(self).framing(),
            final(self).unparsed() == rest_of(old(self).framing(), old(self).unparsed() + chunk@),
            payloads(final(ready)@) == payloads(old(ready)@) + frames_of(
                old(self).framing(),
                old(self).unparsed() + chunk@,
            ),
            result == match fault(final(self).framing(), final(self).unparsed()) {
                Some(e) => Err::<(), DecodeError>(e),
                None => Ok::<(), DecodeError>(()),
            },
    {
        let ghost framing = self.framing;
        let ghost stream = self.unparsed() + chunk@;
        self.store.push(chunk);
        proof {
            assert(self.unparsed() =~= stream);
            assert(payloads(ready@) + frames_of(framing, stream) =~= payloads(old(ready)@)
                + frames_of(framing, stream));
        }
        loop
            invariant
                self.inv(),
                self.framing == framing,
                framing == old(self).framing(),
                stream == old(self).unparsed() + chunk@,
                payloads(ready@) + frames_of(framing, self.unparsed()) == payloads(old(ready)@)
                    + frames_of(framing, stream),
                rest_of(framing, self.unparsed()) == rest_of(framing, stream),
            decreases self.distance(),
        {
            let ghost unparsed = self.unparsed();
            let ghost delivered = payloads(ready@);
            let stop = match self.state {
                DecodeState::AwaitingPrefix => self.set_curr_chunk_size(),
                DecodeState::AwaitingPayload(_) => self.drain_message(ready),
            };
            match stop {
                Some(result) => {
                    assert(payloads(ready@) + frames_of(framing, unparsed) =~= payloads(ready@));
                    return result;
                },
                None => {
                    assert(payloads(ready@) + frames_of(framing, self.unparsed()) =~= delivered
                        + frames_of(framing, unparsed));
                },
            }
        }
    }
}

} // verus!
