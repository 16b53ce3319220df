//! What a framed byte stream means: which payloads it holds, and what is
//! left over behind the last whole frame.
//!
//! Everything here is specification. The decoder's contracts are stated over
//! these functions, and the laws below relate its calls to each other.

use crate::protocol::{
    be_bytes, be_value, lemma_length_round_trip, lemma_prefix_round_trip, DecodeError, Framing,
};
use crate::varint::{
    decode_from, lemma_decode_consumed, lemma_decode_resumes, lemma_varint_round_trip, no_prefix,
    varint_bytes, PrefixDecode,
};
use vstd::prelude::*;

verus! {

/// The prefix that announces a payload of `length` bytes.
pub open spec fn prefix_bytes(framing: Framing, length: nat) -> Seq<u8> {
    match framing {
        Framing::Fixed => be_bytes(length, 8),
        Framing::Variable => varint_bytes(length),
    }
}

/// The bytes of one frame on the wire: the prefix, then the payload.
pub open spec fn frame_bytes(framing: Framing, payload: Seq<u8>) -> Seq<u8> {
    prefix_bytes(framing, payload.len()) + payload
}

/// The bytes of `frames` on the wire, one frame after the other.
pub open spec fn wire(framing: Framing, frames: Seq<Seq<u8>>) -> Seq<u8>
    decreases frames.len(),
{
    if frames.len() == 0 {
        Seq::empty()
    } else {
        frame_bytes(framing, frames.first()) + wire(framing, frames.drop_first())
    }
}

/// What stands at the front of a stream.
pub enum Header {
    /// A whole prefix of `size` bytes that announces `length` payload bytes.
    Whole { length: nat, size: nat },
    /// The beginning of a prefix, or nothing.
    Partial,
    /// Bytes that are no prefix.
    Bad(DecodeError),
}

/// What stands at the front of `stream`.
pub open spec fn header(framing: Framing, stream: Seq<u8>) -> Header {
    match framing {
        Framing::Fixed => if stream.len() >= 8 {
            Header::Whole { length: be_value(stream.take(8)), size: 8 }
        } else {
            Header::Partial
        },
        Framing::Variable => match decode_from(stream, no_prefix()) {
            Ok(PrefixDecode::Complete { length, consumed }) => Header::Whole {
                length: length as nat,
                size: consumed as nat,
            },
            Ok(PrefixDecode::Incomplete(_)) => Header::Partial,
            Err(e) => Header::Bad(e),
        },
    }
}

/// Whether `stream` begins with a whole frame.
pub open spec fn has_frame(framing: Framing, stream: Seq<u8>) -> bool {
    header(framing, stream) matches Header::Whole { length, size } && size > 0 && stream.len()
        >= size + length
}

/// The payload of the frame that `stream` begins with.
pub open spec fn first_frame(framing: Framing, stream: Seq<u8>) -> Seq<u8> {
    match header(framing, stream) {
        Header::Whole { length, size } => stream.subrange(size as int, (size + length) as int),
        _ => Seq::empty(),
    }
}

/// What follows the frame that `stream` begins with.
pub open spec fn after_first(framing: Framing, stream: Seq<u8>) -> Seq<u8> {
    match header(framing, stream) {
        Header::Whole { length, size } => stream.skip((size + length) as int),
        _ => stream,
    }
}

/// The payloads of the whole frames at the front of `stream`, in order.
pub open spec fn frames_of(framing: Framing, stream: Seq<u8>) -> Seq<Seq<u8>>
    decreases stream.len(),
{
    if has_frame(framing, stream) {
        seq![first_frame(framing, stream)] + frames_of(framing, after_first(framing, stream))
    } else {
        Seq::empty()
    }
}

/// What is left of `stream` behind its whole frames.
pub open spec fn rest_of(framing: Framing, stream: Seq<u8>) -> Seq<u8>
    decreases stream.len(),
{
    if has_frame(framing, stream) {
        rest_of(framing, after_first(framing, stream))
    } else {
        stream
    }
}

/// Number of bytes that the whole frames at the front of `stream` take,
/// prefixes and payloads together.
pub open spec fn taken(framing: Framing, stream: Seq<u8>) -> nat
    decreases stream.len(),
{
    if has_frame(framing, stream) {
        (stream.len() - after_first(framing, stream).len()) as nat + taken(
            framing,
            after_first(framing, stream),
        )
    } else {
        0
    }
}

/// Why no further frame can come out of `stream`, if that is so: its front
/// is no prefix, or a prefix whose payload this platform cannot address.
pub open spec fn fault(framing: Framing, stream: Seq<u8>) -> Option<DecodeError> {
    match header(framing, stream) {
        Header::Whole { length, size } => if length > usize::MAX {
            Some(DecodeError::LengthOverflow)
        } else {
            None
        },
        Header::Partial => None,
        Header::Bad(e) => Some(e),
    }
}

/// Whether every payload in `frames` has a length that a prefix can announce.
pub open spec fn encodable(frames: Seq<Seq<u8>>) -> bool {
    forall|i: int| 0 <= i < frames.len() ==> (#[trigger] frames[i]).len() <= u64::MAX
}

/// A whole prefix has at least one byte and lies inside the stream; bytes
/// that follow the stream do not change it.
pub proof fn lemma_header_whole(framing: Framing, stream: Seq<u8>, more: Seq<u8>)
    ensures
        header(framing, stream) matches Header::Whole { length, size } ==> 0 < size
            <= stream.len() && length <= u64::MAX && header(framing, stream + more) == header(
            framing,
            stream,
        ),
{
    match framing {
        Framing::Fixed => {
            if stream.len() >= 8 {
                assert((stream + more).take(8) =~= stream.take(8));
                lemma_length_round_trip(stream.take(8));
            }
        },
        Framing::Variable => {
            lemma_decode_consumed(stream, no_prefix());
            lemma_decode_resumes(stream, more, no_prefix());
        },
    }
}

/// A stream that begins with the prefix of `length` has that prefix as its
/// header, whatever follows.
pub proof fn lemma_header_of_prefix(framing: Framing, length: nat, more: Seq<u8>)
    requires
        length <= u64::MAX,
    ensures
        header(framing, prefix_bytes(framing, length) + more) == (Header::Whole {
            length,
            size: prefix_bytes(framing, length).len(),
        }),
        prefix_bytes(framing, length).len() > 0,
{
    let prefix = prefix_bytes(framing, length);
    match framing {
        Framing::Fixed => {
            lemma_prefix_round_trip(length as u64);
            assert((prefix + more).take(8) =~= prefix);
        },
        Framing::Variable => {
            lemma_varint_round_trip(length as u64);
            lemma_decode_resumes(prefix, more, no_prefix());
        },
    }
}

/// What is left behind the whole frames holds no whole frame.
pub proof fn lemma_rest_has_no_frame(framing: Framing, stream: Seq<u8>)
    ensures
        !has_frame(framing, rest_of(framing, stream)),
        frames_of(framing, rest_of(framing, stream)) == Seq::<Seq<u8>>::empty(),
        rest_of(framing, rest_of(framing, stream)) == rest_of(framing, stream),
    decreases stream.len(),
{
    if has_frame(framing, stream) {
        lemma_rest_has_no_frame(framing, after_first(framing, stream));
    }
}

/// Bytes that arrive later change no frame that was already whole: parsing
/// `a + b` gives the frames of `a`, then the frames of what `a` left over
/// followed by `b`.
pub proof fn lemma_parse_append(framing: Framing, a: Seq<u8>, b: Seq<u8>)
    ensures
        frames_of(framing, a + b) == frames_of(framing, a) + frames_of(
            framing,
            rest_of(framing, a) + b,
        ),
        rest_of(framing, a + b) == rest_of(framing, rest_of(framing, a) + b),
    decreases a.len(),
{
    if has_frame(framing, a) {
        lemma_header_whole(framing, a, b);
        assert(first_frame(framing, a + b) =~= first_frame(framing, a));
        assert(after_first(framing, a + b) =~= after_first(framing, a) + b);
        lemma_parse_append(framing, after_first(framing, a), b);
        assert(frames_of(framing, a + b) =~= frames_of(framing, a) + frames_of(
            framing,
            rest_of(framing, a) + b,
        ));
    } else {
        assert(frames_of(framing, a) + frames_of(framing, a + b) =~= frames_of(framing, a + b));
    }
}

/// Nothing is lost: what is left over is the end of the stream, and the
/// bytes of the whole frames in front of it, prefixes and payloads, and the
/// bytes left over are as many as the stream has.
pub proof fn lemma_parse_conserves(framing: Framing, stream: Seq<u8>)
    ensures
        taken(framing, stream) + rest_of(framing, stream).len() == stream.len(),
        rest_of(framing, stream) == stream.skip(taken(framing, stream) as int),
    decreases stream.len(),
{
    if has_frame(framing, stream) {
        let after = after_first(framing, stream);
        lemma_parse_conserves(framing, after);
        assert(rest_of(framing, stream) =~= stream.skip(taken(framing, stream) as int));
    } else {
        assert(rest_of(framing, stream) =~= stream.skip(0));
    }
}

/// Nothing is made up: in the fixed-width format the frames that a stream
/// holds, put back on the wire, and what is left over are the stream itself.
pub proof fn lemma_parse_rebuilds(stream: Seq<u8>)
    ensures
        wire(Framing::Fixed, frames_of(Framing::Fixed, stream)) + rest_of(Framing::Fixed, stream)
            == stream,
        wire(Framing::Fixed, frames_of(Framing::Fixed, stream)).len() == taken(
            Framing::Fixed,
            stream,
        ),
    decreases stream.len(),
{
    let fixed = Framing::Fixed;
    if has_frame(fixed, stream) {
        let first = first_frame(fixed, stream);
        let after = after_first(fixed, stream);
        let length = be_value(stream.take(8));
        lemma_parse_rebuilds(after);
        lemma_length_round_trip(stream.take(8));
        assert(frame_bytes(fixed, first) =~= stream.take(8 + length as int));
        assert(frames_of(fixed, stream).first() == first);
        assert(frames_of(fixed, stream).drop_first() =~= frames_of(fixed, after));
        assert(wire(fixed, frames_of(fixed, stream)) == frame_bytes(fixed, first) + wire(
            fixed,
            frames_of(fixed, after),
        ));
        assert(stream =~= stream.take(8 + length as int) + after);
        assert(wire(fixed, frames_of(fixed, stream)) + rest_of(fixed, stream) =~= frame_bytes(
            fixed,
            first,
        ) + (wire(fixed, frames_of(fixed, after)) + rest_of(fixed, after)));
    } else {
        assert(wire(fixed, frames_of(fixed, stream)) + rest_of(fixed, stream) =~= stream);
    }
}

/// A stream that begins with the wire bytes of `frames` holds exactly those
/// payloads, in that order, and then whatever `tail` holds.
pub proof fn lemma_parse_wire(framing: Framing, frames: Seq<Seq<u8>>, tail: Seq<u8>)
    requires
        encodable(frames),
    ensures
        frames_of(framing, wire(framing, frames) + tail) == frames + frames_of(framing, tail),
        rest_of(framing, wire(framing, frames) + tail) == rest_of(framing, tail),
        taken(framing, wire(framing, frames) + tail) == wire(framing, frames).len() + taken(
            framing,
            tail,
        ),
    decreases frames.len(),
{
    if frames.len() == 0 {
        assert(wire(framing, frames) + tail =~= tail);
        assert(frames + frames_of(framing, tail) =~= frames_of(framing, tail));
    } else {
        let first = frames.first();
        let others = frames.drop_first();
        let stream = wire(framing, frames) + tail;
        let prefix = prefix_bytes(framing, first.len());
        assert(first.len() <= u64::MAX);
        lemma_header_of_prefix(framing, first.len(), first + wire(framing, others) + tail);
        assert(stream =~= prefix + (first + wire(framing, others) + tail));
        assert(first_frame(framing, stream) =~= first);
        assert(after_first(framing, stream) =~= wire(framing, others) + tail);
        assert(encodable(others)) by {
            assert forall|i: int| 0 <= i < others.len() implies (#[trigger] others[i]).len()
                <= u64::MAX by {
                assert(others[i] == frames[i + 1]);
            }
        }
        lemma_parse_wire(framing, others, tail);
        assert(frames_of(framing, stream) =~= frames + frames_of(framing, tail));
    }
}

/// What a receiver has made of the bytes that it was fed: the payloads that
/// became whole, oldest first, and the part of the stream behind them.
#[verifier::ext_equal]
pub struct Received {
    pub framing: Framing,
    pub ready: Seq<Seq<u8>>,
    pub unparsed: Seq<u8>,
}

impl Received {
    /// A receiver that was fed nothing.
    pub open spec fn fresh(framing: Framing) -> Received {
        Received { framing, ready: Seq::empty(), unparsed: Seq::empty() }
    }

    /// Whether no whole frame is waiting in the unparsed part.
    pub open spec fn settled(self) -> bool {
        !has_frame(self.framing, self.unparsed)
    }

    /// The receiver after it was fed `chunk`.
    pub open spec fn feed(self, chunk: Seq<u8>) -> Received {
        Received {
            framing: self.framing,
            ready: self.ready + frames_of(self.framing, self.unparsed + chunk),
            unparsed: rest_of(self.framing, self.unparsed + chunk),
        }
    }

    /// The receiver after it was fed each of `chunks` in turn.
    pub open spec fn feed_all(self, chunks: Seq<Seq<u8>>) -> Received
        decreases chunks.len(),
    {
        if chunks.len() == 0 {
            self
        } else {
            self.feed(chunks.first()).feed_all(chunks.drop_first())
        }
    }

    /// The receiver after its oldest payload was taken out.
    pub open spec fn without_first(self) -> Received {
        Received {
            framing: self.framing,
            ready: self.ready.drop_first(),
            unparsed: self.unparsed,
        }
    }

    /// Why no further frame can come out, if that is so.
    pub open spec fn fault(self) -> Option<DecodeError> {
        fault(self.framing, self.unparsed)
    }
}

/// A receiver is settled after every feed.
pub proof fn lemma_feed_settles(before: Received, chunk: Seq<u8>)
    ensures
        before.feed(chunk).settled(),
{
    lemma_rest_has_no_frame(before.framing, before.unparsed + chunk);
}

/// Feeding two chunks one after the other is feeding them as one.
pub proof fn lemma_feed_in_two(before: Received, a: Seq<u8>, b: Seq<u8>)
    ensures
        before.feed(a).feed(b) == before.feed(a + b),
{
    lemma_parse_append(before.framing, before.unparsed + a, b);
    assert((before.unparsed + a) + b =~= before.unparsed + (a + b));
    assert(before.feed(a).feed(b) =~= before.feed(a + b));
}

/// Fragmentation invariance: however a run of bytes is cut into pieces,
/// feeding the pieces in order leaves a settled receiver as feeding the run
/// in one call does.
pub proof fn lemma_feed_in_pieces(before: Received, pieces: Seq<Seq<u8>>)
    requires
        before.settled(),
    ensures
        before.feed_all(pieces) == before.feed(pieces.flatten()),
    decreases pieces.len(),
{
    if pieces.len() == 0 {
        assert(before.unparsed + pieces.flatten() =~= before.unparsed);
        assert(before.feed(pieces.flatten()) =~= before);
    } else {
        let next = before.feed(pieces.first());
        lemma_feed_settles(before, pieces.first());
        lemma_feed_in_pieces(next, pieces.drop_first());
        lemma_feed_in_two(before, pieces.first(), pieces.drop_first().flatten());
    }
}

/// What is sent is what is received: a fresh receiver that is fed the wire
/// bytes of any number of frames, cut into pieces in any way, ends with
/// exactly those payloads, in the order in which they were sent, and
/// nothing left over.
pub proof fn lemma_sent_is_received(framing: Framing, frames: Seq<Seq<u8>>, pieces: Seq<Seq<u8>>)
    requires
        encodable(frames),
        pieces.flatten() == wire(framing, frames),
    ensures
        Received::fresh(framing).feed_all(pieces) == (Received {
            framing,
            ready: frames,
            unparsed: Seq::empty(),
        }),
{
    lemma_feed_in_pieces(Received::fresh(framing), pieces);
    lemma_coalesced(framing, frames);
}

/// Fragmentation invariance for one frame: a fresh receiver that is fed
/// the wire bytes of one frame, cut into pieces in any way, down to one
/// byte each, ends with that one payload and nothing left over, as it does
/// when it is fed the frame whole.
pub proof fn lemma_one_frame_in_pieces(framing: Framing, payload: Seq<u8>, pieces: Seq<Seq<u8>>)
    requires
        payload.len() <= u64::MAX,
        pieces.flatten() == frame_bytes(framing, payload),
    ensures
        Received::fresh(framing).feed_all(pieces) == Received::fresh(framing).feed(
            frame_bytes(framing, payload),
        ),
        Received::fresh(framing).feed_all(pieces) == (Received {
            framing,
            ready: seq![payload],
            unparsed: Seq::empty(),
        }),
{
    assert(wire(framing, seq![payload]) =~= frame_bytes(framing, payload)) by {
        assert(seq![payload].drop_first() =~= Seq::<Seq<u8>>::empty());
        assert(wire(framing, seq![payload].drop_first()) =~= Seq::<u8>::empty());
    }
    lemma_feed_in_pieces(Received::fresh(framing), pieces);
    lemma_sent_is_received(framing, seq![payload], pieces);
}

/// Coalescing: a fresh receiver that is fed the wire bytes of any number of
/// frames in one call ends with exactly those payloads, in their order, and
/// nothing left over.
pub proof fn lemma_coalesced(framing: Framing, frames: Seq<Seq<u8>>)
    requires
        encodable(frames),
    ensures
        Received::fresh(framing).feed(wire(framing, frames)) == (Received {
            framing,
            ready: frames,
            unparsed: Seq::empty(),
        }),
{
    lemma_parse_wire(framing, frames, Seq::empty());
    assert(Seq::<u8>::empty() + wire(framing, frames) =~= wire(framing, frames) + Seq::<
        u8,
    >::empty());
    assert(Received::fresh(framing).feed(wire(framing, frames)) =~= (Received {
        framing,
        ready: frames,
        unparsed: Seq::empty(),
    }));
}

/// Conservation over a session: of the bytes that a fresh receiver was fed,
/// in however many pieces, those that left it as whole frames, prefixes
/// and payloads together, and those that it still holds are all there are;
/// what it holds is the end of what it was fed.
pub proof fn lemma_session_conserves(framing: Framing, chunks: Seq<Seq<u8>>)
    ensures
        Received::fresh(framing).feed_all(chunks).ready == frames_of(framing, chunks.flatten()),
        taken(framing, chunks.flatten()) + Received::fresh(framing).feed_all(
            chunks,
        ).unparsed.len() == chunks.flatten().len(),
        Received::fresh(framing).feed_all(chunks).unparsed == chunks.flatten().skip(
            taken(framing, chunks.flatten()) as int,
        ),
{
    let fresh = Received::fresh(framing);
    lemma_feed_in_pieces(fresh, chunks);
    lemma_parse_conserves(framing, chunks.flatten());
    assert(fresh.unparsed + chunks.flatten() =~= chunks.flatten());
    assert(fresh.ready + frames_of(framing, chunks.flatten()) =~= frames_of(
        framing,
        chunks.flatten(),
    ));
}

/// Conservation in the fixed-width format, byte for byte: the payloads that
/// a fresh receiver has handed out, put back on the wire, followed by what
/// it still holds, are the bytes that it was fed, in their order.
pub proof fn lemma_session_rebuilds(chunks: Seq<Seq<u8>>)
    ensures
        wire(Framing::Fixed, Received::fresh(Framing::Fixed).feed_all(chunks).ready)
            + Received::fresh(Framing::Fixed).feed_all(chunks).unparsed == chunks.flatten(),
{
    lemma_session_conserves(Framing::Fixed, chunks);
    lemma_parse_rebuilds(chunks.flatten());
    lemma_feed_in_pieces(Received::fresh(Framing::Fixed), chunks);
    assert(Seq::<u8>::empty() + chunks.flatten() =~= chunks.flatten());
}

} // verus!
