//! The duplex messenger's decisions.
//!
//! A messenger runs two activities over one connection: a reader that turns
//! what it reads into payloads, and a writer that puts queued payloads on
//! the wire. Reading, writing, waiting and closing are the caller's part.
//! What to do next is decided here: each function takes what just happened
//! and says what follows.

use crate::processor::Processor;
use crate::protocol::{DecodeError, Framing};
use crate::reassembly::payloads;
use crate::sender::encode_frame;
use crate::stream::{frame_bytes, Received};
use vstd::prelude::*;

verus! {

/// The most bytes that the reader asks for in one read.
pub const READ_CHUNK: usize = 256;

/// How long the writer waits for a payload before it looks at the shutdown
/// flag again, in milliseconds.
pub const SEND_WAIT_MILLIS: u64 = 100;

/// Where a messenger stands in its life.
#[derive(Clone, Copy, Debug, PartialEq, Eq, Structural)]
pub enum Lifecycle {
    Created,
    Started,
    Stopped,
}

/// A call that the messenger's place in its life does not allow.
#[derive(Clone, Copy, Debug, PartialEq, Eq, Structural)]
pub enum LifecycleError {
    /// `start` on a messenger that was started before.
    AlreadyStarted,
    /// `start` or `send` on a messenger that was stopped.
    Stopped,
}

/// A messenger's wire format and its place in its life, and the calls that
/// move it.
pub struct Messenger {
    framing: Framing,
    state: Lifecycle,
}

impl Messenger {
    /// The messenger's place in its life.
    pub closed spec fn state(&self) -> Lifecycle {
        self.state
    }

    /// The wire format that the messenger speaks.
    pub closed spec fn framing(&self) -> Framing {
        self.framing
    }

    /// A messenger that was not started yet and speaks the fixed-width
    /// format.
    pub fn new() -> (messenger: Messenger)
        ensures
            messenger.state() == Lifecycle::Created,
            messenger.framing() == Framing::Fixed,
    {
        Messenger::with_framing(Framing::Fixed)
    }

    /// A messenger that was not started yet and speaks the given wire
    /// format.
    pub fn with_framing(framing: Framing) -> (messenger: Messenger)
        ensures
            messenger.state() == Lifecycle::Created,
            messenger.framing() == framing,
    {
        Messenger { framing, state: Lifecycle::Created }
    }

    /// The wire format that the messenger speaks.
    pub fn wire_format(&self) -> (framing: Framing)
        ensures
            framing == self.framing(),
    {
        self.framing
    }

    /// The messenger's place in its life.
    pub fn lifecycle(&self) -> (state: Lifecycle)
        ensures
            state == self.state(),
    {
        self.state
    }

    /// Whether the shutdown flag is set.
    pub fn is_stopped(&self) -> (stopped: bool)
        ensures
            stopped <==> self.state() == Lifecycle::Stopped,
    {
        match self.state {
            Lifecycle::Stopped => true,
            _ => false,
        }
    }

    /// Starts the messenger. Where this succeeds the caller starts the two
    /// activities; a second call, or a call after `shutdown`, changes
    /// nothing and says which of the two it was.
    pub fn start(&mut self) -> (result: Result<(), LifecycleError>)
        ensures
            final(self).framing() == old(self).framing(),
            old(self).state() == Lifecycle::Created ==> result == Ok::<(), LifecycleError>(())
                && final(self).state() == Lifecycle::Started,
            old(self).state() == Lifecycle::Started ==> result == Err::<(), LifecycleError>(
                LifecycleError::AlreadyStarted,
            ) && final(self).state() == Lifecycle::Started,
            old(self).state() == Lifecycle::Stopped ==> result == Err::<(), LifecycleError>(
                LifecycleError::Stopped,
            ) && final(self).state() == Lifecycle::Stopped,
    {
        match self.state {
            Lifecycle::Created => {
                self.state = Lifecycle::Started;
                Ok(())
            },
            Lifecycle::Started => Err(LifecycleError::AlreadyStarted),
            Lifecycle::Stopped => Err(LifecycleError::Stopped),
        }
    }

    /// The bytes that a direct send of `payload` writes, in one write and
    /// under the write lock. A stopped messenger sends nothing.
    pub fn send(&self, payload: &[u8]) -> (result: Result<Vec<u8>, LifecycleError>)
        ensures
            self.state() == Lifecycle::Stopped ==> result == Err::<Vec<u8>, LifecycleError>(
                LifecycleError::Stopped,
            ),
            self.state() != Lifecycle::Stopped ==> result is Ok && result.unwrap()@ == frame_bytes(
                self.framing(),
                payload@,
            ),
    {
        match self.state {
            Lifecycle::Stopped => Err(LifecycleError::Stopped),
            _ => Ok(encode_frame(self.framing, payload)),
        }
    }

    /// Stops the messenger, whatever its place was. The result says whether
    /// this call is the one that stops it: the caller then sets the shutdown
    /// flag and closes both directions of the connection. On a stopped
    /// messenger there is nothing left to do.
    pub fn shutdown(&mut self) -> (first: bool)
        ensures
            final(self).framing() == old(self).framing(),
            final(self).state() == Lifecycle::Stopped,
            first <==> old(self).state() != Lifecycle::Stopped,
    {
        let first = !self.is_stopped();
        self.state = Lifecycle::Stopped;
        first
    }
}

/// How an attempt to close the connection ended.
#[derive(Clone, Copy, Debug, PartialEq, Eq, Structural)]
pub enum CloseOutcome {
    /// Both directions were closed.
    Closed,
    /// There was no connection to close.
    NotConnected,
    /// The transport refused for another reason.
    Failed,
}

/// Whether the connection is closed after an attempt that ended in
/// `outcome`. A connection that was not there counts as closed.
pub fn close_succeeded(outcome: CloseOutcome) -> (closed: bool)
    ensures
        closed <==> outcome != CloseOutcome::Failed,
{
    match outcome {
        CloseOutcome::Closed => true,
        CloseOutcome::NotConnected => true,
        CloseOutcome::Failed => false,
    }
}

/// What a read on the connection gave.
#[derive(Debug, PartialEq, Eq)]
pub enum ReadOutcome {
    /// The bytes that were read; none at all is a result too.
    Bytes(Vec<u8>),
    /// Nothing arrived in the time allowed.
    TimedOut,
    /// The transport failed.
    Failed,
}

/// Why the reader stops.
#[derive(Clone, Copy, Debug, PartialEq, Eq, Structural)]
pub enum ExitCause {
    /// The shutdown flag was set.
    Stopped,
    /// A read failed.
    ReadFailed,
    /// The stream cannot be decoded any further.
    Undecodable(DecodeError),
}

/// What the reader does after a read.
#[derive(Clone, Copy, Debug, PartialEq, Eq, Structural)]
pub enum ReaderVerdict {
    /// Read again.
    Continue,
    /// Stop reading and leave the rest of the messenger alone.
    Exit(ExitCause),
    /// The peer is gone: set the shutdown flag, close both directions of
    /// the connection, and stop reading.
    Disconnect,
}

/// The payloads to publish after a read, oldest first, and what to do next.
#[derive(Debug, PartialEq, Eq)]
pub struct ReadStep {
    pub frames: Vec<Vec<u8>>,
    pub verdict: ReaderVerdict,
}

/// The reader activity's state: its frame receiver, and whether the last
/// read gave no bytes.
pub struct Reader {
    receiver: Processor,
    last_read_empty: bool,
}

/// How many bytes the reader asks for next, or nothing where the shutdown
/// flag tells it to stop.
pub fn next_read(shutdown: bool) -> (want: Option<usize>)
    ensures
        shutdown ==> want is None,
        !shutdown ==> want == Some(READ_CHUNK),
{
    if shutdown {
        None
    } else {
        Some(READ_CHUNK)
    }
}

impl Reader {
    /// The reader's frame receiver.
    pub closed spec fn receiver(&self) -> Processor {
        self.receiver
    }

    /// Whether the last read gave no bytes.
    pub closed spec fn last_read_empty(&self) -> bool {
        self.last_read_empty
    }

    /// The reader's invariant: its receiver's, and no payload is kept back
    /// between two reads.
    pub open spec fn wf(&self) -> bool {
        self.receiver().wf() && self.receiver()@.ready.len() == 0
    }

    /// A reader at the start of a stream in the given wire format.
    pub fn new(framing: Framing) -> (reader: Reader)
        ensures
            reader.wf(),
            !reader.last_read_empty(),
            reader.receiver()@ == Received::fresh(framing),
            reader.receiver().buffer().pending() == Seq::<u8>::empty(),
    {
        Reader { receiver: Processor::with_framing(framing), last_read_empty: false }
    }

    /// Number of bytes in the receiver's pending byte store.
    pub fn pending_len(&self) -> (n: usize)
        requires
            self.wf(),
        ensures
            n as nat == self.receiver().buffer().pending().len(),
    {
        self.receiver.pending_len()
    }

    /// Takes what a read gave and says what to publish and what to do next.
    ///
    /// With the shutdown flag set nothing is published any more. Bytes go
    /// to the frame receiver, and every payload that became whole is
    /// published. A read that gave no bytes is let pass once; the second in
    /// a row means that the peer is gone. A read that timed out is no read
    /// at all; a read that failed ends the reader and nothing else.
    pub fn on_read(&mut self, shutdown: bool, outcome: ReadOutcome) -> (step: ReadStep)
        requires
            old(self).wf(),
            outcome matches ReadOutcome::Bytes(chunk) ==> old(
                self,
            ).receiver().buffer().pending().len() + chunk.len() <= usize::MAX,
        ensures
            final(self).wf(),
            final(self).receiver()@.framing == old(self).receiver()@.framing,
            shutdown ==> {
                &&& step.verdict == ReaderVerdict::Exit(ExitCause::Stopped)
                &&& step.frames@.len() == 0
                &&& final(self).receiver() == old(self).receiver()
                &&& final(self).last_read_empty() == old(self).last_read_empty()
            },
            !shutdown ==> match outcome {
                ReadOutcome::Bytes(chunk) => if chunk@.len() == 0 {
                    &&& step.frames@.len() == 0
                    &&& final(self).receiver() == old(self).receiver()
                    &&& final(self).last_read_empty()
                    &&& step.verdict == if old(self).last_read_empty() {
                        ReaderVerdict::Disconnect
                    } else {
                        ReaderVerdict::Continue
                    }
                } else {
                    &&& payloads(step.frames@) == old(self).receiver()@.feed(chunk@).ready
                    &&& final(self).receiver()@.unparsed == old(self).receiver()@.feed(
                        chunk@,
                    ).unparsed
                    &&& !final(self).last_read_empty()
                    &&& step.verdict == match final(self).receiver()@.fault() {
                        Some(e) => ReaderVerdict::Exit(ExitCause::Undecodable(e)),
                        None => ReaderVerdict::Continue,
                    }
                },
                ReadOutcome::TimedOut => {
                    &&& step.frames@.len() == 0
                    &&& final(self).receiver() == old(self).receiver()
                    &&& !final(self).last_read_empty()
                    &&& step.verdict == ReaderVerdict::Continue
                },
                ReadOutcome::Failed => {
                    &&& step.frames@.len() == 0
                    &&& final(self).receiver() == old(self).receiver()
                    &&& final(self).last_read_empty() == old(self).last_read_empty()
                    &&& step.verdict == ReaderVerdict::Exit(ExitCause::ReadFailed)
                },
            },
    {
        let mut frames: Vec<Vec<u8>> = Vec::new();
        if shutdown {
            return ReadStep { frames, verdict: ReaderVerdict::Exit(ExitCause::Stopped) };
        }
        match outcome {
            ReadOutcome::Bytes(chunk) => {
                if chunk.len() == 0 {
                    let verdict = if self.last_read_empty {
                        ReaderVerdict::Disconnect
                    } else {
                        ReaderVerdict::Continue
                    };
                    self.last_read_empty = true;
                    ReadStep { frames, verdict }
                } else {
                    let result = self.receiver.submit(chunk);
                    let ghost fed = self.receiver@;
                    while self.receiver.ready_len() > 0
                        invariant
                            self.receiver.wf(),
                            self.receiver@.framing == fed.framing,
                            self.receiver@.unparsed == fed.unparsed,
                            payloads(frames@) + self.receiver@.ready == fed.ready,
                        decreases self.receiver@.ready.len(),
                    {
                        let ghost taken = payloads(frames@);
                        let ghost left = self.receiver@.ready;
                        let frame = self.receiver.next_frame().unwrap();
                        proof {
                            assert(payloads(frames@.push(frame)) =~= taken.push(frame@));
                            assert(taken.push(frame@) + left.drop_first() =~= taken + left);
                        }
                        frames.push(frame);
                    }
                    assert(payloads(frames@) =~= fed.ready);
                    self.last_read_empty = false;
                    let verdict = match result {
                        Ok(_) => ReaderVerdict::Continue,
                        Err(e) => ReaderVerdict::Exit(ExitCause::Undecodable(e)),
                    };
                    ReadStep { frames, verdict }
                }
            },
            ReadOutcome::TimedOut => {
                self.last_read_empty = false;
                ReadStep { frames, verdict: ReaderVerdict::Continue }
            },
            ReadOutcome::Failed => ReadStep {
                frames,
                verdict: ReaderVerdict::Exit(ExitCause::ReadFailed),
            },
        }
    }
}

/// What the wait on the outbound queue gave.
#[derive(Debug, PartialEq, Eq)]
pub enum QueueOutcome {
    /// A payload to send.
    Payload(Vec<u8>),
    /// Nothing was queued in the time allowed.
    TimedOut,
    /// Nobody can queue a payload any more.
    Closed,
}

/// What the writer does after a wait.
#[derive(Debug, PartialEq, Eq)]
pub enum WriterStep {
    /// Write these bytes in one write, under the write lock.
    Write(Vec<u8>),
    /// Look at the shutdown flag and wait again.
    Recheck,
    /// Stop writing.
    Exit,
}

/// How long the writer waits for the next payload, in milliseconds, or
/// nothing where the shutdown flag tells it to stop.
pub fn next_wait(shutdown: bool) -> (millis: Option<u64>)
    ensures
        shutdown ==> millis is None,
        !shutdown ==> millis == Some(SEND_WAIT_MILLIS),
{
    if shutdown {
        None
    } else {
        Some(SEND_WAIT_MILLIS)
    }
}

/// Takes what the wait on the outbound queue gave and says what the writer
/// does: a payload is written as one frame in the given wire format; a wait
/// that timed out is no error; a queue that nobody can fill ends the writer.
pub fn on_wait(framing: Framing, outcome: QueueOutcome) -> (step: WriterStep)
    ensures
        match outcome {
            QueueOutcome::Payload(payload) => step matches WriterStep::Write(bytes) && bytes@
                == frame_bytes(framing, payload@),
            QueueOutcome::TimedOut => step is Recheck,
            QueueOutcome::Closed => step is Exit,
        },
{
    match outcome {
        QueueOutcome::Payload(payload) => WriterStep::Write(
            encode_frame(framing, payload.as_slice()),
        ),
        QueueOutcome::TimedOut => WriterStep::Recheck,
        QueueOutcome::Closed => WriterStep::Exit,
    }
}

/// Whether the writer goes on after a write: a write that failed ends the
/// writer, and the payload is lost.
pub fn on_write(written: bool) -> (go_on: bool)
    ensures
        go_on == written,
{
    written
}

} // verus!
