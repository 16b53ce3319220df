use tobytcp::protocol::{DecodeError, Framing};
use tobytcp::messenger::{
    close_succeeded, next_read, next_wait, on_wait, on_write, CloseOutcome, ExitCause, Lifecycle,
    LifecycleError, Messenger, QueueOutcome, ReadOutcome, Reader, ReaderVerdict, WriterStep,
    READ_CHUNK, SEND_WAIT_MILLIS,
};

#[test]
fn a_messenger_starts_once() {
    let mut messenger = Messenger::new();
    assert_eq!(messenger.lifecycle(), Lifecycle::Created);
    assert!(!messenger.is_stopped());
    assert_eq!(messenger.start(), Ok(()));
    assert_eq!(messenger.lifecycle(), Lifecycle::Started);
    assert_eq!(messenger.start(), Err(LifecycleError::AlreadyStarted));
    assert_eq!(messenger.lifecycle(), Lifecycle::Started);
}

#[test]
fn shutdown_is_idempotent() {
    let mut messenger = Messenger::new();
    assert_eq!(messenger.start(), Ok(()));
    assert!(messenger.shutdown());
    assert_eq!(messenger.lifecycle(), Lifecycle::Stopped);
    assert!(messenger.is_stopped());
    assert!(!messenger.shutdown());
    assert!(!messenger.shutdown());
    assert_eq!(messenger.lifecycle(), Lifecycle::Stopped);
}

#[test]
fn a_stopped_messenger_neither_starts_nor_sends() {
    let mut messenger = Messenger::new();
    assert!(messenger.shutdown());
    assert_eq!(messenger.start(), Err(LifecycleError::Stopped));
    assert_eq!(messenger.send(&[1, 2, 3]), Err(LifecycleError::Stopped));
    assert_eq!(messenger.lifecycle(), Lifecycle::Stopped);
}

#[test]
fn a_direct_send_writes_prefix_and_payload() {
    let mut messenger = Messenger::new();
    assert_eq!(
        messenger.send(&[100, 13, 69, 17]),
        Ok(vec![0, 0, 0, 0, 0, 0, 0, 4, 100, 13, 69, 17])
    );
    assert_eq!(messenger.start(), Ok(()));
    assert_eq!(messenger.send(&[]), Ok(vec![0, 0, 0, 0, 0, 0, 0, 0]));
}

#[test]
fn closing_what_was_not_connected_counts_as_closed() {
    assert!(close_succeeded(CloseOutcome::Closed));
    assert!(close_succeeded(CloseOutcome::NotConnected));
    assert!(!close_succeeded(CloseOutcome::Failed));
}

#[test]
fn the_flag_is_looked_at_before_every_read_and_wait() {
    assert_eq!(READ_CHUNK, 256);
    assert_eq!(SEND_WAIT_MILLIS, 100);
    assert_eq!(next_read(false), Some(256));
    assert_eq!(next_read(true), None);
    assert_eq!(next_wait(false), Some(100));
    assert_eq!(next_wait(true), None);
}

#[test]
fn a_hundred_payloads_arrive_in_order() {
    let mut wire = Vec::new();
    for i in 0..100u8 {
        match on_wait(Framing::Fixed, QueueOutcome::Payload(vec![i])) {
            WriterStep::Write(bytes) => {
                assert_eq!(bytes.len(), 9);
                wire.extend_from_slice(&bytes);
                assert!(on_write(true));
            }
            other => panic!("{:?}", other),
        }
    }
    assert_eq!(wire.len(), 900);

    let mut reader = Reader::new(Framing::Fixed);
    let mut inbound: Vec<Vec<u8>> = Vec::new();
    for piece in wire.chunks(next_read(false).unwrap()) {
        let step = reader.on_read(false, ReadOutcome::Bytes(piece.to_vec()));
        assert_eq!(step.verdict, ReaderVerdict::Continue);
        inbound.extend(step.frames);
    }
    let expected: Vec<Vec<u8>> = (0..100u8).map(|i| vec![i]).collect();
    assert_eq!(inbound, expected);
}

#[test]
fn nothing_is_delivered_once_the_flag_is_set() {
    let mut reader = Reader::new(Framing::Fixed);
    let step = reader.on_read(false, ReadOutcome::Bytes(vec![0, 0, 0, 0, 0, 0, 0, 2, 7]));
    assert_eq!(step.verdict, ReaderVerdict::Continue);
    assert!(step.frames.is_empty());

    let step = reader.on_read(true, ReadOutcome::Bytes(vec![8]));
    assert_eq!(step.verdict, ReaderVerdict::Exit(ExitCause::Stopped));
    assert!(step.frames.is_empty());
    let step = reader.on_read(true, ReadOutcome::Bytes(vec![]));
    assert_eq!(step.verdict, ReaderVerdict::Exit(ExitCause::Stopped));
    let step = reader.on_read(true, ReadOutcome::Failed);
    assert_eq!(step.verdict, ReaderVerdict::Exit(ExitCause::Stopped));
    assert!(step.frames.is_empty());

    let step = reader.on_read(false, ReadOutcome::Bytes(vec![8]));
    assert_eq!(step.frames, vec![vec![7, 8]]);
}

#[test]
fn two_empty_reads_in_a_row_mean_the_peer_is_gone() {
    let mut reader = Reader::new(Framing::Fixed);
    let step = reader.on_read(false, ReadOutcome::Bytes(vec![]));
    assert_eq!(step.verdict, ReaderVerdict::Continue);
    assert!(step.frames.is_empty());
    let step = reader.on_read(false, ReadOutcome::Bytes(vec![]));
    assert_eq!(step.verdict, ReaderVerdict::Disconnect);
    assert!(step.frames.is_empty());
}

#[test]
fn a_single_empty_read_is_let_pass() {
    let mut reader = Reader::new(Framing::Fixed);
    for _ in 0..5 {
        let step = reader.on_read(false, ReadOutcome::Bytes(vec![]));
        assert_eq!(step.verdict, ReaderVerdict::Continue);
        let step = reader.on_read(false, ReadOutcome::Bytes(vec![0, 0, 0, 0, 0, 0, 0, 0]));
        assert_eq!(step.verdict, ReaderVerdict::Continue);
        assert_eq!(step.frames, vec![Vec::<u8>::new()]);
    }
    let step = reader.on_read(false, ReadOutcome::Bytes(vec![]));
    assert_eq!(step.verdict, ReaderVerdict::Continue);
    let step = reader.on_read(false, ReadOutcome::TimedOut);
    assert_eq!(step.verdict, ReaderVerdict::Continue);
    let step = reader.on_read(false, ReadOutcome::Bytes(vec![]));
    assert_eq!(step.verdict, ReaderVerdict::Continue);
    let step = reader.on_read(false, ReadOutcome::Bytes(vec![]));
    assert_eq!(step.verdict, ReaderVerdict::Disconnect);
}

#[test]
fn a_failed_read_ends_the_reader_only() {
    let mut reader = Reader::new(Framing::Fixed);
    let step = reader.on_read(false, ReadOutcome::Failed);
    assert_eq!(step.verdict, ReaderVerdict::Exit(ExitCause::ReadFailed));
    assert!(step.frames.is_empty());

    let mut messenger = Messenger::new();
    assert_eq!(messenger.start(), Ok(()));
    assert_eq!(messenger.lifecycle(), Lifecycle::Started);
    assert_eq!(messenger.send(&[1]), Ok(vec![0, 0, 0, 0, 0, 0, 0, 1, 1]));
}

#[test]
fn a_frame_that_ends_in_a_later_read_is_published_there() {
    let mut reader = Reader::new(Framing::Fixed);
    let step = reader.on_read(false, ReadOutcome::Bytes(vec![0, 0, 0, 0]));
    assert!(step.frames.is_empty());
    let step = reader.on_read(false, ReadOutcome::Bytes(vec![0, 0, 0, 3, 1, 2]));
    assert!(step.frames.is_empty());
    let step = reader.on_read(
        false,
        ReadOutcome::Bytes(vec![3, 0, 0, 0, 0, 0, 0, 0, 1, 9, 0, 0]),
    );
    assert_eq!(step.frames, vec![vec![1, 2, 3], vec![9]]);
    assert_eq!(step.verdict, ReaderVerdict::Continue);
}

#[test]
fn the_writer_waits_again_after_a_timeout() {
    assert_eq!(on_wait(Framing::Fixed, QueueOutcome::TimedOut), WriterStep::Recheck);
    assert_eq!(on_wait(Framing::Fixed, QueueOutcome::Closed), WriterStep::Exit);
    assert_eq!(
        on_wait(Framing::Fixed, QueueOutcome::Payload(vec![100, 13, 69, 17])),
        WriterStep::Write(vec![0, 0, 0, 0, 0, 0, 0, 4, 100, 13, 69, 17])
    );
    assert_eq!(
        on_wait(Framing::Fixed, QueueOutcome::Payload(vec![])),
        WriterStep::Write(vec![0; 8])
    );
    assert_eq!(
        on_wait(Framing::Variable, QueueOutcome::Payload(vec![100, 13, 69, 17])),
        WriterStep::Write(vec![4, 100, 13, 69, 17])
    );
    assert_eq!(on_wait(Framing::Variable, QueueOutcome::TimedOut), WriterStep::Recheck);
    assert_eq!(on_wait(Framing::Variable, QueueOutcome::Closed), WriterStep::Exit);
}

#[test]
fn a_messenger_keeps_its_wire_format() {
    let mut messenger = Messenger::with_framing(Framing::Variable);
    assert_eq!(messenger.wire_format(), Framing::Variable);
    assert_eq!(messenger.send(&[9; 200]).map(|b| b[..3].to_vec()), Ok(vec![0x81, 0x48, 9]));
    assert_eq!(messenger.start(), Ok(()));
    assert_eq!(messenger.send(&[7]), Ok(vec![1, 7]));
    assert!(messenger.shutdown());
    assert_eq!(messenger.wire_format(), Framing::Variable);
    assert_eq!(Messenger::new().wire_format(), Framing::Fixed);
    assert_eq!(Messenger::with_framing(Framing::Fixed).wire_format(), Framing::Fixed);
}

#[test]
fn a_hundred_payloads_arrive_in_order_in_the_variable_format() {
    let mut wire = Vec::new();
    for i in 0..100u8 {
        match on_wait(Framing::Variable, QueueOutcome::Payload(vec![i])) {
            WriterStep::Write(bytes) => {
                assert_eq!(bytes, vec![1, i]);
                wire.extend_from_slice(&bytes);
            }
            other => panic!("{:?}", other),
        }
    }
    let mut reader = Reader::new(Framing::Variable);
    let mut inbound: Vec<Vec<u8>> = Vec::new();
    for piece in wire.chunks(7) {
        let step = reader.on_read(false, ReadOutcome::Bytes(piece.to_vec()));
        assert_eq!(step.verdict, ReaderVerdict::Continue);
        inbound.extend(step.frames);
    }
    let expected: Vec<Vec<u8>> = (0..100u8).map(|i| vec![i]).collect();
    assert_eq!(inbound, expected);
}

#[test]
fn bytes_that_are_no_prefix_end_the_reader() {
    let mut reader = Reader::new(Framing::Variable);
    let mut bad = vec![1, 5];
    bad.extend_from_slice(&[0xff; 10]);
    let step = reader.on_read(false, ReadOutcome::Bytes(bad));
    assert_eq!(step.frames, vec![vec![5]]);
    assert_eq!(
        step.verdict,
        ReaderVerdict::Exit(ExitCause::Undecodable(DecodeError::LengthOverflow))
    );
    let step = reader.on_read(false, ReadOutcome::Bytes(vec![0x80; 11]));
    assert!(step.frames.is_empty());
    assert_eq!(
        step.verdict,
        ReaderVerdict::Exit(ExitCause::Undecodable(DecodeError::LengthOverflow))
    );

    let mut reader = Reader::new(Framing::Variable);
    let step = reader.on_read(false, ReadOutcome::Bytes(vec![0x80; 11]));
    assert_eq!(
        step.verdict,
        ReaderVerdict::Exit(ExitCause::Undecodable(DecodeError::PrefixTooLong))
    );
}

#[test]
fn a_failed_write_ends_the_writer() {
    assert!(on_write(true));
    assert!(!on_write(false));
}

#[test]
fn an_unaddressable_length_ends_the_reader() {
    let mut reader = Reader::new(Framing::Fixed);
    let step = reader.on_read(false, ReadOutcome::Bytes(vec![255; 8]));
    assert!(step.frames.is_empty());
    if (usize::MAX as u64) < u64::MAX {
        assert_eq!(
            step.verdict,
            ReaderVerdict::Exit(ExitCause::Undecodable(DecodeError::LengthOverflow))
        );
    } else {
        assert_eq!(step.verdict, ReaderVerdict::Continue);
    }
}
