use remote_exec::drain::drain;
use remote_exec::drain::DrainStep;
use remote_exec::drain::Drainer;
use remote_exec::drain::IoError;
use remote_exec::drain::RecordedRead;
use remote_exec::drain::READER_PAUSE_MILLIS;
use remote_exec::drain::SCRATCH_LEN;
use std::io::Error;
use std::io::ErrorKind;

fn data(bytes: &[u8]) -> RecordedRead {
    Ok(bytes.to_vec())
}

fn end() -> RecordedRead {
    Ok(Vec::new())
}

fn would_block() -> RecordedRead {
    Err(Error::from(ErrorKind::WouldBlock))
}

fn broken(kind: ErrorKind, text: &str) -> RecordedRead {
    Err(Error::new(kind, text.to_string()))
}

#[test]
fn bytes_then_would_block_then_bytes_then_end() {
    let run = drain(vec![data(b"abc"), would_block(), data(b"def"), end()]);
    assert_eq!(run.outcome.unwrap(), b"abcdef".to_vec());
    assert_eq!(run.pauses, 1);
    assert_eq!(run.reads, 4);
}

#[test]
fn a_recording_that_runs_out_has_ended() {
    let run = drain(vec![data(b"abc"), would_block(), data(b"def")]);
    assert_eq!(run.outcome.unwrap(), b"abcdef".to_vec());
    assert_eq!(run.pauses, 1);
    assert_eq!(run.reads, 3);
    let nothing = drain(vec![]);
    assert_eq!(nothing.outcome.unwrap(), Vec::<u8>::new());
    assert_eq!((nothing.reads, nothing.pauses), (0, 0));
}

#[test]
fn an_immediate_error_is_returned_with_no_bytes() {
    let run = drain(vec![broken(ErrorKind::ConnectionReset, "reset by peer")]);
    let error = run.outcome.unwrap_err();
    assert_eq!(error.kind(), ErrorKind::ConnectionReset);
    assert_eq!(error.to_string(), "reset by peer");
    assert_eq!(run.reads, 1);
    assert_eq!(run.pauses, 0);
}

#[test]
fn an_error_after_data_surfaces_alone() {
    let run = drain(vec![
        data(b"partial"),
        would_block(),
        broken(ErrorKind::BrokenPipe, "pipe closed"),
        data(b"never read"),
    ]);
    let error = run.outcome.unwrap_err();
    assert_eq!(error.kind(), ErrorKind::BrokenPipe);
    assert_eq!(error.to_string(), "pipe closed");
    assert_eq!(run.reads, 3);
    assert_eq!(run.pauses, 1);
}

#[test]
fn nothing_is_read_after_the_end() {
    let run = drain(vec![data(b"one"), end(), data(b"two"), broken(ErrorKind::Other, "late")]);
    assert_eq!(run.outcome.unwrap(), b"one".to_vec());
    assert_eq!(run.reads, 2);
    assert_eq!(run.pauses, 0);
}

#[test]
fn every_blocked_read_costs_one_pause() {
    let run = drain(vec![
        would_block(),
        would_block(),
        data(b"x"),
        would_block(),
        data(b"y"),
        would_block(),
        end(),
    ]);
    assert_eq!(run.outcome.unwrap(), b"xy".to_vec());
    assert_eq!(run.pauses, 4);
    assert_eq!(run.reads, 7);
}

#[test]
fn chunks_far_larger_than_the_scratch_buffer_are_kept_whole() {
    let mut reads: Vec<RecordedRead> = Vec::new();
    let mut expected: Vec<u8> = Vec::new();
    for round in 0..40usize {
        let chunk: Vec<u8> =
            (0..SCRATCH_LEN * 3 + round).map(|i| ((i + round) % 251) as u8).collect();
        expected.extend_from_slice(&chunk);
        reads.push(Ok(chunk));
        if round % 3 == 0 {
            reads.push(would_block());
        }
    }
    let run = drain(reads);
    assert_eq!(run.outcome.unwrap(), expected);
    assert_eq!(run.pauses, 14);
    assert_eq!(run.reads, 54);
}

#[test]
fn would_block_is_told_from_every_other_error() {
    assert!(matches!(IoError::classify(Error::from(ErrorKind::WouldBlock)), IoError::WouldBlock));
    assert!(matches!(
        IoError::classify(Error::new(ErrorKind::WouldBlock, "try again".to_string())),
        IoError::WouldBlock
    ));
    match IoError::classify(Error::new(ErrorKind::TimedOut, "too slow".to_string())) {
        IoError::Other(cause) => {
            assert_eq!(cause.kind(), ErrorKind::TimedOut);
            assert_eq!(cause.to_string(), "too slow");
        }
        IoError::WouldBlock => panic!("a timeout is not a blocked read"),
    }
    assert!(matches!(IoError::classify(Error::from(ErrorKind::Interrupted)), IoError::Other(_)));
    assert!(matches!(IoError::classify(Error::from(ErrorKind::UnexpectedEof)), IoError::Other(_)));
}

#[test]
fn a_read_with_bytes_is_appended_and_asks_for_the_next_read() {
    let drainer = match Drainer::new().on_data(b"abc") {
        DrainStep::Read(drainer) => drainer,
        _ => panic!("bytes must ask for another read"),
    };
    assert_eq!(drainer.captured(), b"abc");
    let drainer = match drainer.on_read(Ok(b"de")) {
        DrainStep::Read(drainer) => drainer,
        _ => panic!("bytes must ask for another read"),
    };
    assert_eq!(drainer.captured(), b"abcde");
}

#[test]
fn an_empty_read_ends_the_drain_with_all_bytes() {
    let drainer = match Drainer::new().on_data(b"abc") {
        DrainStep::Read(drainer) => drainer,
        _ => panic!("bytes must ask for another read"),
    };
    match drainer.on_data(b"") {
        DrainStep::Done(outcome) => assert_eq!(outcome.unwrap(), b"abc".to_vec()),
        _ => panic!("an empty read must end the drain"),
    }
    match Drainer::new().on_read(Ok(b"")) {
        DrainStep::Done(outcome) => assert_eq!(outcome.unwrap(), Vec::<u8>::new()),
        _ => panic!("an empty read must end the drain"),
    }
}

#[test]
fn a_blocked_read_asks_for_a_pause_and_keeps_the_bytes() {
    let drainer = match Drainer::new().on_data(b"abc") {
        DrainStep::Read(drainer) => drainer,
        _ => panic!("bytes must ask for another read"),
    };
    let drainer = match drainer.on_read(Err(Error::from(ErrorKind::WouldBlock))) {
        DrainStep::Pause(drainer) => drainer,
        _ => panic!("a blocked read must ask for a pause"),
    };
    assert_eq!(drainer.captured(), b"abc");
    assert_eq!(drainer.pause_millis(), 100);
    match drainer.on_error(IoError::WouldBlock) {
        DrainStep::Pause(drainer) => assert_eq!(drainer.captured(), b"abc"),
        _ => panic!("a blocked read must ask for a pause"),
    }
}

#[test]
fn a_failed_read_ends_the_drain_with_its_error() {
    let drainer = match Drainer::new().on_data(b"abc") {
        DrainStep::Read(drainer) => drainer,
        _ => panic!("bytes must ask for another read"),
    };
    match drainer.on_read(Err(Error::new(ErrorKind::PermissionDenied, "denied".to_string()))) {
        DrainStep::Done(outcome) => {
            let error = outcome.unwrap_err();
            assert_eq!(error.kind(), ErrorKind::PermissionDenied);
            assert_eq!(error.to_string(), "denied");
        }
        _ => panic!("a failed read must end the drain"),
    }
    match Drainer::new().on_error(IoError::Other(Error::from(ErrorKind::NotConnected))) {
        DrainStep::Done(outcome) => {
            assert_eq!(outcome.unwrap_err().kind(), ErrorKind::NotConnected)
        }
        _ => panic!("a failed read must end the drain"),
    }
}

#[test]
fn the_pause_is_a_tenth_of_a_second_unless_chosen() {
    assert_eq!(READER_PAUSE_MILLIS, 100);
    assert_eq!(SCRATCH_LEN, 1024);
    assert_eq!(Drainer::new().pause_millis(), READER_PAUSE_MILLIS);
    assert_eq!(Drainer::with_pause(5).pause_millis(), 5);
    assert_eq!(Drainer::with_pause(5).captured(), b"");
}
