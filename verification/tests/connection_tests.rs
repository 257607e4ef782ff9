use asna::connection::{FrameReader, ReadOutcome};
use asna::message::{Error, Message, SubmitJob, SubmitJobKind};

fn job_bytes(payload: &[u8]) -> Vec<u8> {
    Message::SubmitJob(SubmitJob::new(SubmitJobKind::Hashing, payload.to_vec())).encode()
}

/// Reads the next message and drops its frame, as a connection does.
fn next(r: &mut FrameReader) -> Result<Option<Message>, Error> {
    match r.try_parse()? {
        Some((m, len)) => {
            r.advance(len);
            Ok(Some(m))
        }
        None => Ok(None),
    }
}

#[test]
fn empty_reader_has_nothing() {
    let r = FrameReader::new();
    assert!(matches!(r.try_parse(), Ok(None)));
    assert_eq!(r.buffered_len(), 0);
}

#[test]
fn try_parse_leaves_buffer_unchanged() {
    let mut r = FrameReader::new();
    assert_eq!(r.on_read(&[0u8]), ReadOutcome::Buffered);
    assert!(matches!(r.try_parse(), Ok(Some((Message::Ping, 1)))));
    assert_eq!(r.buffered_len(), 1);
    assert!(matches!(r.try_parse(), Ok(Some((Message::Ping, 1)))));
    r.advance(1);
    assert_eq!(r.buffered_len(), 0);
    assert!(matches!(r.try_parse(), Ok(None)));
}

#[test]
fn try_parse_reports_frame_length() {
    let mut r = FrameReader::new();
    let bytes = job_bytes(b"abc");
    assert_eq!(r.on_read(&bytes), ReadOutcome::Buffered);
    assert_eq!(r.on_read(&[1u8]), ReadOutcome::Buffered);
    match r.try_parse() {
        Ok(Some((Message::SubmitJob(j), len))) => {
            assert_eq!(len, 8);
            assert_eq!(j.payload().as_slice(), b"abc");
        }
        other => panic!("unexpected {:?}", other),
    }
    assert_eq!(r.buffered_len(), 9);
    r.advance(8);
    assert_eq!(r.buffered_len(), 1);
    assert!(matches!(r.try_parse(), Ok(Some((Message::Pong, 1)))));
}

#[test]
fn end_of_stream_on_empty_buffer_is_clean_close() {
    let mut r = FrameReader::new();
    assert_eq!(r.on_read(&[]), ReadOutcome::Closed);
}

#[test]
fn end_of_stream_mid_message_is_reset() {
    let mut r = FrameReader::new();
    assert_eq!(r.on_read(&[2, 0]), ReadOutcome::Buffered);
    assert!(matches!(r.try_parse(), Ok(None)));
    assert_eq!(r.on_read(&[]), ReadOutcome::ResetByPeer);
}

#[test]
fn message_split_over_reads_comes_out_whole() {
    let bytes = job_bytes(b"awesome");
    let mut r = FrameReader::new();
    for chunk in bytes.chunks(3) {
        assert!(matches!(next(&mut r), Ok(None)));
        assert_eq!(r.on_read(chunk), ReadOutcome::Buffered);
    }
    match next(&mut r) {
        Ok(Some(Message::SubmitJob(j))) => assert_eq!(j.payload().as_slice(), b"awesome"),
        other => panic!("unexpected {:?}", other),
    }
    assert!(matches!(next(&mut r), Ok(None)));
    assert_eq!(r.on_read(&[]), ReadOutcome::Closed);
}

#[test]
fn messages_come_out_in_order_with_leftover_kept() {
    let mut bytes = vec![0u8];
    bytes.extend(job_bytes(b"one"));
    bytes.push(1);
    bytes.extend(job_bytes(b"two"));
    bytes.extend(&[2, 0, 0]);
    let mut r = FrameReader::new();
    assert_eq!(r.on_read(&bytes), ReadOutcome::Buffered);
    assert!(matches!(next(&mut r), Ok(Some(Message::Ping))));
    match next(&mut r) {
        Ok(Some(Message::SubmitJob(j))) => assert_eq!(j.payload().as_slice(), b"one"),
        other => panic!("unexpected {:?}", other),
    }
    assert!(matches!(next(&mut r), Ok(Some(Message::Pong))));
    match next(&mut r) {
        Ok(Some(Message::SubmitJob(j))) => assert_eq!(j.payload().as_slice(), b"two"),
        other => panic!("unexpected {:?}", other),
    }
    assert!(matches!(next(&mut r), Ok(None)));
    assert_eq!(r.buffered_len(), 3);
    assert_eq!(r.on_read(&[]), ReadOutcome::ResetByPeer);
}

#[test]
fn unknown_kind_is_an_error_and_keeps_buffer() {
    let mut r = FrameReader::new();
    assert_eq!(r.on_read(&[9, 0]), ReadOutcome::Buffered);
    match r.try_parse() {
        Err(Error::Other(msg)) => assert_eq!(msg, "unknown message kind"),
        other => panic!("unexpected {:?}", other),
    }
    assert_eq!(r.buffered_len(), 2);
    assert_eq!(r.on_read(&[]), ReadOutcome::ResetByPeer);
}
