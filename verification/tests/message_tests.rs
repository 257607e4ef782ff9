use asna::message::{get_u32, get_u8, ByteCursor, Error, Message, MessageKind, SubmitJob, SubmitJobKind};

fn job(payload: &[u8]) -> SubmitJob {
    SubmitJob::new(SubmitJobKind::Hashing, payload.to_vec())
}

fn is_random_uuid(id: u128) -> bool {
    (id >> 76) & 0xf == 4 && (id >> 62) & 0x3 == 2
}

#[test]
fn new_job_keeps_kind_and_payload() {
    let j = job(b"awesome");
    assert_eq!(j.kind(), SubmitJobKind::Hashing);
    assert_eq!(j.payload().as_slice(), b"awesome");
}

#[test]
fn new_job_gets_random_uuid() {
    let a = job(b"x");
    let b = job(b"x");
    assert!(is_random_uuid(a.id()));
    assert!(is_random_uuid(b.id()));
    assert_ne!(a.id(), b.id());
    assert_ne!(a.id(), 0);
}

#[test]
fn encode_ping_and_pong() {
    assert_eq!(Message::Ping.encode(), vec![0u8]);
    assert_eq!(Message::Pong.encode(), vec![1u8]);
}

#[test]
fn encode_msg_kind_bytes() {
    assert_eq!(Message::Ping.encode_msg_kind(), [0u8]);
    assert_eq!(Message::Pong.encode_msg_kind(), [1u8]);
    assert_eq!(Message::SubmitJob(job(b"")).encode_msg_kind(), [2u8]);
}

#[test]
fn encode_submit_job_is_length_prefixed() {
    let m = Message::SubmitJob(job(b"hello"));
    assert_eq!(m.encode(), vec![2u8, 0, 0, 0, 5, b'h', b'e', b'l', b'l', b'o']);
}

#[test]
fn encode_length_is_big_endian() {
    let payload = vec![7u8; 0x0102];
    let bytes = Message::SubmitJob(job(&payload)).encode();
    assert_eq!(&bytes[..5], &[2u8, 0, 0, 1, 2]);
    assert_eq!(bytes.len(), 5 + 0x0102);
    assert!(bytes[5..].iter().all(|b| *b == 7));
}

#[test]
fn decode_msg_kind_known_and_unknown() {
    assert!(matches!(Message::decode_msg_kind(0), Ok(MessageKind::Ping)));
    assert!(matches!(Message::decode_msg_kind(1), Ok(MessageKind::Pong)));
    assert!(matches!(Message::decode_msg_kind(2), Ok(MessageKind::SubmitJob)));
    match Message::decode_msg_kind(3) {
        Err(Error::Other(msg)) => assert_eq!(msg, "unknown message kind"),
        other => panic!("unexpected {:?}", other),
    }
    assert!(matches!(Message::decode_msg_kind(0xff), Err(Error::Other(_))));
}

#[test]
fn get_u8_reads_and_advances() {
    let data = [9u8, 8];
    let mut c = ByteCursor::new(&data);
    assert_eq!(get_u8(&mut c).unwrap(), 9);
    assert_eq!(c.position(), 1);
    assert_eq!(get_u8(&mut c).unwrap(), 8);
    assert!(!c.has_remaining());
    assert!(matches!(get_u8(&mut c), Err(Error::Incomplete)));
    assert_eq!(c.position(), 2);
}

#[test]
fn get_u32_reads_big_endian() {
    let data = [0x12u8, 0x34, 0x56, 0x78, 0x9a];
    let mut c = ByteCursor::new(&data);
    assert_eq!(get_u32(&mut c).unwrap(), 0x1234_5678);
    assert_eq!(c.position(), 4);
    assert!(matches!(get_u32(&mut c), Err(Error::Incomplete)));
    assert_eq!(c.position(), 4);
}

#[test]
fn get_u32_on_empty_is_incomplete() {
    let data: [u8; 0] = [];
    let mut c = ByteCursor::new(&data);
    assert!(matches!(get_u32(&mut c), Err(Error::Incomplete)));
}

#[test]
fn parse_ping_and_pong() {
    let data = [0u8, 1];
    let mut c = ByteCursor::new(&data);
    assert!(matches!(Message::parse(&mut c), Ok(Message::Ping)));
    assert!(matches!(Message::parse(&mut c), Ok(Message::Pong)));
    assert_eq!(c.position(), 2);
}

#[test]
fn parse_empty_is_incomplete() {
    let data: [u8; 0] = [];
    let mut c = ByteCursor::new(&data);
    assert!(matches!(Message::parse(&mut c), Err(Error::Incomplete)));
    assert_eq!(c.position(), 0);
}

#[test]
fn parse_unknown_kind_is_other() {
    let data = [7u8, 0, 0];
    let mut c = ByteCursor::new(&data);
    match Message::parse(&mut c) {
        Err(Error::Other(msg)) => assert_eq!(msg, "unknown message kind"),
        other => panic!("unexpected {:?}", other),
    }
    assert_eq!(c.position(), 1);
}

#[test]
fn parse_submit_job() {
    let data = [2u8, 0, 0, 0, 3, b'a', b'b', b'c', 0];
    let mut c = ByteCursor::new(&data);
    match Message::parse(&mut c) {
        Ok(Message::SubmitJob(j)) => {
            assert_eq!(j.payload().as_slice(), b"abc");
            assert_eq!(j.kind(), SubmitJobKind::Hashing);
            assert!(is_random_uuid(j.id()));
        }
        other => panic!("unexpected {:?}", other),
    }
    assert_eq!(c.position(), 8);
    assert!(matches!(Message::parse(&mut c), Ok(Message::Ping)));
}

#[test]
fn parse_submit_job_without_full_length_is_incomplete() {
    let data = [2u8, 0, 0];
    let mut c = ByteCursor::new(&data);
    assert!(matches!(Message::parse(&mut c), Err(Error::Incomplete)));
    assert_eq!(c.position(), 1);
}

#[test]
fn parse_submit_job_without_full_payload_is_incomplete() {
    let data = [2u8, 0, 0, 0, 4, 1, 2];
    let mut c = ByteCursor::new(&data);
    assert!(matches!(Message::parse(&mut c), Err(Error::Incomplete)));
    assert_eq!(c.position(), 5);
}

#[test]
fn roundtrip_each_message() {
    for m in [Message::Ping, Message::Pong, Message::SubmitJob(job(b"")), Message::SubmitJob(job(b"awesome"))] {
        let mut bytes = m.encode();
        let n = bytes.len();
        bytes.extend_from_slice(&[1, 2, 3]);
        let mut c = ByteCursor::new(&bytes);
        let back = Message::parse(&mut c).unwrap();
        assert_eq!(c.position(), n);
        match (&m, &back) {
            (Message::Ping, Message::Ping) | (Message::Pong, Message::Pong) => {}
            (Message::SubmitJob(a), Message::SubmitJob(b)) => assert_eq!(a.payload(), b.payload()),
            _ => panic!("mismatch {:?} {:?}", m, back),
        }
    }
}

#[test]
fn every_proper_prefix_is_incomplete() {
    let bytes = Message::SubmitJob(job(b"payload")).encode();
    for k in 0..bytes.len() {
        let mut c = ByteCursor::new(&bytes[..k]);
        assert!(matches!(Message::parse(&mut c), Err(Error::Incomplete)), "prefix {}", k);
    }
}

#[test]
fn get_u8_reads_every_byte_in_order_then_incomplete() {
    let data = [5u8, 6, 7, 8];
    let mut c = ByteCursor::new(&data);
    for (i, b) in data.iter().enumerate() {
        assert_eq!(c.position(), i);
        assert_eq!(get_u8(&mut c).unwrap(), *b);
    }
    for _ in 0..3 {
        assert!(matches!(get_u8(&mut c), Err(Error::Incomplete)));
        assert_eq!(c.position(), data.len());
    }
}
