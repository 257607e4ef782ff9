//! The read side of a connection: a buffer that collects the bytes that
//! arrive from the peer and hands out one whole message at a time.
//!
//! On the wire, the receiver first reads enough bytes to know the full
//! message size, keeps buffering until that many bytes are available, then
//! parses one complete request. Any leftover bytes stay in the buffer for
//! the next message.
use bytes::Buf;
use bytes::BytesMut;
use vstd::prelude::*;

use crate::message::{
    encode_frame, frame_encodable, lemma_encode_parse_roundtrip, parse_frame, ByteCursor, Error,
    Frame, Message, ParseOutcome, unknown_kind_text, lemma_job_frame_read,
};

verus! {

#[verifier::external_type_specification]
#[verifier::external_body]
pub struct ExBytesMut(BytesMut);

/// The bytes that a `bytes::BytesMut` holds.
pub uninterp spec fn bytes_mut_contents(b: BytesMut) -> Seq<u8>;

/// Calls `bytes::BytesMut::with_capacity`, which makes an empty buffer.
/// `Vec::with_capacity` underneath panics on a capacity above `isize::MAX`,
/// which `requires` rules out.
#[verifier::external_body]
fn bytes_mut_with_capacity(capacity: usize) -> (b: BytesMut)
    requires
        capacity <= isize::MAX,
    ensures
        bytes_mut_contents(b) == Seq::<u8>::empty(),
{
    BytesMut::with_capacity(capacity)
}

/// Calls `bytes::BytesMut::extend_from_slice`, which appends the slice's
/// bytes. It grows the allocation as needed, which panics past `isize::MAX`
/// bytes; `requires` keeps the total below that.
#[verifier::external_body]
fn bytes_mut_extend_from_slice(b: &mut BytesMut, extend: &[u8])
    requires
        bytes_mut_contents(*old(b)).len() + extend@.len() <= isize::MAX,
    ensures
        bytes_mut_contents(*final(b)) == bytes_mut_contents(*old(b)) + extend@,
{
    b.extend_from_slice(extend)
}

/// Calls `bytes::BytesMut::is_empty`: whether the buffer holds no bytes.
#[verifier::external_body]
fn bytes_mut_is_empty(b: &BytesMut) -> (r: bool)
    ensures
        r == (bytes_mut_contents(*b).len() == 0),
{
    b.is_empty()
}

/// Calls `bytes::BytesMut::len`: how many bytes the buffer holds.
#[verifier::external_body]
fn bytes_mut_len(b: &BytesMut) -> (n: usize)
    ensures
        n == bytes_mut_contents(*b).len(),
{
    b.len()
}

/// Dereferences a `bytes::BytesMut` to the slice of the bytes it holds.
#[verifier::external_body]
fn bytes_mut_as_slice(b: &BytesMut) -> (s: &[u8])
    ensures
        s@ == bytes_mut_contents(*b),
{
    &b[..]
}

/// Calls `bytes::Buf::advance` on a `bytes::BytesMut`, which drops the first
/// `cnt` bytes (it panics when `cnt` exceeds the length, which `requires`
/// rules out).
#[verifier::external_body]
fn bytes_mut_advance(b: &mut BytesMut, cnt: usize)
    requires
        cnt <= bytes_mut_contents(*old(b)).len(),
    ensures
        bytes_mut_contents(*final(b)) == bytes_mut_contents(*old(b)).skip(cnt as int),
{
    b.advance(cnt)
}

/// Size of the read buffer set aside for a new connection.
pub const READ_BUFFER_CAPACITY: usize = 8 * 1024;

/// What a read from the peer means for the connection.
#[derive(Debug, Clone, Copy, PartialEq, Eq, Structural)]
pub enum ReadOutcome {
    /// Bytes arrived and were added to the buffer.
    Buffered,
    /// The peer closed the stream between two messages.
    Closed,
    /// The peer closed the stream in the middle of a message.
    ResetByPeer,
}

/// The bytes received from the peer that have not been read as messages yet.
pub struct FrameReader {
    read_buff: BytesMut,
}

impl FrameReader {
    /// The bytes waiting in the buffer.
    pub closed spec fn buffered(&self) -> Seq<u8> {
        bytes_mut_contents(self.read_buff)
    }

    /// An empty reader with an 8KB buffer.
    pub fn new() -> (r: FrameReader)
        ensures
            r.buffered() == Seq::<u8>::empty(),
    {
        FrameReader { read_buff: bytes_mut_with_capacity(READ_BUFFER_CAPACITY) }
    }

    /// How many bytes wait in the buffer.
    pub fn buffered_len(&self) -> (n: usize)
        ensures
            n == self.buffered().len(),
    {
        bytes_mut_len(&self.read_buff)
    }

    /// Takes the result of one read from the peer: an empty read is the end
    /// of the stream, which is a clean close when no partial message waits
    /// and a reset otherwise; other bytes are appended to the buffer.
    pub fn on_read(&mut self, chunk: &[u8]) -> (r: ReadOutcome)
        requires
            old(self).buffered().len() + chunk@.len() <= isize::MAX,
        ensures
            chunk@.len() == 0 ==> final(self).buffered() == old(self).buffered() && r == (if old(
                self,
            ).buffered().len() == 0 {
                ReadOutcome::Closed
            } else {
                ReadOutcome::ResetByPeer
            }),
            chunk@.len() > 0 ==> final(self).buffered() == old(self).buffered() + chunk@ && r
                == ReadOutcome::Buffered,
    {
        if chunk.len() == 0 {
            if bytes_mut_is_empty(&self.read_buff) {
                ReadOutcome::Closed
            } else {
                ReadOutcome::ResetByPeer
            }
        } else {
            bytes_mut_extend_from_slice(&mut self.read_buff, chunk);
            ReadOutcome::Buffered
        }
    }

    /// Reads the message at the front of the buffer, if it has fully arrived,
    /// together with the number of bytes its frame takes. The buffer is left
    /// as it is; `advance` drops the frame once the message has been taken.
    /// A message that has only partly arrived gives `None`; bytes that are no
    /// message give the parse error.
    pub fn try_parse(&self) -> (r: Result<Option<(Message, usize)>, Error>)
        ensures
            match parse_frame(self.buffered()) {
                ParseOutcome::Complete(f, n) => r matches Ok(Some((m, len))) && m.frame() == f
                    && m.as_received() && len == n,
                ParseOutcome::Incomplete => r == Ok::<Option<(Message, usize)>, Error>(None),
                ParseOutcome::UnknownKind(_) => r matches Err(Error::Other(msg)) && msg@
                    == unknown_kind_text(),
            },
            ({
                let s = self.buffered();
                let n = s[1] * 0x100_0000int + s[2] * 0x1_0000int + s[3] * 0x100int + s[4] as int;
                s.len() >= 5 && s[0] == 2 && s.len() >= 5 + n ==> (r matches Ok(
                    Some((Message::SubmitJob(job), len)),
                ) && job@.payload == s.subrange(5, 5 + n) && len == 5 + n)
            }),
    {
        proof {
            lemma_job_frame_read(self.buffered());
        }
        let bytes = bytes_mut_as_slice(&self.read_buff);
        let mut buf = ByteCursor::new(bytes);
        proof {
            assert(buf.remaining() =~= self.buffered());
        }
        match Message::parse(&mut buf) {
            Ok(message) => Ok(Some((message, buf.position()))),
            Err(Error::Incomplete) => Ok(None),
            Err(e) => Err(e),
        }
    }

    /// Drops the first `cnt` bytes of the buffer, such as a frame that
    /// `try_parse` has read; the bytes after them stay for the next message.
    pub fn advance(&mut self, cnt: usize)
        requires
            cnt <= old(self).buffered().len(),
        ensures
            final(self).buffered() == old(self).buffered().skip(cnt as int),
    {
        bytes_mut_advance(&mut self.read_buff, cnt);
    }
}

/// The bytes of a run of frames, one after the other.
pub open spec fn encode_frames(fs: Seq<Frame>) -> Seq<u8>
    decreases fs.len(),
{
    if fs.len() == 0 {
        Seq::empty()
    } else {
        encode_frame(fs[0]) + encode_frames(fs.drop_first())
    }
}

/// Frames that arrive one after the other are read in the order they were
/// sent: the first read gives the first frame and leaves exactly the
/// encodings of the others, followed by whatever came after them.
pub proof fn lemma_frames_read_in_order(fs: Seq<Frame>, rest: Seq<u8>)
    requires
        fs.len() > 0,
        forall|i: int| 0 <= i < fs.len() ==> frame_encodable(#[trigger] fs[i]),
    ensures
        parse_frame(encode_frames(fs) + rest) == ParseOutcome::Complete(
            fs[0],
            encode_frame(fs[0]).len(),
        ),
        (encode_frames(fs) + rest).skip(encode_frame(fs[0]).len() as int) == encode_frames(
            fs.drop_first(),
        ) + rest,
{
    let tail = encode_frames(fs.drop_first()) + rest;
    assert(encode_frames(fs) + rest =~= encode_frame(fs[0]) + tail);
    lemma_encode_parse_roundtrip(fs[0], tail);
}

} // verus!
