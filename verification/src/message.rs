//! Messages exchanged between client and server and their wire format.
//!
//! Every frame starts with one kind byte. A job submission then carries a
//! four-byte big-endian payload length and the payload itself:
//! `[message-kind:1byte][payload-len:4bytes][payload:Nbytes]`.
use bytes::Buf;
use vstd::prelude::*;

verus! {

/// The bytes of a `u32` in big-endian order.
pub open spec fn u32_to_be(x: u32) -> Seq<u8> {
    seq![
        (x / 0x100_0000) as u8,
        ((x / 0x1_0000) % 0x100) as u8,
        ((x / 0x100) % 0x100) as u8,
        (x % 0x100) as u8,
    ]
}

/// The number that four bytes spell in big-endian order.
pub open spec fn u32_from_be(b: Seq<u8>) -> int {
    b[0] * 0x100_0000int + b[1] * 0x1_0000int + b[2] * 0x100int + b[3] as int
}

/// Reading back the big-endian bytes of a number gives the number.
pub proof fn lemma_u32_be_roundtrip(x: u32)
    ensures
        u32_to_be(x).len() == 4,
        u32_from_be(u32_to_be(x)) == x as int,
{
    let xi = x as int;
    assert(xi / 0x100_0000 * 0x100_0000int + (xi / 0x1_0000) % 0x100 * 0x1_0000int + (xi / 0x100)
        % 0x100 * 0x100int + xi % 0x100 == xi) by (nonlinear_arith)
        requires
            0 <= xi < 0x1_0000_0000,
    ;
}

/// What a job asks the workers to do.
#[derive(Debug, Clone, Copy, PartialEq, Eq, Structural)]
pub enum SubmitJobKind {
    Hashing,
}

/// The abstract content of a job: its identifier, its kind and its payload.
pub struct JobView {
    pub id: u128,
    pub kind: SubmitJobKind,
    pub payload: Seq<u8>,
}

/// A job submitted by a client. The job owns its payload.
#[derive(Debug)]
pub struct SubmitJob {
    id: u128,
    kind: SubmitJobKind,
    payload: Vec<u8>,
}

impl View for SubmitJob {
    type V = JobView;

    closed spec fn view(&self) -> JobView {
        JobView { id: self.id, kind: self.kind, payload: self.payload@ }
    }
}

/// An identifier laid out as a random (version 4, RFC 4122 variant) UUID,
/// read as a big-endian 128-bit number.
pub open spec fn is_random_uuid(id: u128) -> bool {
    &&& (id >> 76u128) & 0xfu128 == 4
    &&& (id >> 62u128) & 0x3u128 == 2
}

/// Calls `uuid::Uuid::new_v4` and returns the identifier as a number
/// (`Uuid::as_u128`, big-endian). The contract states only the version and
/// variant bits that `new_v4` sets; the other 122 bits come from the
/// operating system's random source and nothing is said of them.
#[verifier::external_body]
fn random_job_id() -> (id: u128)
    ensures
        is_random_uuid(id),
{
    uuid::Uuid::new_v4().as_u128()
}

impl SubmitJob {
    /// A new job of the given kind that owns `payload`, under a fresh random identifier.
    pub fn new(kind: SubmitJobKind, payload: Vec<u8>) -> (job: SubmitJob)
        ensures
            job@.kind == kind,
            job@.payload == payload@,
            is_random_uuid(job@.id),
    {
        SubmitJob { id: random_job_id(), kind, payload }
    }

    /// The job's identifier.
    pub fn id(&self) -> (id: u128)
        ensures
            id == self@.id,
    {
        self.id
    }

    /// The job's kind.
    pub fn kind(&self) -> (kind: SubmitJobKind)
        ensures
            kind == self@.kind,
    {
        self.kind
    }

    /// The job's payload.
    pub fn payload(&self) -> (payload: &Vec<u8>)
        ensures
            payload@ == self@.payload,
    {
        &self.payload
    }
}

/// A message of the protocol.
#[derive(Debug)]
pub enum Message {
    Ping,
    Pong,
    SubmitJob(SubmitJob),
}

/// What a message puts on the wire: its kind and, for a job, the payload.
pub enum Frame {
    Ping,
    Pong,
    SubmitJob(Seq<u8>),
}

/// The kind of a message, as its first byte announces it.
#[derive(Debug, Clone, Copy, PartialEq, Eq, Structural)]
pub enum MessageKind {
    Ping,
    Pong,
    SubmitJob,
}

impl Message {
    /// The frame that stands for this message on the wire.
    pub open spec fn frame(&self) -> Frame {
        match self {
            Message::Ping => Frame::Ping,
            Message::Pong => Frame::Pong,
            Message::SubmitJob(job) => Frame::SubmitJob(job@.payload),
        }
    }

    /// What holds of every message read from the wire: a job has a random
    /// identifier and the kind `Hashing`.
    pub open spec fn as_received(&self) -> bool {
        match self {
            Message::SubmitJob(job) => is_random_uuid(job@.id) && job@.kind == SubmitJobKind::Hashing,
            _ => true,
        }
    }
}

/// The kind byte of each frame.
pub open spec fn kind_byte(k: MessageKind) -> u8 {
    match k {
        MessageKind::Ping => 0,
        MessageKind::Pong => 1,
        MessageKind::SubmitJob => 2,
    }
}

/// The kind of each frame.
pub open spec fn frame_kind(f: Frame) -> MessageKind {
    match f {
        Frame::Ping => MessageKind::Ping,
        Frame::Pong => MessageKind::Pong,
        Frame::SubmitJob(_) => MessageKind::SubmitJob,
    }
}

/// A frame fits the format when its payload length fits the four-byte length field.
pub open spec fn frame_encodable(f: Frame) -> bool {
    match f {
        Frame::SubmitJob(p) => p.len() <= u32::MAX,
        _ => true,
    }
}

/// The bytes of a frame.
pub open spec fn encode_frame(f: Frame) -> Seq<u8> {
    match f {
        Frame::Ping => seq![0u8],
        Frame::Pong => seq![1u8],
        Frame::SubmitJob(p) => seq![2u8] + u32_to_be(p.len() as u32) + p,
    }
}

/// What reading one frame from the front of some bytes gives.
pub enum ParseOutcome {
    /// A whole frame, and the number of bytes it took.
    Complete(Frame, nat),
    /// The bytes begin a frame that has not fully arrived.
    Incomplete,
    /// The first byte names no kind of message.
    UnknownKind(u8),
}

/// The frame at the front of `s`, if it has fully arrived.
pub open spec fn parse_frame(s: Seq<u8>) -> ParseOutcome {
    if s.len() == 0 {
        ParseOutcome::Incomplete
    } else if s[0] == 0 {
        ParseOutcome::Complete(Frame::Ping, 1)
    } else if s[0] == 1 {
        ParseOutcome::Complete(Frame::Pong, 1)
    } else if s[0] == 2 {
        if s.len() < 5 {
            ParseOutcome::Incomplete
        } else {
            let n = u32_from_be(s.subrange(1, 5));
            if s.len() < 5 + n {
                ParseOutcome::Incomplete
            } else {
                ParseOutcome::Complete(Frame::SubmitJob(s.subrange(5, 5 + n)), (5 + n) as nat)
            }
        }
    } else {
        ParseOutcome::UnknownKind(s[0])
    }
}

/// How many bytes the reader takes from the front of `s` while reading one
/// frame: the whole frame when it is complete, else the kind byte and, for a
/// job whose length field has arrived, the length field.
pub open spec fn bytes_read(s: Seq<u8>) -> nat {
    if s.len() == 0 {
        0
    } else if s[0] == 2 {
        if s.len() < 5 {
            1
        } else if s.len() < 5 + u32_from_be(s.subrange(1, 5)) {
            5
        } else {
            (5 + u32_from_be(s.subrange(1, 5))) as nat
        }
    } else {
        1
    }
}

/// Errors of reading a frame.
#[derive(Debug)]
pub enum Error {
    /// Not enough data is available to parse a message
    Incomplete,
    /// Invalid message encoding
    Other(String),
}

/// The text of the error for a kind byte that names no message.
pub open spec fn unknown_kind_text() -> Seq<char> {
    "unknown message kind"@
}

/// A read position in a borrowed byte slice.
pub struct ByteCursor<'a> {
    bytes: &'a [u8],
    pos: usize,
}

impl<'a> ByteCursor<'a> {
    #[verifier::type_invariant]
    spec fn inv(&self) -> bool {
        self.pos <= self.bytes@.len()
    }

    /// All the bytes the cursor reads from.
    pub closed spec fn buffer(&self) -> Seq<u8> {
        self.bytes@
    }

    /// How many bytes have been read.
    pub closed spec fn offset(&self) -> int {
        self.pos as int
    }

    /// The bytes not read yet.
    pub open spec fn remaining(&self) -> Seq<u8> {
        self.buffer().skip(self.offset())
    }

    /// A cursor at the start of `bytes`.
    pub fn new(bytes: &'a [u8]) -> (c: Self)
        ensures
            c.buffer() == bytes@,
            c.offset() == 0,
    {
        ByteCursor { bytes, pos: 0 }
    }

    /// How many bytes have been read.
    pub fn position(&self) -> (p: usize)
        ensures
            p == self.offset(),
    {
        self.pos
    }

    /// Whether bytes are left to read.
    pub fn has_remaining(&self) -> (b: bool)
        ensures
            b == (self.remaining().len() > 0),
    {
        proof {
            use_type_invariant(self);
        }
        self.pos < self.bytes.len()
    }
}

/// Calls `bytes::Buf::get_u8` on a byte slice, which returns the slice's
/// first byte (it panics on an empty slice, which `requires` rules out).
#[verifier::external_body]
fn buf_get_u8(src: &[u8]) -> (b: u8)
    requires
        src@.len() >= 1,
    ensures
        b == src@[0],
{
    let mut rest = src;
    rest.get_u8()
}

/// Calls `bytes::Buf::get_u32` on a byte slice, which reads the first four
/// bytes as a big-endian number (it panics on fewer than four bytes, which
/// `requires` rules out).
#[verifier::external_body]
fn buf_get_u32(src: &[u8]) -> (x: u32)
    requires
        src@.len() >= 4,
    ensures
        x as int == u32_from_be(src@),
{
    let mut rest = src;
    rest.get_u32()
}

/// What `get_u8` gives on a cursor over `buffer` at `offset`, and the offset
/// after it.
pub open spec fn get_u8_step(buffer: Seq<u8>, offset: int) -> (Result<u8, Error>, int) {
    if offset >= buffer.len() {
        (Err(Error::Incomplete), offset)
    } else {
        (Ok(buffer[offset]), offset + 1)
    }
}

/// The offset of a cursor over `buffer` after `k` calls of `get_u8` from the start.
pub open spec fn offset_after_u8_reads(buffer: Seq<u8>, k: nat) -> int
    decreases k,
{
    if k == 0 {
        0
    } else {
        get_u8_step(buffer, offset_after_u8_reads(buffer, (k - 1) as nat)).1
    }
}

/// Reading a fresh cursor byte by byte gives its bytes in order, then
/// `Incomplete` (which leaves the cursor at the end) for every further call.
pub proof fn lemma_get_u8_reads_in_order(buffer: Seq<u8>, k: nat)
    ensures
        k <= buffer.len() ==> offset_after_u8_reads(buffer, k) == k,
        k > buffer.len() ==> offset_after_u8_reads(buffer, k) == buffer.len(),
        k < buffer.len() ==> get_u8_step(buffer, offset_after_u8_reads(buffer, k)) == (
        Ok::<u8, Error>(buffer[k as int]),
        k + 1int,
        ),
        k >= buffer.len() ==> get_u8_step(buffer, offset_after_u8_reads(buffer, k)) == (
        Err::<u8, Error>(Error::Incomplete),
        buffer.len() as int,
        ),
    decreases k,
{
    if k > 0 {
        lemma_get_u8_reads_in_order(buffer, (k - 1) as nat);
    }
}

/// Consumes exactly 1 byte from the cursor and returns it as u8.
pub fn get_u8(src: &mut ByteCursor) -> (r: Result<u8, Error>)
    ensures
        (r, final(src).offset()) == get_u8_step(old(src).buffer(), old(src).offset()),
        final(src).buffer() == old(src).buffer(),
        old(src).remaining().len() == 0 ==> r == Err::<u8, Error>(Error::Incomplete)
            && final(src).offset() == old(src).offset(),
        old(src).remaining().len() >= 1 ==> r == Ok::<u8, Error>(old(src).remaining()[0])
            && final(src).offset() == old(src).offset() + 1,
{
    proof {
        use_type_invariant(&*src);
    }
    if src.pos >= src.bytes.len() {
        return Err(Error::Incomplete);
    }
    let b = buf_get_u8(&src.bytes[src.pos..src.bytes.len()]);
    src.pos = src.pos + 1;
    Ok(b)
}

/// Consumes exactly 4 bytes from the cursor and returns them as a big-endian u32.
/// When fewer than 4 bytes are left, nothing is consumed and the answer is
/// `Incomplete`.
pub fn get_u32(src: &mut ByteCursor) -> (r: Result<u32, Error>)
    ensures
        final(src).buffer() == old(src).buffer(),
        old(src).remaining().len() < 4 ==> r == Err::<u32, Error>(Error::Incomplete)
            && final(src).offset() == old(src).offset(),
        old(src).remaining().len() >= 4 ==> (r matches Ok(x) && x as int == u32_from_be(
            old(src).remaining().take(4),
        )) && final(src).offset() == old(src).offset() + 4,
{
    proof {
        use_type_invariant(&*src);
    }
    if src.bytes.len() - src.pos < 4 {
        return Err(Error::Incomplete);
    }
    let x = buf_get_u32(&src.bytes[src.pos..src.pos + 4]);
    src.pos = src.pos + 4;
    Ok(x)
}

/// Consumes exactly `len` bytes from the cursor and returns a copy of them.
/// When fewer than `len` bytes are left, nothing is consumed and the answer
/// is `Incomplete`.
fn get_bytes(src: &mut ByteCursor, len: u32) -> (r: Result<Vec<u8>, Error>)
    ensures
        final(src).buffer() == old(src).buffer(),
        old(src).remaining().len() < len ==> r == Err::<Vec<u8>, Error>(Error::Incomplete)
            && final(src).offset() == old(src).offset(),
        old(src).remaining().len() >= len ==> (r matches Ok(v) && v@ == old(src).remaining().take(
            len as int,
        )) && final(src).offset() == old(src).offset() + len,
{
    proof {
        use_type_invariant(&*src);
    }
    let n = len as usize;
    if src.bytes.len() - src.pos < n {
        return Err(Error::Incomplete);
    }
    let start = src.pos;
    let total = src.bytes.len();
    let mut out: Vec<u8> = Vec::with_capacity(n);
    let mut i: usize = 0;
    while i < n
        invariant
            total == src.bytes@.len(),
            start + n <= total,
            i <= n,
            out@ == src.bytes@.subrange(start as int, start + i),
        decreases n - i,
    {
        out.push(src.bytes[start + i]);
        i = i + 1;
        proof {
            assert(out@ =~= src.bytes@.subrange(start as int, start + i));
        }
    }
    src.pos = start + n;
    proof {
        assert(out@ =~= old(src).remaining().take(len as int));
    }
    Ok(out)
}

impl Message {
    /// The kind byte of this message.
    pub fn encode_msg_kind(&self) -> (r: [u8; 1])
        ensures
            r@ == seq![kind_byte(frame_kind(self.frame()))],
    {
        let descriptor: u8 = match self {
            Message::Ping => 0x0,
            Message::Pong => 0x1,
            Message::SubmitJob(_) => 0x02,
        };
        let r = [descriptor];
        proof {
            assert(r@ =~= seq![descriptor]);
        }
        r
    }

    /// The kind that a kind byte names, or an error for a byte that names none.
    pub fn decode_msg_kind(descriptor: u8) -> (r: Result<MessageKind, Error>)
        ensures
            descriptor <= 2 ==> (r matches Ok(k) && kind_byte(k) == descriptor),
            descriptor > 2 ==> (r matches Err(Error::Other(msg)) && msg@ == unknown_kind_text()),
    {
        match descriptor {
            0x0 => Ok(MessageKind::Ping),
            0x1 => Ok(MessageKind::Pong),
            0x2 => Ok(MessageKind::SubmitJob),
            _ => Err(Error::Other("unknown message kind".to_owned())),
        }
    }
}

/// The four big-endian bytes of `x`.
fn u32_be_bytes(x: u32) -> (r: [u8; 4])
    ensures
        r@ == u32_to_be(x),
{
    let r = [
        (x / 0x100_0000) as u8,
        ((x / 0x1_0000) % 0x100) as u8,
        ((x / 0x100) % 0x100) as u8,
        (x % 0x100) as u8,
    ];
    proof {
        assert(r@ =~= u32_to_be(x));
    }
    r
}

impl Message {
    /// Whether the message fits the wire format (a job's payload length fits
    /// the four-byte length field).
    pub open spec fn encodable(&self) -> bool {
        frame_encodable(self.frame())
    }

    /// Whether the message fits the wire format.
    pub fn is_encodable(&self) -> (b: bool)
        ensures
            b == self.encodable(),
    {
        match self {
            Message::SubmitJob(job) => job.payload.len() <= 0xffff_ffff,
            _ => true,
        }
    }

    /// Length-prefixed encoding.
    /// [message-kind:1byte][payload-len:4bytes][payload:Nbytes]
    pub fn encode(&self) -> (bytes: Vec<u8>)
        requires
            self.encodable(),
        ensures
            bytes@ == encode_frame(self.frame()),
            self is Ping ==> bytes@ == seq![0u8],
            self is Pong ==> bytes@ == seq![1u8],
            self matches Message::SubmitJob(job) ==> ({
                let p = job@.payload;
                &&& bytes@.len() == 5 + p.len()
                &&& bytes@[0] == 2
                &&& bytes@[1] * 0x100_0000int + bytes@[2] * 0x1_0000int + bytes@[3] * 0x100int
                    + bytes@[4] == p.len()
                &&& bytes@.skip(5) == p
            }),
    {
        let msg_kind = self.encode_msg_kind();
        let mut out: Vec<u8> = Vec::new();
        out.push(msg_kind[0]);
        match self {
            Message::Ping => {
                proof {
                    assert(out@ =~= encode_frame(self.frame()));
                }
                out
            },
            Message::Pong => {
                proof {
                    assert(out@ =~= encode_frame(self.frame()));
                }
                out
            },
            Message::SubmitJob(submit_job) => {
                let payload = submit_job.payload.as_slice();
                let payload_len = payload.len() as u32;
                let payload_len_bytes = u32_be_bytes(payload_len);
                out.push(payload_len_bytes[0]);
                out.push(payload_len_bytes[1]);
                out.push(payload_len_bytes[2]);
                out.push(payload_len_bytes[3]);
                let ghost head = out@;
                out.extend_from_slice(payload);
                proof {
                    assert(head =~= seq![2u8] + u32_to_be(payload_len));
                    assert(out@ =~= head + payload@);
                    assert(out@ =~= encode_frame(self.frame()));
                    lemma_job_frame_layout(payload@);
                    assert(out@.skip(5) =~= payload@);
                }
                out
            },
        }
    }
}

impl Message {
    /// Reads one message from the cursor.
    ///
    /// A whole frame gives the message it encodes (a job gets a fresh random
    /// identifier and the kind `Hashing`); bytes that begin a frame that has
    /// not fully arrived give `Incomplete`; a kind byte that names no message
    /// gives `Other`. The cursor advances past what was read: the whole frame
    /// on success, else the kind byte and, for a job whose length field had
    /// arrived, the length field.
    pub fn parse(src: &mut ByteCursor) -> (r: Result<Message, Error>)
        ensures
            final(src).buffer() == old(src).buffer(),
            final(src).offset() == old(src).offset() + bytes_read(old(src).remaining()),
            match parse_frame(old(src).remaining()) {
                ParseOutcome::Complete(f, _) => r matches Ok(m) && m.frame() == f
                    && m.as_received(),
                ParseOutcome::Incomplete => r == Err::<Message, Error>(Error::Incomplete),
                ParseOutcome::UnknownKind(_) => r matches Err(Error::Other(msg)) && msg@
                    == unknown_kind_text(),
            },
            ({
                let s = old(src).remaining();
                let n = s[1] * 0x100_0000int + s[2] * 0x1_0000int + s[3] * 0x100int + s[4] as int;
                s.len() >= 5 && s[0] == 2 && s.len() >= 5 + n ==> (r matches Ok(
                    Message::SubmitJob(job),
                ) && job@.payload == s.subrange(5, 5 + n)) && final(src).offset() == old(
                    src,
                ).offset() + 5 + n
            }),
    {
        proof {
            use_type_invariant(&*src);
            lemma_job_frame_read(old(src).remaining());
        }
        let ghost s = old(src).remaining();
        let descriptor = match get_u8(src) {
            Ok(b) => b,
            Err(e) => return Err(e),
        };
        let msg_kind = match Message::decode_msg_kind(descriptor) {
            Ok(k) => k,
            Err(e) => return Err(e),
        };
        match msg_kind {
            MessageKind::Ping => Ok(Message::Ping),
            MessageKind::Pong => Ok(Message::Pong),
            MessageKind::SubmitJob => {
                let ghost s1 = src.remaining();
                proof {
                    use_type_invariant(&*src);
                    assert(s1 =~= s.skip(1));
                }
                let payload_len = match get_u32(src) {
                    Ok(n) => n,
                    Err(e) => return Err(e),
                };
                proof {
                    assert(s1.take(4) =~= s.subrange(1, 5));
                }
                let ghost s2 = src.remaining();
                proof {
                    use_type_invariant(&*src);
                    assert(s2 =~= s.skip(5));
                }
                let payload = match get_bytes(src, payload_len) {
                    Ok(p) => p,
                    Err(e) => return Err(e),
                };
                proof {
                    assert(payload@ =~= s.subrange(5, 5 + payload_len));
                }
                Ok(Message::SubmitJob(SubmitJob::new(SubmitJobKind::Hashing, payload)))
            },
        }
    }
}

/// The bytes of a job frame: the kind byte 2, the payload length as four
/// big-endian bytes, then the payload itself, unchanged and in order.
pub proof fn lemma_job_frame_layout(p: Seq<u8>)
    requires
        p.len() <= u32::MAX,
    ensures
        encode_frame(Frame::SubmitJob(p)).len() == 5 + p.len(),
        encode_frame(Frame::SubmitJob(p))[0] == 2,
        encode_frame(Frame::SubmitJob(p))[1] * 0x100_0000int + encode_frame(Frame::SubmitJob(p))[2]
            * 0x1_0000int + encode_frame(Frame::SubmitJob(p))[3] * 0x100int + encode_frame(
            Frame::SubmitJob(p),
        )[4] == p.len(),
        forall|i: int| 0 <= i < p.len() ==> #[trigger] encode_frame(Frame::SubmitJob(p))[5 + i] == p[i],
{
    lemma_u32_be_roundtrip(p.len() as u32);
    let e = encode_frame(Frame::SubmitJob(p));
    let b = u32_to_be(p.len() as u32);
    assert(e[1] == b[0] && e[2] == b[1] && e[3] == b[2] && e[4] == b[3]);
}

/// Pings and pongs are single bytes: 0 and 1.
pub proof fn lemma_single_byte_frames()
    ensures
        encode_frame(Frame::Ping) == seq![0u8],
        encode_frame(Frame::Pong) == seq![1u8],
{
}

/// Bytes that start with the kind byte 2, a big-endian length `n` and at
/// least `n` more bytes hold a whole job: its payload is bytes `5..5 + n`
/// and its frame takes `5 + n` bytes. With fewer bytes the job is still
/// arriving.
pub proof fn lemma_job_frame_read(s: Seq<u8>)
    ensures
        ({
            let n = s[1] * 0x100_0000int + s[2] * 0x1_0000int + s[3] * 0x100int + s[4] as int;
            s.len() >= 5 && s[0] == 2 && s.len() >= 5 + n ==> parse_frame(s)
                == ParseOutcome::Complete(Frame::SubmitJob(s.subrange(5, 5 + n)), (5 + n) as nat)
                && bytes_read(s) == 5 + n
        }),
        ({
            let n = s[1] * 0x100_0000int + s[2] * 0x1_0000int + s[3] * 0x100int + s[4] as int;
            s.len() >= 1 && s[0] == 2 && (s.len() < 5 || s.len() < 5 + n) ==> parse_frame(s)
                == ParseOutcome::Incomplete
        }),
{
    if s.len() >= 5 {
        let b = s.subrange(1, 5);
        assert(b[0] == s[1] && b[1] == s[2] && b[2] == s[3] && b[3] == s[4]);
    }
}

/// The single-byte kinds read at once: 0 is a ping and 1 a pong, each one
/// byte long; any byte above 2 names no message; nothing at all is still
/// arriving.
pub proof fn lemma_single_byte_frames_read(s: Seq<u8>)
    ensures
        s.len() == 0 ==> parse_frame(s) == ParseOutcome::Incomplete,
        s.len() >= 1 && s[0] == 0 ==> parse_frame(s) == ParseOutcome::Complete(Frame::Ping, 1),
        s.len() >= 1 && s[0] == 1 ==> parse_frame(s) == ParseOutcome::Complete(Frame::Pong, 1),
        s.len() >= 1 && s[0] > 2 ==> parse_frame(s) == ParseOutcome::UnknownKind(s[0]),
{
}

/// Writing four big-endian bytes back from the number they spell gives the same bytes.
pub proof fn lemma_u32_be_bytes_roundtrip(b: Seq<u8>)
    requires
        b.len() == 4,
    ensures
        0 <= u32_from_be(b) <= u32::MAX,
        u32_to_be(u32_from_be(b) as u32) == b,
{
    let (b0, b1, b2, b3) = (b[0] as int, b[1] as int, b[2] as int, b[3] as int);
    let x = u32_from_be(b);
    assert(x == b0 * 0x100_0000 + b1 * 0x1_0000 + b2 * 0x100 + b3);
    assert(0 <= x <= u32::MAX) by (nonlinear_arith)
        requires
            x == b0 * 0x100_0000 + b1 * 0x1_0000 + b2 * 0x100 + b3,
            0 <= b0 < 256,
            0 <= b1 < 256,
            0 <= b2 < 256,
            0 <= b3 < 256,
    ;
    assert(x / 0x100_0000 == b0 && (x / 0x1_0000) % 0x100 == b1 && (x / 0x100) % 0x100 == b2 && x
        % 0x100 == b3) by (nonlinear_arith)
        requires
            x == b0 * 0x100_0000 + b1 * 0x1_0000 + b2 * 0x100 + b3,
            0 <= b0 < 256,
            0 <= b1 < 256,
            0 <= b2 < 256,
            0 <= b3 < 256,
    ;
    assert(u32_to_be(x as u32) =~= b);
}

/// Reading a frame back from its encoding, followed by any bytes, gives the
/// frame and takes exactly its encoding; the bytes after it are left for the
/// next read.
pub proof fn lemma_encode_parse_roundtrip(f: Frame, rest: Seq<u8>)
    requires
        frame_encodable(f),
    ensures
        parse_frame(encode_frame(f) + rest) == ParseOutcome::Complete(f, encode_frame(f).len()),
        bytes_read(encode_frame(f) + rest) == encode_frame(f).len(),
        (encode_frame(f) + rest).skip(encode_frame(f).len() as int) == rest,
{
    let s = encode_frame(f) + rest;
    assert(s.skip(encode_frame(f).len() as int) =~= rest);
    match f {
        Frame::SubmitJob(p) => {
            lemma_u32_be_roundtrip(p.len() as u32);
            assert(s.subrange(1, 5) =~= u32_to_be(p.len() as u32));
            assert(s.subrange(5, 5 + p.len() as int) =~= p);
        },
        _ => {},
    }
}

/// Every proper prefix of a frame's encoding reads as `Incomplete`: a reader
/// never mistakes a frame that is still arriving for another message.
pub proof fn lemma_prefix_incomplete(f: Frame, k: int)
    requires
        frame_encodable(f),
        0 <= k < encode_frame(f).len(),
    ensures
        parse_frame(encode_frame(f).take(k)) == ParseOutcome::Incomplete,
{
    let e = encode_frame(f);
    let s = e.take(k);
    match f {
        Frame::SubmitJob(p) => {
            lemma_u32_be_roundtrip(p.len() as u32);
            if k >= 5 {
                assert(s.subrange(1, 5) =~= u32_to_be(p.len() as u32));
            }
        },
        _ => {},
    }
}

/// A complete frame reads the same whatever follows it.
pub proof fn lemma_parse_no_lookahead(s: Seq<u8>, t: Seq<u8>)
    ensures
        parse_frame(s) is Complete ==> parse_frame(s + t) == parse_frame(s),
{
    if parse_frame(s) is Complete && s[0] == 2 {
        assert((s + t).subrange(1, 5) =~= s.subrange(1, 5));
        let n = u32_from_be(s.subrange(1, 5));
        assert((s + t).subrange(5, 5 + n) =~= s.subrange(5, 5 + n));
    }
}

/// A frame that was read fits the format, and encoding it gives back exactly
/// the bytes that were read: each message has one encoding.
pub proof fn lemma_parse_encode_roundtrip(s: Seq<u8>)
    ensures
        parse_frame(s) matches ParseOutcome::Complete(f, n) ==> frame_encodable(f) && n <= s.len()
            && encode_frame(f) == s.take(n as int),
{
    if parse_frame(s) is Complete {
        if s[0] == 2 {
            let b = s.subrange(1, 5);
            lemma_u32_be_bytes_roundtrip(b);
            let n = u32_from_be(b);
            assert(encode_frame(Frame::SubmitJob(s.subrange(5, 5 + n))) =~= s.take(5 + n));
        } else {
            assert(s.take(1) =~= seq![s[0]]);
        }
    }
}

} // verus!
