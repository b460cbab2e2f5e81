use vstd::prelude::*;

verus! {

/// Protocol version carried in the first header byte.
pub const VERSION: u8 = 1;
pub const AUTH: u8 = 1;
pub const AUTH_SUCCESS: u8 = 2;
pub const AUTH_FAILURE: u8 = 3;
pub const SCREEN_INFO: u8 = 4;
pub const FRAME: u8 = 5;
pub const PING: u8 = 6;
pub const PONG: u8 = 7;
pub const BUSY: u8 = 8;
pub const DISCONNECT: u8 = 9;
pub const SNAPSHOT_LIST: u8 = 10;
pub const SNAPSHOT_LIST_REPLY: u8 = 11;
pub const SNAPSHOT_GET: u8 = 12;
pub const SNAPSHOT_FRAME: u8 = 13;
pub const SNAPSHOT_ERROR: u8 = 14;
/// Local IPC only: never accepted from or sent to LAN viewers.
pub const AGENT_START: u8 = 100;
pub const AGENT_STOP: u8 = 101;
pub const AGENT_SNAPSHOT: u8 = 102;
/// Largest payload a message may carry (16 MiB).
pub const MAX_PAYLOAD: usize = 16777216;
/// Version byte, kind byte and a big-endian `u32` payload length.
pub const HEADER_LEN: usize = 6;

/// The four big-endian bytes of `x`.
pub open spec fn be32(x: u32) -> Seq<u8> {
    seq![
        (x / 0x100_0000) as u8,
        ((x / 0x1_0000) % 0x100) as u8,
        ((x / 0x100) % 0x100) as u8,
        (x % 0x100) as u8,
    ]
}

/// The eight big-endian bytes of `x`.
pub open spec fn be64(x: u64) -> Seq<u8> {
    be32((x / 0x1_0000_0000) as u32) + be32((x % 0x1_0000_0000) as u32)
}

/// The number that four bytes spell in big-endian order.
pub open spec fn be32_value(b: Seq<u8>) -> int {
    b[0] * 0x100_0000 + b[1] * 0x1_0000 + b[2] * 0x100 + b[3]
}

/// The number that eight bytes spell in big-endian order.
pub open spec fn be64_value(b: Seq<u8>) -> int {
    be32_value(b.subrange(0, 4)) * 0x1_0000_0000 + be32_value(b.subrange(4, 8))
}

pub proof fn lemma_be32_value(x: u32)
    ensures
        be32(x).len() == 4,
        be32_value(be32(x)) == x,
{
    let b0 = x / 0x100_0000;
    let b1 = (x / 0x1_0000) % 0x100;
    let b2 = (x / 0x100) % 0x100;
    let b3 = x % 0x100;
    assert(b0 * 0x100_0000 + b1 * 0x1_0000 + b2 * 0x100 + b3 == x) by (bit_vector)
        requires
            b0 == x / 0x100_0000,
            b1 == (x / 0x1_0000) % 0x100,
            b2 == (x / 0x100) % 0x100,
            b3 == x % 0x100,
    ;
}

pub proof fn lemma_be64_value(x: u64)
    ensures
        be64(x).len() == 8,
        be64_value(be64(x)) == x,
{
    let hi = (x / 0x1_0000_0000) as u32;
    let lo = (x % 0x1_0000_0000) as u32;
    lemma_be32_value(hi);
    lemma_be32_value(lo);
    assert(be64(x).subrange(0, 4) =~= be32(hi));
    assert(be64(x).subrange(4, 8) =~= be32(lo));
    assert(hi * 0x1_0000_0000 + lo == x) by (nonlinear_arith)
        requires
            hi == x / 0x1_0000_0000,
            lo == x % 0x1_0000_0000,
    ;
}

/// Big-endian bytes of a `u32`.
pub fn u32_to_be(x: u32) -> (r: [u8; 4])
    ensures
        r@ == be32(x),
{
    let r = [(x / 0x100_0000) as u8, ((x / 0x1_0000) % 0x100) as u8, ((x / 0x100) % 0x100) as u8, (x % 0x100) as u8];
    assert(r@ =~= be32(x));
    r
}

/// The `u32` that four big-endian bytes spell.
pub fn u32_from_be(b: &[u8]) -> (r: u32)
    requires
        b@.len() == 4,
    ensures
        r == be32_value(b@),
{
    (b[0] as u32) * 0x100_0000 + (b[1] as u32) * 0x1_0000 + (b[2] as u32) * 0x100 + (b[3] as u32)
}


/// Big-endian bytes of a `u64`.
pub fn u64_to_be(x: u64) -> (r: [u8; 8])
    ensures
        r@ == be64(x),
{
    let hi = u32_to_be((x / 0x1_0000_0000) as u32);
    let lo = u32_to_be((x % 0x1_0000_0000) as u32);
    let r = [hi[0], hi[1], hi[2], hi[3], lo[0], lo[1], lo[2], lo[3]];
    assert(r@ =~= be64(x));
    r
}

/// The `u64` that eight big-endian bytes spell.
pub fn u64_from_be(b: &[u8]) -> (r: u64)
    requires
        b@.len() == 8,
    ensures
        r == be64_value(b@),
{
    let hi = u32_from_be(&b[0..4]);
    let lo = u32_from_be(&b[4..8]);
    (hi as u64) * 0x1_0000_0000 + (lo as u64)
}

/// Appends every byte of `bytes` to `out`.
pub fn append_bytes(out: &mut Vec<u8>, bytes: &[u8])
    ensures
        final(out)@ == old(out)@ + bytes@,
{
    let ghost start = out@;
    let mut i: usize = 0;
    while i < bytes.len()
        invariant
            i <= bytes@.len(),
            out@ == start + bytes@.subrange(0, i as int),
        decreases bytes@.len() - i,
    {
        out.push(bytes[i]);
        i = i + 1;
        assert(out@ =~= start + bytes@.subrange(0, i as int));
    }
    assert(bytes@.subrange(0, i as int) =~= bytes@);
}

/// Errors of the message framing.
#[derive(Clone, Copy, Debug, PartialEq, Eq, Structural)]
pub enum ProtocolError {
    /// A payload longer than `MAX_PAYLOAD` was handed to the writer.
    PayloadTooLarge,
    /// The input ended before the header or the payload was complete.
    UnexpectedEof,
    /// The header carries a version other than `VERSION`.
    UnsupportedVersion,
    /// The announced payload length exceeds the caller's limit or `MAX_PAYLOAD`.
    PayloadLimitExceeded,
}

impl ProtocolError {
    /// A short description of the error.
    pub fn message(&self) -> (r: &'static str)
        ensures
            *self == ProtocolError::PayloadTooLarge ==> r@ == "payload too large"@,
            *self == ProtocolError::UnexpectedEof ==> r@ == "unexpected end of input"@,
            *self == ProtocolError::UnsupportedVersion ==> r@ == "unsupported protocol version"@,
            *self == ProtocolError::PayloadLimitExceeded ==> r@ == "payload limit exceeded"@,
    {
        match self {
            ProtocolError::PayloadTooLarge => "payload too large",
            ProtocolError::UnexpectedEof => "unexpected end of input",
            ProtocolError::UnsupportedVersion => "unsupported protocol version",
            ProtocolError::PayloadLimitExceeded => "payload limit exceeded",
        }
    }
}

/// The bytes of one message: version, kind, big-endian payload length, payload.
pub open spec fn encode_message(kind: u8, payload: Seq<u8>) -> Seq<u8> {
    seq![VERSION, kind] + be32(payload.len() as u32) + payload
}

/// What a header of `HEADER_LEN` bytes announces: the message kind and the
/// payload length, or why the message is refused under `limit`.
pub open spec fn header_outcome(header: Seq<u8>, limit: int) -> Result<(u8, int), ProtocolError> {
    let len = be32_value(header.subrange(2, 6));
    if header[0] != VERSION {
        Err(ProtocolError::UnsupportedVersion)
    } else if len > limit || len > MAX_PAYLOAD {
        Err(ProtocolError::PayloadLimitExceeded)
    } else {
        Ok((header[1], len))
    }
}

/// Reading one message from the front of `input`: the outcome and the number
/// of bytes taken from the input.
pub open spec fn read_outcome(input: Seq<u8>, limit: int) -> (Result<(u8, Seq<u8>), ProtocolError>, int) {
    if input.len() < HEADER_LEN {
        (Err(ProtocolError::UnexpectedEof), input.len() as int)
    } else {
        match header_outcome(input.subrange(0, 6), limit) {
            Err(e) => (Err(e), 6),
            Ok((kind, len)) => if input.len() - 6 < len {
                (Err(ProtocolError::UnexpectedEof), input.len() as int)
            } else {
                (Ok((kind, input.subrange(6, 6 + len))), 6 + len)
            },
        }
    }
}

/// Writes one message: the header, then the payload.
/// A payload longer than `MAX_PAYLOAD` is refused and nothing is written.
pub fn write_message(writer: &mut Vec<u8>, kind: u8, payload: &[u8]) -> (r: Result<(), ProtocolError>)
    ensures
        payload@.len() > MAX_PAYLOAD <==> r is Err,
        r is Err ==> r == Err::<(), ProtocolError>(ProtocolError::PayloadTooLarge) && final(writer)@ == old(writer)@,
        r is Ok ==> final(writer)@ == old(writer)@ + encode_message(kind, payload@),
{
    if payload.len() > MAX_PAYLOAD {
        return Err(ProtocolError::PayloadTooLarge);
    }
    let ghost start = writer@;
    writer.push(VERSION);
    writer.push(kind);
    let len = u32_to_be(payload.len() as u32);
    append_bytes(writer, &len);
    append_bytes(writer, payload);
    assert(writer@ =~= start + encode_message(kind, payload@));
    Ok(())
}

/// Checks a message header against `limit` and `MAX_PAYLOAD`; gives the kind
/// and the payload length that follows.
pub fn decode_header(header: [u8; 6], limit: usize) -> (r: Result<(u8, usize), ProtocolError>)
    ensures
        match r {
            Ok((kind, len)) => header_outcome(header@, limit as int) == Ok::<(u8, int), ProtocolError>((kind, len as int)),
            Err(e) => header_outcome(header@, limit as int) == Err::<(u8, int), ProtocolError>(e),
        },
{
    if header[0] != VERSION {
        return Err(ProtocolError::UnsupportedVersion);
    }
    let len = u32_from_be(&header[2..6]);
    if len as u64 > limit as u64 || len as u64 > MAX_PAYLOAD as u64 {
        return Err(ProtocolError::PayloadLimitExceeded);
    }
    Ok((header[1], len as usize))
}

/// Reads one message from the front of `reader` and advances it past what was
/// read. The payload must not exceed `limit` nor `MAX_PAYLOAD`.
pub fn read_message(reader: &mut &[u8], limit: usize) -> (r: Result<(u8, Vec<u8>), ProtocolError>)
    ensures
        ({
            let (outcome, taken) = read_outcome(old(reader)@, limit as int);
            &&& final(reader)@ == old(reader)@.subrange(taken, old(reader)@.len() as int)
            &&& match r {
                Ok((kind, payload)) => outcome == Ok::<(u8, Seq<u8>), ProtocolError>((kind, payload@)),
                Err(e) => outcome == Err::<(u8, Seq<u8>), ProtocolError>(e),
            }
        }),
{
    let input: &[u8] = *reader;
    let n = input.len();
    if n < HEADER_LEN {
        *reader = &input[n..n];
        return Err(ProtocolError::UnexpectedEof);
    }
    let header = [input[0], input[1], input[2], input[3], input[4], input[5]];
    assert(header@ =~= input@.subrange(0, 6));
    match decode_header(header, limit) {
        Err(e) => {
            *reader = &input[6..n];
            Err(e)
        },
        Ok((kind, len)) => {
            if n - 6 < len {
                *reader = &input[n..n];
                return Err(ProtocolError::UnexpectedEof);
            }
            let mut payload: Vec<u8> = Vec::new();
            append_bytes(&mut payload, &input[6..6 + len]);
            *reader = &input[6 + len..n];
            Ok((kind, payload))
        },
    }
}


/// Reading back a message whose payload is within the limit gives its kind
/// and payload and takes exactly its bytes, whatever follows it.
pub proof fn lemma_read_after_write(kind: u8, payload: Seq<u8>, rest: Seq<u8>, limit: int)
    requires
        payload.len() <= MAX_PAYLOAD,
        payload.len() <= limit,
    ensures
        read_outcome(encode_message(kind, payload) + rest, limit)
            == (Ok::<(u8, Seq<u8>), ProtocolError>((kind, payload)), 6 + payload.len() as int),
        encode_message(kind, payload).len() == 6 + payload.len(),
{
    let n = payload.len() as u32;
    lemma_be32_value(n);
    let input = encode_message(kind, payload) + rest;
    assert(input.subrange(0, 6).subrange(2, 6) =~= be32(n));
    assert(input.subrange(6, 6 + payload.len() as int) =~= payload);
}

/// A message whose payload exceeds the reader's limit is refused once its
/// header has been read.
pub proof fn lemma_over_limit_refused(kind: u8, payload: Seq<u8>, rest: Seq<u8>, limit: int)
    requires
        payload.len() <= MAX_PAYLOAD,
        payload.len() > limit,
    ensures
        read_outcome(encode_message(kind, payload) + rest, limit)
            == (Err::<(u8, Seq<u8>), ProtocolError>(ProtocolError::PayloadLimitExceeded), 6int),
{
    let n = payload.len() as u32;
    lemma_be32_value(n);
    let input = encode_message(kind, payload) + rest;
    assert(input.subrange(0, 6).subrange(2, 6) =~= be32(n));
}

/// Frame payload layout: frame id, width, height, JPEG length (the length
/// taken modulo 2^32, as a `u32` holds it), then the JPEG bytes.
pub open spec fn frame_bytes(id: u64, width: u32, height: u32, jpeg: Seq<u8>) -> Seq<u8> {
    be64(id) + be32(width) + be32(height) + be32((jpeg.len() % 0x1_0000_0000) as u32) + jpeg
}

/// Builds the payload of a `FRAME` or `SNAPSHOT_FRAME` message.
pub fn frame_payload(id: u64, width: u32, height: u32, jpeg: &[u8]) -> (r: Vec<u8>)
    ensures
        r@ == frame_bytes(id, width, height, jpeg@),
{
    let mut payload: Vec<u8> = Vec::new();
    append_bytes(&mut payload, &u64_to_be(id));
    append_bytes(&mut payload, &u32_to_be(width));
    append_bytes(&mut payload, &u32_to_be(height));
    append_bytes(&mut payload, &u32_to_be((jpeg.len() as u64 % 0x1_0000_0000) as u32));
    append_bytes(&mut payload, jpeg);
    payload
}

/// The header fields of a frame payload.
#[derive(Clone, Copy, Debug, PartialEq, Eq, Structural)]
pub struct FrameHeader {
    pub id: u64,
    pub width: u32,
    pub height: u32,
}

/// Why a message from the capture agent is refused.
#[derive(Clone, Copy, Debug, PartialEq, Eq, Structural)]
pub enum FrameError {
    /// Neither `PING` nor a `FRAME` of at least 20 bytes.
    BadFrame,
    /// A side is 0 or above 16384, or the JPEG length disagrees with the payload.
    InvalidDimensions,
}

/// Largest frame side the service accepts.
pub const MAX_FRAME_SIDE: u32 = 16384;

/// What the service makes of a message from the capture agent: `None` for a
/// keep-alive `PING`, the header of a well-formed frame, or the refusal.
pub open spec fn agent_message_outcome(kind: u8, p: Seq<u8>) -> Result<Option<FrameHeader>, FrameError> {
    if kind == PING {
        Ok(None)
    } else if kind != FRAME || p.len() < 20 {
        Err(FrameError::BadFrame)
    } else {
        let width = be32_value(p.subrange(8, 12));
        let height = be32_value(p.subrange(12, 16));
        let jpeg_len = be32_value(p.subrange(16, 20));
        if width == 0 || height == 0 || width > MAX_FRAME_SIDE || height > MAX_FRAME_SIDE
            || jpeg_len != p.len() - 20 {
            Err(FrameError::InvalidDimensions)
        } else {
            Ok(Some(FrameHeader {
                id: be64_value(p.subrange(0, 8)) as u64,
                width: width as u32,
                height: height as u32,
            }))
        }
    }
}

/// Checks a message that the capture agent sent to the service.
pub fn parse_agent_message(kind: u8, payload: &[u8]) -> (r: Result<Option<FrameHeader>, FrameError>)
    ensures
        r == agent_message_outcome(kind, payload@),
{
    if kind == PING {
        return Ok(None);
    }
    if kind != FRAME || payload.len() < 20 {
        return Err(FrameError::BadFrame);
    }
    let width = u32_from_be(&payload[8..12]);
    let height = u32_from_be(&payload[12..16]);
    let jpeg_len = u32_from_be(&payload[16..20]);
    if width == 0 || height == 0 || width > MAX_FRAME_SIDE || height > MAX_FRAME_SIDE
        || jpeg_len as u64 != (payload.len() - 20) as u64 {
        return Err(FrameError::InvalidDimensions);
    }
    let id = u64_from_be(&payload[0..8]);
    Ok(Some(FrameHeader { id, width, height }))
}

/// A frame built by `frame_payload` with sides in 1..=16384 and a JPEG shorter
/// than 2^32 bytes is accepted by the service, with its id and size.
pub proof fn lemma_frame_accepted(id: u64, width: u32, height: u32, jpeg: Seq<u8>)
    requires
        1 <= width <= MAX_FRAME_SIDE,
        1 <= height <= MAX_FRAME_SIDE,
        jpeg.len() < 0x1_0000_0000,
    ensures
        agent_message_outcome(FRAME, frame_bytes(id, width, height, jpeg))
            == Ok::<Option<FrameHeader>, FrameError>(Some(FrameHeader { id, width, height })),
{
    let p = frame_bytes(id, width, height, jpeg);
    let jl = (jpeg.len() % 0x1_0000_0000) as u32;
    lemma_be64_value(id);
    lemma_be32_value(width);
    lemma_be32_value(height);
    lemma_be32_value(jl);
    assert(p.subrange(0, 8) =~= be64(id));
    assert(p.subrange(8, 12) =~= be32(width));
    assert(p.subrange(12, 16) =~= be32(height));
    assert(p.subrange(16, 20) =~= be32(jl));
}

} // verus!
