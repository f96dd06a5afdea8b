//! The wire frame: a start marker, a big-endian 16-bit payload length, and
//! the payload itself.
use vstd::prelude::*;

verus! {

/// Marks the first byte of every frame.
pub const START_MARKER: u8 = 42;

/// The largest payload that the length field can announce.
pub const MAX_PAYLOAD: usize = 65535;

/// What can go wrong while reading or answering a frame.
#[derive(Debug, PartialEq, Eq)]
pub enum TCPError {
    /// The first byte was not the start marker.
    InvalidStart,
    /// The payload was not valid JSON.
    MalformedJSON,
    /// Fewer payload bytes arrived than the header announced.
    MalformedPacket,
    /// Fewer than three header bytes arrived.
    FailedReadHeader,
    /// The payload was JSON but not a request; the text says why.
    ParseFrame(String),
    SerializeResponse,
    ConnectionNotWritable,
    FailedWrite,
    /// A response payload does not fit the 16-bit length field.
    ResponseTooLarge,
}

/// The description of a frame error.
pub open spec fn tcp_error_text(e: TCPError) -> Seq<char> {
    match e {
        TCPError::InvalidStart => "Received packet with invalid start byte"@,
        TCPError::MalformedJSON => "Received packet with invalid JSON"@,
        TCPError::MalformedPacket => "Received packet with a length that did not match header metadata"@,
        TCPError::FailedReadHeader => "Failed to read the header of an incoming packet"@,
        TCPError::SerializeResponse => "Failed to serialize a response to the requester"@,
        TCPError::ConnectionNotWritable => "Failed to confirm TCP connection was writable to respond on"@,
        TCPError::FailedWrite => "Failed to write response on TCP connection"@,
        TCPError::ResponseTooLarge => "Response payload is longer than a frame can carry"@,
        TCPError::ParseFrame(reason) => "Failed to parse a frame with reason: "@ + reason@,
    }
}

impl TCPError {
    /// A sentence that describes the error.
    pub fn message(&self) -> (r: String)
        ensures
            r@ == tcp_error_text(*self),
    {
        match self {
            TCPError::InvalidStart => String::from_str("Received packet with invalid start byte"),
            TCPError::MalformedJSON => String::from_str("Received packet with invalid JSON"),
            TCPError::MalformedPacket => String::from_str(
                "Received packet with a length that did not match header metadata",
            ),
            TCPError::FailedReadHeader => String::from_str(
                "Failed to read the header of an incoming packet",
            ),
            TCPError::ParseFrame(reason) => {
                let mut m = String::from_str("Failed to parse a frame with reason: ");
                m.append(reason.as_str());
                m
            },
            TCPError::SerializeResponse => String::from_str(
                "Failed to serialize a response to the requester",
            ),
            TCPError::ConnectionNotWritable => String::from_str(
                "Failed to confirm TCP connection was writable to respond on",
            ),
            TCPError::FailedWrite => String::from_str("Failed to write response on TCP connection"),
            TCPError::ResponseTooLarge => String::from_str(
                "Response payload is longer than a frame can carry",
            ),
        }
    }
}

/// The payload length that header bytes `b1`, `b2` announce.
pub open spec fn announced(b1: u8, b2: u8) -> nat {
    b1 as nat * 256 + b2 as nat
}

/// The outcome of reading a frame from the bytes `b` that arrived.
pub open spec fn decode_spec(b: Seq<u8>) -> Result<Seq<u8>, TCPError> {
    if b.len() < 3 {
        Err(TCPError::FailedReadHeader)
    } else if b[0] != START_MARKER {
        Err(TCPError::InvalidStart)
    } else if b.len() < 3 + announced(b[1], b[2]) {
        Err(TCPError::MalformedPacket)
    } else {
        Ok(b.subrange(3, 3 + announced(b[1], b[2]) as int))
    }
}

/// The frame that carries payload `p`.
pub open spec fn frame_of(p: Seq<u8>) -> Seq<u8> {
    seq![START_MARKER, (p.len() / 256) as u8, (p.len() % 256) as u8] + p
}

/// The payload length announced by a frame's first three bytes.
pub fn frame_length(header: &[u8]) -> (r: Result<usize, TCPError>)
    ensures
        header@.len() < 3 ==> r == Err::<usize, TCPError>(TCPError::FailedReadHeader),
        header@.len() >= 3 && header@[0] != START_MARKER ==> r == Err::<usize, TCPError>(
            TCPError::InvalidStart,
        ),
        header@.len() >= 3 && header@[0] == START_MARKER ==> r == Ok::<usize, TCPError>(
            announced(header@[1], header@[2]) as usize,
        ),
{
    if header.len() < 3 {
        return Err(TCPError::FailedReadHeader);
    }
    if header[0] != START_MARKER {
        return Err(TCPError::InvalidStart);
    }
    Ok(header[1] as usize * 256 + header[2] as usize)
}

/// Reads one frame from the bytes that arrived and returns its payload.
/// Bytes after the announced payload are not part of the frame.
pub fn decode_frame(bytes: &[u8]) -> (r: Result<Vec<u8>, TCPError>)
    ensures
        r matches Ok(p) ==> decode_spec(bytes@) == Ok::<Seq<u8>, TCPError>(p@),
        r matches Err(e) ==> decode_spec(bytes@) == Err::<Seq<u8>, TCPError>(e),
{
    let len = match frame_length(bytes) {
        Ok(n) => n,
        Err(e) => return Err(e),
    };
    if bytes.len() - 3 < len {
        return Err(TCPError::MalformedPacket);
    }
    let total = bytes.len();
    let mut p: Vec<u8> = Vec::new();
    let mut i: usize = 0;
    while i < len
        invariant
            total == bytes@.len(),
            i <= len,
            3 + len <= bytes@.len(),
            p@ =~= bytes@.subrange(3, 3 + i),
        decreases len - i,
    {
        p.push(bytes[3 + i]);
        i = i + 1;
    }
    Ok(p)
}

/// The frame that carries `payload`; a payload longer than the length field
/// can announce is refused.
pub fn encode_frame(payload: &[u8]) -> (r: Result<Vec<u8>, TCPError>)
    ensures
        payload@.len() > MAX_PAYLOAD ==> r == Err::<Vec<u8>, TCPError>(TCPError::ResponseTooLarge),
        payload@.len() <= MAX_PAYLOAD ==> (r matches Ok(f) && f@ == frame_of(payload@)),
{
    let n = payload.len();
    if n > MAX_PAYLOAD {
        return Err(TCPError::ResponseTooLarge);
    }
    let mut f: Vec<u8> = Vec::new();
    f.push(START_MARKER);
    f.push((n / 256) as u8);
    f.push((n % 256) as u8);
    let mut i: usize = 0;
    while i < n
        invariant
            n == payload@.len(),
            i <= n,
            f@ =~= seq![START_MARKER, (n / 256) as u8, (n % 256) as u8] + payload@.subrange(0, i as int),
        decreases n - i,
    {
        f.push(payload[i]);
        i = i + 1;
    }
    assert(payload@.subrange(0, n as int) =~= payload@);
    Ok(f)
}

/// Reading the frame that carries a payload gives that payload back.
pub proof fn lemma_frame_round_trip(p: Seq<u8>)
    requires
        p.len() <= MAX_PAYLOAD,
    ensures
        decode_spec(frame_of(p)) == Ok::<Seq<u8>, TCPError>(p),
{
    let f = frame_of(p);
    assert(announced(f[1], f[2]) == p.len());
    assert(f.subrange(3, 3 + p.len() as int) =~= p);
}

} // verus!
