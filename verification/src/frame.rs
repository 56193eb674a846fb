//! Length-prefixed frames of the controller bridge: one type byte, a
//! four-byte big-endian payload length, then the payload.
use vstd::prelude::*;

verus! {

/// Largest payload that either side accepts.
pub const MAX_FRAME_SIZE: usize = 1048576;

/// Frame type of a command submitted through the normal queue.
pub const QUEUED: u8 = 0x51;

/// Frame type of bytes submitted through the realtime path.
pub const REALTIME: u8 = 0x52;

/// Frame type of controller output.
pub const DATA: u8 = 0x44;

/// Length of the frame header.
pub const HEADER_SIZE: usize = 5;

#[derive(Debug, PartialEq, Eq, Structural, Clone, Copy)]
pub enum FrameError {
    /// The payload length exceeds `MAX_FRAME_SIZE`.
    Oversize,
}

/// Big-endian bytes of a 32-bit length.
pub open spec fn be32(n: u32) -> Seq<u8> {
    seq![(n >> 24u32) as u8, (n >> 16u32) as u8, (n >> 8u32) as u8, n as u8]
}

/// The 32-bit value of four big-endian bytes.
pub open spec fn from_be32(b0: u8, b1: u8, b2: u8, b3: u8) -> u32 {
    ((b0 as u32) << 24u32) | ((b1 as u32) << 16u32) | ((b2 as u32) << 8u32) | (b3 as u32)
}

/// The bytes of one frame.
pub open spec fn frame_bytes(kind: u8, payload: Seq<u8>) -> Seq<u8> {
    seq![kind] + be32(payload.len() as u32) + payload
}

/// What a buffer that starts at a frame boundary holds: an error for an
/// oversize length, `None` while the frame is incomplete, else the type,
/// the payload and the number of bytes the frame takes.
pub open spec fn decoded(buffer: Seq<u8>) -> Result<Option<(u8, Seq<u8>, nat)>, FrameError> {
    if buffer.len() < 5 {
        Ok(None)
    } else {
        let size = from_be32(buffer[1], buffer[2], buffer[3], buffer[4]) as nat;
        if size > MAX_FRAME_SIZE {
            Err(FrameError::Oversize)
        } else if buffer.len() < 5 + size {
            Ok(None)
        } else {
            Ok(Some((buffer[0], buffer.subrange(5, 5 + size as int), 5 + size)))
        }
    }
}

/// A length written big-endian reads back as itself.
pub proof fn lemma_be32_roundtrip(n: u32)
    ensures
        from_be32((n >> 24u32) as u8, (n >> 16u32) as u8, (n >> 8u32) as u8, n as u8) == n,
{
    assert(((((n >> 24u32) as u8) as u32) << 24u32) | ((((n >> 16u32) as u8) as u32) << 16u32)
        | ((((n >> 8u32) as u8) as u32) << 8u32) | ((n as u8) as u32) == n) by (bit_vector);
}

/// Encodes one frame; an oversize payload is refused.
pub fn encode_frame(kind: u8, payload: &[u8]) -> (r: Result<Vec<u8>, FrameError>)
    ensures
        payload.len() > MAX_FRAME_SIZE ==> r == Err::<Vec<u8>, FrameError>(FrameError::Oversize),
        payload.len() <= MAX_FRAME_SIZE ==> (r matches Ok(bytes) && bytes@ == frame_bytes(
            kind,
            payload@,
        )),
{
    if payload.len() > MAX_FRAME_SIZE {
        return Err(FrameError::Oversize);
    }
    let n = payload.len() as u32;
    let mut bytes: Vec<u8> = Vec::new();
    bytes.push(kind);
    bytes.push((n >> 24u32) as u8);
    bytes.push((n >> 16u32) as u8);
    bytes.push((n >> 8u32) as u8);
    bytes.push(n as u8);
    let mut i: usize = 0;
    while i < payload.len()
        invariant
            i <= payload.len() <= MAX_FRAME_SIZE,
            n == payload.len() as u32,
            bytes@ == seq![kind] + be32(n) + payload@.take(i as int),
        decreases payload.len() - i,
    {
        bytes.push(payload[i]);
        i += 1;
        assert(bytes@ =~= seq![kind] + be32(n) + payload@.take(i as int));
    }
    assert(payload@.take(payload.len() as int) =~= payload@);
    Ok(bytes)
}

/// The payload length that a frame header announces; an oversize length is
/// refused before any payload is read.
pub fn frame_header(header: [u8; 5]) -> (r: Result<(u8, usize), FrameError>)
    ensures
        ({
            let size = from_be32(header[1], header[2], header[3], header[4]);
            &&& size > MAX_FRAME_SIZE ==> r == Err::<(u8, usize), FrameError>(FrameError::Oversize)
            &&& size <= MAX_FRAME_SIZE ==> r == Ok::<(u8, usize), FrameError>(
                (header[0], size as usize),
            )
        }),
{
    let size = ((header[1] as u32) << 24u32) | ((header[2] as u32) << 16u32) | ((header[3] as u32)
        << 8u32) | (header[4] as u32);
    if size > MAX_FRAME_SIZE as u32 {
        Err(FrameError::Oversize)
    } else {
        Ok((header[0], size as usize))
    }
}

/// Decodes the frame at the start of `buffer`, which a stream may have
/// delivered in pieces: `Ok(None)` until the whole frame has arrived.
pub fn decode_frame(buffer: &[u8]) -> (r: Result<Option<(u8, Vec<u8>, usize)>, FrameError>)
    ensures
        match (r, decoded(buffer@)) {
            (Ok(None), Ok(None)) => true,
            (Ok(Some((k, p, n))), Ok(Some((k2, p2, n2)))) => k == k2 && p@ == p2 && n == n2,
            (Err(e), Err(e2)) => e == e2,
            _ => false,
        },
{
    if buffer.len() < 5 {
        return Ok(None);
    }
    let (kind, size) = match frame_header([buffer[0], buffer[1], buffer[2], buffer[3], buffer[4]]) {
        Ok(h) => h,
        Err(e) => return Err(e),
    };
    if buffer.len() - 5 < size {
        return Ok(None);
    }
    let mut payload: Vec<u8> = Vec::new();
    let mut i: usize = 0;
    while i < size
        invariant
            i <= size,
            5 + size <= buffer.len(),
            payload@ == buffer@.subrange(5, 5 + i),
        decreases size - i,
    {
        payload.push(buffer[5 + i]);
        i += 1;
        assert(payload@ =~= buffer@.subrange(5, 5 + i));
    }
    Ok(Some((kind, payload, 5 + size)))
}

/// A frame that was written can be read back whole from the front of the
/// stream, whatever follows it: its type and payload are the ones written.
pub proof fn lemma_frame_roundtrip(kind: u8, payload: Seq<u8>, rest: Seq<u8>)
    requires
        payload.len() <= MAX_FRAME_SIZE,
    ensures
        decoded(frame_bytes(kind, payload) + rest) == Ok::<Option<(u8, Seq<u8>, nat)>, FrameError>(
            Some((kind, payload, 5 + payload.len()))),
{
    let n = payload.len() as u32;
    let b = frame_bytes(kind, payload) + rest;
    lemma_be32_roundtrip(n);
    assert(b[1] == (n >> 24u32) as u8);
    assert(b[2] == (n >> 16u32) as u8);
    assert(b[3] == (n >> 8u32) as u8);
    assert(b[4] == n as u8);
    assert(b.subrange(5, 5 + payload.len() as int) =~= payload);
}

/// A prefix of a frame is never mistaken for a frame.
pub proof fn lemma_partial_frame(kind: u8, payload: Seq<u8>, cut: int)
    requires
        payload.len() <= MAX_FRAME_SIZE,
        0 <= cut < 5 + payload.len(),
    ensures
        decoded(frame_bytes(kind, payload).take(cut)) == Ok::<
            Option<(u8, Seq<u8>, nat)>,
            FrameError,
        >(None),
{
    let n = payload.len() as u32;
    let b = frame_bytes(kind, payload).take(cut);
    if cut >= 5 {
        lemma_be32_roundtrip(n);
        assert(b[1] == (n >> 24u32) as u8);
        assert(b[2] == (n >> 16u32) as u8);
        assert(b[3] == (n >> 8u32) as u8);
        assert(b[4] == n as u8);
    }
}

} // verus!
