//! Framing of one encoded message: an 8-byte big-endian length, then that
//! many payload bytes.
use vstd::prelude::*;

verus! {

/// Number of bytes in a frame header.
pub const HEADER_LEN: usize = 8;

/// Why a frame could not be read.
#[derive(Clone, Copy, Debug, PartialEq, Eq, Structural)]
pub enum ProtocolError {
    /// The stream ended before the header or the declared payload was complete.
    TruncatedFrame,
    /// The payload could not be decoded into a message.
    UndecodablePayload,
}

/// The eight big-endian bytes of `n`.
pub open spec fn be_bytes(n: u64) -> Seq<u8> {
    seq![
        (n >> 56u64) as u8,
        (n >> 48u64) as u8,
        (n >> 40u64) as u8,
        (n >> 32u64) as u8,
        (n >> 24u64) as u8,
        (n >> 16u64) as u8,
        (n >> 8u64) as u8,
        n as u8,
    ]
}

/// The number whose big-endian bytes are the first eight of `s`.
pub open spec fn be_u64(s: Seq<u8>) -> u64
    recommends
        s.len() >= 8,
{
    ((s[0] as u64) << 56u64) | ((s[1] as u64) << 48u64) | ((s[2] as u64) << 40u64) | ((
    s[3] as u64) << 32u64) | ((s[4] as u64) << 24u64) | ((s[5] as u64) << 16u64) | ((
    s[6] as u64) << 8u64) | (s[7] as u64)
}

/// The frame that carries `payload`.
pub open spec fn frame_of(payload: Seq<u8>) -> Seq<u8> {
    be_bytes(payload.len() as u64) + payload
}

/// The length that the header of `s` declares.
pub open spec fn declared_len(s: Seq<u8>) -> int {
    be_u64(s.subrange(0, 8)) as int
}

/// `s` holds a whole header and at least the declared number of payload bytes.
pub open spec fn frame_complete(s: Seq<u8>) -> bool {
    s.len() >= 8 && s.len() - 8 >= declared_len(s)
}

/// The payload of a complete frame at the start of `s`.
pub open spec fn frame_payload(s: Seq<u8>) -> Seq<u8> {
    s.subrange(8, 8 + declared_len(s))
}

/// Decoding the big-endian bytes of a number gives the number back.
pub proof fn lemma_be_round_trip(n: u64)
    ensures
        be_bytes(n).len() == 8,
        be_u64(be_bytes(n)) == n,
{
    let b = be_bytes(n);
    assert(b[0] == (n >> 56u64) as u8);
    assert(b[7] == n as u8);
    assert(((((n >> 56u64) as u8) as u64) << 56u64) | ((((n >> 48u64) as u8) as u64) << 48u64)
        | ((((n >> 40u64) as u8) as u64) << 40u64) | ((((n >> 32u64) as u8) as u64) << 32u64)
        | ((((n >> 24u64) as u8) as u64) << 24u64) | ((((n >> 16u64) as u8) as u64) << 16u64)
        | ((((n >> 8u64) as u8) as u64) << 8u64) | ((n as u8) as u64) == n) by (bit_vector);
}

/// Encoding a payload as a frame and reading that frame back yields the
/// payload unchanged, whatever bytes follow the frame in the stream.
pub proof fn lemma_frame_round_trip(payload: Seq<u8>, rest: Seq<u8>)
    requires
        payload.len() <= u64::MAX,
    ensures
        frame_complete(frame_of(payload) + rest),
        frame_payload(frame_of(payload) + rest) == payload,
{
    let s = frame_of(payload) + rest;
    lemma_be_round_trip(payload.len() as u64);
    assert(s.subrange(0, 8) =~= be_bytes(payload.len() as u64));
    assert(s.subrange(8, 8 + payload.len() as int) =~= payload);
}

/// The big-endian bytes of `n`.
pub fn encode_u64(n: u64) -> (r: Vec<u8>)
    ensures
        r@ == be_bytes(n),
{
    let mut r: Vec<u8> = Vec::with_capacity(8);
    r.push((n >> 56u64) as u8);
    r.push((n >> 48u64) as u8);
    r.push((n >> 40u64) as u8);
    r.push((n >> 32u64) as u8);
    r.push((n >> 24u64) as u8);
    r.push((n >> 16u64) as u8);
    r.push((n >> 8u64) as u8);
    r.push(n as u8);
    assert(r@ =~= be_bytes(n));
    r
}

/// The number whose big-endian bytes are the first eight of `s`.
pub fn decode_u64(s: &[u8]) -> (r: u64)
    requires
        s@.len() >= 8,
    ensures
        r == be_u64(s@),
{
    ((s[0] as u64) << 56u64) | ((s[1] as u64) << 48u64) | ((s[2] as u64) << 40u64) | ((
    s[3] as u64) << 32u64) | ((s[4] as u64) << 24u64) | ((s[5] as u64) << 16u64) | ((
    s[6] as u64) << 8u64) | (s[7] as u64)
}

/// The frame that carries `payload`.
pub fn encode_frame(payload: &[u8]) -> (r: Vec<u8>)
    requires
        payload@.len() <= u64::MAX,
    ensures
        r@ == frame_of(payload@),
{
    let mut r = encode_u64(payload.len() as u64);
    let mut i: usize = 0;
    while i < payload.len()
        invariant
            0 <= i <= payload@.len(),
            r@ == be_bytes(payload@.len() as u64) + payload@.subrange(0, i as int),
        decreases payload@.len() - i,
    {
        r.push(payload[i]);
        i = i + 1;
        assert(payload@.subrange(0, i as int) =~= payload@.subrange(0, i - 1) + seq![
            payload@[i - 1],
        ]);
    }
    assert(payload@.subrange(0, i as int) =~= payload@);
    r
}

/// Reads the frame at the start of a stream that has ended: the payload when
/// the header and the declared number of bytes are all there, else
/// `TruncatedFrame`. Bytes after the frame are not read.
pub fn decode_frame(stream: &[u8]) -> (r: Result<Vec<u8>, ProtocolError>)
    ensures
        match r {
            Ok(p) => frame_complete(stream@) && p@ == frame_payload(stream@),
            Err(e) => !frame_complete(stream@) && e == ProtocolError::TruncatedFrame,
        },
{
    if stream.len() < HEADER_LEN {
        return Err(ProtocolError::TruncatedFrame);
    }
    let declared = decode_u64(stream);
    assert(be_u64(stream@.subrange(0, 8)) == be_u64(stream@));
    if ((stream.len() - HEADER_LEN) as u64) < declared {
        return Err(ProtocolError::TruncatedFrame);
    }
    let end: usize = HEADER_LEN + declared as usize;
    let mut p: Vec<u8> = Vec::with_capacity(declared as usize);
    let mut i: usize = HEADER_LEN;
    while i < end
        invariant
            8 <= i <= end <= stream@.len(),
            end == 8 + declared_len(stream@),
            p@ == stream@.subrange(8, i as int),
        decreases end - i,
    {
        p.push(stream[i]);
        i = i + 1;
        assert(stream@.subrange(8, i as int) =~= stream@.subrange(8, i - 1) + seq![
            stream@[i - 1],
        ]);
    }
    Ok(p)
}

} // verus!
