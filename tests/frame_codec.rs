use pueue::connection::{Connection, Phase};
use pueue::frame::{decode_frame, decode_u64, encode_frame, encode_u64, ProtocolError};

#[test]
fn u64_is_big_endian() {
    assert_eq!(encode_u64(0x0102030405060708), vec![1, 2, 3, 4, 5, 6, 7, 8]);
    assert_eq!(encode_u64(100), vec![0, 0, 0, 0, 0, 0, 0, 100]);
    assert_eq!(decode_u64(&[0, 0, 0, 0, 0, 0, 1, 0]), 256);
    assert_eq!(decode_u64(&encode_u64(u64::MAX)), u64::MAX);
}

#[test]
fn frame_has_length_header() {
    let f = encode_frame(b"abc");
    assert_eq!(f, vec![0, 0, 0, 0, 0, 0, 0, 3, b'a', b'b', b'c']);
}

#[test]
fn frame_round_trip() {
    for payload in [&b""[..], &b"x"[..], &b"{\"Add\":{\"command\":[],\"path\":\"\"}}"[..]] {
        let f = encode_frame(payload);
        assert_eq!(decode_frame(&f), Ok(payload.to_vec()));
    }
}

#[test]
fn frame_ignores_trailing_bytes() {
    let mut f = encode_frame(b"hi");
    f.extend_from_slice(b"more");
    assert_eq!(decode_frame(&f), Ok(b"hi".to_vec()));
}

#[test]
fn short_header_is_truncated() {
    assert_eq!(decode_frame(&[0, 0, 0]), Err(ProtocolError::TruncatedFrame));
    assert_eq!(decode_frame(&[]), Err(ProtocolError::TruncatedFrame));
}

#[test]
fn declared_100_given_40_is_truncated() {
    let mut bytes = encode_u64(100);
    bytes.extend_from_slice(&[7u8; 40]);
    assert_eq!(decode_frame(&bytes), Err(ProtocolError::TruncatedFrame));

    let mut c = Connection::new();
    c.receive(&bytes);
    assert_eq!(c.phase(), Phase::AwaitingPayload);
    assert!(c.request().is_none());
    assert_eq!(c.end_of_stream(), Err(ProtocolError::TruncatedFrame));
    assert_eq!(c.phase(), Phase::Closed);
    assert!(c.request().is_none());
}

#[test]
fn connection_reads_in_pieces_then_responds() {
    let f = encode_frame(b"Status");
    let mut c = Connection::new();
    assert_eq!(c.phase(), Phase::AwaitingHeader);
    c.receive(&f[..5]);
    assert_eq!(c.phase(), Phase::AwaitingHeader);
    c.receive(&f[5..9]);
    assert_eq!(c.phase(), Phase::AwaitingPayload);
    c.receive(&f[9..]);
    assert_eq!(c.phase(), Phase::Decoded);
    assert_eq!(c.request(), Some(b"Status".to_vec()));
    assert_eq!(c.end_of_stream(), Ok(()));

    assert!(c.respond(b"ok"));
    assert_eq!(c.phase(), Phase::ResponsePending);
    assert_eq!(c.unsent(), &encode_frame(b"ok")[..]);
    c.wrote(4);
    assert_eq!(c.unsent(), &[0, 0, 0, 2, b'o', b'k'][..]);
    c.wrote(6);
    assert_eq!(c.phase(), Phase::Closed);
}

#[test]
fn undecodable_request_is_dropped() {
    let mut c = Connection::new();
    c.receive(&encode_frame(b"???"));
    assert_eq!(c.reject(), ProtocolError::UndecodablePayload);
    assert_eq!(c.phase(), Phase::Closed);
    assert!(!c.respond(b"late"));
}
