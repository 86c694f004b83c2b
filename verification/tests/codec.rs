//! The frame codec on the wire: encoding, parsing, incremental feeding.
use mini_redis::codec::{FrameBuffer, FrameError};
use mini_redis::frame::Frame;

fn parse_one(bytes: &[u8]) -> Result<Option<Frame>, FrameError> {
    let mut buf = FrameBuffer::new();
    buf.feed(bytes);
    buf.try_parse()
}

fn assert_round_trip(frame: Frame) -> Frame {
    let encoded = frame.to_bytes();
    let mut buf = FrameBuffer::new();
    buf.feed(encoded.as_slice());
    let parsed = buf.try_parse().expect("valid encoding").expect("complete frame");
    assert!(buf.is_empty(), "no bytes may be left over");
    parsed
}

#[test]
fn round_trip_simple() {
    match assert_round_trip(Frame::Simple("PONG".to_string())) {
        Frame::Simple(s) => assert_eq!(s, "PONG"),
        other => panic!("wrong variant: {:?}", other),
    }
}

#[test]
fn round_trip_error() {
    match assert_round_trip(Frame::Error("ERR unknown command 'foo'".to_string())) {
        Frame::Error(s) => assert_eq!(s, "ERR unknown command 'foo'"),
        other => panic!("wrong variant: {:?}", other),
    }
}

#[test]
fn round_trip_integer_max() {
    match assert_round_trip(Frame::Integer(u64::MAX)) {
        Frame::Integer(n) => assert_eq!(n, u64::MAX),
        other => panic!("wrong variant: {:?}", other),
    }
}

#[test]
fn round_trip_bulk_empty() {
    match assert_round_trip(Frame::Bulk(Vec::new())) {
        Frame::Bulk(b) => assert!(b.is_empty()),
        other => panic!("wrong variant: {:?}", other),
    }
}

#[test]
fn round_trip_bulk_binary() {
    let payload = vec![0u8, 13, 10, 255, 100];
    match assert_round_trip(Frame::Bulk(payload.clone())) {
        Frame::Bulk(b) => assert_eq!(b, payload),
        other => panic!("wrong variant: {:?}", other),
    }
}

#[test]
fn round_trip_null() {
    match assert_round_trip(Frame::Null) {
        Frame::Null => {}
        other => panic!("wrong variant: {:?}", other),
    }
}

#[test]
fn round_trip_array_empty() {
    match assert_round_trip(Frame::Array(Vec::new())) {
        Frame::Array(items) => assert!(items.is_empty()),
        other => panic!("wrong variant: {:?}", other),
    }
}

#[test]
fn round_trip_array_nested() {
    let frame = Frame::Array(vec![
        Frame::Simple("OK".to_string()),
        Frame::Integer(42),
        Frame::Bulk(b"hello".to_vec()),
        Frame::Null,
        Frame::Array(vec![Frame::Bulk(b"x".to_vec())]),
    ]);
    match assert_round_trip(frame) {
        Frame::Array(items) => {
            assert_eq!(items.len(), 5);
            match &items[1] {
                Frame::Integer(n) => assert_eq!(*n, 42),
                other => panic!("wrong variant: {:?}", other),
            }
        }
        other => panic!("wrong variant: {:?}", other),
    }
}

#[test]
fn encodings_are_bit_exact() {
    assert_eq!(Frame::Null.to_bytes(), b"$-1\r\n");
    assert_eq!(Frame::Simple("OK".to_string()).to_bytes(), b"+OK\r\n");
    assert_eq!(Frame::Integer(0).to_bytes(), b":0\r\n");
    assert_eq!(Frame::Bulk(b"world".to_vec()).to_bytes(), b"$5\r\nworld\r\n");
    let get_foo = Frame::Array(vec![
        Frame::Bulk(b"GET".to_vec()),
        Frame::Bulk(b"foo".to_vec()),
    ]);
    assert_eq!(get_foo.to_bytes(), b"*2\r\n$3\r\nGET\r\n$3\r\nfoo\r\n");
}

#[test]
fn incremental_parse_every_split() {
    let frame = Frame::Array(vec![
        Frame::Bulk(b"SET".to_vec()),
        Frame::Bulk(b"hello".to_vec()),
        Frame::Bulk(b"world".to_vec()),
    ]);
    let encoded = frame.to_bytes();
    for split in 0..encoded.len() {
        let mut buf = FrameBuffer::new();
        buf.feed(&encoded[..split]);
        assert!(
            matches!(buf.try_parse(), Ok(None)),
            "prefix of {} bytes must be incomplete",
            split
        );
        buf.feed(&encoded[split..]);
        match buf.try_parse() {
            Ok(Some(Frame::Array(items))) => assert_eq!(items.len(), 3),
            other => panic!("expected the frame after the suffix, got {:?}", other),
        }
        assert!(buf.is_empty(), "no bytes may be left unconsumed");
    }
}

#[test]
fn pipelined_frames_stay_buffered() {
    let mut buf = FrameBuffer::new();
    buf.feed(b"+A\r\n+B\r\n");
    match buf.try_parse() {
        Ok(Some(Frame::Simple(s))) => assert_eq!(s, "A"),
        other => panic!("unexpected: {:?}", other),
    }
    assert_eq!(buf.len(), 4);
    match buf.try_parse() {
        Ok(Some(Frame::Simple(s))) => assert_eq!(s, "B"),
        other => panic!("unexpected: {:?}", other),
    }
    assert!(buf.is_empty());
}

#[test]
fn unknown_tag_is_invalid() {
    assert!(matches!(parse_one(b"?3\r\n"), Err(FrameError::Invalid)));
}

#[test]
fn non_decimal_length_is_invalid() {
    assert!(matches!(parse_one(b"$x\r\n"), Err(FrameError::Invalid)));
    assert!(matches!(parse_one(b":12a\r\n"), Err(FrameError::Invalid)));
    assert!(matches!(parse_one(b":-5\r\n"), Err(FrameError::Invalid)));
}

#[test]
fn negative_length_other_than_nil_is_invalid() {
    assert!(matches!(parse_one(b"$-2\r\n"), Err(FrameError::Invalid)));
}

#[test]
fn integer_overflow_is_invalid() {
    assert!(matches!(parse_one(b":18446744073709551616\r\n"), Err(FrameError::Invalid)));
}

#[test]
fn leading_zeros_are_accepted() {
    match parse_one(b":007\r\n") {
        Ok(Some(Frame::Integer(7))) => {}
        other => panic!("unexpected: {:?}", other),
    }
}

#[test]
fn non_utf8_simple_line_is_invalid() {
    assert!(matches!(parse_one(b"+a\xffb\r\n"), Err(FrameError::Invalid)));
}

#[test]
fn bulk_data_shorter_than_length_is_incomplete() {
    assert!(matches!(parse_one(b"$5\r\nab"), Ok(None)));
}

#[test]
fn array_waiting_for_elements_is_incomplete() {
    assert!(matches!(parse_one(b"*2\r\n+a\r\n"), Ok(None)));
}
