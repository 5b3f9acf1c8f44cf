use bytes::BytesMut;
use msg_transmitter::{parse_frame, FrameParse, MessageCodec};

fn buffer_of(bytes: &[u8]) -> BytesMut {
    let mut buf = BytesMut::new();
    buf.extend_from_slice(bytes);
    buf
}

#[test]
fn encode_registration_frame() {
    let mut codec: MessageCodec<u32> = MessageCodec::new("client".to_string());
    let mut dst = BytesMut::new();
    codec.encode(None, &mut dst);
    assert_eq!(&dst[..], &[0, 0, 0, 7, 0, b'c', b'l', b'i', b'e', b'n', b't'][..]);
}

#[test]
fn encode_message_frame() {
    let mut codec: MessageCodec<u32> = MessageCodec::new("server".to_string());
    let mut dst = BytesMut::new();
    codec.encode(Some(vec![1, 2, 3]), &mut dst);
    assert_eq!(&dst[..], &[0, 0, 0, 4, 1, 1, 2, 3][..]);
}

#[test]
fn encode_empty_message_frame() {
    let mut codec: MessageCodec<u32> = MessageCodec::new("server".to_string());
    let mut dst = BytesMut::new();
    codec.encode(Some(vec![]), &mut dst);
    assert_eq!(&dst[..], &[0, 0, 0, 1, 1][..]);
}

#[test]
fn encode_appends_after_existing_bytes() {
    let mut codec: MessageCodec<u32> = MessageCodec::new("a".to_string());
    let mut dst = buffer_of(&[9, 9]);
    codec.encode(None, &mut dst);
    codec.encode(Some(vec![5]), &mut dst);
    assert_eq!(&dst[..], &[9, 9, 0, 0, 0, 2, 0, b'a', 0, 0, 0, 2, 1, 5][..]);
}

#[test]
fn encode_non_ascii_name_as_utf8() {
    let mut codec: MessageCodec<u32> = MessageCodec::new("é".to_string());
    let mut dst = BytesMut::new();
    codec.encode(None, &mut dst);
    assert_eq!(&dst[..], &[0, 0, 0, 3, 0, 0xc3, 0xa9][..]);
}

#[test]
fn encode_long_message_header() {
    let mut codec: MessageCodec<u32> = MessageCodec::new("s".to_string());
    let mut dst = BytesMut::new();
    codec.encode(Some(vec![7; 300]), &mut dst);
    assert_eq!(dst.len(), 4 + 1 + 300);
    assert_eq!(&dst[..5], &[0, 0, 1, 45, 1][..]);
}

#[test]
fn decode_registration_frame() {
    let mut codec: MessageCodec<u32> = MessageCodec::new("server".to_string());
    let mut src = buffer_of(&[0, 0, 0, 7, 0, b'c', b'l', b'i', b'e', b'n', b't']);
    let item = codec.decode(&mut src);
    assert_eq!(item, Some((Some("client".to_string()), None)));
    assert!(src.is_empty());
}

#[test]
fn decode_message_frame() {
    let mut codec: MessageCodec<u32> = MessageCodec::new("server".to_string());
    let mut src = buffer_of(&[0, 0, 0, 4, 1, 1, 2, 3]);
    let item = codec.decode(&mut src);
    assert_eq!(item, Some((None, Some(vec![1, 2, 3]))));
    assert!(src.is_empty());
}

#[test]
fn decode_short_buffer_leaves_it() {
    let mut codec: MessageCodec<u32> = MessageCodec::new("server".to_string());
    let mut src = buffer_of(&[0, 0, 0]);
    assert_eq!(codec.decode(&mut src), None);
    assert_eq!(&src[..], &[0, 0, 0][..]);
    let mut empty = BytesMut::new();
    assert_eq!(codec.decode(&mut empty), None);
    assert!(empty.is_empty());
}

#[test]
fn decode_partial_frame_leaves_it() {
    let mut codec: MessageCodec<u32> = MessageCodec::new("server".to_string());
    let mut src = buffer_of(&[0, 0, 0, 4, 1, 1]);
    assert_eq!(codec.decode(&mut src), None);
    assert_eq!(&src[..], &[0, 0, 0, 4, 1, 1][..]);
    src.extend_from_slice(&[2, 3]);
    assert_eq!(codec.decode(&mut src), Some((None, Some(vec![1, 2, 3]))));
    assert!(src.is_empty());
}

#[test]
fn decode_two_frames_at_once_waits() {
    let mut codec: MessageCodec<u32> = MessageCodec::new("server".to_string());
    let mut src = buffer_of(&[0, 0, 0, 2, 1, 5, 0, 0, 0, 2, 1, 6]);
    assert_eq!(codec.decode(&mut src), None);
    assert_eq!(src.len(), 12);
}

#[test]
fn encode_then_decode_registration() {
    let mut sender: MessageCodec<u32> = MessageCodec::new("naïve client".to_string());
    let mut receiver: MessageCodec<u32> = MessageCodec::new("server".to_string());
    let mut buf = BytesMut::new();
    sender.encode(None, &mut buf);
    assert_eq!(receiver.decode(&mut buf), Some((Some("naïve client".to_string()), None)));
    assert!(buf.is_empty());
}

#[test]
fn encode_then_decode_message() {
    let mut codec: MessageCodec<u32> = MessageCodec::new("server".to_string());
    let mut buf = BytesMut::new();
    let payload: Vec<u8> = (0..=255).collect();
    codec.encode(Some(payload.clone()), &mut buf);
    assert_eq!(codec.decode(&mut buf), Some((None, Some(payload))));
    assert!(buf.is_empty());
}

#[test]
fn parse_frame_incomplete() {
    assert_eq!(parse_frame(vec![]), FrameParse::Incomplete);
    assert_eq!(parse_frame(vec![0, 0, 1]), FrameParse::Incomplete);
    assert_eq!(parse_frame(vec![0, 0, 0, 3, 1]), FrameParse::Incomplete);
    assert_eq!(parse_frame(vec![0, 0, 0, 1, 1, 2]), FrameParse::Incomplete);
}

#[test]
fn parse_frame_empty_frame() {
    assert_eq!(parse_frame(vec![0, 0, 0, 0]), FrameParse::EmptyFrame);
}

#[test]
fn parse_frame_unknown_state() {
    assert_eq!(parse_frame(vec![0, 0, 0, 2, 2, 9]), FrameParse::UnknownState(2));
    assert_eq!(parse_frame(vec![0, 0, 0, 1, 255]), FrameParse::UnknownState(255));
}

#[test]
fn parse_frame_register_and_message() {
    assert_eq!(parse_frame(vec![0, 0, 0, 3, 0, b'h', b'i']), FrameParse::Register(vec![b'h', b'i']));
    assert_eq!(parse_frame(vec![0, 0, 0, 2, 0, 0xff]), FrameParse::Register(vec![0xff]));
    assert_eq!(parse_frame(vec![0, 0, 0, 1, 1]), FrameParse::Message(vec![]));
    assert_eq!(parse_frame(vec![0, 0, 0, 3, 1, 4, 5]), FrameParse::Message(vec![4, 5]));
}
