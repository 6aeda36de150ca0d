use octoterm::protocol::frame::{Frame, FrameError};

#[test]
fn roundtrip() {
    let f = Frame::new(7, b"hello".to_vec());
    let bytes = f.encode();
    assert_eq!(bytes.len(), 5 + 5);
    assert_eq!(&bytes[0..4], &7u32.to_le_bytes());
    assert_eq!(bytes[4], 0);
    assert_eq!(Frame::decode(&bytes).unwrap(), f);
}

#[test]
fn empty_payload_ok() {
    let f = Frame::new(0, vec![]);
    assert_eq!(Frame::decode(&f.encode()).unwrap(), f);
}

#[test]
fn too_short_rejected() {
    assert_eq!(Frame::decode(&[1, 2, 3]), Err(FrameError::TooShort));
}

#[test]
fn channel_is_little_endian_and_flags_survive() {
    let f = Frame { channel: 0x0102_0304, flags: 9, payload: vec![1, 2] };
    let bytes = f.encode();
    assert_eq!(bytes, vec![4, 3, 2, 1, 9, 1, 2]);
    assert_eq!(Frame::decode(&bytes).unwrap(), f);
}

#[test]
fn exactly_a_header_decodes_to_an_empty_payload() {
    let f = Frame::decode(&[0xff, 0xff, 0xff, 0xff, 1]).unwrap();
    assert_eq!(f.channel, u32::MAX);
    assert_eq!(f.flags, 1);
    assert!(f.payload.is_empty());
}

#[test]
fn too_short_message_names_the_header() {
    assert_eq!(FrameError::TooShort.message(), "frame shorter than 5-byte header");
}
