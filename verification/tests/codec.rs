use rsocket_core::error::{EncodingIssue, RSocketError};
use rsocket_core::fragment::{fragment, reassemble};
use rsocket_core::frame::{
    decode_frame, encode_frame, Frame, FrameType, FLAG_COMPLETE, FLAG_FOLLOW, FLAG_METADATA,
    FLAG_NEXT,
};
use rsocket_core::payload::{decode_payload_body, encode_payload_body, Payload};

#[test]
fn frame_encode_wire_bytes() {
    let f = Frame::new(1, FrameType::RequestResponse, FLAG_METADATA, vec![7, 8]);
    let v = encode_frame(&f);
    // length 8, stream id 1, type 0x04 << 10 | 0x100 -> 0x1100
    assert_eq!(v, vec![0, 0, 8, 0, 0, 0, 1, 0x11, 0x00, 7, 8]);
}

#[test]
fn frame_round_trip() {
    let f = Frame::new(
        5,
        FrameType::Payload,
        FLAG_NEXT | FLAG_COMPLETE,
        b"abc".to_vec(),
    );
    let v = encode_frame(&f);
    let (d, consumed) = decode_frame(&v).expect("decode").expect("whole frame");
    assert_eq!(consumed, v.len());
    assert_eq!(d.stream_id, 5);
    assert!(matches!(d.frame_type, FrameType::Payload));
    assert_eq!(d.flags, FLAG_NEXT | FLAG_COMPLETE);
    assert_eq!(d.body, b"abc".to_vec());
}

#[test]
fn frame_decode_needs_more_data() {
    assert!(decode_frame(&vec![]).expect("ok").is_none());
    assert!(decode_frame(&vec![0, 0]).expect("ok").is_none());
    // declares 8 bytes after the prefix but carries fewer
    assert!(decode_frame(&vec![0, 0, 8, 0, 0, 0, 1, 0x11]).expect("ok").is_none());
}

#[test]
fn frame_decode_unknown_type() {
    // type code 0x3F
    let v = vec![0, 0, 6, 0, 0, 0, 1, 0xFC, 0x00];
    assert!(matches!(
        decode_frame(&v),
        Err(RSocketError::Encoding(EncodingIssue::UnknownFrameType))
    ));
}

#[test]
fn frame_decode_short_length_prefix() {
    // a length prefix below the 6 header bytes is malformed
    let v = vec![0, 0, 5, 0, 0, 0, 1, 0x11];
    assert!(matches!(
        decode_frame(&v),
        Err(RSocketError::Encoding(EncodingIssue::Incomplete))
    ));
}

#[test]
fn frame_decode_two_frames_in_sequence() {
    let f1 = Frame::new(1, FrameType::RequestFnf, 0, b"x".to_vec());
    let f2 = Frame::new(3, FrameType::Cancel, 0, vec![]);
    let mut v = encode_frame(&f1);
    v.extend_from_slice(&encode_frame(&f2));
    let (d1, c1) = decode_frame(&v).unwrap().unwrap();
    assert_eq!(d1.stream_id, 1);
    let rest: Vec<u8> = v[c1..].to_vec();
    let (d2, c2) = decode_frame(&rest).unwrap().unwrap();
    assert_eq!(d2.stream_id, 3);
    assert!(matches!(d2.frame_type, FrameType::Cancel));
    assert_eq!(c2, rest.len());
}

#[test]
fn fragment_mtu_zero_is_single_frame() {
    let frames = fragment(1, FrameType::RequestFnf, 0, b"hello world".to_vec(), 0);
    assert_eq!(frames.len(), 1);
    assert_eq!(frames[0].body, b"hello world".to_vec());
    assert_eq!(frames[0].flags & FLAG_FOLLOW, 0);
    assert_eq!(reassemble(&frames), b"hello world".to_vec());
}

#[test]
fn fragment_splits_and_reassembles() {
    // 11 bytes under mtu 4: chunks of 4, 4, 3
    let frames = fragment(1, FrameType::RequestResponse, FLAG_METADATA, b"hello world".to_vec(), 4);
    assert_eq!(frames.len(), 3);
    assert!(matches!(frames[0].frame_type, FrameType::RequestResponse));
    assert!(matches!(frames[1].frame_type, FrameType::Payload));
    assert!(matches!(frames[2].frame_type, FrameType::Payload));
    assert_eq!(frames[0].flags & FLAG_FOLLOW, FLAG_FOLLOW);
    assert_eq!(frames[1].flags & FLAG_FOLLOW, FLAG_FOLLOW);
    assert_eq!(frames[2].flags & FLAG_FOLLOW, 0);
    assert_eq!(frames[0].body.len(), 4);
    assert_eq!(frames[1].body.len(), 4);
    assert_eq!(frames[2].body.len(), 3);
    assert_eq!(reassemble(&frames), b"hello world".to_vec());
}

#[test]
fn fragment_exact_multiple_of_mtu() {
    let frames = fragment(1, FrameType::RequestStream, 0, b"abcdef".to_vec(), 3);
    assert_eq!(frames.len(), 2);
    assert_eq!(frames[0].body, b"abc".to_vec());
    assert_eq!(frames[1].body, b"def".to_vec());
    assert_eq!(reassemble(&frames), b"abcdef".to_vec());
}

#[test]
fn fragment_complete_flag_moves_to_last() {
    let frames = fragment(1, FrameType::Payload, FLAG_NEXT | FLAG_COMPLETE, b"abcdef".to_vec(), 4);
    assert_eq!(frames.len(), 2);
    assert_eq!(frames[0].flags & FLAG_COMPLETE, 0);
    assert_eq!(frames[0].flags & FLAG_FOLLOW, FLAG_FOLLOW);
    assert_eq!(frames[1].flags & FLAG_COMPLETE, FLAG_COMPLETE);
    assert_eq!(frames[1].flags & FLAG_FOLLOW, 0);
}

#[test]
fn payload_body_round_trip() {
    let p = Payload::builder()
        .set_data_utf8("data part")
        .set_metadata_utf8("meta")
        .build();
    let (body, has_meta) = encode_payload_body(&p);
    assert!(has_meta);
    assert_eq!(&body[..7], &[0, 0, 4, b'm', b'e', b't', b'a'][..]);
    let d = decode_payload_body(&body, has_meta).expect("decode");
    assert_eq!(d.data().as_ref().unwrap(), &b"data part".to_vec());
    assert_eq!(d.metadata().as_ref().unwrap(), &b"meta".to_vec());
}

#[test]
fn payload_body_without_metadata() {
    let p = Payload::builder().set_data(vec![1, 2, 3]).build();
    let (body, has_meta) = encode_payload_body(&p);
    assert!(!has_meta);
    assert_eq!(body, vec![1, 2, 3]);
    let d = decode_payload_body(&body, has_meta).expect("decode");
    assert_eq!(d.data().as_ref().unwrap(), &vec![1, 2, 3]);
    assert!(d.metadata().is_none());
}

#[test]
fn payload_body_metadata_only() {
    let p = Payload::builder().set_metadata(vec![9]).build();
    let (body, has_meta) = encode_payload_body(&p);
    assert!(has_meta);
    let d = decode_payload_body(&body, has_meta).expect("decode");
    assert!(d.data().is_none());
    assert_eq!(d.metadata().as_ref().unwrap(), &vec![9]);
}

#[test]
fn payload_body_truncated_metadata() {
    // declares 4 metadata bytes, carries 1
    let body = vec![0, 0, 4, 7];
    assert!(matches!(
        decode_payload_body(&body, true),
        Err(RSocketError::Encoding(EncodingIssue::Incomplete))
    ));
}
