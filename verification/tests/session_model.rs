use rsocket_core::error::RSocketError;
use rsocket_core::frame::{Frame, FrameType, FLAG_COMPLETE, FLAG_METADATA, FLAG_NEXT};
use rsocket_core::payload::{Payload, PayloadBuilder};
use rsocket_core::session::{Session, SessionEvent};

fn text_payload(data: &str, metadata: &str) -> Payload {
    Payload::builder()
        .set_data_utf8(data)
        .set_metadata_utf8(metadata)
        .build()
}

/// The sample echo handler's reply to a request frame: the same body back,
/// as one payload element.
fn echo_reply(request: &Frame, complete: bool) -> Frame {
    let mut flags = FLAG_NEXT | (request.flags & FLAG_METADATA);
    if complete {
        flags |= FLAG_COMPLETE;
    }
    Frame::new(
        request.stream_id,
        FrameType::Payload,
        flags,
        request.body.clone(),
    )
}

#[test]
fn request_response_echo() {
    let mut cli = Session::establish(Ok(()), 0).expect("setup accepted");
    let sending = text_payload("Hello World!", "I Rust!");
    let (id, frames) = cli.request_response(&sending).expect("request sent");
    assert_eq!(id, 1);
    assert_eq!(frames.len(), 1);
    assert!(matches!(frames[0].frame_type, FrameType::RequestResponse));

    let reply = echo_reply(&frames[0], true);
    match cli.on_frame(&reply).expect("dispatched") {
        SessionEvent::Response { stream_id, payload } => {
            assert_eq!(stream_id, id);
            assert_eq!(payload.data().as_ref().unwrap(), &b"Hello World!".to_vec());
            assert_eq!(payload.metadata().as_ref().unwrap(), &b"I Rust!".to_vec());
        }
        _ => panic!("expected the response event"),
    }
    // the stream is resolved: nothing more may arrive for it
    assert!(matches!(
        cli.on_frame(&echo_reply(&frames[0], true)),
        Err(RSocketError::ProtocolViolation)
    ));
}

#[test]
fn request_stream_echo() {
    let mut cli = Session::establish(Ok(()), 0).expect("setup accepted");
    let sending = text_payload("Hello Rust!", "foobar");
    let (id, frames) = cli.request_stream(&sending).expect("request sent");
    assert!(matches!(frames[0].frame_type, FrameType::RequestStream));

    // the peer yields two elements, the second carrying completion
    let mut got = Vec::new();
    match cli.on_frame(&echo_reply(&frames[0], false)).unwrap() {
        SessionEvent::Next { stream_id, payload, complete } => {
            assert_eq!(stream_id, id);
            assert!(!complete);
            got.push(payload);
        }
        _ => panic!("expected an element"),
    }
    match cli.on_frame(&echo_reply(&frames[0], true)).unwrap() {
        SessionEvent::Next { stream_id, payload, complete } => {
            assert_eq!(stream_id, id);
            assert!(complete);
            got.push(payload);
        }
        _ => panic!("expected the final element"),
    }
    assert_eq!(got.len(), 2);
    for p in &got {
        assert_eq!(p.data().as_ref().unwrap(), &b"Hello Rust!".to_vec());
        assert_eq!(p.metadata().as_ref().unwrap(), &b"foobar".to_vec());
    }
    // the sequence ended: no further element can be delivered
    assert!(matches!(
        cli.on_frame(&echo_reply(&frames[0], false)),
        Err(RSocketError::ProtocolViolation)
    ));
}

#[test]
fn request_channel_echo_ten() {
    let mut cli = Session::establish(Ok(()), 0).expect("setup accepted");
    let first = text_payload("Hello#0", "RUST");
    let (id, opening) = cli.request_channel(&first).expect("channel open");
    let mut outbound = vec![opening[0].clone()];
    for i in 1..10 {
        let p = text_payload(&format!("Hello#{}", i), "RUST");
        let frames = cli.channel_send(id, &p).expect("element sent");
        outbound.push(frames[0].clone());
    }
    let closing = cli.channel_complete(id).expect("local completion");
    assert_eq!(closing.flags & FLAG_COMPLETE, FLAG_COMPLETE);

    // the peer echoes one response per received payload, then completes
    let mut responses = Vec::new();
    for f in &outbound {
        match cli.on_frame(&echo_reply(f, false)).unwrap() {
            SessionEvent::Next { payload, complete, .. } => {
                assert!(!complete);
                responses.push(payload);
            }
            _ => panic!("expected an element"),
        }
    }
    assert_eq!(responses.len(), 10);
    for (i, p) in responses.iter().enumerate() {
        assert_eq!(
            p.data().as_ref().unwrap(),
            &format!("Hello#{}", i).into_bytes()
        );
        assert_eq!(p.metadata().as_ref().unwrap(), &b"RUST".to_vec());
    }
    let done = Frame::new(id, FrameType::Payload, FLAG_COMPLETE, vec![]);
    assert!(matches!(
        cli.on_frame(&done).unwrap(),
        SessionEvent::Complete { .. }
    ));
}

#[test]
fn fire_and_forget_resolves_without_reply() {
    let mut cli = Session::establish(Ok(()), 0).expect("setup accepted");
    let fnf = Payload::builder().set_data_utf8("Hello World!").build();
    let (id, frames) = cli.fire_and_forget(&fnf).expect("sent");
    assert_eq!(frames.len(), 1);
    assert!(matches!(frames[0].frame_type, FrameType::RequestFnf));
    // no per-stream state awaits a reply: a response for that id is unknown
    assert!(matches!(
        cli.on_frame(&echo_reply(&frames[0], true)),
        Err(RSocketError::ProtocolViolation)
    ));
    let _ = id;
}

#[test]
fn setup_rejection_fails_connect() {
    match Session::establish(Err(String::from("SETUP_NOT_ALLOW")), 0) {
        Err(RSocketError::SetupRejected(d)) => assert_eq!(d, "SETUP_NOT_ALLOW"),
        _ => panic!("expected the setup rejection"),
    }
}

#[test]
fn stream_ids_are_odd_and_increasing() {
    let mut cli = Session::establish(Ok(()), 0).expect("setup accepted");
    let p = Payload::builder().set_data_utf8("x").build();
    let mut previous: u32 = 0;
    for _ in 0..5 {
        let (id, _) = cli.fire_and_forget(&p).expect("sent");
        assert_eq!(id % 2, 1);
        assert!(id > previous);
        previous = id;
    }
    assert_eq!(previous, 9);
}

#[test]
fn error_on_one_stream_leaves_others_alone() {
    let mut cli = Session::establish(Ok(()), 0).expect("setup accepted");
    let p = text_payload("a", "b");
    let (s, frames_s) = cli.request_response(&p).expect("first request");
    let (t, frames_t) = cli.request_response(&p).expect("second request");
    assert_ne!(s, t);

    let boom = Frame::new(s, FrameType::Error, 0, b"APPLICATION_ERROR".to_vec());
    match cli.on_frame(&boom).unwrap() {
        SessionEvent::StreamError { stream_id, message } => {
            assert_eq!(stream_id, s);
            assert_eq!(message, b"APPLICATION_ERROR".to_vec());
        }
        _ => panic!("expected the stream error"),
    }
    let _ = frames_s;
    // stream t still resolves normally
    match cli.on_frame(&echo_reply(&frames_t[0], true)).unwrap() {
        SessionEvent::Response { stream_id, .. } => assert_eq!(stream_id, t),
        _ => panic!("expected the response on the other stream"),
    }
}

#[test]
fn cancel_removes_only_its_stream() {
    let mut cli = Session::establish(Ok(()), 0).expect("setup accepted");
    let p = text_payload("a", "b");
    let (s, _) = cli.request_stream(&p).expect("first");
    let (t, frames_t) = cli.request_stream(&p).expect("second");
    let cancel = cli.cancel(s).expect("was active");
    assert!(matches!(cancel.frame_type, FrameType::Cancel));
    assert_eq!(cancel.stream_id, s);
    assert!(cli.cancel(s).is_none());
    // the other stream still delivers
    match cli.on_frame(&echo_reply(&frames_t[0], false)).unwrap() {
        SessionEvent::Next { stream_id, .. } => assert_eq!(stream_id, t),
        _ => panic!("expected the element on the other stream"),
    }
}

#[test]
fn metadata_push_round_trip() {
    let mut cli = Session::establish(Ok(()), 0).expect("setup accepted");
    let pa = Payload::builder().set_metadata_utf8("Hello World!").build();
    let f = cli.metadata_push(&pa).expect("pushed");
    assert_eq!(f.stream_id, 0);
    assert!(matches!(f.frame_type, FrameType::MetadataPush));
    match cli.on_frame(&f).unwrap() {
        SessionEvent::MetadataPushed { payload } => {
            assert_eq!(
                payload.metadata().as_ref().unwrap(),
                &b"Hello World!".to_vec()
            );
            assert!(payload.data().is_none());
        }
        _ => panic!("expected the pushed metadata"),
    }
}

#[test]
fn connection_error_resolves_everything() {
    let mut cli = Session::establish(Ok(()), 0).expect("setup accepted");
    let p = text_payload("a", "b");
    let (s, _) = cli.request_response(&p).expect("first");
    let boom = Frame::new(0, FrameType::Error, 0, b"REJECTED_SETUP".to_vec());
    match cli.on_frame(&boom).unwrap() {
        SessionEvent::ConnectionError { message } => {
            assert_eq!(message, b"REJECTED_SETUP".to_vec());
        }
        _ => panic!("expected the connection error"),
    }
    // every stream was resolved; frames for s are now unknown
    let reply = Frame::new(s, FrameType::Payload, FLAG_NEXT | FLAG_COMPLETE, vec![]);
    assert!(matches!(
        cli.on_frame(&reply),
        Err(RSocketError::ProtocolViolation)
    ));
}

#[test]
fn close_cancels_all_pending() {
    let mut cli = Session::establish(Ok(()), 0).expect("setup accepted");
    let p = text_payload("a", "b");
    let (s, _) = cli.request_response(&p).expect("first");
    let (t, _) = cli.request_stream(&p).expect("second");
    let cancelled = cli.close();
    assert_eq!(cancelled, vec![s, t]);
    // closed: new requests fail with a cancellation
    assert!(matches!(
        cli.request_response(&p),
        Err(RSocketError::Cancelled)
    ));
    // idempotent
    assert_eq!(cli.close(), Vec::<u32>::new());
}

#[test]
fn fragmented_request_and_response() {
    // mtu 4: the request leaves in fragments, the response arrives in two
    let mut cli = Session::establish(Ok(()), 4).expect("setup accepted");
    let p = text_payload("Hello World!", "I Rust!");
    let (id, frames) = cli.request_response(&p).expect("request sent");
    assert!(frames.len() > 1);
    let whole: Vec<u8> = frames.iter().flat_map(|f| f.body.clone()).collect();

    // the peer replies with the same payload split in two fragments
    let half = whole.len() / 2;
    let first = Frame::new(
        id,
        FrameType::Payload,
        FLAG_NEXT | FLAG_METADATA | rsocket_core::frame::FLAG_FOLLOW,
        whole[..half].to_vec(),
    );
    let second = Frame::new(
        id,
        FrameType::Payload,
        FLAG_NEXT | FLAG_COMPLETE,
        whole[half..].to_vec(),
    );
    assert!(matches!(
        cli.on_frame(&first).unwrap(),
        SessionEvent::Fragmented { .. }
    ));
    match cli.on_frame(&second).unwrap() {
        SessionEvent::Response { stream_id, payload } => {
            assert_eq!(stream_id, id);
            assert_eq!(payload.data().as_ref().unwrap(), &b"Hello World!".to_vec());
            assert_eq!(payload.metadata().as_ref().unwrap(), &b"I Rust!".to_vec());
        }
        _ => panic!("expected the reassembled response"),
    }
}

#[test]
fn setup_frame_round_trip() {
    let setup = Payload::builder().set_data_utf8("READY!").build();
    let f = Session::setup_frame(&setup, "text/plain", "text/plain", 4096);
    assert_eq!(f.stream_id, 0);
    assert!(matches!(f.frame_type, FrameType::Setup));
    let (mtu, dm, mm, p) = Session::decode_setup(&f).expect("setup decodes");
    assert_eq!(mtu, 4096);
    assert_eq!(dm, "text/plain");
    assert_eq!(mm, "text/plain");
    assert_eq!(p.data().as_ref().unwrap(), &b"READY!".to_vec());
    assert!(p.metadata().is_none());
}

#[test]
fn setup_frame_mtu_zero_disables_fragmentation() {
    let setup = Payload::builder().set_data_utf8("READY!").build();
    let f = Session::setup_frame(&setup, "text/plain", "text/plain", 0);
    let (mtu, _, _, _) = Session::decode_setup(&f).expect("setup decodes");
    assert_eq!(mtu, 0);
}

#[test]
fn setup_decode_truncated_mime() {
    let f = Frame::new(0, FrameType::Setup, 0, vec![5, b'a']);
    assert!(matches!(
        Session::decode_setup(&f),
        Err(RSocketError::Encoding(_))
    ));
}

#[test]
fn malformed_payload_body_is_encoding_error() {
    let mut cli = Session::establish(Ok(()), 0).expect("setup accepted");
    let p = text_payload("a", "b");
    let (id, frames) = cli.request_response(&p).expect("request sent");
    // metadata prefix declares 9 bytes but only 1 follows
    let bad = Frame::new(
        id,
        FrameType::Payload,
        FLAG_NEXT | FLAG_METADATA,
        vec![0, 0, 9, 1],
    );
    assert!(matches!(
        cli.on_frame(&bad),
        Err(RSocketError::Encoding(
            rsocket_core::error::EncodingIssue::Incomplete
        ))
    ));
    // the stream's state was not consumed: a correct response still resolves
    match cli.on_frame(&echo_reply(&frames[0], true)).unwrap() {
        SessionEvent::Response { stream_id, .. } => assert_eq!(stream_id, id),
        _ => panic!("expected the response"),
    }
}

#[test]
fn flagless_payload_frame_is_protocol_violation() {
    let mut cli = Session::establish(Ok(()), 0).expect("setup accepted");
    let p = text_payload("a", "b");
    let (id, _) = cli.request_stream(&p).expect("request sent");
    let empty = Frame::new(id, FrameType::Payload, 0, vec![]);
    assert!(matches!(
        cli.on_frame(&empty),
        Err(RSocketError::ProtocolViolation)
    ));
}

#[test]
fn payload_builder_defaults() {
    let b: PayloadBuilder = Payload::builder();
    let p = b.build();
    assert!(p.data().is_none());
    assert!(p.metadata().is_none());
}
