use bytes::BytesMut;
use rsocket_core::composite::{CompositeMetadata, CompositeMetadataEntry};
use rsocket_core::error::{EncodingIssue, RSocketError};
use rsocket_core::mime::MimeType;
use rsocket_core::routing::RoutingMetadata;
use rsocket_core::security::SecurityMetadata;

#[test]
fn security_simple_wire_bytes() {
    let m = SecurityMetadata::builder().simple("user", "pass").build();
    let v = m.to_wire_vec();
    assert_eq!(
        v,
        vec![0x80, 4, b'u', b's', b'e', b'r', 4, b'p', b'a', b's', b's']
    );
    assert_eq!(m.len(), 11);
}

#[test]
fn security_simple_round_trip() {
    let m = SecurityMetadata::builder().simple("user", "pass").build();
    let v = m.to_wire_vec();
    let mut bf = BytesMut::from(&v[..]);
    let d = SecurityMetadata::decode(&mut bf).expect("decode");
    assert!(bf.is_empty());
    assert_eq!(d.to_wire_vec(), v);
}

#[test]
fn security_bearer_keeps_auth_type() {
    let m = SecurityMetadata::builder().bearer("token-1").build();
    let v = m.to_wire_vec();
    assert_eq!(v[0], 0x81);
    let mut bf = BytesMut::from(&v[..]);
    let d = SecurityMetadata::decode(&mut bf).expect("decode");
    // the decoded value re-encodes with the same auth type byte
    assert_eq!(d.to_wire_vec(), v);
}

#[test]
fn security_non_ascii_tag_round_trip() {
    let m = SecurityMetadata::builder().bearer("clé-ê").build();
    let v = m.to_wire_vec();
    let mut bf = BytesMut::from(&v[..]);
    let d = SecurityMetadata::decode(&mut bf).expect("decode");
    assert_eq!(d.to_wire_vec(), v);
}

#[test]
fn security_decode_insufficient_bytes() {
    let mut bf = BytesMut::from(&[0x80u8, 5, b'a'][..]);
    match SecurityMetadata::decode(&mut bf) {
        Err(RSocketError::Encoding(EncodingIssue::Incomplete)) => {}
        _ => panic!("expected an incomplete-buffer error"),
    }
}

#[test]
fn security_decode_invalid_utf8() {
    let mut bf = BytesMut::from(&[0x80u8, 1, 0xFF][..]);
    match SecurityMetadata::decode(&mut bf) {
        Err(e) => {
            assert!(matches!(
                e,
                RSocketError::Encoding(EncodingIssue::InvalidUtf8)
            ));
            assert_eq!(e.describe(), "invalid utf-8!");
        }
        _ => panic!("expected an encoding error"),
    }
}

#[test]
fn security_error_describe() {
    let e = RSocketError::Encoding(EncodingIssue::Incomplete);
    assert_eq!(e.describe(), "require more bytes!");
}

#[test]
fn security_write_to_appends() {
    let m = SecurityMetadata::builder().bearer("t").build();
    let mut bf = BytesMut::from(&[9u8][..]);
    m.write_to(&mut bf);
    assert_eq!(&bf[..], &[9u8, 0x81, 1, b't'][..]);
}

#[test]
fn routing_round_trip() {
    let m = RoutingMetadata::builder()
        .push_str("orders")
        .push_str("eu/west")
        .build();
    let v = m.to_wire_vec();
    assert_eq!(
        v,
        vec![
            6, b'o', b'r', b'd', b'e', b'r', b's', 7, b'e', b'u', b'/', b'w', b'e', b's', b't'
        ]
    );
    assert_eq!(m.len(), v.len());
    let mut bf = BytesMut::from(&v[..]);
    let d = RoutingMetadata::decode(&mut bf).expect("decode");
    assert!(bf.is_empty());
    assert_eq!(d.to_wire_vec(), v);
}

#[test]
fn routing_decode_empty_is_empty_list() {
    let mut bf = BytesMut::new();
    let d = RoutingMetadata::decode(&mut bf).expect("decode");
    assert_eq!(d.to_wire_vec(), Vec::<u8>::new());
    assert_eq!(d.len(), 0);
}

#[test]
fn routing_decode_truncated_tag() {
    let mut bf = BytesMut::from(&[3u8, b'a'][..]);
    assert!(matches!(
        RoutingMetadata::decode(&mut bf),
        Err(RSocketError::Encoding(EncodingIssue::Incomplete))
    ));
}

#[test]
fn mime_constructors_validate() {
    assert!(MimeType::well_known(0x7F).is_some());
    assert!(MimeType::well_known(0x80).is_none());
    assert!(MimeType::normal(String::from("text/plain")).is_some());
    assert!(MimeType::normal(String::new()).is_none());
    assert!(MimeType::normal("x".repeat(129)).is_none());
    assert!(MimeType::normal("x".repeat(128)).is_some());
}

#[test]
fn composite_wire_bytes() {
    let well_known = MimeType::well_known(0x1A).unwrap();
    let m = CompositeMetadata::builder()
        .push(well_known, vec![1, 2, 3])
        .build();
    assert_eq!(m.to_wire_vec(), vec![0x9A, 0, 0, 3, 1, 2, 3]);
    assert_eq!(m.len(), 7);
}

#[test]
fn composite_round_trip() {
    let custom = MimeType::normal(String::from("text/plain")).unwrap();
    let well_known = MimeType::well_known(0x05).unwrap();
    let m = CompositeMetadata::builder()
        .push(custom, b"hello".to_vec())
        .push(well_known, vec![])
        .build();
    let v = m.to_wire_vec();
    let mut bf = BytesMut::from(&v[..]);
    let d = CompositeMetadata::decode(&mut bf).expect("decode");
    assert!(bf.is_empty());
    let entries = d.entries();
    assert_eq!(entries.len(), 2);
    match entries[0].mime_type() {
        MimeType::Normal(s) => assert_eq!(s, "text/plain"),
        _ => panic!("expected an explicit descriptor"),
    }
    assert_eq!(entries[0].metadata(), &b"hello".to_vec());
    match entries[1].mime_type() {
        MimeType::WellKnown(c) => assert_eq!(*c, 0x05),
        _ => panic!("expected a well-known descriptor"),
    }
    assert_eq!(entries[1].metadata(), &Vec::<u8>::new());
    assert_eq!(d.to_wire_vec(), v);
}

#[test]
fn composite_decode_consumes_exact_length() {
    // entry declares 4 bytes but only 3 remain
    let mut bf = BytesMut::from(&[0x9Au8, 0, 0, 4, 1, 2, 3][..]);
    assert!(matches!(
        CompositeMetadata::decode(&mut bf),
        Err(RSocketError::Encoding(EncodingIssue::Incomplete))
    ));
}

#[test]
fn composite_decode_bad_mime_utf8() {
    // explicit descriptor of length 1 with an invalid UTF-8 byte
    let mut bf = BytesMut::from(&[0x00u8, 0xFF, 0, 0, 0][..]);
    assert!(matches!(
        CompositeMetadata::decode(&mut bf),
        Err(RSocketError::Encoding(EncodingIssue::InvalidUtf8))
    ));
}
